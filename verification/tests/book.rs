use bidding_system::error::BiddingError;
use bidding_system::settlement::create_auction;
use bidding_system::state::Auction;
use bidding_system::state::Bid;
use bidding_system::state::MAX_BIDS;

const OWNER: u64 = 900;
const ASSET: u64 = 77;

fn orders_of(a: &Auction) -> Vec<usize> {
    let mut orders: Vec<usize> = a.bids.iter().filter(|b| b.bidder != 0).map(|b| b.order).collect();
    orders.sort();
    orders
}

fn order_of(a: &Auction, bidder: u64) -> usize {
    let i = a.find_bid_index(bidder).expect("bidder should be on file");
    a.bids[i].order
}

fn assert_dense(a: &Auction) {
    let orders = orders_of(a);
    let expected: Vec<usize> = (1..=a.active_count).collect();
    assert_eq!(orders, expected);
    assert_eq!(a.next_order, a.active_count + 1);
}

#[test]
fn fresh_book_is_empty() {
    let a = create_auction(OWNER, ASSET);
    assert_eq!(a.owner, OWNER);
    assert_eq!(a.asset_id, ASSET);
    assert_eq!(a.active_count, 0);
    assert_eq!(a.next_order, 1);
    assert_eq!(a.custody, 0);
    assert_eq!(a.bids.len(), MAX_BIDS);
    assert!(a.bids.iter().all(|b| b.bidder == 0 && b.amount == 0 && b.order == 0));
    assert_eq!(a.get_top_bid(), None);
}

#[test]
fn orders_stay_dense_through_upserts_and_removals() {
    let mut a = create_auction(OWNER, ASSET);
    assert_eq!(a.upsert_bid(1, 100), Ok(false));
    assert_eq!(a.upsert_bid(2, 150), Ok(false));
    assert_eq!(a.upsert_bid(3, 120), Ok(false));
    assert_dense(&a);
    assert_eq!(a.remove_bid(2), Ok(150));
    assert_dense(&a);
    assert_eq!(a.active_count, 2);
    assert_eq!(order_of(&a, 1), 1);
    assert_eq!(order_of(&a, 3), 2);
    assert_eq!(a.upsert_bid(1, 130), Ok(false));
    assert_dense(&a);
    assert_eq!(order_of(&a, 3), 1);
    assert_eq!(order_of(&a, 1), 2);
    assert_eq!(a.upsert_bid(1, 140), Ok(false));
    assert_eq!(a.upsert_bid(1, 145), Ok(false));
    assert_dense(&a);
}

#[test]
fn revision_makes_bid_most_recent() {
    let mut a = create_auction(OWNER, ASSET);
    a.upsert_bid(1, 100).unwrap();
    a.upsert_bid(2, 150).unwrap();
    a.upsert_bid(3, 120).unwrap();
    assert_eq!(a.upsert_bid(2, 90), Ok(false));
    assert_eq!(order_of(&a, 1), 1);
    assert_eq!(order_of(&a, 3), 2);
    assert_eq!(order_of(&a, 2), 3);
    assert_eq!(a.active_count, 3);
    assert_dense(&a);
}

#[test]
fn leader_prefers_highest_amount() {
    let mut a = create_auction(OWNER, ASSET);
    a.upsert_bid(1, 100).unwrap();
    a.upsert_bid(2, 150).unwrap();
    a.upsert_bid(3, 120).unwrap();
    let top = a.get_top_bid().expect("book has bids");
    assert_eq!(top.bidder, 2);
    assert_eq!(top.amount, 150);
}

#[test]
fn leader_tie_prefers_longest_standing() {
    let mut a = create_auction(OWNER, ASSET);
    a.upsert_bid(5, 100).unwrap();
    a.upsert_bid(6, 100).unwrap();
    let top = a.get_top_bid().expect("book has bids");
    assert_eq!(top.bidder, 5);
    assert_eq!(top.amount, 100);
    // A revision refreshes recency, so the other equal bid now leads.
    a.upsert_bid(5, 101).unwrap();
    a.upsert_bid(5, 100).unwrap();
    let top = a.get_top_bid().expect("book has bids");
    assert_eq!(top.bidder, 6);
}

#[test]
fn capacity_boundary() {
    let mut a = create_auction(OWNER, ASSET);
    for n in 1..=(MAX_BIDS as u64) {
        let reached = a.upsert_bid(n, 10 * n).expect("slot free");
        assert_eq!(reached, n == MAX_BIDS as u64, "bidder {n}");
    }
    assert_eq!(a.active_count, MAX_BIDS);
    assert_dense(&a);
    let before = a.clone();
    assert_eq!(a.upsert_bid(999, 5000), Err(BiddingError::CapacityReached));
    assert_eq!(a, before);
}

#[test]
fn full_book_still_allows_revision() {
    let mut a = create_auction(OWNER, ASSET);
    for n in 1..=(MAX_BIDS as u64) {
        a.upsert_bid(n, 10 * n).unwrap();
    }
    // Capacity blocks only new entries; a revision keeps its slot.
    assert_eq!(a.upsert_bid(1, 999), Ok(false));
    assert_eq!(a.active_count, MAX_BIDS);
    assert_eq!(order_of(&a, 1), MAX_BIDS);
    assert_dense(&a);
}

#[test]
fn upsert_rejects_zero_and_unchanged() {
    let mut a = create_auction(OWNER, ASSET);
    assert_eq!(a.upsert_bid(1, 0), Err(BiddingError::InvalidAmount));
    assert_eq!(a.active_count, 0);
    a.upsert_bid(1, 100).unwrap();
    let before = a.clone();
    assert_eq!(a.upsert_bid(1, 100), Err(BiddingError::InvalidAmount));
    assert_eq!(a.upsert_bid(1, 0), Err(BiddingError::InvalidAmount));
    assert_eq!(a, before);
}

#[test]
fn remove_unknown_bidder_fails() {
    let mut a = create_auction(OWNER, ASSET);
    a.upsert_bid(1, 100).unwrap();
    let before = a.clone();
    assert_eq!(a.remove_bid(2), Err(BiddingError::BidNotFound));
    assert_eq!(a, before);
}

#[test]
fn find_and_has_bid() {
    let mut a = create_auction(OWNER, ASSET);
    assert_eq!(a.find_bid_index(1), None);
    assert!(!a.has_bid(1));
    a.upsert_bid(1, 100).unwrap();
    a.upsert_bid(2, 200).unwrap();
    let i = a.find_bid_index(1).expect("on file");
    let expected = Bid { bidder: 1, amount: 100, order: 1 };
    assert_eq!(a.bids[i], expected);
    assert!(a.has_bid(2));
    assert!(!a.has_bid(3));
    a.remove_bid(1).unwrap();
    assert!(!a.has_bid(1));
    assert_eq!(a.find_bid_index(1), None);
}

#[test]
fn removal_reuses_freed_slot_and_rank() {
    let mut a = create_auction(OWNER, ASSET);
    a.upsert_bid(1, 100).unwrap();
    a.upsert_bid(2, 150).unwrap();
    a.upsert_bid(3, 120).unwrap();
    assert_eq!(a.remove_bid(1), Ok(100));
    // The lowest slot is free again and the next insertion takes it.
    assert_eq!(a.upsert_bid(4, 110), Ok(false));
    assert_eq!(a.find_bid_index(4), Some(0));
    assert_eq!(order_of(&a, 4), 3);
    assert_dense(&a);
}
