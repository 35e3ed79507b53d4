use bidding_system::error::BiddingError;
use bidding_system::funds::Payout;
use bidding_system::settlement::cancel_auction;
use bidding_system::settlement::cancel_bid;
use bidding_system::settlement::conclude_auction;
use bidding_system::settlement::create_auction;
use bidding_system::settlement::place_bid;
use bidding_system::state::Auction;
use bidding_system::state::MAX_BIDS;

const OWNER: u64 = 900;
const ASSET: u64 = 77;

fn escrow_sum(a: &Auction) -> u64 {
    a.bids.iter().filter(|b| b.bidder != 0).map(|b| b.amount).sum()
}

fn assert_conserved(a: &Auction) {
    assert_eq!(a.custody, escrow_sum(a));
    assert_eq!(a.next_order, a.active_count + 1);
}

#[test]
fn scenario_three_bidders_conclude() {
    let mut a = create_auction(OWNER, ASSET);
    let mut funds_a: u64 = 1_000;
    let mut funds_b: u64 = 1_000;
    let mut funds_c: u64 = 1_000;
    assert_eq!(place_bid(&mut a, 1, &mut funds_a, 100), Ok(false));
    assert_eq!(place_bid(&mut a, 2, &mut funds_b, 150), Ok(false));
    assert_eq!(place_bid(&mut a, 3, &mut funds_c, 120), Ok(false));
    assert_conserved(&a);
    let top = a.get_top_bid().expect("book has bids");
    assert_eq!((top.bidder, top.amount), (2, 150));
    // The trailing bidder raises past the leader.
    assert_eq!(place_bid(&mut a, 3, &mut funds_c, 160), Ok(false));
    assert_eq!(funds_c, 840);
    assert_conserved(&a);
    let top = a.get_top_bid().expect("book has bids");
    assert_eq!((top.bidder, top.amount), (3, 160));
    let i1 = a.find_bid_index(1).unwrap();
    let i2 = a.find_bid_index(2).unwrap();
    let i3 = a.find_bid_index(3).unwrap();
    assert_eq!(a.bids[i1].order, 1);
    assert_eq!(a.bids[i2].order, 2);
    assert_eq!(a.bids[i3].order, 3);
    // Naming anyone but the leader fails; naming the leader settles all.
    assert_eq!(conclude_auction(&a, OWNER, 2), Err(BiddingError::InvalidWinner));
    let st = conclude_auction(&a, OWNER, 3).expect("leader named");
    assert_eq!(st.asset_id, ASSET);
    assert_eq!(st.winner, 3);
    assert_eq!(st.winning_amount, 160);
    assert_eq!(st.refunds, vec![
        Payout { bidder: 1, amount: 100 },
        Payout { bidder: 2, amount: 150 },
    ]);
    let refunded: u64 = st.refunds.iter().map(|p| p.amount).sum();
    assert_eq!(st.winning_amount + refunded, a.custody);
}

#[test]
fn scenario_withdraw_returns_escrow_in_full() {
    let mut a = create_auction(OWNER, ASSET);
    let mut funds_a: u64 = 200;
    place_bid(&mut a, 1, &mut funds_a, 50).unwrap();
    assert_eq!(funds_a, 150);
    assert_eq!(a.custody, 50);
    assert_eq!(cancel_bid(&mut a, 1, &mut funds_a), Ok(50));
    assert_eq!(funds_a, 200);
    assert_eq!(a.custody, 0);
    assert_eq!(a.active_count, 0);
    assert_conserved(&a);
    let before = a.clone();
    assert_eq!(cancel_bid(&mut a, 1, &mut funds_a), Err(BiddingError::BidNotFound));
    assert_eq!(a, before);
    assert_eq!(funds_a, 200);
}

#[test]
fn scenario_rebid_same_amount_rejected() {
    let mut a = create_auction(OWNER, ASSET);
    let mut funds_a: u64 = 500;
    place_bid(&mut a, 1, &mut funds_a, 100).unwrap();
    let before = a.clone();
    assert_eq!(place_bid(&mut a, 1, &mut funds_a, 100), Err(BiddingError::InvalidAmount));
    assert_eq!(a, before);
    assert_eq!(funds_a, 400);
}

#[test]
fn place_bid_rejects_zero_amount() {
    let mut a = create_auction(OWNER, ASSET);
    let mut funds_a: u64 = 500;
    let before = a.clone();
    assert_eq!(place_bid(&mut a, 1, &mut funds_a, 0), Err(BiddingError::InvalidAmount));
    assert_eq!(a, before);
    assert_eq!(funds_a, 500);
}

#[test]
fn place_bid_insufficient_funds() {
    let mut a = create_auction(OWNER, ASSET);
    let mut funds_a: u64 = 50;
    let before = a.clone();
    assert_eq!(place_bid(&mut a, 1, &mut funds_a, 100), Err(BiddingError::InsufficientFunds));
    assert_eq!(a, before);
    assert_eq!(funds_a, 50);
    place_bid(&mut a, 1, &mut funds_a, 50).unwrap();
    assert_eq!(funds_a, 0);
    // Raising needs only the difference, and 10 more is not there.
    let before = a.clone();
    assert_eq!(place_bid(&mut a, 1, &mut funds_a, 60), Err(BiddingError::InsufficientFunds));
    assert_eq!(a, before);
    assert_conserved(&a);
}

#[test]
fn place_bid_decrease_refunds_difference() {
    let mut a = create_auction(OWNER, ASSET);
    let mut funds_a: u64 = 100;
    place_bid(&mut a, 1, &mut funds_a, 100).unwrap();
    assert_eq!(funds_a, 0);
    assert_eq!(place_bid(&mut a, 1, &mut funds_a, 40), Ok(false));
    assert_eq!(funds_a, 60);
    assert_eq!(a.custody, 40);
    assert_conserved(&a);
}

#[test]
fn full_book_locks_open_operations() {
    let mut a = create_auction(OWNER, ASSET);
    let mut funds: u64 = 100_000;
    for n in 1..=(MAX_BIDS as u64) {
        let reached = place_bid(&mut a, n, &mut funds, 10 * n).expect("slot free");
        assert_eq!(reached, n == MAX_BIDS as u64);
    }
    assert_conserved(&a);
    let before = a.clone();
    let funds_before = funds;
    assert_eq!(place_bid(&mut a, 999, &mut funds, 5_000), Err(BiddingError::AuctionLocked));
    assert_eq!(place_bid(&mut a, 1, &mut funds, 5_000), Err(BiddingError::AuctionLocked));
    assert_eq!(cancel_bid(&mut a, 1, &mut funds), Err(BiddingError::AuctionLocked));
    assert_eq!(cancel_auction(&a, OWNER), Err(BiddingError::AuctionLocked));
    assert_eq!(a, before);
    assert_eq!(funds, funds_before);
    // Conclusion is the only exit from the locked state.
    let st = conclude_auction(&a, OWNER, MAX_BIDS as u64).expect("leader named");
    assert_eq!(st.winning_amount, 10 * MAX_BIDS as u64);
    assert_eq!(st.refunds.len(), MAX_BIDS - 1);
}

#[test]
fn conclude_requires_owner_bids_and_true_leader() {
    let mut a = create_auction(OWNER, ASSET);
    assert_eq!(conclude_auction(&a, 123, 1), Err(BiddingError::Unauthorized));
    assert_eq!(conclude_auction(&a, OWNER, 1), Err(BiddingError::NoActiveBids));
    let mut funds: u64 = 1_000;
    place_bid(&mut a, 1, &mut funds, 100).unwrap();
    place_bid(&mut a, 2, &mut funds, 150).unwrap();
    assert_eq!(conclude_auction(&a, 123, 2), Err(BiddingError::Unauthorized));
    assert_eq!(conclude_auction(&a, OWNER, 1), Err(BiddingError::InvalidWinner));
    let st = conclude_auction(&a, OWNER, 2).expect("leader named");
    assert_eq!(st.winner, 2);
    assert_eq!(st.refunds, vec![Payout { bidder: 1, amount: 100 }]);
}

#[test]
fn conclude_with_single_bidder_owes_no_refunds() {
    let mut a = create_auction(OWNER, ASSET);
    let mut funds: u64 = 500;
    place_bid(&mut a, 1, &mut funds, 75).unwrap();
    let st = conclude_auction(&a, OWNER, 1).expect("leader named");
    assert_eq!(st.winner, 1);
    assert_eq!(st.winning_amount, 75);
    assert!(st.refunds.is_empty());
    assert_eq!(st.winning_amount, a.custody);
}

#[test]
fn cancel_auction_refunds_every_bidder() {
    let mut a = create_auction(OWNER, ASSET);
    let mut funds: u64 = 1_000;
    place_bid(&mut a, 1, &mut funds, 100).unwrap();
    place_bid(&mut a, 2, &mut funds, 150).unwrap();
    assert_eq!(cancel_auction(&a, 123), Err(BiddingError::Unauthorized));
    let refunds = cancel_auction(&a, OWNER).expect("open auction");
    assert_eq!(refunds, vec![
        Payout { bidder: 1, amount: 100 },
        Payout { bidder: 2, amount: 150 },
    ]);
    let total: u64 = refunds.iter().map(|p| p.amount).sum();
    assert_eq!(total, a.custody);
}

#[test]
fn cancel_of_empty_auction_owes_nothing() {
    let a = create_auction(OWNER, ASSET);
    let refunds = cancel_auction(&a, OWNER).expect("open auction");
    assert!(refunds.is_empty());
    assert_eq!(a.custody, 0);
}

#[test]
fn conservation_through_mixed_operations() {
    let mut a = create_auction(OWNER, ASSET);
    let mut f1: u64 = 500;
    let mut f2: u64 = 500;
    let mut f3: u64 = 500;
    place_bid(&mut a, 1, &mut f1, 120).unwrap();
    assert_conserved(&a);
    place_bid(&mut a, 2, &mut f2, 80).unwrap();
    assert_conserved(&a);
    place_bid(&mut a, 1, &mut f1, 90).unwrap();
    assert_conserved(&a);
    cancel_bid(&mut a, 2, &mut f2).unwrap();
    assert_conserved(&a);
    place_bid(&mut a, 3, &mut f3, 200).unwrap();
    assert_conserved(&a);
    place_bid(&mut a, 3, &mut f3, 250).unwrap();
    assert_conserved(&a);
    assert_eq!(a.custody + f1 + f2 + f3, 1_500);
}
