//! The settlement engine: the lifecycle operations over one auction.
//!
//! The auction is **open** while the book has a free slot and becomes
//! **awaiting finalization** the instant it fills; that state is derived
//! from `active_count == MAX_BIDS`, never stored. While awaiting
//! finalization only [`conclude_auction`] is accepted. Placing and
//! withdrawing bids move funds between the bidder's balance and the
//! auction's custody so that custody always equals the sum of escrowed
//! amounts; concluding and cancelling compute an exact, all-or-nothing
//! plan of payouts that releases custody in full, for the host to apply
//! and then discard the record. A rejected call changes nothing.

use vstd::prelude::*;

use crate::error::BiddingError;
use crate::funds::{payout_total, refund_schedule, sum_amounts, Payout};
use crate::state::{
    first_empty, is_top_bid, leads, lemma_bid_index_is, occupied, spec_bid_index,
    spec_current_amount, spec_empty_bid, spec_has_bid, spec_removed, spec_upserted, Auction,
    MAX_BIDS, NO_BIDDER,
};

verus! {

/// The plan of a successful conclusion: move the asset to the winner,
/// credit the owner with the winning escrow, refund every other bidder in
/// slot order. Applying it releases the auction's custody in full.
#[derive(Clone, Debug, PartialEq, Eq)]
pub struct Settlement {
    /// The unique asset that changes custody, owner to winner.
    pub asset_id: u64,
    /// The winning bidder: the book's leader.
    pub winner: u64,
    /// The winner's escrowed amount, credited to the owner.
    pub winning_amount: u64,
    /// Every other occupied slot's escrow, returned in full.
    pub refunds: Vec<Payout>,
}

/// Create a fresh auction record for `asset_id`, owned by `owner`: an
/// all-empty book and nothing yet in custody. Minting the asset into the
/// owner's custody is the asset registry's part.
pub fn create_auction(owner: u64, asset_id: u64) -> (a: Auction)
    ensures
        a.wf(),
        a.owner == owner,
        a.asset_id == asset_id,
        a.active_count == 0,
        a.next_order == 1,
        a.custody == 0,
        forall|i: int| 0 <= i < MAX_BIDS ==> a.bids@[i] == spec_empty_bid(),
{
    let mut a = Auction {
        owner,
        asset_id,
        bids: Vec::new(),
        active_count: 0,
        next_order: 1,
        custody: 0,
    };
    a.initialize(owner, asset_id);
    a
}

/// Place or revise `bidder`'s bid at `amount`, moving exactly the
/// difference against the bidder's prior escrow between `bidder_funds`
/// and the auction's custody: an increase is debited from the bidder, a
/// decrease refunded. The total of custody and the bidder's balance is
/// conserved, and a rejected call moves nothing. Returns `Ok(true)`
/// exactly when this bid fills the book, locking the auction.
#[verifier::loop_isolation(false)]
pub fn place_bid(
    auction: &mut Auction,
    bidder: u64,
    bidder_funds: &mut u64,
    amount: u64,
) -> (r: Result<bool, BiddingError>)
    requires
        old(auction).wf(),
        bidder != NO_BIDDER,
        old(auction).custody + *old(bidder_funds) <= u64::MAX,
    ensures
        final(auction).wf(),
        final(auction).owner == old(auction).owner,
        final(auction).asset_id == old(auction).asset_id,
        final(auction).custody + *final(bidder_funds) == old(auction).custody + *old(
            bidder_funds,
        ),
        match r {
            Ok(reached) => ({
                &&& amount != 0
                &&& old(auction).active_count < MAX_BIDS
                &&& final(auction).bids@ == spec_upserted(
                    old(auction).bids@,
                    bidder,
                    amount,
                    old(auction).active_count as int,
                )
                &&& final(auction).custody == old(auction).custody + amount
                    - spec_current_amount(old(auction).bids@, bidder)
                &&& *final(bidder_funds) == *old(bidder_funds) + spec_current_amount(
                    old(auction).bids@,
                    bidder,
                ) - amount
                &&& (if spec_has_bid(old(auction).bids@, bidder) {
                    &&& amount != spec_current_amount(old(auction).bids@, bidder)
                    &&& final(auction).active_count == old(auction).active_count
                    &&& reached == false
                } else {
                    &&& final(auction).active_count == old(auction).active_count + 1
                    &&& 0 <= first_empty(old(auction).bids@) < MAX_BIDS
                    &&& !occupied(old(auction).bids@[first_empty(old(auction).bids@)])
                    &&& reached == (final(auction).active_count == MAX_BIDS)
                })
                &&& final(auction).next_order == final(auction).active_count + 1
                &&& spec_has_bid(final(auction).bids@, bidder)
                &&& spec_current_amount(final(auction).bids@, bidder) == amount
            }),
            Err(e) => ({
                &&& *final(auction) == *old(auction)
                &&& *final(bidder_funds) == *old(bidder_funds)
                &&& (e == BiddingError::InvalidAmount <==> amount == 0 || (old(
                    auction,
                ).active_count < MAX_BIDS && spec_has_bid(old(auction).bids@, bidder) && amount
                    == spec_current_amount(old(auction).bids@, bidder)))
                &&& (e == BiddingError::AuctionLocked <==> amount != 0 && old(
                    auction,
                ).active_count == MAX_BIDS)
                &&& (e == BiddingError::InsufficientFunds <==> amount != 0 && old(
                    auction,
                ).active_count < MAX_BIDS && !(spec_has_bid(old(auction).bids@, bidder) && amount
                    == spec_current_amount(old(auction).bids@, bidder))
                    && spec_current_amount(old(auction).bids@, bidder) < amount && *old(
                    bidder_funds,
                ) < amount - spec_current_amount(old(auction).bids@, bidder))
                &&& (e == BiddingError::InvalidAmount || e == BiddingError::AuctionLocked || e
                    == BiddingError::InsufficientFunds)
            }),
        },
{
    if amount == 0 {
        return Err(BiddingError::InvalidAmount);
    }
    if auction.active_count == MAX_BIDS {
        return Err(BiddingError::AuctionLocked);
    }
    let ghost s0 = auction.bids@;
    let ghost count = auction.active_count as int;
    let existing: u64 = match auction.find_bid_index(bidder) {
        Some(i) => {
            proof {
                lemma_bid_index_is(s0, count, i as int);
            }
            auction.bids[i].amount
        },
        None => 0,
    };
    assert(existing as int == spec_current_amount(s0, bidder));
    if amount == existing {
        return Err(BiddingError::InvalidAmount);
    }
    if amount > existing {
        let needed = amount - existing;
        if *bidder_funds < needed {
            return Err(BiddingError::InsufficientFunds);
        }
        let reached = match auction.upsert_bid(bidder, amount) {
            Ok(b) => b,
            Err(_) => {
                proof {
                    assert(false);
                }
                return Err(BiddingError::InvalidAmount);
            },
        };
        *bidder_funds = *bidder_funds - needed;
        auction.custody = auction.custody + needed;
        Ok(reached)
    } else {
        let refund = existing - amount;
        proof {
            let bi = spec_bid_index(s0, bidder);
            assert(0 <= bi < s0.len() && occupied(s0[bi]));
            crate::funds::lemma_sum_covers_slot(s0, bi);
        }
        let reached = match auction.upsert_bid(bidder, amount) {
            Ok(b) => b,
            Err(_) => {
                proof {
                    assert(false);
                }
                return Err(BiddingError::InvalidAmount);
            },
        };
        auction.custody = auction.custody - refund;
        *bidder_funds = *bidder_funds + refund;
        Ok(reached)
    }
}

/// Withdraw `bidder`'s bid and return its full escrowed amount from
/// custody to `bidder_funds`. The total of custody and the bidder's
/// balance is conserved; a rejected call moves nothing.
pub fn cancel_bid(auction: &mut Auction, bidder: u64, bidder_funds: &mut u64) -> (r: Result<
    u64,
    BiddingError,
>)
    requires
        old(auction).wf(),
        old(auction).custody + *old(bidder_funds) <= u64::MAX,
    ensures
        final(auction).wf(),
        final(auction).owner == old(auction).owner,
        final(auction).asset_id == old(auction).asset_id,
        final(auction).custody + *final(bidder_funds) == old(auction).custody + *old(
            bidder_funds,
        ),
        match r {
            Ok(amt) => ({
                &&& old(auction).active_count < MAX_BIDS
                &&& spec_has_bid(old(auction).bids@, bidder)
                &&& amt == spec_current_amount(old(auction).bids@, bidder)
                &&& final(auction).bids@ == spec_removed(
                    old(auction).bids@,
                    spec_bid_index(old(auction).bids@, bidder),
                )
                &&& final(auction).active_count == old(auction).active_count - 1
                &&& final(auction).next_order == old(auction).next_order - 1
                &&& final(auction).custody == old(auction).custody - amt
                &&& *final(bidder_funds) == *old(bidder_funds) + amt
                &&& !spec_has_bid(final(auction).bids@, bidder)
            }),
            Err(e) => ({
                &&& *final(auction) == *old(auction)
                &&& *final(bidder_funds) == *old(bidder_funds)
                &&& (e == BiddingError::AuctionLocked <==> old(auction).active_count == MAX_BIDS)
                &&& (e == BiddingError::BidNotFound <==> old(auction).active_count < MAX_BIDS
                    && !spec_has_bid(old(auction).bids@, bidder))
                &&& (e == BiddingError::AuctionLocked || e == BiddingError::BidNotFound)
            }),
        },
{
    if auction.active_count == MAX_BIDS {
        return Err(BiddingError::AuctionLocked);
    }
    let ghost s0 = auction.bids@;
    let amt = match auction.remove_bid(bidder) {
        Ok(a) => a,
        Err(e) => {
            return Err(e);
        },
    };
    proof {
        let bi = spec_bid_index(s0, bidder);
        assert(0 <= bi < s0.len() && occupied(s0[bi]));
        crate::funds::lemma_sum_covers_slot(s0, bi);
    }
    auction.custody = auction.custody - amt;
    *bidder_funds = *bidder_funds + amt;
    Ok(amt)
}

/// Conclude the auction: the leader wins. The caller must be the owner
/// and must name the true leader as the winner; the returned plan moves
/// the asset to the winner, credits the owner the winning amount, and
/// refunds every other bidder in full — together releasing custody to the
/// last unit. The record itself is then dead and must be discarded by the
/// host. Allowed both while open and while awaiting finalization.
#[verifier::loop_isolation(false)]
pub fn conclude_auction(auction: &Auction, caller: u64, claimed_winner: u64) -> (r: Result<
    Settlement,
    BiddingError,
>)
    requires
        auction.wf(),
    ensures
        match r {
            Ok(st) => ({
                &&& caller == auction.owner
                &&& auction.active_count > 0
                &&& st.asset_id == auction.asset_id
                &&& st.winner == claimed_winner
                &&& exists|i: int|
                    #[trigger] is_top_bid(auction.bids@, i) && st.winner
                        == auction.bids@[i].bidder && st.winning_amount == auction.bids@[i].amount
                &&& st.refunds@ == refund_schedule(auction.bids@, st.winner)
                &&& st.winning_amount + payout_total(st.refunds@) == auction.custody
            }),
            Err(e) => ({
                &&& (e == BiddingError::Unauthorized <==> caller != auction.owner)
                &&& (e == BiddingError::NoActiveBids <==> caller == auction.owner
                    && auction.active_count == 0)
                &&& (e == BiddingError::InvalidWinner <==> caller == auction.owner
                    && auction.active_count > 0 && (forall|i: int|
                    #[trigger] is_top_bid(auction.bids@, i) ==> auction.bids@[i].bidder
                        != claimed_winner))
                &&& (e == BiddingError::Unauthorized || e == BiddingError::NoActiveBids || e
                    == BiddingError::InvalidWinner)
            }),
        },
{
    if caller != auction.owner {
        return Err(BiddingError::Unauthorized);
    }
    if auction.active_count == 0 {
        return Err(BiddingError::NoActiveBids);
    }
    let top = match auction.get_top_bid() {
        Some(t) => t,
        None => {
            proof {
                assert(false);
            }
            return Err(BiddingError::NoActiveBids);
        },
    };
    let ghost ti = choose|i: int| #[trigger] is_top_bid(auction.bids@, i) && top
        == auction.bids@[i];
    if claimed_winner != top.bidder {
        proof {
            assert forall|i: int|
                #[trigger] is_top_bid(auction.bids@, i) implies auction.bids@[i].bidder
                != claimed_winner by {
                assert(leads(auction.bids@[i], auction.bids@[ti]));
                assert(leads(auction.bids@[ti], auction.bids@[i]));
                if i != ti {
                    assert(auction.bids@[i].order != auction.bids@[ti].order);
                }
            }
        }
        return Err(BiddingError::InvalidWinner);
    }
    let mut refunds: Vec<Payout> = Vec::new();
    let mut j: usize = 0;
    while j < MAX_BIDS
        invariant
            j <= MAX_BIDS,
            refunds@ == refund_schedule(auction.bids@.take(j as int), top.bidder),
        decreases MAX_BIDS - j,
    {
        let b = auction.bids[j];
        if b.bidder != NO_BIDDER && b.bidder != top.bidder {
            refunds.push(Payout { bidder: b.bidder, amount: b.amount });
        }
        proof {
            crate::funds::lemma_refund_schedule_step(auction.bids@, j as int, top.bidder);
        }
        j = j + 1;
    }
    proof {
        assert(auction.bids@.take(MAX_BIDS as int) =~= auction.bids@);
        crate::funds::lemma_refund_total(auction.bids@, top.bidder);
        crate::funds::lemma_bidder_escrow_single(auction.bids@, top.bidder, ti);
    }
    Ok(Settlement { asset_id: auction.asset_id, winner: top.bidder, winning_amount: top.amount, refunds })
}

/// Cancel an auction that has not yet filled: the owner revokes the
/// asset, and every occupied slot's bidder is refunded in full — together
/// releasing custody to the last unit. The record is then dead and must
/// be discarded by the host. Once the book is full, only conclusion may
/// end the auction.
#[verifier::loop_isolation(false)]
pub fn cancel_auction(auction: &Auction, caller: u64) -> (r: Result<Vec<Payout>, BiddingError>)
    requires
        auction.wf(),
    ensures
        match r {
            Ok(refunds) => ({
                &&& caller == auction.owner
                &&& auction.active_count < MAX_BIDS
                &&& refunds@ == refund_schedule(auction.bids@, NO_BIDDER)
                &&& payout_total(refunds@) == auction.custody
            }),
            Err(e) => ({
                &&& (e == BiddingError::Unauthorized <==> caller != auction.owner)
                &&& (e == BiddingError::AuctionLocked <==> caller == auction.owner
                    && auction.active_count == MAX_BIDS)
                &&& (e == BiddingError::Unauthorized || e == BiddingError::AuctionLocked)
            }),
        },
{
    if caller != auction.owner {
        return Err(BiddingError::Unauthorized);
    }
    if auction.active_count == MAX_BIDS {
        return Err(BiddingError::AuctionLocked);
    }
    let mut refunds: Vec<Payout> = Vec::new();
    let mut j: usize = 0;
    while j < MAX_BIDS
        invariant
            j <= MAX_BIDS,
            refunds@ == refund_schedule(auction.bids@.take(j as int), NO_BIDDER),
        decreases MAX_BIDS - j,
    {
        let b = auction.bids[j];
        if b.bidder != NO_BIDDER {
            refunds.push(Payout { bidder: b.bidder, amount: b.amount });
        }
        proof {
            crate::funds::lemma_refund_schedule_step(auction.bids@, j as int, NO_BIDDER);
        }
        j = j + 1;
    }
    proof {
        assert(auction.bids@.take(MAX_BIDS as int) =~= auction.bids@);
        crate::funds::lemma_refund_total(auction.bids@, NO_BIDDER);
        crate::funds::lemma_bidder_escrow_absent(auction.bids@, NO_BIDDER);
    }
    Ok(refunds)
}

} // verus!
