//! The error taxonomy of the bidding ledger.
//!
//! Every rejected call maps to exactly one of these kinds, and a rejected
//! call never changes any state.

use vstd::prelude::*;

verus! {

/// Why an operation on the auction was rejected.
#[derive(Clone, Copy, Debug, PartialEq, Eq)]
pub enum BiddingError {
    /// A bid amount of zero, or a re-bid of the amount already on file.
    InvalidAmount,
    /// A new bidder arrived while every slot of the book was occupied.
    CapacityReached,
    /// A withdrawal or lookup for a party with no active bid.
    BidNotFound,
    /// The caller lacks the authority the operation demands.
    Unauthorized,
    /// Conclusion was attempted while no slot was occupied.
    NoActiveBids,
    /// The supplied winner does not match the computed leader.
    InvalidWinner,
    /// An open-phase operation arrived while the book was full and locked.
    AuctionLocked,
    /// The bidder cannot cover the increase of an escrowed amount.
    InsufficientFunds,
}

} // verus!
