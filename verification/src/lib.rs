//! A sealed-capacity competitive bidding ledger for a single unique asset.
//!
//! The crate has two layers. The bid book (`state`) is a fixed-capacity
//! registry of active bids with strict structural invariants: no duplicate
//! bidders, positive escrowed amounts, and recency ranks that always form
//! the dense set `{1, ..., active_count}`. The settlement engine
//! (`settlement`) builds the four lifecycle operations — place a bid,
//! withdraw a bid, conclude, cancel — on top of the book, keeping the funds
//! held in custody equal to the sum of escrowed amounts at every step, and
//! rejecting malformed calls without touching any state.
//!
//! Custody transfers, asset minting and burning, and the resolution of a
//! winner's deposit location are the hosting environment's collaborators;
//! the engine computes and validates every movement of funds and hands the
//! host an exact settlement plan to apply.

pub mod error;
pub mod funds;
pub mod settlement;
pub mod state;
