//! Referral-tree redemption and payout-ledger engine.
//!
//! A pool of single-use redemption codes is organised into a depth-bounded
//! ternary tree. Managers mint root codes; each redeemer consumes one code,
//! claims a token reward and, below the depth limit, mints three child codes
//! that propagate a partial reward back to the referrer. A paginated payout
//! ledger is drained by an off-process disbursement actor through a cursor
//! based export/acknowledge protocol.

use vstd::prelude::*;

pub mod assoc;
pub mod guards;
pub mod laws;
pub mod pending_transactions;
pub mod state;
pub mod tokens;
pub mod types;
pub mod user_profile;

verus! {

/// Token amount deducted for a full-depth redemption.
pub const TOKEN_PER_PERSON: u64 = 400;

/// Codes at this depth spawn no children.
pub const MAXIMUM_DEPTH: u64 = 2;

/// Number of child codes minted by a redemption below the depth limit.
pub const NUMBERS_OF_CHILDREN: u64 = 3;

/// Token balance the ledger starts with.
pub const INITIAL_TOKENS: u64 = 100_000;

/// Typed failures returned by the engine's operations.
#[derive(Clone, Debug, PartialEq, Eq)]
pub enum CanisterError {
    GeneralError(String),
    CanisterKilled,
    CodeNotFound,
    CodeAlreadyRedeemed,
    CannotRegisterMultipleTimes,
    NoChildrenForCode,
    NoCodeForII,
    MaximumDepthReached,
    NoMoreCodes,
    UnknownOisyWalletAddress,
}

} // verus!
