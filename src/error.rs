//! The ways an operation can fail. Every failure leaves the state as it was.
use vstd::prelude::*;

verus! {

#[derive(Debug, Clone, PartialEq, Eq)]
pub enum ContractError {
    /// The caller is not the configured owner, or no owner is configured.
    Unauthorized {},
    /// The circuit breaker is off.
    Disabled {},
    /// A deposit came from a token that is neither the stake nor the reward token.
    UnacceptableToken {},
    /// A stake deposit of zero.
    InvalidInput {},
    /// The account has nothing staked.
    NoStaked {},
    /// The account has no reward to claim.
    NoReward {},
    /// The cached reward pool cannot cover the payout.
    NotEnoughFOT {},
    /// The cached staked total, or the account's stake, cannot cover the amount.
    NotEnoughGFOT {},
    /// The account has no pending unstake at that index.
    NotCreatedUnstaking {},
    /// The pending unstake is still locked.
    StillLocked {},
    /// Listing the stored records failed.
    Map2ListFailed {},
    /// A listed account has no ledger record.
    NotFound {},
    /// An amount or a time left the range of its type, or an interval length is zero.
    Arithmetic {},
    /// The stored contract is another contract.
    CannotMigrate { previous_contract: String },
}

} // verus!
