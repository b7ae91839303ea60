//! The failure taxonomy of the ledger. Every error is fatal to the
//! triggering call: the operation returns before any state is written, so a
//! failed call leaves the ledger untouched.

use vstd::prelude::*;

verus! {

/// A structured failure of a ledger operation.
#[derive(Debug, PartialEq, Eq)]
pub enum Error {
    /// The staking asset identifier handed to the constructor is null.
    InvalidStakingToken { staking_token: u128 },
    /// The reward asset identifier handed to the constructor is null.
    InvalidRewardToken { reward_token: u128 },
    /// The reward rate handed to the constructor is zero or above the
    /// fixed divisor, so the yield fraction would leave (0, 1].
    InvalidRewardRate { reward_rate: u128 },
    /// A stake of zero was attempted.
    InvalidStakeAmount { amount: u128 },
    /// An unstake was attempted by a user with nothing deposited.
    NoActiveStake,
    /// An unstake was attempted by a user with a deposit but no accrued
    /// reward. The ledger's paired-balance invariant keeps its own
    /// operations from ever producing such a position; the check stays as a
    /// defence against a corrupted state.
    NoOwedReward,
    /// The host reported that an asset transfer failed. The ledger itself
    /// never raises this: it treats transfer outcomes as fire-and-forget,
    /// and the variant exists for hosts that decide to surface them
    /// instead.
    ERC20TransferFailed { reason: Vec<u8> },
    /// Honouring the call would promise more reward than the pool actually
    /// holds; carries the shortfall.
    InsufficientRewardTokens { deficit: u128 },
    /// The stake is so small that it rounds down to no reward at all, which
    /// would grant a free stake with no accrual.
    ZeroRewardGenerated,
}

} // verus!
