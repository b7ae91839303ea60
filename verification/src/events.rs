//! The events a host must emit after a successful operation. Each
//! state-changing call returns the fully determined event record; emission
//! itself is the host's append-only log.

use vstd::prelude::*;

verus! {

/// Emitted after a successful stake: `staker` deposited `stake_amount` of
/// the staking asset and accrued `reward_accrued` of the reward asset.
#[derive(Debug, Clone, Copy, PartialEq, Eq, Structural)]
pub struct STTokensStaked {
    pub staker: u128,
    pub stake_amount: u128,
    pub reward_accrued: u128,
}

/// Emitted after a successful unstake: `staker` withdrew their whole
/// deposit of `unstake_amount` and was paid `rewards_paid` of the reward
/// asset.
#[derive(Debug, Clone, Copy, PartialEq, Eq, Structural)]
pub struct STTokensUnstaked {
    pub staker: u128,
    pub unstake_amount: u128,
    pub rewards_paid: u128,
}

} // verus!
