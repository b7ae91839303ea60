//! The staking ledger itself: immutable configuration, the global
//! reservation of promised rewards, and the position table, with the four
//! operations a host dispatches to.
//!
//! Each operation runs to completion against the state it is handed; the
//! host serializes calls. External reads (the pool's real reward-asset
//! balance) are taken as arguments, and the work left to the host — the two
//! asset transfers and the event emission — is returned as a fully
//! determined record. All state is committed before the host performs any
//! transfer; transfer outcomes are deliberately not fed back into the
//! accounting — an accepted fire-and-forget policy, since a failed pull
//! only ever shorts the pool, never a user's recorded entitlement.

use crate::errors::Error;
use crate::events::{STTokensStaked, STTokensUnstaked};
use crate::positions::{
    has_user, index_of_user, lemma_balances_after_push, lemma_balances_after_update,
    lemma_lookup_at, lemma_reward_le_sum, lemma_sum_push, lemma_sum_update, positions_paired,
    reward_of, staked_of, sum_rewards, users_unique, Position,
};
use crate::rewards::{compute_reward, reward_for};
use vstd::pervasive::VecAdditionalExecFns;
use vstd::prelude::*;

verus! {

/// The fixed-point divisor of the reward fraction; the constructor pins the
/// configuration to it.
pub const REWARD_DIVISOR: u128 = 1000;

/// The staking ledger's whole persisted state.
pub struct ERC20Staking {
    /// Identifier of the asset users deposit; null until configured.
    pub staking_token: u128,
    /// Identifier of the asset paid out as reward; null until configured.
    pub reward_token: u128,
    /// Reward accrued per unit staked, as the numerator over
    /// `reward_divisor`.
    pub reward_rate: u128,
    /// Fixed-point divisor of the reward fraction.
    pub reward_divisor: u128,
    /// Sum of all rewards promised but not yet paid out.
    pub total_reserved_rewards: u128,
    /// One position per user with an active or reset stake.
    pub positions: Vec<Position>,
}

impl ERC20Staking {
    /// The global reservation equals the sum of every user's accrued
    /// reward.
    pub open spec fn reserve_matches_rewards(self) -> bool {
        self.total_reserved_rewards == sum_rewards(self.positions@)
    }

    /// The accounting invariant every operation preserves: one position per
    /// user, deposits and accruals zero together, and the reservation
    /// matches the sum of accruals.
    pub open spec fn wf(self) -> bool {
        &&& users_unique(self.positions@)
        &&& positions_paired(self.positions@)
        &&& self.reserve_matches_rewards()
    }

    /// A configuration the constructor accepts: both assets named and the
    /// reward fraction in (0, 1].
    pub open spec fn configured(self) -> bool {
        &&& self.staking_token != 0
        &&& self.reward_token != 0
        &&& 0 < self.reward_rate <= REWARD_DIVISOR
        &&& self.reward_divisor == REWARD_DIVISOR
    }

    /// The configuration fields of two states agree.
    pub open spec fn same_config(self, other: Self) -> bool {
        &&& self.staking_token == other.staking_token
        &&& self.reward_token == other.reward_token
        &&& self.reward_rate == other.reward_rate
        &&& self.reward_divisor == other.reward_divisor
    }

    /// The staking-asset amount `user` currently has deposited.
    pub open spec fn staked_balance(self, user: u128) -> u128 {
        staked_of(self.positions@, user)
    }

    /// The reward-asset amount currently owed to `user`.
    pub open spec fn reward_balance(self, user: u128) -> u128 {
        reward_of(self.positions@, user)
    }

    /// The reward a stake of `amount` would accrue under this
    /// configuration.
    pub open spec fn accrual(self, amount: u128) -> int {
        reward_for(amount, self.reward_rate, self.reward_divisor)
    }

    /// In a well-formed ledger, every user's balances are zero together: a
    /// user has a deposit exactly when a reward is owed to them, whether or
    /// not a position record exists for them at all.
    pub proof fn lemma_balances_paired(self, user: u128)
        requires
            self.wf(),
        ensures
            self.staked_balance(user) == 0 <==> self.reward_balance(user) == 0,
    {
        if has_user(self.positions@, user) {
            let i = index_of_user(self.positions@, user);
            assert(0 <= i < self.positions@.len() && self.positions@[i].user == user);
        }
    }

    /// In a well-formed ledger, no single user is owed more than the global
    /// reservation. Together with the solvency check on `stakeTokens` —
    /// the reservation never grows past the pool's real holdings — every
    /// individual promise is covered as long as the pool is not drained
    /// behind the ledger's back.
    pub proof fn lemma_reward_within_reserve(self, user: u128)
        requires
            self.wf(),
        ensures
            self.reward_balance(user) <= self.total_reserved_rewards,
    {
        if has_user(self.positions@, user) {
            let i = index_of_user(self.positions@, user);
            assert(0 <= i < self.positions@.len() && self.positions@[i].user == user);
            lemma_reward_le_sum(self.positions@, i);
        }
    }

    /// The zeroed state the host's storage starts from, before the
    /// constructor has run.
    pub fn new() -> (ledger: ERC20Staking)
        ensures
            ledger.wf(),
            ledger.staking_token == 0,
            ledger.reward_token == 0,
            ledger.reward_rate == 0,
            ledger.reward_divisor == 0,
            ledger.total_reserved_rewards == 0,
            ledger.positions@.len() == 0,
            forall|u: u128|
                #[trigger] ledger.staked_balance(u) == 0 && ledger.reward_balance(u) == 0,
    {
        ERC20Staking {
            staking_token: 0,
            reward_token: 0,
            reward_rate: 0,
            reward_divisor: 0,
            total_reserved_rewards: 0,
            positions: Vec::new(),
        }
    }

    /// Finds the index of `user`'s position, if one exists.
    fn find_position(&self, user: u128) -> (found: Option<usize>)
        ensures
            match found {
                Some(i) => i < self.positions@.len() && self.positions@[i as int].user == user,
                None => !has_user(self.positions@, user),
            },
    {
        let n = self.positions.len();
        let mut k: usize = 0;
        while k < n
            invariant
                k <= n,
                n == self.positions@.len(),
                forall|j: int| 0 <= j < k ==> self.positions@[j].user != user,
            decreases n - k,
        {
            if self.positions[k].user == user {
                return Some(k);
            }
            k += 1;
        }
        None
    }

    /// Validates and persists the one-time configuration. The host's
    /// one-time-constructor discipline keeps it from running twice; it
    /// touches neither the reservation nor any position.
    pub fn constructor(
        &mut self,
        staking_token: u128,
        reward_token: u128,
        reward_rate: u128,
    ) -> (result: Result<(), Error>)
        ensures
            (result == Err::<(), Error>(Error::InvalidStakingToken { staking_token }))
                <==> staking_token == 0,
            (result == Err::<(), Error>(Error::InvalidRewardToken { reward_token }))
                <==> (staking_token != 0 && reward_token == 0),
            (result == Err::<(), Error>(Error::InvalidRewardRate { reward_rate }))
                <==> (staking_token != 0 && reward_token != 0 && !(0 < reward_rate
                <= REWARD_DIVISOR)),
            result is Ok <==> (staking_token != 0 && reward_token != 0 && 0 < reward_rate
                <= REWARD_DIVISOR),
            result is Ok ==> {
                &&& final(self).staking_token == staking_token
                &&& final(self).reward_token == reward_token
                &&& final(self).reward_rate == reward_rate
                &&& final(self).reward_divisor == REWARD_DIVISOR
                &&& final(self).configured()
                &&& final(self).total_reserved_rewards == old(self).total_reserved_rewards
                &&& final(self).positions == old(self).positions
            },
            result is Ok && old(self).wf() ==> final(self).wf(),
            result is Err ==> *final(self) == *old(self),
    {
        if staking_token == 0 {
            return Err(Error::InvalidStakingToken { staking_token });
        }
        if reward_token == 0 {
            return Err(Error::InvalidRewardToken { reward_token });
        }
        if reward_rate == 0 || reward_rate > REWARD_DIVISOR {
            return Err(Error::InvalidRewardRate { reward_rate });
        }
        self.staking_token = staking_token;
        self.reward_token = reward_token;
        self.reward_rate = reward_rate;
        self.reward_divisor = REWARD_DIVISOR;
        Ok(())
    }

    /// Deposits `amount` of the staking asset for `staker` and accrues the
    /// proportional reward, after checking that the pool's real holdings
    /// (`available_reward_balance`, read by the host from the reward asset)
    /// cover every reward promised so far plus this one. On success the
    /// state is fully committed and the returned event tells the host to
    /// pull `amount` of the staking asset from `staker` and emit the
    /// record; on failure nothing is written.
    #[allow(non_snake_case)]
    pub fn stakeTokens(
        &mut self,
        staker: u128,
        amount: u128,
        available_reward_balance: u128,
    ) -> (result: Result<STTokensStaked, Error>)
        requires
            old(self).wf(),
            old(self).configured(),
            amount * old(self).reward_rate <= u128::MAX,
            old(self).staked_balance(staker) + amount <= u128::MAX,
            old(self).total_reserved_rewards + old(self).accrual(amount) <= u128::MAX,
        ensures
            (result == Err::<STTokensStaked, Error>((Error::InvalidStakeAmount { amount })))
                <==> amount == 0,
            (result == Err::<STTokensStaked, Error>(Error::ZeroRewardGenerated)) <==> (amount != 0
                && old(self).accrual(amount) == 0),
            (result == Err::<STTokensStaked, Error>(
                (Error::InsufficientRewardTokens {
                    deficit: #[verifier::truncate]
                    ((old(self).total_reserved_rewards + old(self).accrual(amount)
                        - available_reward_balance) as u128),
                }),
            )) <==> (amount != 0 && old(self).accrual(amount) > 0 && old(
                self,
            ).total_reserved_rewards + old(self).accrual(amount) > available_reward_balance),
            result is Ok <==> (amount != 0 && old(self).accrual(amount) > 0 && old(
                self,
            ).total_reserved_rewards + old(self).accrual(amount) <= available_reward_balance),
            result matches Ok(event) ==> event == (STTokensStaked {
                staker,
                stake_amount: amount,
                reward_accrued: old(self).accrual(amount) as u128,
            }),
            result is Ok ==> {
                &&& final(self).same_config(*old(self))
                &&& final(self).total_reserved_rewards == old(self).total_reserved_rewards + old(
                    self,
                ).accrual(amount)
                &&& final(self).total_reserved_rewards <= available_reward_balance
                &&& final(self).staked_balance(staker) == old(self).staked_balance(staker) + amount
                &&& final(self).reward_balance(staker) == old(self).reward_balance(staker) + old(
                    self,
                ).accrual(amount)
                &&& final(self).wf()
            },
            result is Ok ==> forall|u: u128|
                u != staker ==> #[trigger] final(self).staked_balance(u) == old(
                    self,
                ).staked_balance(u),
            result is Ok ==> forall|u: u128|
                u != staker ==> #[trigger] final(self).reward_balance(u) == old(
                    self,
                ).reward_balance(u),
            result is Err ==> *final(self) == *old(self),
    {
        if amount == 0 {
            return Err(Error::InvalidStakeAmount { amount });
        }
        let reward = compute_reward(amount, self.reward_rate, self.reward_divisor);
        if reward == 0 {
            return Err(Error::ZeroRewardGenerated);
        }
        let projected = self.total_reserved_rewards + reward;
        if projected > available_reward_balance {
            return Err(
                Error::InsufficientRewardTokens { deficit: projected - available_reward_balance },
            );
        }
        let ghost s0 = self.positions@;
        self.total_reserved_rewards = projected;
        match self.find_position(staker) {
            Some(i) => {
                let p = self.positions[i];
                proof {
                    lemma_lookup_at(s0, i as int);
                    lemma_reward_le_sum(s0, i as int);
                }
                let renewed = Position {
                    user: staker,
                    staked: p.staked + amount,
                    reward: p.reward + reward,
                };
                self.positions.set(i, renewed);
                proof {
                    lemma_sum_update(s0, i as int, renewed);
                    lemma_balances_after_update(s0, i as int, renewed);
                }
            },
            None => {
                let opened = Position { user: staker, staked: amount, reward };
                self.positions.push(opened);
                proof {
                    lemma_sum_push(s0, opened);
                    lemma_balances_after_push(s0, opened);
                }
            },
        }
        proof {
            assert forall|u: u128|
                u != staker implies #[trigger] self.staked_balance(u) == old(self).staked_balance(
                u,
            ) by {
                assert(staked_of(self.positions@, u) == staked_of(s0, u));
            }
            assert forall|u: u128|
                u != staker implies #[trigger] self.reward_balance(u) == old(self).reward_balance(
                u,
            ) by {
                assert(staked_of(self.positions@, u) == staked_of(s0, u));
                assert(reward_of(self.positions@, u) == reward_of(s0, u));
            }
        }
        Ok(STTokensStaked { staker, stake_amount: amount, reward_accrued: reward })
    }

    /// Withdraws `staker`'s whole position: their deposit plus the reward
    /// accrued for it, provided the pool's real holdings
    /// (`available_reward_balance`, read by the host from the reward asset)
    /// cover the reward owed — a defensive re-check against the real
    /// balance, not just the internal reservation. On success both balances
    /// are zeroed and the reservation shrinks by exactly the reward paid,
    /// all committed before the host performs the two transfers the
    /// returned event describes (reward first, then principal); on failure
    /// nothing is written.
    #[allow(non_snake_case)]
    pub fn unstakeTokens(&mut self, staker: u128, available_reward_balance: u128) -> (result:
        Result<STTokensUnstaked, Error>)
        requires
            old(self).wf(),
        ensures
            (result == Err::<STTokensUnstaked, Error>(Error::NoActiveStake)) <==> old(
                self,
            ).staked_balance(staker) == 0,
            (result == Err::<STTokensUnstaked, Error>(Error::NoOwedReward)) <==> (old(
                self,
            ).staked_balance(staker) != 0 && old(self).reward_balance(staker) == 0),
            (result == Err::<STTokensUnstaked, Error>(
                (Error::InsufficientRewardTokens {
                    deficit: (old(self).reward_balance(staker) - available_reward_balance) as u128,
                }),
            )) <==> (old(self).staked_balance(staker) != 0 && old(self).reward_balance(staker) != 0
                && old(self).reward_balance(staker) > available_reward_balance),
            result is Ok <==> (old(self).staked_balance(staker) != 0 && old(self).reward_balance(
                staker,
            ) != 0 && old(self).reward_balance(staker) <= available_reward_balance),
            result matches Ok(event) ==> event == (STTokensUnstaked {
                staker,
                unstake_amount: old(self).staked_balance(staker),
                rewards_paid: old(self).reward_balance(staker),
            }),
            result is Ok ==> {
                &&& final(self).same_config(*old(self))
                &&& final(self).total_reserved_rewards == old(self).total_reserved_rewards - old(
                    self,
                ).reward_balance(staker)
                &&& final(self).staked_balance(staker) == 0
                &&& final(self).reward_balance(staker) == 0
                &&& final(self).wf()
            },
            result is Ok ==> forall|u: u128|
                u != staker ==> #[trigger] final(self).staked_balance(u) == old(
                    self,
                ).staked_balance(u) && final(self).reward_balance(u) == old(self).reward_balance(u),
            result is Err ==> *final(self) == *old(self),
    {
        let i = match self.find_position(staker) {
            Some(i) => i,
            None => {
                return Err(Error::NoActiveStake);
            },
        };
        let p = self.positions[i];
        proof {
            lemma_lookup_at(self.positions@, i as int);
        }
        if p.staked == 0 {
            return Err(Error::NoActiveStake);
        }
        if p.reward == 0 {
            return Err(Error::NoOwedReward);
        }
        if p.reward > available_reward_balance || available_reward_balance == 0 {
            return Err(
                Error::InsufficientRewardTokens { deficit: p.reward - available_reward_balance },
            );
        }
        // Commit the whole withdrawal before the host touches either
        // asset, so a reentrant call sees consistent accounting.
        let ghost s0 = self.positions@;
        proof {
            lemma_reward_le_sum(s0, i as int);
        }
        self.total_reserved_rewards = self.total_reserved_rewards - p.reward;
        let cleared = Position { user: staker, staked: 0, reward: 0 };
        self.positions.set(i, cleared);
        proof {
            lemma_sum_update(s0, i as int, cleared);
            lemma_balances_after_update(s0, i as int, cleared);
        }
        Ok(STTokensUnstaked { staker, unstake_amount: p.staked, rewards_paid: p.reward })
    }

    /// A user's current position, read-only: `(reward owed, amount staked,
    /// user)`. A user without a position reads as zero.
    pub fn query_user_info(&self, owner: u128) -> (info: (u128, u128, u128))
        requires
            users_unique(self.positions@),
        ensures
            info == (self.reward_balance(owner), self.staked_balance(owner), owner),
    {
        match self.find_position(owner) {
            Some(i) => {
                let p = self.positions[i];
                proof {
                    lemma_lookup_at(self.positions@, i as int);
                }
                (p.reward, p.staked, owner)
            },
            None => (0, 0, owner),
        }
    }

    /// A read-only snapshot of the configuration and the global
    /// accounting: `(staking asset, reward asset, rate, divisor, total
    /// reserved rewards)`.
    pub fn configuration(&self) -> (config: (u128, u128, u128, u128, u128))
        ensures
            config == (
                self.staking_token,
                self.reward_token,
                self.reward_rate,
                self.reward_divisor,
                self.total_reserved_rewards,
            ),
    {
        (
            self.staking_token,
            self.reward_token,
            self.reward_rate,
            self.reward_divisor,
            self.total_reserved_rewards,
        )
    }
}

} // verus!
