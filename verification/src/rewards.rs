//! The reward accrual formula: a fixed-point fraction of the staked amount,
//! computed once at stake time with truncating integer division.

use vstd::arithmetic::div_mod::{
    lemma_div_is_ordered, lemma_div_multiples_vanish, lemma_fundamental_div_mod,
    lemma_fundamental_div_mod_converse_div, lemma_mod_division_less_than_divisor,
};
use vstd::arithmetic::mul::{lemma_mul_inequality, lemma_mul_is_distributive_add};
use vstd::prelude::*;

verus! {

/// The reward owed for staking `amount` at the fixed-point fraction
/// `rate / divisor`, rounded down.
pub open spec fn reward_for(amount: u128, rate: u128, divisor: u128) -> int
    recommends
        divisor > 0,
{
    (amount * rate) / (divisor as int)
}

/// Computes `floor(amount * rate / divisor)` exactly.
pub fn compute_reward(amount: u128, rate: u128, divisor: u128) -> (reward: u128)
    requires
        divisor > 0,
        amount * rate <= u128::MAX,
    ensures
        reward == reward_for(amount, rate, divisor),
{
    (amount * rate) / divisor
}

/// The reward owed never decreases when the staked amount grows, for a
/// fixed rate and divisor.
pub proof fn lemma_reward_monotone(a1: u128, a2: u128, rate: u128, divisor: u128)
    requires
        divisor > 0,
        a1 <= a2,
    ensures
        reward_for(a1, rate, divisor) <= reward_for(a2, rate, divisor),
{
    lemma_mul_inequality(a1 as int, a2 as int, rate as int);
    lemma_div_is_ordered(a1 * rate, a2 * rate, divisor as int);
}

/// Where the reward owed strictly increases with the staked amount: it
/// does exactly when the fraction the smaller stake lost to truncation,
/// plus what the extra deposit earns, reaches one whole reward unit.
/// Truncation defeats strictness everywhere else — staking 1 or 2 at rate
/// 100 over divisor 1000 both earn 0.
pub proof fn lemma_reward_strictly_monotone(a1: u128, a2: u128, rate: u128, divisor: u128)
    requires
        divisor > 0,
        a1 <= a2,
    ensures
        reward_for(a1, rate, divisor) < reward_for(a2, rate, divisor) <==> (a1 * rate) % (
        divisor as int) + (a2 - a1) * rate >= divisor,
{
    let d = divisor as int;
    let x = a1 * rate;
    let y = a2 * rate;
    assert(y - x == (a2 - a1) * rate) by (nonlinear_arith)
        requires
            x == a1 * rate,
            y == a2 * rate,
    ;
    lemma_mul_inequality(a1 as int, a2 as int, rate as int);
    lemma_fundamental_div_mod(x, d);
    lemma_mod_division_less_than_divisor(x, d);
    if x % d + (y - x) >= d {
        assert(y >= d * (x / d + 1)) by {
            lemma_mul_is_distributive_add(d, x / d, 1);
        }
        lemma_div_multiples_vanish(x / d + 1, d);
        lemma_div_is_ordered(d * (x / d + 1), y, d);
    } else {
        lemma_fundamental_div_mod_converse_div(y, d, x / d, y - d * (x / d));
    }
}

} // verus!
