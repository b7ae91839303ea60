//! Per-user positions and the ghost model of the position table: lookup by
//! user, the sum of all accrued rewards, and the lemmas that track both
//! through an update or an append.

use vstd::prelude::*;

verus! {

/// A user's current pair of balances: the staking-asset amount deposited
/// and the reward-asset amount accrued for it but not yet paid out.
#[derive(Debug, Clone, Copy, PartialEq, Eq, Structural)]
pub struct Position {
    pub user: u128,
    pub staked: u128,
    pub reward: u128,
}

/// The sum of the accrued rewards of every position.
pub open spec fn sum_rewards(s: Seq<Position>) -> int
    decreases s.len(),
{
    if s.len() == 0 {
        0
    } else {
        sum_rewards(s.drop_last()) + s.last().reward
    }
}

/// No two positions belong to the same user.
pub open spec fn users_unique(s: Seq<Position>) -> bool {
    forall|i: int, j: int| 0 <= i < j < s.len() ==> s[i].user != s[j].user
}

/// Balances come and go together: a position has a deposit exactly when it
/// has an accrued reward.
pub open spec fn positions_paired(s: Seq<Position>) -> bool {
    forall|i: int| 0 <= i < s.len() ==> ((#[trigger] s[i].staked == 0) <==> s[i].reward == 0)
}

/// Whether some position belongs to `user`.
pub open spec fn has_user(s: Seq<Position>, user: u128) -> bool {
    exists|i: int| 0 <= i < s.len() && s[i].user == user
}

/// The index of the position belonging to `user`; meaningful only when
/// `has_user` holds and the users are unique.
pub open spec fn index_of_user(s: Seq<Position>, user: u128) -> int {
    choose|i: int| 0 <= i < s.len() && s[i].user == user
}

/// The staking-asset amount currently deposited by `user`; a user without
/// a position reads as zero.
pub open spec fn staked_of(s: Seq<Position>, user: u128) -> u128 {
    if has_user(s, user) {
        s[index_of_user(s, user)].staked
    } else {
        0
    }
}

/// The reward-asset amount currently owed to `user`; a user without a
/// position reads as zero.
pub open spec fn reward_of(s: Seq<Position>, user: u128) -> u128 {
    if has_user(s, user) {
        s[index_of_user(s, user)].reward
    } else {
        0
    }
}

/// When users are unique, the position at any index is the one its user is
/// looked up to.
pub proof fn lemma_lookup_at(s: Seq<Position>, i: int)
    requires
        users_unique(s),
        0 <= i < s.len(),
    ensures
        has_user(s, s[i].user),
        index_of_user(s, s[i].user) == i,
        staked_of(s, s[i].user) == s[i].staked,
        reward_of(s, s[i].user) == s[i].reward,
{
    let user = s[i].user;
    assert(has_user(s, user)) by {
        assert(0 <= i < s.len() && s[i].user == user);
    }
    let j = index_of_user(s, user);
    assert(0 <= j < s.len() && s[j].user == user);
    if i < j {
        assert(s[i].user != s[j].user);
    } else if j < i {
        assert(s[j].user != s[i].user);
    }
}

/// The sum of rewards is never negative.
pub proof fn lemma_sum_nonneg(s: Seq<Position>)
    ensures
        sum_rewards(s) >= 0,
    decreases s.len(),
{
    if s.len() > 0 {
        lemma_sum_nonneg(s.drop_last());
    }
}

/// Each single accrued reward is at most the sum of all of them.
pub proof fn lemma_reward_le_sum(s: Seq<Position>, i: int)
    requires
        0 <= i < s.len(),
    ensures
        s[i].reward <= sum_rewards(s),
    decreases s.len(),
{
    if i == s.len() - 1 {
        lemma_sum_nonneg(s.drop_last());
    } else {
        lemma_reward_le_sum(s.drop_last(), i);
    }
}

/// Replacing the position at one index changes the sum of rewards by
/// exactly the difference at that index.
pub proof fn lemma_sum_update(s: Seq<Position>, i: int, p: Position)
    requires
        0 <= i < s.len(),
    ensures
        sum_rewards(s.update(i, p)) == sum_rewards(s) - s[i].reward + p.reward,
    decreases s.len(),
{
    let t = s.update(i, p);
    if i == s.len() - 1 {
        assert(t.drop_last() =~= s.drop_last());
    } else {
        assert(t.drop_last() =~= s.drop_last().update(i, p));
        lemma_sum_update(s.drop_last(), i, p);
    }
}

/// Appending a position grows the sum of rewards by exactly its reward.
pub proof fn lemma_sum_push(s: Seq<Position>, p: Position)
    ensures
        sum_rewards(s.push(p)) == sum_rewards(s) + p.reward,
{
    assert(s.push(p).drop_last() =~= s);
}

/// Replacing a user's position in place keeps the users unique, makes that
/// user's balances read as the new pair, and leaves every other user's
/// balances as they were.
pub proof fn lemma_balances_after_update(s: Seq<Position>, i: int, p: Position)
    requires
        users_unique(s),
        0 <= i < s.len(),
        p.user == s[i].user,
    ensures
        users_unique(s.update(i, p)),
        staked_of(s.update(i, p), p.user) == p.staked,
        reward_of(s.update(i, p), p.user) == p.reward,
        forall|u: u128|
            u != p.user ==> #[trigger] staked_of(s.update(i, p), u) == staked_of(s, u)
                && reward_of(s.update(i, p), u) == reward_of(s, u),
{
    let t = s.update(i, p);
    assert(users_unique(t));
    lemma_lookup_at(t, i);
    assert forall|u: u128|
        u != p.user implies #[trigger] staked_of(t, u) == staked_of(s, u) && reward_of(t, u)
        == reward_of(s, u) by {
        if has_user(s, u) {
            let k = index_of_user(s, u);
            assert(0 <= k < s.len() && s[k].user == u);
            assert(t[k].user == u);
            lemma_lookup_at(s, k);
            lemma_lookup_at(t, k);
        } else {
            assert(!has_user(t, u)) by {
                if has_user(t, u) {
                    let k = index_of_user(t, u);
                    assert(0 <= k < t.len() && t[k].user == u);
                    assert(s[k].user == u);
                }
            }
        }
    }
}

/// Appending a position for a user who has none keeps the users unique,
/// makes that user's balances read as the new pair, and leaves every other
/// user's balances as they were.
pub proof fn lemma_balances_after_push(s: Seq<Position>, p: Position)
    requires
        users_unique(s),
        !has_user(s, p.user),
    ensures
        users_unique(s.push(p)),
        staked_of(s.push(p), p.user) == p.staked,
        reward_of(s.push(p), p.user) == p.reward,
        forall|u: u128|
            u != p.user ==> #[trigger] staked_of(s.push(p), u) == staked_of(s, u)
                && reward_of(s.push(p), u) == reward_of(s, u),
{
    let t = s.push(p);
    assert forall|i: int, j: int| 0 <= i < j < t.len() implies t[i].user != t[j].user by {
        if j < t.len() - 1 {
            assert(s[i].user != s[j].user);
        } else {
            assert(t[j].user == p.user);
            if t[i].user == p.user {
                assert(has_user(s, p.user)) by {
                    assert(0 <= i < s.len() && s[i].user == p.user);
                }
            }
        }
    }
    lemma_lookup_at(t, t.len() - 1);
    assert forall|u: u128|
        u != p.user implies #[trigger] staked_of(t, u) == staked_of(s, u) && reward_of(t, u)
        == reward_of(s, u) by {
        if has_user(s, u) {
            let k = index_of_user(s, u);
            assert(0 <= k < s.len() && s[k].user == u);
            assert(t[k].user == u);
            lemma_lookup_at(s, k);
            lemma_lookup_at(t, k);
        } else {
            assert(!has_user(t, u)) by {
                if has_user(t, u) {
                    let k = index_of_user(t, u);
                    assert(0 <= k < t.len() && t[k].user == u);
                    assert(k < s.len() && s[k].user == u);
                }
            }
        }
    }
}

} // verus!
