use erc20_staking::errors::Error;
use erc20_staking::events::{STTokensStaked, STTokensUnstaked};
use erc20_staking::ledger::ERC20Staking;
use erc20_staking::positions::Position;

const STAKING: u128 = 0x5a;
const REWARD: u128 = 0x5b;
const ALICE: u128 = 7;
const BOB: u128 = 8;

fn configured_ledger(rate: u128) -> ERC20Staking {
    let mut ledger = ERC20Staking::new();
    ledger
        .constructor(STAKING, REWARD, rate)
        .expect("a valid configuration is accepted");
    ledger
}

/// The whole observable state of the ledger for a handful of users.
fn observe(
    ledger: &ERC20Staking,
    users: &[u128],
) -> ((u128, u128, u128, u128, u128), Vec<(u128, u128, u128)>) {
    let mut infos = Vec::new();
    for &u in users {
        infos.push(ledger.query_user_info(u));
    }
    (ledger.configuration(), infos)
}

#[test]
fn constructor_accepts_valid_configuration() {
    let mut ledger = ERC20Staking::new();
    assert_eq!(ledger.constructor(STAKING, REWARD, 100), Ok(()));
    assert_eq!(
        ledger.configuration(),
        (STAKING, REWARD, 100, 1000, 0)
    );
    // the whole range (0, 1000] is accepted, boundaries included
    let mut at_divisor = ERC20Staking::new();
    assert_eq!(at_divisor.constructor(STAKING, REWARD, 1000), Ok(()));
    let mut at_one = ERC20Staking::new();
    assert_eq!(at_one.constructor(STAKING, REWARD, 1), Ok(()));
}

#[test]
fn constructor_rejects_null_staking_token() {
    let mut ledger = ERC20Staking::new();
    let before = observe(&ledger, &[ALICE]);
    assert_eq!(
        ledger.constructor(0, REWARD, 100),
        Err(Error::InvalidStakingToken { staking_token: 0 })
    );
    assert_eq!(observe(&ledger, &[ALICE]), before);
}

#[test]
fn constructor_rejects_null_reward_token() {
    let mut ledger = ERC20Staking::new();
    assert_eq!(
        ledger.constructor(STAKING, 0, 100),
        Err(Error::InvalidRewardToken { reward_token: 0 })
    );
}

#[test]
fn constructor_rejects_out_of_range_rate() {
    let mut ledger = ERC20Staking::new();
    assert_eq!(
        ledger.constructor(STAKING, REWARD, 0),
        Err(Error::InvalidRewardRate { reward_rate: 0 })
    );
    assert_eq!(
        ledger.constructor(STAKING, REWARD, 1001),
        Err(Error::InvalidRewardRate { reward_rate: 1001 })
    );
}

#[test]
fn stake_accrues_proportional_reward() {
    let mut ledger = configured_ledger(100);
    let event = ledger.stakeTokens(ALICE, 1000, 100);
    assert_eq!(
        event,
        Ok(STTokensStaked {
            staker: ALICE,
            stake_amount: 1000,
            reward_accrued: 100,
        })
    );
    assert_eq!(ledger.configuration(), (STAKING, REWARD, 100, 1000, 100));
    assert_eq!(ledger.query_user_info(ALICE), (100, 1000, ALICE));
}

#[test]
fn stake_of_zero_is_rejected() {
    let mut ledger = configured_ledger(100);
    let before = observe(&ledger, &[ALICE]);
    assert_eq!(
        ledger.stakeTokens(ALICE, 0, 1_000_000),
        Err(Error::InvalidStakeAmount { amount: 0 })
    );
    assert_eq!(observe(&ledger, &[ALICE]), before);
}

#[test]
fn dust_stake_that_rounds_to_no_reward_is_rejected() {
    let mut ledger = configured_ledger(100);
    let before = observe(&ledger, &[ALICE]);
    // floor(5 * 100 / 1000) = 0
    assert_eq!(
        ledger.stakeTokens(ALICE, 5, 1_000_000),
        Err(Error::ZeroRewardGenerated)
    );
    assert_eq!(observe(&ledger, &[ALICE]), before);
}

#[test]
fn stake_never_promises_more_than_the_pool_holds() {
    let mut ledger = configured_ledger(100);
    // the pool holds 99 reward units but the stake would reserve 100
    let before = observe(&ledger, &[ALICE]);
    assert_eq!(
        ledger.stakeTokens(ALICE, 1000, 99),
        Err(Error::InsufficientRewardTokens { deficit: 1 })
    );
    assert_eq!(observe(&ledger, &[ALICE]), before);
}

#[test]
fn second_stake_sees_the_first_reservation() {
    // the pool holds 150: the first stake reserves 100, the second would
    // push the reservation to 200 and must report the 50 it lacks
    let mut ledger = configured_ledger(100);
    assert!(ledger.stakeTokens(ALICE, 1000, 150).is_ok());
    let before = observe(&ledger, &[ALICE, BOB]);
    assert_eq!(
        ledger.stakeTokens(BOB, 1000, 150),
        Err(Error::InsufficientRewardTokens { deficit: 50 })
    );
    assert_eq!(observe(&ledger, &[ALICE, BOB]), before);
}

#[test]
fn repeated_stakes_accumulate_one_position() {
    let mut ledger = configured_ledger(250);
    assert!(ledger.stakeTokens(ALICE, 100, 1_000_000).is_ok());
    assert!(ledger.stakeTokens(ALICE, 300, 1_000_000).is_ok());
    assert_eq!(ledger.query_user_info(ALICE), (100, 400, ALICE));
    let (_, _, _, _, total) = ledger.configuration();
    assert_eq!(total, 100);
}

#[test]
fn unstake_returns_whole_position_and_releases_reservation() {
    let mut ledger = configured_ledger(100);
    assert!(ledger.stakeTokens(ALICE, 1000, 100).is_ok());
    let event = ledger.unstakeTokens(ALICE, 100);
    assert_eq!(
        event,
        Ok(STTokensUnstaked {
            staker: ALICE,
            unstake_amount: 1000,
            rewards_paid: 100,
        })
    );
    assert_eq!(ledger.query_user_info(ALICE), (0, 0, ALICE));
    // the reservation is back at its pre-stake value
    assert_eq!(ledger.configuration(), (STAKING, REWARD, 100, 1000, 0));
}

#[test]
fn unstake_without_a_stake_is_rejected() {
    let mut ledger = configured_ledger(100);
    assert!(ledger.stakeTokens(BOB, 1000, 1_000_000).is_ok());
    let before = observe(&ledger, &[ALICE, BOB]);
    assert_eq!(ledger.unstakeTokens(ALICE, 1_000_000), Err(Error::NoActiveStake));
    assert_eq!(observe(&ledger, &[ALICE, BOB]), before);
}

#[test]
fn unstake_after_unstake_is_rejected() {
    let mut ledger = configured_ledger(100);
    assert!(ledger.stakeTokens(ALICE, 1000, 100).is_ok());
    assert!(ledger.unstakeTokens(ALICE, 100).is_ok());
    // the zeroed position reads like no stake at all
    assert_eq!(ledger.unstakeTokens(ALICE, 1_000_000), Err(Error::NoActiveStake));
}

#[test]
fn unstake_rechecks_the_real_pool_balance() {
    let mut ledger = configured_ledger(100);
    assert!(ledger.stakeTokens(ALICE, 1000, 100).is_ok());
    // the pool was drained down to 40 behind the ledger's back
    let before = observe(&ledger, &[ALICE]);
    assert_eq!(
        ledger.unstakeTokens(ALICE, 40),
        Err(Error::InsufficientRewardTokens { deficit: 60 })
    );
    assert_eq!(observe(&ledger, &[ALICE]), before);
    // once the pool is refilled the same withdrawal goes through
    assert!(ledger.unstakeTokens(ALICE, 100).is_ok());
}

#[test]
fn unstake_of_corrupted_position_reports_no_owed_reward() {
    // a position with a deposit but no accrual cannot arise through the
    // ledger's own operations; a host that writes one by hand still gets
    // the defensive answer instead of a zero payout
    let mut ledger = configured_ledger(100);
    ledger.positions.push(Position {
        user: ALICE,
        staked: 10,
        reward: 0,
    });
    assert_eq!(ledger.unstakeTokens(ALICE, 1_000_000), Err(Error::NoOwedReward));
}

#[test]
fn two_users_keep_separate_positions() {
    let mut ledger = configured_ledger(100);
    assert!(ledger.stakeTokens(ALICE, 1000, 1_000_000).is_ok());
    assert!(ledger.stakeTokens(BOB, 3000, 1_000_000).is_ok());
    assert_eq!(ledger.query_user_info(ALICE), (100, 1000, ALICE));
    assert_eq!(ledger.query_user_info(BOB), (300, 3000, BOB));
    assert!(ledger.unstakeTokens(ALICE, 1_000_000).is_ok());
    assert_eq!(ledger.query_user_info(ALICE), (0, 0, ALICE));
    assert_eq!(ledger.query_user_info(BOB), (300, 3000, BOB));
    let (_, _, _, _, total) = ledger.configuration();
    assert_eq!(total, 300);
}
