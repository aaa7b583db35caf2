use farming::accumulator::{calculate_pending, distribute_slot, mul_sat};
use farming::{
    ChildFarmingContract, FarmError, FarmInput, FarmStatus, StorageKey, ACC_REWARD_MULTIPLIER,
};

/// Price of one byte of storage, in yoctoNEAR.
const BYTE_COST: u128 = 10_000_000_000_000_000_000;
const NANOS: u64 = 1_000_000_000;

fn s(v: &str) -> String {
    v.to_string()
}

fn input(lockup: u64, rate: u128, interval: u64, start: u64) -> FarmInput {
    FarmInput {
        staking_token: s("staking.token"),
        reward_tokens: vec![s("reward.token")],
        lockup_period_sec: lockup,
        reward_per_session: vec![rate],
        session_interval_sec: interval,
        start_at_sec: start,
    }
}

/// A ledger where `alice` prepaid 10 NEAR and created one farm at t=0.
fn setup(lockup: u64, rate: u128, interval: u64, start: u64) -> ChildFarmingContract {
    let mut contract = ChildFarmingContract::new(s("owner.testnet"));
    contract.storage_deposit(&s("alice"), 10_000_000_000_000_000_000_000_000);
    let id = contract
        .create_farm(&s("alice"), input(lockup, rate, interval, start), 0, BYTE_COST)
        .unwrap();
    assert_eq!(id, 0);
    contract
}

#[test]
fn test_storage_deposit_and_create_farm() {
    let contract = setup(60, 100, 10, 0);
    let farm = contract.get_farm(0, 0).unwrap();
    assert_eq!(farm.staking_token, "staking.token");
    assert_eq!(farm.reward_tokens.len(), 1);
    assert_eq!(farm.status, FarmStatus::Active);
}

#[test]
fn test_create_farm_insufficient_storage() {
    let mut contract = ChildFarmingContract::new(s("owner.testnet"));
    let r = contract.create_farm(
        &s("alice"),
        FarmInput {
            staking_token: s("token"),
            reward_tokens: vec![s("reward.token")],
            lockup_period_sec: 30,
            reward_per_session: vec![10],
            session_interval_sec: 5,
            start_at_sec: 0,
        },
        0,
        BYTE_COST,
    );
    assert!(matches!(r, Err(FarmError::InsufficientStorage { .. })));
    assert_eq!(contract.farm_count, 0);
}

#[test]
fn test_create_farm_insufficient_storage_multitoken() {
    let mut contract = ChildFarmingContract::new(s("owner.testnet"));
    contract.storage_deposit(&s("alice"), 1);
    let r = contract.create_farm(
        &s("alice"),
        FarmInput {
            staking_token: s("staking.token"),
            reward_tokens: vec![s("reward1.token"), s("reward2.token")],
            lockup_period_sec: 60,
            reward_per_session: vec![100, 200],
            session_interval_sec: 10,
            start_at_sec: 0,
        },
        0,
        BYTE_COST,
    );
    // 128 + 80 * 2 bytes at the byte price, less the 1 prepaid
    let need = 288 * BYTE_COST - 1;
    assert_eq!(r, Err(FarmError::InsufficientStorage { shortfall: need }));
}

#[test]
fn test_staking_flow() {
    let mut contract = setup(10, 100, 5, 0);
    let r = contract.ft_on_transfer(&s("staking.token"), &s("alice"), 500, &s("STAKE:0"), 0, BYTE_COST);
    assert_eq!(r, Ok(0));
    let stake = contract.get_stake_info(&s("alice"), 0, 0).unwrap();
    assert_eq!(stake.amount, 500);
}

#[test]
fn test_stake_insufficient_storage() {
    let mut contract = ChildFarmingContract::new(s("owner.testnet"));
    contract.storage_deposit(&s("alice"), 1_000_000_000_000_000_000_000_000);
    let farm_id = contract.create_farm(&s("alice"), input(10, 100, 5, 0), 0, BYTE_COST).unwrap();
    let msg = format!("STAKE:{}", farm_id);
    let r = contract.ft_on_transfer(&s("staking.token"), &s("bob"), 100, &msg, 0, BYTE_COST);
    assert!(matches!(r, Err(FarmError::InsufficientStorage { .. })));
    assert!(contract.get_stake_info(&s("bob"), farm_id, 0).is_none());
}

#[test]
fn test_add_reward() {
    let mut contract = setup(0, 100, 5, 0);
    let msg = format!("ADD_REWARD:{}", 0);
    let r = contract.ft_on_transfer(&s("reward.token"), &s("alice"), 10_000, &msg, 0, BYTE_COST);
    assert_eq!(r, Ok(0));
    assert_eq!(contract.get_farm(0, 0).unwrap().remaining_reward, vec![10_000]);
}

#[test]
fn test_session_based_distribution() {
    let mut contract = setup(0, 100, 10, 0);
    contract
        .ft_on_transfer(&s("reward.token"), &s("alice"), 200, &s("ADD_REWARD:0"), 0, BYTE_COST)
        .unwrap();
    contract
        .ft_on_transfer(&s("staking.token"), &s("alice"), 100, &s("STAKE:0"), 0, BYTE_COST)
        .unwrap();
    let transfers = contract.claim_rewards(&s("alice"), 0, 25_000_000_000).unwrap();
    let farm = &contract.farms[0];
    assert_eq!(farm.reward_per_share[0] / ACC_REWARD_MULTIPLIER, 2);
    let stake = contract.get_stake_info(&s("alice"), 0, 25_000_000_000).unwrap();
    assert_eq!(stake.accrued_rewards[0], 0);
    assert_eq!(transfers.len(), 1);
    assert_eq!(transfers[0].token, "reward.token");
    assert_eq!(transfers[0].receiver, "alice");
    assert_eq!(transfers[0].amount, 200);
}

#[test]
fn test_withdraw_lockup_fail() {
    let mut contract = setup(2, 10, 5, 0);
    contract
        .ft_on_transfer(&s("staking.token"), &s("alice"), 100, &s("STAKE:0"), 0, BYTE_COST)
        .unwrap();
    let r = contract.withdraw(&s("alice"), 0, 50, NANOS);
    assert!(matches!(r, Err(FarmError::LockupNotExpired)));
    assert_eq!(contract.get_stake_info(&s("alice"), 0, NANOS).unwrap().amount, 100);
}

#[test]
fn test_withdraw_lockup_success() {
    let mut contract = setup(2, 10, 5, 0);
    contract
        .ft_on_transfer(&s("staking.token"), &s("alice"), 100, &s("STAKE:0"), 0, BYTE_COST)
        .unwrap();
    let t = contract.withdraw(&s("alice"), 0, 50, 3 * NANOS).unwrap();
    assert_eq!(t.token, "staking.token");
    assert_eq!(t.amount, 50);
    let stake = contract.get_stake_info(&s("alice"), 0, 3 * NANOS).unwrap();
    assert_eq!(stake.amount, 50);
}

#[test]
fn test_future_start_time() {
    let mut contract = setup(0, 10, 5, 100);
    contract
        .ft_on_transfer(&s("staking.token"), &s("alice"), 100, &s("STAKE:0"), 0, BYTE_COST)
        .unwrap();
    contract.claim_rewards(&s("alice"), 0, 50 * NANOS).unwrap();
    assert_eq!(contract.farms[0].reward_per_share[0], 0);
}

#[test]
fn test_stake_on_ended_farm() {
    let deposit = 1_000_000_000_000_000_000_000_000;
    let mut contract = ChildFarmingContract::new(s("owner.testnet"));
    contract.storage_deposit(&s("alice"), deposit);
    contract.storage_deposit(&s("bob"), deposit);
    let farm_id = contract.create_farm(&s("alice"), input(10, 100, 5, 0), 0, BYTE_COST).unwrap();
    contract
        .ft_on_transfer(&s("reward.token"), &s("alice"), 50, &s("ADD_REWARD:0"), 0, BYTE_COST)
        .unwrap();
    contract
        .ft_on_transfer(&s("staking.token"), &s("alice"), 100, &s("STAKE:0"), 0, BYTE_COST)
        .unwrap();
    contract.claim_rewards(&s("alice"), farm_id, 10 * NANOS).unwrap();
    let r = contract.ft_on_transfer(&s("staking.token"), &s("bob"), 50, &s("STAKE:0"), 10 * NANOS, BYTE_COST);
    assert_eq!(r, Err(FarmError::FarmEnded));
}

// ---- further behaviour ----

#[test]
fn exhaustion_ends_farm() {
    let mut contract = setup(10, 100, 5, 0);
    contract
        .ft_on_transfer(&s("reward.token"), &s("alice"), 50, &s("ADD_REWARD:0"), 0, BYTE_COST)
        .unwrap();
    contract
        .ft_on_transfer(&s("staking.token"), &s("alice"), 100, &s("STAKE:0"), 0, BYTE_COST)
        .unwrap();
    let paid = contract.claim_rewards(&s("alice"), 0, 5 * NANOS).unwrap();
    assert_eq!(paid.len(), 1);
    assert_eq!(paid[0].amount, 50);
    let farm = contract.get_farm(0, 5 * NANOS).unwrap();
    assert_eq!(farm.remaining_reward, vec![0]);
    assert_eq!(farm.status, FarmStatus::Ended);
    let r = contract.ft_on_transfer(&s("staking.token"), &s("alice"), 1, &s("STAKE:0"), 6 * NANOS, BYTE_COST);
    assert_eq!(r, Err(FarmError::FarmEnded));
}

#[test]
fn partial_session_is_not_paid() {
    let mut contract = setup(0, 100, 10, 0);
    contract
        .ft_on_transfer(&s("reward.token"), &s("alice"), 1_000, &s("ADD_REWARD:0"), 0, BYTE_COST)
        .unwrap();
    contract
        .ft_on_transfer(&s("staking.token"), &s("alice"), 100, &s("STAKE:0"), 0, BYTE_COST)
        .unwrap();
    // 9 s: no whole session yet
    let paid = contract.claim_rewards(&s("alice"), 0, 9 * NANOS).unwrap();
    assert!(paid.is_empty());
    assert_eq!(contract.farms[0].last_distribution, 0);
    // 25 s: two sessions, the half session stays pending
    contract.claim_rewards(&s("alice"), 0, 25 * NANOS).unwrap();
    assert_eq!(contract.farms[0].last_distribution, 20 * NANOS);
    assert_eq!(contract.farms[0].remaining_reward[0], 800);
}

#[test]
fn catch_up_twice_changes_nothing_more() {
    let mut contract = setup(0, 100, 10, 0);
    contract
        .ft_on_transfer(&s("reward.token"), &s("alice"), 1_000, &s("ADD_REWARD:0"), 0, BYTE_COST)
        .unwrap();
    contract
        .ft_on_transfer(&s("staking.token"), &s("alice"), 300, &s("STAKE:0"), 0, BYTE_COST)
        .unwrap();
    contract.update_farm(0, 37 * NANOS);
    let once = contract.get_farm(0, 37 * NANOS).unwrap();
    contract.update_farm(0, 37 * NANOS);
    let twice = contract.get_farm(0, 37 * NANOS).unwrap();
    assert_eq!(once.reward_per_share, twice.reward_per_share);
    assert_eq!(once.remaining_reward, twice.remaining_reward);
    assert_eq!(once.last_distribution_sec, twice.last_distribution_sec);
    assert_eq!(once.remaining_reward, vec![700]);
    // 300 units over 300 staked, scaled
    assert_eq!(once.reward_per_share, vec![ACC_REWARD_MULTIPLIER]);
}

#[test]
fn projection_matches_catch_up() {
    let mut contract = setup(0, 7, 3, 0);
    contract
        .ft_on_transfer(&s("reward.token"), &s("alice"), 100, &s("ADD_REWARD:0"), 0, BYTE_COST)
        .unwrap();
    contract
        .ft_on_transfer(&s("staking.token"), &s("alice"), 3, &s("STAKE:0"), 0, BYTE_COST)
        .unwrap();
    let projected = contract.get_stake_info(&s("alice"), 0, 10 * NANOS).unwrap();
    assert_eq!(contract.farms[0].reward_per_share, vec![0]);
    let paid = contract.claim_rewards(&s("alice"), 0, 10 * NANOS).unwrap();
    // three sessions of 7, spread over 3 units
    assert_eq!(projected.accrued_rewards, vec![21]);
    assert_eq!(paid[0].amount, 21);
}

#[test]
fn reward_per_share_never_drops() {
    let mut contract = setup(0, 100, 1, 0);
    contract
        .ft_on_transfer(&s("reward.token"), &s("alice"), 1_000, &s("ADD_REWARD:0"), 0, BYTE_COST)
        .unwrap();
    contract
        .ft_on_transfer(&s("staking.token"), &s("alice"), 10, &s("STAKE:0"), 0, BYTE_COST)
        .unwrap();
    let mut last = 0;
    for t in 1..6u64 {
        contract.claim_rewards(&s("alice"), 0, t * NANOS).unwrap();
        let now = contract.farms[0].reward_per_share[0];
        assert!(now >= last);
        last = now;
    }
    assert_eq!(last, 5 * 100 * ACC_REWARD_MULTIPLIER / 10);
}

#[test]
fn lockup_never_shortens() {
    let mut contract = setup(100, 1, 5, 0);
    contract
        .ft_on_transfer(&s("staking.token"), &s("alice"), 10, &s("STAKE:0"), 50 * NANOS, BYTE_COST)
        .unwrap();
    let first = contract.get_stake_info(&s("alice"), 0, 50 * NANOS).unwrap().lockup_end_sec;
    assert_eq!(first, 150);
    contract
        .ft_on_transfer(&s("staking.token"), &s("alice"), 10, &s("STAKE:0"), 10 * NANOS, BYTE_COST)
        .unwrap();
    let second = contract.get_stake_info(&s("alice"), 0, 50 * NANOS).unwrap().lockup_end_sec;
    assert_eq!(second, 150);
    contract
        .ft_on_transfer(&s("staking.token"), &s("alice"), 10, &s("STAKE:0"), 60 * NANOS, BYTE_COST)
        .unwrap();
    let third = contract.get_stake_info(&s("alice"), 0, 60 * NANOS).unwrap();
    assert_eq!(third.lockup_end_sec, 160);
    assert_eq!(third.amount, 30);
}

#[test]
fn pending_credit_settles_on_restake() {
    let mut contract = setup(0, 100, 10, 0);
    contract
        .ft_on_transfer(&s("reward.token"), &s("alice"), 1_000, &s("ADD_REWARD:0"), 0, BYTE_COST)
        .unwrap();
    contract
        .ft_on_transfer(&s("staking.token"), &s("alice"), 100, &s("STAKE:0"), 0, BYTE_COST)
        .unwrap();
    contract
        .ft_on_transfer(&s("staking.token"), &s("alice"), 100, &s("STAKE:0"), 10 * NANOS, BYTE_COST)
        .unwrap();
    let stake = &contract.stakes[0].info;
    assert_eq!(stake.accrued_rewards, vec![100]);
    assert_eq!(stake.reward_debt, vec![ACC_REWARD_MULTIPLIER]);
    assert_eq!(contract.farms[0].total_staked, 200);
}

#[test]
fn full_withdraw_removes_stake() {
    let mut contract = setup(0, 100, 10, 0);
    contract
        .ft_on_transfer(&s("staking.token"), &s("alice"), 100, &s("STAKE:0"), 0, BYTE_COST)
        .unwrap();
    contract.withdraw(&s("alice"), 0, 100, NANOS).unwrap();
    assert!(contract.get_stake_info(&s("alice"), 0, NANOS).is_none());
    assert_eq!(contract.farms[0].total_staked, 0);
    assert_eq!(contract.withdraw(&s("alice"), 0, 1, NANOS).map(|t| t.amount), Err(FarmError::StakeNotFound));
}

#[test]
fn withdraw_more_than_staked_is_refused() {
    let mut contract = setup(0, 100, 10, 0);
    contract
        .ft_on_transfer(&s("staking.token"), &s("alice"), 100, &s("STAKE:0"), 0, BYTE_COST)
        .unwrap();
    let r = contract.withdraw(&s("alice"), 0, 101, NANOS);
    assert!(matches!(r, Err(FarmError::InsufficientStake)));
    assert_eq!(contract.farms[0].total_staked, 100);
}

#[test]
fn zero_stakers_fast_forwards() {
    let mut contract = setup(0, 100, 10, 0);
    contract
        .ft_on_transfer(&s("reward.token"), &s("alice"), 1_000, &s("ADD_REWARD:0"), 0, BYTE_COST)
        .unwrap();
    contract.update_farm(0, 45 * NANOS);
    assert_eq!(contract.farms[0].last_distribution, 45 * NANOS);
    assert_eq!(contract.farms[0].remaining_reward, vec![1_000]);
    assert_eq!(contract.farms[0].reward_per_share, vec![0]);
}

#[test]
fn create_farm_validation_errors() {
    let mut contract = ChildFarmingContract::new(s("owner.testnet"));
    contract.storage_deposit(&s("alice"), 10_000_000_000_000_000_000_000_000);
    let r = contract.create_farm(&s("alice"), input(0, 1, 0, 0), 0, BYTE_COST);
    assert_eq!(r, Err(FarmError::ZeroSessionInterval));
    let mut bad = input(0, 1, 5, 0);
    bad.reward_per_session = vec![1, 2];
    assert_eq!(contract.create_farm(&s("alice"), bad, 0, BYTE_COST), Err(FarmError::RewardListMismatch));
    let id = contract.create_farm(&s("alice"), input(3, 1, 5, 7), 0, BYTE_COST).unwrap();
    assert_eq!(id, 0);
    let f = &contract.farms[0];
    assert_eq!(f.lockup_period, 3 * NANOS);
    assert_eq!(f.session_interval, 5 * NANOS);
    assert_eq!(f.start_time, 7 * NANOS);
    assert_eq!(f.last_distribution, 7 * NANOS);
    assert_eq!(contract.create_farm(&s("alice"), input(3, 1, 5, 0), 42, BYTE_COST), Ok(1));
    assert_eq!(contract.farms[1].last_distribution, 42);
}

#[test]
fn unroutable_messages_are_declined() {
    let mut contract = setup(0, 100, 10, 0);
    for msg in ["STAKE", "STAKE:", "STAKE:x", "UNSTAKE:0", "STAKE:-1", "STAKE:99999999999999999999", ""] {
        let r = contract.ft_on_transfer(&s("staking.token"), &s("alice"), 77, &s(msg), 0, BYTE_COST);
        assert_eq!(r, Ok(77), "message {:?}", msg);
    }
    assert!(contract.stakes.is_empty());
    // a leading '+' and a trailing field still route
    assert_eq!(contract.ft_on_transfer(&s("staking.token"), &s("alice"), 5, &s("STAKE:+0:extra"), 0, BYTE_COST), Ok(0));
    assert_eq!(contract.get_stake_info(&s("alice"), 0, 0).unwrap().amount, 5);
}

#[test]
fn routing_errors() {
    let mut contract = setup(0, 100, 10, 0);
    let r = contract.ft_on_transfer(&s("staking.token"), &s("alice"), 5, &s("STAKE:3"), 0, BYTE_COST);
    assert_eq!(r, Err(FarmError::FarmNotFound));
    let r = contract.ft_on_transfer(&s("other.token"), &s("alice"), 5, &s("STAKE:0"), 0, BYTE_COST);
    assert_eq!(r, Err(FarmError::WrongStakingToken));
    let r = contract.ft_on_transfer(&s("other.token"), &s("alice"), 5, &s("ADD_REWARD:0"), 0, BYTE_COST);
    assert_eq!(r, Err(FarmError::NotRewardToken));
    assert!(matches!(contract.claim_rewards(&s("alice"), 0, 0), Err(FarmError::StakeNotFound)));
    assert!(matches!(contract.claim_rewards(&s("alice"), 9, 0), Err(FarmError::FarmNotFound)));
}

#[test]
fn storage_deposit_and_withdraw() {
    let mut contract = ChildFarmingContract::new(s("owner.testnet"));
    contract.storage_deposit(&s("alice"), 100);
    contract.storage_deposit(&s("alice"), 20);
    assert_eq!(contract.deposit_of(&s("alice")), 120);
    assert_eq!(contract.storage_withdraw(&s("alice"), Some(121)), Err(FarmError::InsufficientDeposit));
    assert_eq!(contract.storage_withdraw(&s("alice"), Some(20)), Ok(20));
    assert_eq!(contract.storage_withdraw(&s("alice"), None), Ok(100));
    assert_eq!(contract.deposit_of(&s("alice")), 0);
    contract.storage_deposit(&s("bob"), u128::MAX);
    contract.storage_deposit(&s("bob"), 5);
    assert_eq!(contract.deposit_of(&s("bob")), u128::MAX);
}

#[test]
fn storage_estimates() {
    assert_eq!(ChildFarmingContract::estimate_farm_storage(1), 208);
    assert_eq!(ChildFarmingContract::estimate_stake_storage(1), 96);
    assert_eq!(ChildFarmingContract::estimate_stake_storage(0), 64);
    assert_eq!(StorageKey::Stakes.prefix(), b"stakes".to_vec());
}

#[test]
fn list_queries_paginate() {
    let mut contract = setup(0, 100, 10, 0);
    for _ in 0..3 {
        contract.create_farm(&s("alice"), input(0, 100, 10, 0), 0, BYTE_COST).unwrap();
    }
    let page = contract.list_farms(1, 2, 0);
    assert_eq!(page.iter().map(|f| f.farm_id).collect::<Vec<_>>(), vec![1, 2]);
    assert_eq!(contract.list_farms(3, 10, 0).len(), 1);
    assert!(contract.list_farms(9, 10, 0).is_empty());
    for id in 0..4u64 {
        let msg = format!("STAKE:{}", id);
        contract.ft_on_transfer(&s("staking.token"), &s("alice"), 10 + id as u128, &msg, 0, BYTE_COST).unwrap();
    }
    contract.ft_on_transfer(&s("staking.token"), &s("bob"), 1, &s("STAKE:0"), 0, BYTE_COST).ok();
    let mine = contract.list_stakes_by_user(&s("alice"), 1, 2, 0);
    assert_eq!(mine.iter().map(|v| v.amount).collect::<Vec<_>>(), vec![11, 12]);
    assert_eq!(contract.list_stakes_by_user(&s("alice"), 0, 10, 0).len(), 4);
}

#[test]
fn accumulator_saturates() {
    assert_eq!(mul_sat(u128::MAX, 2), u128::MAX);
    assert_eq!(mul_sat(3, 4), 12);
    // 2 sessions of 100 against a pool of 150, over 4 staked
    assert_eq!(distribute_slot(2, 100, 150, 5, 4), (5 + 150 * ACC_REWARD_MULTIPLIER / 4, 0));
    assert_eq!(distribute_slot(1, 100, 150, 0, 4), (25 * ACC_REWARD_MULTIPLIER, 50));
    assert_eq!(calculate_pending(10, 3 * ACC_REWARD_MULTIPLIER, ACC_REWARD_MULTIPLIER), 20);
    assert_eq!(calculate_pending(10, 0, ACC_REWARD_MULTIPLIER), 0);
}

#[test]
fn payouts_never_exceed_funding() {
    let mut contract = setup(0, 7, 3, 0);
    contract.storage_deposit(&s("bob"), 10_000_000_000_000_000_000_000_000);
    contract
        .ft_on_transfer(&s("reward.token"), &s("alice"), 100, &s("ADD_REWARD:0"), 0, BYTE_COST)
        .unwrap();
    contract
        .ft_on_transfer(&s("staking.token"), &s("alice"), 3, &s("STAKE:0"), 0, BYTE_COST)
        .unwrap();
    contract
        .ft_on_transfer(&s("staking.token"), &s("bob"), 7, &s("STAKE:0"), 4 * NANOS, BYTE_COST)
        .unwrap();
    let mut paid: u128 = 0;
    for t in [5u64, 11, 20, 33, 47, 60, 90] {
        for who in ["alice", "bob"] {
            for tr in contract.claim_rewards(&s(who), 0, t * NANOS).unwrap() {
                paid += tr.amount;
            }
        }
        let still_owed: u128 = ["alice", "bob"]
            .iter()
            .map(|w| contract.get_stake_info(&s(w), 0, t * NANOS).unwrap().accrued_rewards[0])
            .sum();
        assert!(paid + still_owed <= 100);
    }
    // the pool ran dry: everything handed out went to someone or was lost to rounding
    assert_eq!(contract.farms[0].remaining_reward, vec![0]);
    assert_eq!(contract.farms[0].status, FarmStatus::Ended);
    assert_eq!(paid, 95);
}
