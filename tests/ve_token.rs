use glow_ve::error::ContractError;
use glow_ve::lock::{calculate_voting_power_at_timestamp, UserLockedBalance};
use glow_ve::ve_msg::{Cw20HookMsg, StakerResponse};
use glow_ve::ve_token::VeToken;
use glow_ve::{MAX_SECONDS, SECONDS_PER_WEEK, VOTING_POWER_CONSTANT_DIVISOR};

const TEST_CREATOR: u64 = 1000;
const VOTING_TOKEN: u64 = 100;
const TEST_VOTER: u64 = 1;
const TEST_VOTER_2: u64 = 2;

fn mock_instantiate(time: u64) -> VeToken {
    let mut ve = VeToken::instantiate(TEST_CREATOR, time);
    ve.execute_register_contracts(VOTING_TOKEN).unwrap();
    ve
}

fn create_lock(ve: &mut VeToken, user: u64, amount: u128, end_lock_time: u64, now: u64) -> Result<(), ContractError> {
    ve.receive_cw20(VOTING_TOKEN, user, amount, Some(Cw20HookMsg::CreateLock { end_lock_time }), now)
}

fn increase_amount(ve: &mut VeToken, user: u64, amount: u128, now: u64) -> Result<(), ContractError> {
    ve.receive_cw20(VOTING_TOKEN, user, amount, Some(Cw20HookMsg::IncreaseLockAmount {}), now)
}

fn staker(ve: &VeToken, user: u64, now: u64) -> StakerResponse {
    ve.query_staker(user, None, now).unwrap()
}

fn void_lock() -> UserLockedBalance {
    UserLockedBalance { deposited_amount: 0, end_lock_time: 0, start_lock_time: 0, timestamp: 0 }
}

#[test]
fn one_depositor_query_staker() {
    let mut now = SECONDS_PER_WEEK;
    let mut ve = mock_instantiate(now);
    let deposit_amount: u128 = 1000 * u128::pow(10, 6);
    let end_lock_time = now + SECONDS_PER_WEEK * 20;
    create_lock(&mut ve, TEST_VOTER, deposit_amount, end_lock_time, now).unwrap();

    // One-step lag: the lock is not visible at the time it was written.
    assert_eq!(staker(&ve, TEST_VOTER, now), StakerResponse::default());

    now += 1;
    assert_eq!(
        staker(&ve, TEST_VOTER, now),
        StakerResponse { deposited_amount: 1000000000, locked_amount: 999999918, balance: 384615321 }
    );

    now += SECONDS_PER_WEEK / 2 - 1;
    assert_eq!(
        staker(&ve, TEST_VOTER, now),
        StakerResponse { deposited_amount: 1000000000, locked_amount: 975000000, balance: 365624999 }
    );

    now += SECONDS_PER_WEEK / 2;
    now += SECONDS_PER_WEEK * 9;
    assert_eq!(
        staker(&ve, TEST_VOTER, now),
        StakerResponse {
            deposited_amount: deposit_amount,
            locked_amount: deposit_amount / 2,
            balance: (deposit_amount as u64 / 2 * SECONDS_PER_WEEK * 10 / VOTING_POWER_CONSTANT_DIVISOR) as u128,
        }
    );

    now += SECONDS_PER_WEEK * 10 - 1;
    assert_eq!(
        staker(&ve, TEST_VOTER, now),
        StakerResponse { deposited_amount: deposit_amount, locked_amount: 83, balance: 0 }
    );

    now += 1;
    assert_eq!(
        staker(&ve, TEST_VOTER, now),
        StakerResponse { deposited_amount: deposit_amount, locked_amount: 0, balance: 0 }
    );

    now += 1;
    assert_eq!(
        staker(&ve, TEST_VOTER, now),
        StakerResponse { deposited_amount: deposit_amount, locked_amount: 0, balance: 0 }
    );

    now += MAX_SECONDS;
    assert_eq!(
        staker(&ve, TEST_VOTER, now),
        StakerResponse { deposited_amount: deposit_amount, locked_amount: 0, balance: 0 }
    );
}

#[test]
fn voting_power_consistency() {
    let mut now = SECONDS_PER_WEEK;
    let mut ve = mock_instantiate(now);
    let deposit_amount: u128 = 1000 * u128::pow(10, 6);
    let end_lock_time = now + SECONDS_PER_WEEK * 20;
    create_lock(&mut ve, TEST_VOTER, deposit_amount, end_lock_time, now).unwrap();
    let user_locked_balance = ve.current_lock_of(TEST_VOTER);

    for _ in 0..10000 {
        let voting_power = user_locked_balance.voting_power_at_timestamp(now).unwrap();
        let expected_voting_power = calculate_voting_power_at_timestamp(&user_locked_balance, now).unwrap();
        assert!(voting_power > expected_voting_power - 10 && voting_power < expected_voting_power + 10);
        now += 127;
    }
}

#[test]
fn expired_at_edge() {
    let now = SECONDS_PER_WEEK - 1;
    let mut ve = mock_instantiate(now);
    let deposit_amount: u128 = 1000 * u128::pow(10, 6);
    let end_lock_time = now + 1;
    create_lock(&mut ve, TEST_VOTER, deposit_amount, end_lock_time, now).unwrap();
    let user_locked_balance = ve.current_lock_of(TEST_VOTER);

    assert!(!user_locked_balance.expired_at_timestamp(now));
    assert!(user_locked_balance.expired_at_timestamp(now + 1));
}

#[test]
fn test_underflow_overflow() {
    let mut now = 52 * 100 * SECONDS_PER_WEEK;
    let mut ve = mock_instantiate(now);
    let deposit_amount: u128 = 100_000_000 * u128::pow(10, 6);
    let end_lock_time = now + MAX_SECONDS;
    create_lock(&mut ve, TEST_VOTER, deposit_amount, end_lock_time, now).unwrap();
    let user_locked_balance = ve.current_lock_of(TEST_VOTER);
    println!("Locked balance: {:?}", user_locked_balance);

    now += 1;
    let staker_info = ve.query_staker(TEST_VOTER, None, now).unwrap();
    println!("Staker info: {:?}", staker_info);
}

#[test]
fn test_create_lock_validation() {
    let now = SECONDS_PER_WEEK - 1;
    let mut ve = mock_instantiate(now);

    match create_lock(&mut ve, TEST_VOTER, 0, now + 1, now) {
        Err(ContractError::InsufficientLockAmount {}) => {}
        _ => panic!("DO NOT ENTER HERE"),
    }
    match create_lock(&mut ve, TEST_VOTER, 1, now - 1, now) {
        Err(ContractError::EndLockTimeTooEarly {}) => {}
        _ => panic!("DO NOT ENTER HERE"),
    }
    match create_lock(&mut ve, TEST_VOTER, 1, now, now) {
        Err(ContractError::EndLockTimeTooEarly {}) => {}
        _ => panic!("DO NOT ENTER HERE"),
    }
    match create_lock(&mut ve, TEST_VOTER, 1, now + MAX_SECONDS + 1, now) {
        Err(ContractError::EndLockTimeTooLate { .. }) => {}
        _ => panic!("DO NOT ENTER HERE"),
    }
    create_lock(&mut ve, TEST_VOTER, 1, now + MAX_SECONDS, now).unwrap();
    match create_lock(&mut ve, TEST_VOTER, 1, now + MAX_SECONDS, now) {
        Err(ContractError::LockAlreadyExists {}) => {}
        _ => panic!("DO NOT ENTER HERE"),
    }
}

#[test]
fn test_increase_end_lock_time_validation() {
    let now = SECONDS_PER_WEEK;
    let mut ve = mock_instantiate(now);

    match ve.execute_increase_end_lock_time(TEST_VOTER, SECONDS_PER_WEEK * 3, now) {
        Err(ContractError::LockDoesNotExist {}) => {}
        _ => panic!("DO NOT ENTER"),
    };

    let deposit_amount: u128 = 1000 * u128::pow(10, 6);
    create_lock(&mut ve, TEST_VOTER, deposit_amount, SECONDS_PER_WEEK * 3, now).unwrap();

    match ve.execute_increase_end_lock_time(TEST_VOTER, SECONDS_PER_WEEK * 5, SECONDS_PER_WEEK * 4) {
        Err(ContractError::LockIsExpired {}) => {}
        _ => panic!("DO NOT ENTER"),
    };
    match ve.execute_increase_end_lock_time(TEST_VOTER, SECONDS_PER_WEEK * 3, now) {
        Err(ContractError::EndLockTimeTooEarly {}) => {}
        _ => panic!("DO NOT ENTER"),
    };
    match ve.execute_increase_end_lock_time(TEST_VOTER, SECONDS_PER_WEEK * 60, now) {
        Err(ContractError::EndLockTimeTooLate { .. }) => {}
        _ => panic!("DO NOT ENTER"),
    };
    ve.execute_increase_end_lock_time(TEST_VOTER, SECONDS_PER_WEEK * 30, now).unwrap();
}

#[test]
fn test_increase_lock_amount_validation() {
    let now = SECONDS_PER_WEEK - 1;
    let mut ve = mock_instantiate(now);
    let increase = 10_000_000;

    match increase_amount(&mut ve, TEST_VOTER, increase, now) {
        Err(ContractError::LockDoesNotExist {}) => {}
        _ => panic!("DO NOT ENTER"),
    };

    let deposit_amount: u128 = 1000 * u128::pow(10, 6);
    create_lock(&mut ve, TEST_VOTER, deposit_amount, SECONDS_PER_WEEK * 3, now).unwrap();

    match increase_amount(&mut ve, TEST_VOTER, increase, SECONDS_PER_WEEK * 4) {
        Err(ContractError::LockIsExpired {}) => {}
        _ => panic!("DO NOT ENTER"),
    };
    match increase_amount(&mut ve, TEST_VOTER, 0, SECONDS_PER_WEEK) {
        Err(ContractError::InsufficientLockIncreaseAmount {}) => {}
        _ => panic!("DO NOT ENTER"),
    };
    increase_amount(&mut ve, TEST_VOTER, increase, SECONDS_PER_WEEK).unwrap();
}

#[test]
fn test_create_lock_user_locked_balances_update() {
    let now = SECONDS_PER_WEEK;
    let mut ve = mock_instantiate(now);
    let user_locked_balance = ve.current_lock_of(TEST_VOTER);
    let deposit_amount: u128 = 1000 * u128::pow(10, 6);
    let end_lock_time = SECONDS_PER_WEEK * 3;
    create_lock(&mut ve, TEST_VOTER, deposit_amount, end_lock_time, now).unwrap();
    let new_user_locked_balance = ve.current_lock_of(TEST_VOTER);

    assert_eq!(user_locked_balance, void_lock());
    assert_eq!(
        new_user_locked_balance,
        UserLockedBalance {
            deposited_amount: deposit_amount,
            end_lock_time,
            start_lock_time: SECONDS_PER_WEEK,
            timestamp: SECONDS_PER_WEEK,
        }
    );
}

#[test]
fn test_increase_amount_user_locked_balances_update() {
    let mut now = SECONDS_PER_WEEK;
    let mut ve = mock_instantiate(now);
    let deposit_amount: u128 = 1000 * u128::pow(10, 6);
    create_lock(&mut ve, TEST_VOTER, deposit_amount, SECONDS_PER_WEEK * 3, now).unwrap();
    now += SECONDS_PER_WEEK;
    let user_locked_balance = ve.current_lock_of(TEST_VOTER);
    increase_amount(&mut ve, TEST_VOTER, deposit_amount, now).unwrap();
    let new_user_locked_balance = ve.current_lock_of(TEST_VOTER);

    assert_eq!(
        new_user_locked_balance,
        UserLockedBalance {
            deposited_amount: deposit_amount * 2,
            end_lock_time: user_locked_balance.end_lock_time,
            start_lock_time: SECONDS_PER_WEEK * 2,
            timestamp: SECONDS_PER_WEEK * 2,
        }
    );
}

#[test]
fn test_increase_end_lock_time_user_locked_balances_update() {
    let mut now = SECONDS_PER_WEEK;
    let mut ve = mock_instantiate(now);
    let deposit_amount: u128 = 1000 * u128::pow(10, 6);
    create_lock(&mut ve, TEST_VOTER, deposit_amount, SECONDS_PER_WEEK * 3, now).unwrap();
    now += SECONDS_PER_WEEK;
    let user_locked_balance = ve.current_lock_of(TEST_VOTER);
    ve.execute_increase_end_lock_time(TEST_VOTER, SECONDS_PER_WEEK * 4, now).unwrap();
    let new_user_locked_balance = ve.current_lock_of(TEST_VOTER);

    assert_eq!(
        new_user_locked_balance,
        UserLockedBalance {
            deposited_amount: user_locked_balance.deposited_amount,
            end_lock_time: SECONDS_PER_WEEK * 4,
            start_lock_time: SECONDS_PER_WEEK * 2,
            timestamp: SECONDS_PER_WEEK * 2,
        }
    );
}

#[test]
fn test_full_withdraw_user_locked_balances_update() {
    let mut now = SECONDS_PER_WEEK;
    let mut ve = mock_instantiate(now);
    let deposit_amount: u128 = 1000 * u128::pow(10, 6);
    create_lock(&mut ve, TEST_VOTER, deposit_amount, SECONDS_PER_WEEK * 3, now).unwrap();
    now += 4 * SECONDS_PER_WEEK;
    let withdrawn = ve.execute_withdraw(TEST_VOTER, now).unwrap();
    assert_eq!(withdrawn, deposit_amount);

    let new_user_locked_balance = ve.current_lock_of(TEST_VOTER);
    assert_eq!(new_user_locked_balance, UserLockedBalance::void_lock_with_timestamp(now));
}

#[test]
fn test_partial_withdraw_user_locked_balances_update() {
    let mut now = SECONDS_PER_WEEK;
    let mut ve = mock_instantiate(now);
    let deposit_amount: u128 = 1000 * u128::pow(10, 6);
    create_lock(&mut ve, TEST_VOTER, deposit_amount, SECONDS_PER_WEEK * 3, now).unwrap();
    now += SECONDS_PER_WEEK;
    let user_locked_balance = ve.current_lock_of(TEST_VOTER);
    let withdrawn = ve.execute_withdraw(TEST_VOTER, now).unwrap();
    assert_eq!(withdrawn, deposit_amount / 2);

    let new_user_locked_balance = ve.current_lock_of(TEST_VOTER);
    assert_eq!(
        new_user_locked_balance,
        UserLockedBalance {
            deposited_amount: deposit_amount / 2,
            end_lock_time: user_locked_balance.end_lock_time,
            start_lock_time: now,
            timestamp: now,
        }
    );
}

fn assert_totals_close(ve: &VeToken, now: u64) {
    let staker_info_1 = staker(ve, TEST_VOTER, now);
    let staker_info_2 = staker(ve, TEST_VOTER_2, now);
    let state_info = ve.query_state(None, now).unwrap();
    assert!(
        staker_info_1.balance + staker_info_2.balance - 10 < state_info.total_balance
            && staker_info_1.balance + staker_info_2.balance + 10 > state_info.total_balance
    );
    assert!(
        staker_info_1.locked_amount + staker_info_2.locked_amount - 10 < state_info.total_locked_amount
            && staker_info_1.locked_amount + staker_info_2.locked_amount + 10 > state_info.total_locked_amount
    );
}

#[test]
fn two_depositors_query_total_balance() {
    let mut now = SECONDS_PER_WEEK;
    let mut ve = mock_instantiate(now);
    create_lock(&mut ve, TEST_VOTER, 1000 * u128::pow(10, 6), SECONDS_PER_WEEK * 5, now).unwrap();
    create_lock(&mut ve, TEST_VOTER_2, 2000 * u128::pow(10, 6), SECONDS_PER_WEEK + MAX_SECONDS, now).unwrap();

    let user_locked_balance_1 = ve.current_lock_of(TEST_VOTER);
    let user_locked_balance_2 = ve.current_lock_of(TEST_VOTER_2);
    let user1_power = calculate_voting_power_at_timestamp(&user_locked_balance_1, now).unwrap();
    let user2_power = calculate_voting_power_at_timestamp(&user_locked_balance_2, now).unwrap();
    let state = ve.states[ve.states.len() - 1];
    assert_eq!(
        user1_power + user2_power,
        state.voting_power_coefficients.evaluate_voting_power_at_timestamp(now).unwrap()
    );

    now += SECONDS_PER_WEEK * 3 / 2;
    assert_totals_close(&ve, now);

    now += SECONDS_PER_WEEK * 3 / 2;
    now += SECONDS_PER_WEEK * 6;
    assert_totals_close(&ve, now);

    increase_amount(&mut ve, TEST_VOTER_2, 10_000_000, now).unwrap();
    assert_totals_close(&ve, now);

    now += SECONDS_PER_WEEK * 3 / 2;
    assert_totals_close(&ve, now);

    now += SECONDS_PER_WEEK * 50;
    let staker_info_1 = staker(&ve, TEST_VOTER, now);
    let staker_info_2 = staker(&ve, TEST_VOTER_2, now);
    let state_info = ve.query_state(None, now).unwrap();
    assert!(staker_info_1.balance + staker_info_2.balance == state_info.total_balance);
    assert!(staker_info_1.locked_amount + staker_info_2.locked_amount == state_info.total_locked_amount);
}
