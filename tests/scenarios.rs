use glow_ve::coefficients::QuadraticEquationCoefficients;
use glow_ve::decimal::{Decimal, DECIMAL_FRACTIONAL};
use glow_ve::error::ContractError;
use glow_ve::fee_distributor::FeeDistributor;
use glow_ve::lock::UserLockedBalance;
use glow_ve::ve_msg::{Cw20HookMsg, StakerResponse};
use glow_ve::ve_token::VeToken;
use glow_ve::wide::U256;
use glow_ve::{MAX_SECONDS, MAX_WEEKS, SECONDS_PER_WEEK};

const OWNER: u64 = 1000;
const TOKEN: u64 = 100;
const ALICE: u64 = 1;
const BOB: u64 = 2;

fn engine(now: u64) -> VeToken {
    let mut ve = VeToken::instantiate(OWNER, now);
    ve.execute_register_contracts(TOKEN).unwrap();
    ve
}

fn lock(ve: &mut VeToken, user: u64, amount: u128, end: u64, now: u64) -> Result<(), ContractError> {
    ve.receive_cw20(TOKEN, user, amount, Some(Cw20HookMsg::CreateLock { end_lock_time: end }), now)
}

#[test]
fn decimal_ratio_and_product_round_down() {
    let third = Decimal::from_ratio(1, 3);
    assert_eq!((third.whole(), third.frac()), (0, 333_333_333_333_333_333));
    assert_eq!(third.floor_mul(9), Some(2));
    let seven_halves = Decimal::from_ratio(7, 2);
    assert_eq!((seven_halves.whole(), seven_halves.frac()), (3, DECIMAL_FRACTIONAL / 2));
    let big = Decimal::from_ratio(u128::MAX, 1);
    assert_eq!((big.whole(), big.frac()), (u128::MAX, 0));
    assert_eq!(big.floor_mul(2), None);
    assert_eq!(big.floor_mul(1), Some(u128::MAX));
    assert_eq!(big.checked_add(Decimal::from_ratio(1, 1)), None);
    let sum = third.checked_add(Decimal::from_ratio(2, 3)).unwrap();
    assert_eq!((sum.whole(), sum.frac()), (0, 999_999_999_999_999_999));
    assert_eq!(third.checked_sub(seven_halves), None);
    let diff = seven_halves.checked_sub(third).unwrap();
    assert_eq!((diff.whole(), diff.frac()), (3, 166_666_666_666_666_667));
}

#[test]
fn expired_edge_lock_withdraws_everything() {
    let mut now = SECONDS_PER_WEEK - 1;
    let mut ve = engine(now);
    lock(&mut ve, ALICE, 1_000_000_000, now + 1, now).unwrap();
    now += 1;
    let lock_now = ve.current_lock_of(ALICE);
    assert!(lock_now.expired_at_timestamp(now));
    assert_eq!(lock_now.voting_power_at_timestamp(now), Some(0));
    assert_eq!(lock_now.locked_amount_at_timestamp(now), 0);
    assert_eq!(ve.execute_withdraw(ALICE, now), Ok(1_000_000_000));
}

#[test]
fn create_then_withdraw_after_expiry_leaves_void_lock() {
    let mut now = SECONDS_PER_WEEK;
    let mut ve = engine(now);
    lock(&mut ve, ALICE, 5_000, 4 * SECONDS_PER_WEEK, now).unwrap();
    now = 5 * SECONDS_PER_WEEK;
    assert_eq!(ve.execute_withdraw(ALICE, now), Ok(5_000));
    let later = ve.query_staker(ALICE, None, now + 1).unwrap();
    assert_eq!(later, StakerResponse { deposited_amount: 0, locked_amount: 0, balance: 0 });
    assert_eq!(ve.query_state(None, now + 1).unwrap().total_deposited_amount, 0);
    // A new lock can be created once the old one is withdrawn.
    lock(&mut ve, ALICE, 7, 8 * SECONDS_PER_WEEK, now + 1).unwrap();
}

#[test]
fn withdraw_needs_a_lock_and_a_registered_token() {
    let now = SECONDS_PER_WEEK;
    let mut ve = engine(now);
    assert_eq!(ve.execute_withdraw(ALICE, now), Err(ContractError::LockDoesNotExist {}));

    let mut bare = VeToken::instantiate(OWNER, now);
    assert_eq!(
        bare.receive_cw20(TOKEN, ALICE, 10, Some(Cw20HookMsg::IncreaseLockAmount {}), now),
        Err(ContractError::Unauthorized {})
    );
    bare.execute_register_contracts(TOKEN).unwrap();
    assert_eq!(bare.execute_register_contracts(TOKEN), Err(ContractError::Unauthorized {}));
    assert_eq!(bare.receive_cw20(TOKEN, ALICE, 10, None, now), Err(ContractError::DataShouldBeGiven {}));

    let mut unregistered = VeToken::instantiate(OWNER, now);
    unregistered.config.cw20_address = Some(TOKEN);
    lock(&mut unregistered, ALICE, 10, 3 * SECONDS_PER_WEEK, now).unwrap();
    unregistered.config.cw20_address = None;
    assert_eq!(
        unregistered.execute_withdraw(ALICE, now + 1),
        Err(ContractError::ConfigContractsNotRegistered {})
    );
}

#[test]
fn lock_horizon_boundaries() {
    let now = SECONDS_PER_WEEK - 1;
    let mut ve = engine(now);
    match lock(&mut ve, ALICE, 1, now + MAX_SECONDS + 1, now) {
        Err(ContractError::EndLockTimeTooLate { max_weeks, lock_duration_in_weeks }) => {
            assert_eq!(max_weeks, MAX_WEEKS);
            assert_eq!(lock_duration_in_weeks, (MAX_SECONDS + 1) / MAX_WEEKS);
        }
        _ => panic!("expected EndLockTimeTooLate"),
    }
    lock(&mut ve, ALICE, 1, now + MAX_SECONDS, now).unwrap();
    assert_eq!(ve.current_lock_of(ALICE).end_lock_time, MAX_WEEKS * SECONDS_PER_WEEK);

    // The end is rounded down to a week before it is checked.
    assert_eq!(
        lock(&mut ve, BOB, 1, SECONDS_PER_WEEK - 1, SECONDS_PER_WEEK - 10),
        Err(ContractError::EndLockTimeTooEarly {})
    );
}

#[test]
fn oversized_lock_is_refused_whole() {
    let now = SECONDS_PER_WEEK;
    let mut ve = engine(now);
    let states_before = ve.states.len();
    assert_eq!(lock(&mut ve, ALICE, u128::MAX - 1, 2 * SECONDS_PER_WEEK, now), Err(ContractError::Overflow {}));
    assert_eq!(ve.current_lock_of(ALICE), UserLockedBalance::void_lock_with_timestamp(0));
    assert_eq!(ve.states.len(), states_before);
    assert_eq!(ve.query_state(None, now + 1).unwrap().total_deposited_amount, 0);
}

#[test]
fn query_at_write_time_sees_previous_value() {
    let now = 3 * SECONDS_PER_WEEK;
    let mut ve = engine(now);
    lock(&mut ve, ALICE, 1_000, 6 * SECONDS_PER_WEEK, now).unwrap();
    assert_eq!(ve.query_staker(ALICE, Some(now), now).unwrap().deposited_amount, 0);
    assert_eq!(ve.query_state(Some(now), now).unwrap().total_deposited_amount, 0);
    assert_eq!(ve.query_staker(ALICE, Some(now + 1), now + 1).unwrap().deposited_amount, 1_000);
    assert_eq!(ve.query_state(Some(now + 1), now + 1).unwrap().total_deposited_amount, 1_000);
}

#[test]
fn expired_locks_leave_the_aggregate_at_their_end_week() {
    let now = SECONDS_PER_WEEK;
    let mut ve = engine(now);
    lock(&mut ve, ALICE, 1_000_000, 3 * SECONDS_PER_WEEK, now).unwrap();
    lock(&mut ve, BOB, 2_000_000, 10 * SECONDS_PER_WEEK, now).unwrap();
    let t = 3 * SECONDS_PER_WEEK;
    let total = ve.query_state(Some(t), t).unwrap().total_balance;
    let bob = ve.query_staker(BOB, Some(t), t).unwrap().balance;
    assert_eq!(ve.query_staker(ALICE, Some(t), t).unwrap().balance, 0);
    assert!(total + 2 >= bob && total <= bob + 2);
    ve.execute_global_checkpoint(4 * SECONDS_PER_WEEK).unwrap();
    assert_eq!(ve.states[ve.states.len() - 1].timestamp, 4 * SECONDS_PER_WEEK);
    assert_eq!(ve.query_state(None, 4 * SECONDS_PER_WEEK + 1).unwrap().total_deposited_amount, 3_000_000);
}

#[test]
fn distribute_without_new_balance_changes_nothing() {
    let now = SECONDS_PER_WEEK;
    let mut ve = engine(now);
    lock(&mut ve, ALICE, 1_000_000, 5 * SECONDS_PER_WEEK, now).unwrap();
    let mut fd = FeeDistributor::instantiate(OWNER, 9);
    let t = 2 * SECONDS_PER_WEEK + 5;
    assert_eq!(fd.distribute_glow(&ve, 40, t), Ok(40));
    let weekly = fd.weekly_token_distribution.clone();
    assert_eq!(fd.distribute_glow(&ve, 40, t), Err(ContractError::NothingToDistribute {}));
    assert_eq!(fd.weekly_token_distribution, weekly);
    assert_eq!(fd.state.total_distributed_unclaimed_fees, 40);
    assert_eq!(fd.distribute_glow(&ve, 39, t), Err(ContractError::Overflow {}));
    assert_eq!(fd.distribute_glow(&ve, 45, t), Ok(5));
    assert_eq!(fd.weekly_token_distribution[2], 45);
}

#[test]
fn claim_with_nothing_to_take_keeps_cursor() {
    let now = SECONDS_PER_WEEK;
    let mut ve = engine(now);
    lock(&mut ve, ALICE, 1_000_000, 5 * SECONDS_PER_WEEK, now).unwrap();
    let mut fd = FeeDistributor::instantiate(OWNER, 9);
    assert_eq!(fd.claim(&ve, ALICE, 4 * SECONDS_PER_WEEK, None), Ok(0));
    assert_eq!(fd.last_claimed_fee_timestamp(ALICE), 0);
    // A distribution in the current week is not claimable until the week is over.
    assert_eq!(fd.distribute_glow(&ve, 10, 4 * SECONDS_PER_WEEK + 1), Ok(10));
    assert_eq!(fd.claim(&ve, ALICE, 4 * SECONDS_PER_WEEK + 2, None), Ok(0));
    assert_eq!(fd.last_claimed_fee_timestamp(ALICE), 0);
    assert_eq!(fd.claim(&ve, ALICE, 5 * SECONDS_PER_WEEK, None), Ok(10));
    assert_eq!(fd.last_claimed_fee_timestamp(ALICE), 4 * SECONDS_PER_WEEK);
    assert_eq!(fd.claim(&ve, ALICE, 9 * SECONDS_PER_WEEK, None), Ok(0));
    assert_eq!(fd.last_claimed_fee_timestamp(ALICE), 4 * SECONDS_PER_WEEK);
}

#[test]
fn two_stakers_split_a_bucket() {
    let now = SECONDS_PER_WEEK;
    let mut ve = engine(now);
    lock(&mut ve, ALICE, 1_000_000_000, 11 * SECONDS_PER_WEEK, now).unwrap();
    lock(&mut ve, BOB, 3_000_000_000, 31 * SECONDS_PER_WEEK, now).unwrap();
    for t in [now + 1, 2 * SECONDS_PER_WEEK, 5 * SECONDS_PER_WEEK + 77, 10 * SECONDS_PER_WEEK + 3] {
        let a = ve.query_staker(ALICE, None, t).unwrap().balance;
        let b = ve.query_staker(BOB, None, t).unwrap().balance;
        let total = ve.query_state(None, t).unwrap().total_balance;
        assert!(a + b <= total + 10 && total <= a + b + 10);
    }
    let mut fd = FeeDistributor::instantiate(OWNER, 9);
    assert_eq!(fd.distribute_glow(&ve, 1_000_000, 3 * SECONDS_PER_WEEK + 5), Ok(1_000_000));
    let t = 4 * SECONDS_PER_WEEK;
    let alice = fd.claim(&ve, ALICE, t, None).unwrap();
    let bob = fd.claim(&ve, BOB, t, None).unwrap();
    assert!(alice > 0 && bob > alice);
    assert!(alice + bob <= 1_000_000 && alice + bob + 2 >= 1_000_000);
    assert_eq!(fd.state.total_distributed_unclaimed_fees, 1_000_000 - alice - bob);
}

#[test]
fn bounded_claim_takes_twenty_weeks_then_the_rest() {
    let mut now = SECONDS_PER_WEEK;
    let mut ve = engine(now);
    lock(&mut ve, ALICE, 1_000_000_000, 50 * SECONDS_PER_WEEK, now).unwrap();
    let mut fd = FeeDistributor::instantiate(OWNER, 9);
    let mut balance: u128 = 0;
    for week in 2..32u64 {
        now = week * SECONDS_PER_WEEK + 100;
        balance += 1_000;
        assert_eq!(fd.distribute_glow(&ve, balance, now), Ok(1_000));
    }
    now = 33 * SECONDS_PER_WEEK;
    let first = fd.claim(&ve, ALICE, now, Some(20)).unwrap();
    assert_eq!(first, 20 * 1_000);
    let cursor = fd.last_claimed_fee_timestamp(ALICE);
    assert_eq!(cursor, 21 * SECONDS_PER_WEEK);
    assert_eq!(cursor % SECONDS_PER_WEEK, 0);
    let second = fd.claim(&ve, ALICE, now, None).unwrap();
    assert_eq!(second, 10 * 1_000);
    assert_eq!(fd.last_claimed_fee_timestamp(ALICE), 31 * SECONDS_PER_WEEK);
    assert_eq!(fd.state.total_distributed_unclaimed_fees, 0);
    assert_eq!(fd.claim(&ve, ALICE, now, None), Ok(0));
}

#[test]
fn config_owner_and_registration() {
    let mut fd = FeeDistributor::instantiate(OWNER, 9);
    assert_eq!(fd.update_config(ALICE, Some(ALICE)), Err(ContractError::Unauthorized {}));
    fd.update_config(OWNER, Some(BOB)).unwrap();
    assert_eq!(fd.config.owner, BOB);
    fd.update_config(BOB, None).unwrap();
    assert_eq!(fd.config.owner, BOB);
    fd.register_contracts(1, 2, 3).unwrap();
    assert_eq!(fd.register_contracts(1, 2, 3), Err(ContractError::Unauthorized {}));
}

#[test]
fn error_messages_are_readable() {
    assert_eq!(ContractError::Unauthorized {}.message(), "Unauthorized");
    assert_eq!(ContractError::NothingToDistribute {}.message(), "Nothing to distribute");
}

#[test]
fn total_deposit_is_the_sum_of_current_deposits() {
    let mut now = SECONDS_PER_WEEK;
    let mut ve = engine(now);
    lock(&mut ve, ALICE, 700, 4 * SECONDS_PER_WEEK, now).unwrap();
    lock(&mut ve, BOB, 300, 9 * SECONDS_PER_WEEK, now).unwrap();
    now += SECONDS_PER_WEEK;
    ve.receive_cw20(TOKEN, BOB, 50, Some(Cw20HookMsg::IncreaseLockAmount {}), now).unwrap();
    now = 5 * SECONDS_PER_WEEK;
    assert_eq!(ve.execute_withdraw(ALICE, now), Ok(700));
    let t = now + 1;
    let alice = ve.query_staker(ALICE, None, t).unwrap().deposited_amount;
    let bob = ve.query_staker(BOB, None, t).unwrap().deposited_amount;
    assert_eq!((alice, bob), (0, 350));
    assert_eq!(ve.query_state(None, t).unwrap().total_deposited_amount, alice + bob);
}

#[test]
fn large_terms_that_cancel_still_evaluate() {
    let zero = Decimal::from_ratio(0, 1);
    let huge = Decimal::from_parts(u128::MAX, 0).unwrap();
    let falling = QuadraticEquationCoefficients { quad_coefficient: zero, linear_coefficient: huge, constant_coefficient: zero };
    assert_eq!(falling.evaluate_voting_power_at_timestamp(u64::MAX), Some(0));
    let steep = QuadraticEquationCoefficients { quad_coefficient: huge, linear_coefficient: zero, constant_coefficient: zero };
    assert_eq!(steep.evaluate_locked_balance_at_timestamp(u64::MAX), 0);
    assert_eq!(steep.evaluate_voting_power_at_timestamp(u64::MAX), None);
    let small = QuadraticEquationCoefficients {
        quad_coefficient: Decimal::from_ratio(1, 1),
        linear_coefficient: Decimal::from_ratio(4, 1),
        constant_coefficient: Decimal::from_ratio(4, 1),
    };
    // (4 + t^2 - 4 t) at t = 2 is zero; at t = 10_000 it is 99_960_004.
    assert_eq!(small.evaluate_voting_power_at_timestamp(2), Some(0));
    assert_eq!(small.evaluate_voting_power_at_timestamp(10_000), Some(99_960_004 / 31_449_600));
    assert_eq!(small.evaluate_locked_balance_at_timestamp(1), 1);
}

#[test]
fn wide_arithmetic_is_exact() {
    let p = U256::mul_wide(u128::MAX, u128::MAX);
    assert_eq!((p.hi, p.lo), (u128::MAX - 1, 1));
    assert_eq!(p.div_u128(u128::MAX), Some(u128::MAX));
    assert_eq!(p.div_u128(u128::MAX - 1), None);
    // (5 * 2^128 + 7) / 6, checked by multiplying back.
    let q = U256 { hi: 5, lo: 7 }.div_small(6);
    assert_eq!(q.hi, 0);
    let back = U256::mul_wide(q.lo, 6).checked_add(U256 { hi: 0, lo: 3 }).unwrap();
    assert_eq!(back, U256 { hi: 5, lo: 7 });
    assert_eq!(U256 { hi: 1, lo: 0 }.saturating_sub(U256 { hi: 0, lo: 1 }), U256 { hi: 0, lo: u128::MAX });
    assert_eq!(U256 { hi: 0, lo: 1 }.saturating_sub(U256 { hi: 1, lo: 0 }), U256 { hi: 0, lo: 0 });
    assert_eq!(U256 { hi: u128::MAX, lo: 1 }.checked_add(U256 { hi: 0, lo: u128::MAX }), None);
}

#[test]
fn a_lone_staker_claims_a_very_large_bucket_whole() {
    let now = SECONDS_PER_WEEK;
    let mut ve = engine(now);
    lock(&mut ve, ALICE, 1_000_000_000, 20 * SECONDS_PER_WEEK, now).unwrap();
    let mut fd = FeeDistributor::instantiate(OWNER, 9);
    let bucket: u128 = 1 << 110;
    assert_eq!(fd.distribute_glow(&ve, bucket, 2 * SECONDS_PER_WEEK + 1), Ok(bucket));
    assert_eq!(fd.claim(&ve, ALICE, 3 * SECONDS_PER_WEEK, None), Ok(bucket));
    assert_eq!(fd.state.total_distributed_unclaimed_fees, 0);
}
