use crate::coefficients::triple;
use crate::fee_distributor::{
    amount_at, claim_scan, claimable, first_week_from, lemma_claim_scan_facts, sum_amounts,
    FeeDistributor,
};
use crate::lock::UserLockedBalance;
use crate::ve_contract::{withdrawn_amount, withdrawn_record};
use crate::ve_msg::StakerResponse;
use crate::ve_token::{
    catch_up_completes, catch_up_sum, change_at, deposit_sum, ending_sum, entry_lock, history_of,
    lemma_catch_up_is_live_difference, lemma_entry_within_sums, lemma_user_index_bounds, live_sum,
    lock_as_of, next_week, nonneg3, prior_share, state_as_of, sub3, user_index, week_floor, State,
    VeToken, MAX_CATCH_UP_WEEKS,
};
use crate::{MAX_SECONDS, SECONDS_PER_WEEK};
use vstd::prelude::*;

verus! {

/// No lock that the engine holds or ever held is mixed: its deposit, start and end
/// are all zero or all positive.
pub proof fn lemma_lock_never_mixed(ve: &VeToken, user: u64, t: int)
    requires
        ve.wf(),
    ensures
        ve.current_lock(user).wf(),
        lock_as_of(history_of(ve.users@, user), t).wf(),
{
    ve.lemma_current_lock_wf(user);
    crate::ve_token::lemma_user_index_bounds(ve.users@, user);
    let i = crate::ve_token::user_index(ve.users@, user);
    let h = history_of(ve.users@, user);
    assert forall|j: int| 0 <= j < h.len() implies crate::ve_token::record_wf(#[trigger] h[j]) by {
        assert(crate::ve_token::record_wf(ve.users@[i].history@[j]));
    }
    crate::ve_token::lemma_lock_as_of_wf(h, t);
}

/// The aggregate's total deposit is the sum of the deposits of all current locks.
pub proof fn lemma_total_deposit_is_sum(ve: &VeToken)
    requires
        ve.wf(),
    ensures
        ve.current_state().total_deposit == deposit_sum(ve.users@),
{
}

/// The aggregate is the sum of its locks. While each update finds at most
/// `MAX_CATCH_UP_WEEKS` week boundaries to catch up on, the aggregate's coefficients are
/// the sum of those of the current locks that end after its time, and the change
/// scheduled at each week is the sum of those of the locks that end then; every
/// operation of the engine keeps this (see `consistent` in their contracts).
pub proof fn lemma_aggregate_is_sum_of_live_locks(ve: &VeToken, w: int)
    requires
        ve.consistent(),
    ensures
        triple(ve.current_state().voting_power_coefficients) == live_sum(
            ve.users@,
            ve.current_state().timestamp as int,
        ),
        change_at(ve.changes(), w) == ending_sum(ve.users@, w),
{
}

/// In a consistent engine that catches up fully, replacing a user's lock can fail only
/// on range: the catch-up, the removal of the prior lock from the aggregate and from its
/// scheduled change, and the removal of its deposit never go below zero.
pub proof fn lemma_consistent_update_stays_nonnegative(ve: &VeToken, user: u64, t: int)
    requires
        ve.wf(),
        ve.consistent(),
        ve.current_state().timestamp <= t,
        catch_up_completes(ve.current_state().timestamp as int, t),
    ensures
        ({
            let prev = ve.current_lock(user);
            let cur = ve.current_state();
            let caught = sub3(
                triple(cur.voting_power_coefficients),
                catch_up_sum(ve.changes(), cur.timestamp as int, t),
            );
            &&& nonneg3(caught)
            &&& nonneg3(sub3(caught, prior_share(prev, t)))
            &&& nonneg3(sub3(change_at(ve.changes(), prev.end_lock_time as int), prev.spec_triple()))
            &&& cur.total_deposit >= prev.deposited_amount
        }),
{
    let prev = ve.current_lock(user);
    let cur = ve.current_state();
    ve.lemma_ends_aligned();
    ve.lemma_entries_wf();
    lemma_catch_up_is_live_difference(
        ve.changes(),
        ve.users@,
        cur.timestamp as int,
        next_week(cur.timestamp as int),
        t,
        MAX_CATCH_UP_WEEKS as nat,
    );
    lemma_user_index_bounds(ve.users@, user);
    let i = user_index(ve.users@, user);
    assert(change_at(ve.changes(), prev.end_lock_time as int) == ending_sum(ve.users@, prev.end_lock_time as int));
    if i >= 0 {
        assert(entry_lock(ve.users@[i]) == prev);
        lemma_entry_within_sums(ve.users@, i, t, prev.end_lock_time as int);
    } else if ve.users@.len() > 0 {
        lemma_entry_within_sums(ve.users@, 0, t, prev.end_lock_time as int);
    }
}

/// Everything distributed, less everything claimed, is what the ledger holds as unclaimed.
pub proof fn lemma_unclaimed_is_distributed_less_claimed(fd: &FeeDistributor)
    requires
        fd.wf(),
    ensures
        sum_amounts(fd.weekly_token_distribution@) - fd.claimed@ == fd.state.total_distributed_unclaimed_fees,
{
}

/// Every claim cursor is zero or a week boundary.
pub proof fn lemma_cursor_is_week(fd: &FeeDistributor, user: u64)
    requires
        fd.wf(),
    ensures
        fd.cursor(user) as int % SECONDS_PER_WEEK as int == 0,
{
    crate::fee_distributor::lemma_cursor_index_bounds(fd.user_last_claimed_fee_timestamp@, user);
    let i = crate::fee_distributor::cursor_index(fd.user_last_claimed_fee_timestamp@, user);
    if i >= 0 {
        assert(fd.user_last_claimed_fee_timestamp@[i].timestamp as int % SECONDS_PER_WEEK as int == 0);
    }
}

proof fn lemma_scan_reads_from(
    a: Seq<u128>,
    b: Seq<u128>,
    ve: &VeToken,
    user: u64,
    k: int,
    end_k: int,
    limit: nat,
)
    requires
        forall|j: int| j >= k ==> amount_at(a, j) == amount_at(b, j),
    ensures
        claim_scan(a, ve, user, k, end_k, limit) == claim_scan(b, ve, user, k, end_k, limit),
    decreases (if k <= end_k { end_k - k + 1 } else { 0 }),
{
    if k > end_k || limit == 0 {
    } else {
        assert(amount_at(a, k) == amount_at(b, k));
        lemma_scan_reads_from(a, b, ve, user, k + 1, end_k, limit);
        if limit > 0 {
            lemma_scan_reads_from(a, b, ve, user, k + 1, end_k, (limit - 1) as nat);
        }
    }
}

/// A claim after cursor `cursor` reads no week at or before it, and leaves a cursor
/// no earlier than it: weeks already claimed cannot be claimed again.
pub proof fn lemma_claim_ignores_claimed_weeks(
    a: Seq<u128>,
    b: Seq<u128>,
    ve: &VeToken,
    user: u64,
    cursor: u64,
    now: u64,
    limit: nat,
)
    requires
        forall|k: int| k * SECONDS_PER_WEEK > cursor ==> amount_at(a, k) == amount_at(b, k),
    ensures
        claimable(a, ve, user, cursor, now, limit) == claimable(b, ve, user, cursor, now, limit),
        claimable(a, ve, user, cursor, now, limit) matches Some(c) ==> c.1 >= cursor,
{
    let t = cursor + SECONDS_PER_WEEK;
    let start_k = first_week_from(t);
    let end_k = now as int / SECONDS_PER_WEEK as int - 1;
    vstd::arithmetic::div_mod::lemma_fundamental_div_mod(t + SECONDS_PER_WEEK - 1, SECONDS_PER_WEEK as int);
    assert(start_k * SECONDS_PER_WEEK >= t) by (nonlinear_arith)
        requires
            start_k == (t + SECONDS_PER_WEEK - 1) / SECONDS_PER_WEEK as int,
            t + SECONDS_PER_WEEK - 1 == SECONDS_PER_WEEK * start_k + (t + SECONDS_PER_WEEK - 1) % (SECONDS_PER_WEEK as int),
            (t + SECONDS_PER_WEEK - 1) % (SECONDS_PER_WEEK as int) < SECONDS_PER_WEEK,
    ;
    assert forall|j: int| j >= start_k implies amount_at(a, j) == amount_at(b, j) by {
        assert(j * SECONDS_PER_WEEK >= start_k * SECONDS_PER_WEEK) by (nonlinear_arith)
            requires
                j >= start_k,
        ;
    }
    lemma_scan_reads_from(a, b, ve, user, start_k, end_k, limit);
    lemma_claim_scan_facts(a, ve, user, start_k, end_k, limit);
}

proof fn lemma_scan_of_empty_weeks(weekly: Seq<u128>, ve: &VeToken, user: u64, k: int, end_k: int, limit: nat)
    requires
        forall|j: int| k <= j <= end_k ==> amount_at(weekly, j) == 0,
    ensures
        claim_scan(weekly, ve, user, k, end_k, limit) == Some((0nat, -1int, 0int)),
    decreases (if k <= end_k { end_k - k + 1 } else { 0 }),
{
    if k <= end_k && limit > 0 {
        lemma_scan_of_empty_weeks(weekly, ve, user, k + 1, end_k, limit);
    }
}

/// A claim over weeks that hold no distribution owes nothing and leaves the cursor
/// where it was.
pub proof fn lemma_empty_claim(weekly: Seq<u128>, ve: &VeToken, user: u64, cursor: u64, now: u64, limit: nat)
    requires
        forall|k: int|
            first_week_from(cursor + SECONDS_PER_WEEK) <= k <= now as int / SECONDS_PER_WEEK as int - 1
                ==> amount_at(weekly, k) == 0,
    ensures
        claimable(weekly, ve, user, cursor, now, limit) == Some((cursor, cursor, 0int)),
{
    lemma_scan_of_empty_weeks(
        weekly,
        ve,
        user,
        first_week_from(cursor + SECONDS_PER_WEEK),
        now as int / SECONDS_PER_WEEK as int - 1,
        limit,
    );
}

/// Withdrawing an expired lock pays out its whole deposit, and from then on the user's
/// lock reads as void.
pub proof fn lemma_withdraw_after_expiry(
    before: &VeToken,
    after: &VeToken,
    user: u64,
    now: u64,
    t: int,
)
    requires
        before.current_lock(user).is_live(),
        before.current_lock(user).spec_expired_at(now as int),
        VeToken::lock_replaced(
            before,
            after,
            user,
            before.current_lock(user),
            withdrawn_record(before.current_lock(user), now as int),
        ),
        t > now,
    ensures
        withdrawn_amount(before.current_lock(user), now as int) == before.current_lock(user).deposited_amount,
        !after.current_lock(user).is_live(),
        after.staker_response(user, t) == Some(
            StakerResponse { deposited_amount: 0, locked_amount: 0, balance: 0 },
        ),
{
    let rec = withdrawn_record(before.current_lock(user), now as int);
    let h = history_of(before.users@, user);
    assert(history_of(after.users@, user) == h.push(rec));
    assert(h.push(rec).last() == rec);
    assert(lock_as_of(h.push(rec), t) == rec);
}

/// A lock end requested at exactly the longest horizon is accepted: once rounded down
/// to a week it lies after `now` and within `MAX_SECONDS` of it.
pub proof fn lemma_longest_lock_accepted(now: u64)
    ensures
        now < week_floor(now + MAX_SECONDS),
        week_floor(now + MAX_SECONDS) <= now + MAX_SECONDS,
{
    vstd::arithmetic::div_mod::lemma_fundamental_div_mod(now + MAX_SECONDS, SECONDS_PER_WEEK as int);
}

/// One second past the longest horizon is refused, where that end is itself a week
/// boundary (elsewhere rounding down brings it back within the horizon).
pub proof fn lemma_past_longest_lock_refused(now: u64)
    requires
        (now + MAX_SECONDS + 1) % (SECONDS_PER_WEEK as int) == 0,
    ensures
        week_floor(now + MAX_SECONDS + 1) == now + MAX_SECONDS + 1,
        week_floor(now + MAX_SECONDS + 1) > now + MAX_SECONDS,
{
    vstd::arithmetic::div_mod::lemma_fundamental_div_mod(now + MAX_SECONDS + 1, SECONDS_PER_WEEK as int);
}

/// A lock is live one second before its end and expired at its end.
pub proof fn lemma_expiry_edge(l: UserLockedBalance)
    ensures
        !l.spec_expired_at(l.end_lock_time - 1),
        l.spec_expired_at(l.end_lock_time as int),
{
}

/// A query at the exact time of a write sees the value from before the write.
pub proof fn lemma_query_lags_write(
    history: Seq<UserLockedBalance>,
    rec: UserLockedBalance,
    states: Seq<State>,
    st: State,
)
    ensures
        lock_as_of(history.push(rec), rec.timestamp as int) == lock_as_of(history, rec.timestamp as int),
        state_as_of(states.push(st), st.timestamp as int) == state_as_of(states, st.timestamp as int),
{
    assert(history.push(rec).drop_last() == history);
    assert(states.push(st).drop_last() == states);
}

} // verus!
