use crate::coefficients::{triple, QuadraticEquationCoefficients};
use crate::decimal::max_atomics;
use crate::error::ContractError;
use crate::lock::UserLockedBalance;
use crate::SECONDS_PER_WEEK;
use vstd::prelude::*;

verus! {

/// The aggregate of all locks, as written at `timestamp`.
#[derive(Clone, Copy, Debug, PartialEq, Eq, Structural)]
pub struct State {
    /// Sum of the coefficients of every lock that has not yet expired.
    pub voting_power_coefficients: QuadraticEquationCoefficients,
    /// Sum of the deposits of every lock that has not been withdrawn.
    pub total_deposit: u128,
    pub timestamp: u64,
}

impl State {
    /// The empty aggregate at `timestamp`.
    pub fn initial(timestamp: u64) -> (r: State)
        ensures
            triple(r.voting_power_coefficients) == (0int, 0int, 0int),
            r.total_deposit == 0,
            r.timestamp == timestamp,
    {
        State {
            voting_power_coefficients: QuadraticEquationCoefficients::zero(),
            total_deposit: 0,
            timestamp,
        }
    }
}

/// Who owns the engine and which token endpoint may deposit.
#[derive(Clone, Copy, Debug, PartialEq, Eq, Structural)]
pub struct Config {
    pub cw20_address: Option<u64>,
    pub owner: u64,
}

/// Every record ever written for one user, oldest first.
#[derive(Clone, Debug)]
pub struct UserLocks {
    pub user: u64,
    pub history: Vec<UserLockedBalance>,
}

/// The zero triple.
pub open spec fn zero3() -> (int, int, int) {
    (0, 0, 0)
}

pub open spec fn add3(a: (int, int, int), b: (int, int, int)) -> (int, int, int) {
    (a.0 + b.0, a.1 + b.1, a.2 + b.2)
}

pub open spec fn sub3(a: (int, int, int), b: (int, int, int)) -> (int, int, int) {
    (a.0 - b.0, a.1 - b.1, a.2 - b.2)
}

pub open spec fn nonneg3(a: (int, int, int)) -> bool {
    a.0 >= 0 && a.1 >= 0 && a.2 >= 0
}

/// `t` rounded down to a week boundary.
pub open spec fn week_floor(t: int) -> int {
    t / SECONDS_PER_WEEK as int * SECONDS_PER_WEEK as int
}

/// The coefficient change scheduled at time `w`; `changes[k]` holds the one at week `k`.
pub open spec fn change_at(changes: Seq<QuadraticEquationCoefficients>, w: int) -> (int, int, int) {
    let k = w / SECONDS_PER_WEEK as int;
    if w >= 0 && w % SECONDS_PER_WEEK as int == 0 && k < changes.len() {
        triple(changes[k])
    } else {
        zero3()
    }
}

/// Sum of the changes at `w, w + WEEK, ...`, while the week is at most `to`,
/// taking at most `n` of them.
pub open spec fn pending(changes: Seq<QuadraticEquationCoefficients>, w: int, to: int, n: nat) -> (
    int,
    int,
    int,
) decreases n {
    if n == 0 || w > to {
        zero3()
    } else {
        add3(change_at(changes, w), pending(changes, w + SECONDS_PER_WEEK, to, (n - 1) as nat))
    }
}

/// How many weeks `pending` takes.
pub open spec fn pending_steps(w: int, to: int, n: nat) -> nat decreases n {
    if n == 0 || w > to {
        0
    } else {
        1 + pending_steps(w + SECONDS_PER_WEEK, to, (n - 1) as nat)
    }
}

/// The first week boundary after `t`.
pub open spec fn next_week(t: int) -> int {
    week_floor(t) + SECONDS_PER_WEEK
}

/// Sum of the changes at the first `k` weeks from `w`: `w, w + WEEK, ..., w + (k-1) WEEK`.
pub open spec fn pending_upto(changes: Seq<QuadraticEquationCoefficients>, w: int, k: nat) -> (
    int,
    int,
    int,
) decreases k {
    if k == 0 {
        zero3()
    } else {
        add3(pending_upto(changes, w, (k - 1) as nat), change_at(changes, w + (k - 1) * SECONDS_PER_WEEK))
    }
}

/// The `j`-th snapshot (from zero) that a saving catch-up from `from` records: at the
/// `j`-th week boundary after `from`'s time, with that week's change and every earlier
/// one applied, and the same total deposit.
pub open spec fn catch_up_snapshot(
    s: State,
    from: State,
    changes: Seq<QuadraticEquationCoefficients>,
    j: int,
) -> bool {
    &&& s.timestamp == next_week(from.timestamp as int) + j * SECONDS_PER_WEEK
    &&& triple(s.voting_power_coefficients) == sub3(
        triple(from.voting_power_coefficients),
        pending_upto(changes, next_week(from.timestamp as int), (j + 1) as nat),
    )
    &&& s.total_deposit == from.total_deposit
}

/// Most weeks that one catch-up applies.
pub const MAX_CATCH_UP_WEEKS: u64 = 255;

/// The change triples that catching up from `from` to `to` subtracts.
pub open spec fn catch_up_sum(changes: Seq<QuadraticEquationCoefficients>, from: int, to: int) -> (
    int,
    int,
    int,
) {
    pending(changes, next_week(from), to, MAX_CATCH_UP_WEEKS as nat)
}

/// The timestamp that a saving catch-up from `from` to `to` leaves: the last week applied.
pub open spec fn catch_up_timestamp(from: int, to: int) -> int {
    let n = pending_steps(next_week(from), to, MAX_CATCH_UP_WEEKS as nat);
    if n == 0 {
        from
    } else {
        next_week(from) + (n - 1) * SECONDS_PER_WEEK
    }
}

pub proof fn lemma_catch_up_timestamp_grows(from: int, to: int)
    requires
        from >= 0,
    ensures
        catch_up_timestamp(from, to) >= from,
{
    vstd::arithmetic::div_mod::lemma_fundamental_div_mod(from, SECONDS_PER_WEEK as int);
    let n = pending_steps(next_week(from), to, MAX_CATCH_UP_WEEKS as nat);
    if n > 0 {
        assert((n - 1) * SECONDS_PER_WEEK >= 0) by (nonlinear_arith)
            requires
                n >= 1,
        ;
    }
}

pub proof fn lemma_pending_nonneg(changes: Seq<QuadraticEquationCoefficients>, w: int, to: int, n: nat)
    ensures
        nonneg3(pending(changes, w, to, n)),
    decreases n,
{
    if n > 0 && w <= to {
        lemma_pending_nonneg(changes, w + SECONDS_PER_WEEK, to, (n - 1) as nat);
    }
}

/// The last record of `history` written strictly before `t`, or the void lock.
pub open spec fn lock_as_of(history: Seq<UserLockedBalance>, t: int) -> UserLockedBalance
    decreases history.len(),
{
    if history.len() == 0 {
        UserLockedBalance { deposited_amount: 0, end_lock_time: 0, start_lock_time: 0, timestamp: 0 }
    } else if history.last().timestamp < t {
        history.last()
    } else {
        lock_as_of(history.drop_last(), t)
    }
}

/// The last snapshot written strictly before `t`, if any.
pub open spec fn state_as_of(states: Seq<State>, t: int) -> Option<State>
    decreases states.len(),
{
    if states.len() == 0 {
        None
    } else if states.last().timestamp < t {
        Some(states.last())
    } else {
        state_as_of(states.drop_last(), t)
    }
}

/// The coefficient atomics of a snapshot, zero where there is none.
pub open spec fn snapshot_triple(s: Option<State>) -> (int, int, int) {
    match s {
        Some(st) => triple(st.voting_power_coefficients),
        None => zero3(),
    }
}

/// The total deposit of a snapshot, zero where there is none.
pub open spec fn snapshot_deposit(s: Option<State>) -> u128 {
    match s {
        Some(st) => st.total_deposit,
        None => 0,
    }
}

/// The time of a snapshot, zero where there is none.
pub open spec fn snapshot_time(s: Option<State>) -> u64 {
    match s {
        Some(st) => st.timestamp,
        None => 0,
    }
}

/// Index of the last entry for `user`, or -1.
pub open spec fn user_index(users: Seq<UserLocks>, user: u64) -> int
    decreases users.len(),
{
    if users.len() == 0 {
        -1
    } else if users.last().user == user {
        users.len() - 1
    } else {
        user_index(users.drop_last(), user)
    }
}

pub proof fn lemma_user_index_bounds(users: Seq<UserLocks>, user: u64)
    ensures
        -1 <= user_index(users, user) < users.len(),
        user_index(users, user) >= 0 ==> users[user_index(users, user)].user == user,
    decreases users.len(),
{
    if users.len() > 0 && users.last().user != user {
        lemma_user_index_bounds(users.drop_last(), user);
    }
}

/// Two user tables with the same owners in the same places find every user at the same index.
pub proof fn lemma_user_index_same_owners(a: Seq<UserLocks>, b: Seq<UserLocks>, user: u64)
    requires
        a.len() == b.len(),
        forall|i: int| 0 <= i < a.len() ==> #[trigger] a[i].user == b[i].user,
    ensures
        user_index(a, user) == user_index(b, user),
    decreases a.len(),
{
    if a.len() > 0 {
        assert(a.last().user == b.last().user);
        let a2 = a.drop_last();
        let b2 = b.drop_last();
        assert forall|i: int| 0 <= i < a2.len() implies #[trigger] a2[i].user == b2[i].user by {
            assert(a[i].user == b[i].user);
        }
        lemma_user_index_same_owners(a2, b2, user);
    }
}

/// What `user` has on record: its whole history, empty where it never locked.
pub open spec fn history_of(users: Seq<UserLocks>, user: u64) -> Seq<UserLockedBalance> {
    let i = user_index(users, user);
    if i >= 0 {
        users[i].history@
    } else {
        Seq::empty()
    }
}

/// The deposit of an entry's current lock (zero where it has none).
pub open spec fn entry_deposit(e: UserLocks) -> int {
    if e.history@.len() == 0 {
        0
    } else {
        e.history@.last().deposited_amount as int
    }
}

/// Sum of the deposits of every user's current lock.
pub open spec fn deposit_sum(users: Seq<UserLocks>) -> int
    decreases users.len(),
{
    if users.len() == 0 {
        0
    } else {
        deposit_sum(users.drop_last()) + entry_deposit(users.last())
    }
}

pub proof fn lemma_deposit_sum_update(users: Seq<UserLocks>, i: int, e: UserLocks)
    requires
        0 <= i < users.len(),
    ensures
        deposit_sum(users.update(i, e)) == deposit_sum(users) - entry_deposit(users[i]) + entry_deposit(e),
    decreases users.len(),
{
    let u = users.update(i, e);
    if i == users.len() - 1 {
        assert(u.drop_last() == users.drop_last());
    } else {
        assert(u.drop_last() == users.drop_last().update(i, e));
        lemma_deposit_sum_update(users.drop_last(), i, e);
    }
}

/// The deposits of a prefix of the entries are part of the deposits of all.
pub proof fn lemma_deposit_sum_prefix(users: Seq<UserLocks>, k: int)
    requires
        0 <= k <= users.len(),
    ensures
        deposit_sum(users) >= deposit_sum(users.take(k)),
    decreases users.len(),
{
    if k < users.len() {
        assert(users.drop_last().take(k) == users.take(k));
        lemma_deposit_sum_prefix(users.drop_last(), k);
    } else {
        assert(users.take(k) == users);
    }
}

pub proof fn lemma_deposit_sum_push(users: Seq<UserLocks>, e: UserLocks)
    ensures
        deposit_sum(users.push(e)) == deposit_sum(users) + entry_deposit(e),
{
    assert(users.push(e).drop_last() == users);
}

/// The current lock of an entry (the void lock where it has none).
pub open spec fn entry_lock(e: UserLocks) -> UserLockedBalance {
    if e.history@.len() == 0 {
        UserLockedBalance { deposited_amount: 0, end_lock_time: 0, start_lock_time: 0, timestamp: 0 }
    } else {
        e.history@.last()
    }
}

/// Sum of the coefficient atomics of the current locks that end after `t`.
pub open spec fn live_sum(users: Seq<UserLocks>, t: int) -> (int, int, int)
    decreases users.len(),
{
    if users.len() == 0 {
        zero3()
    } else {
        let l = entry_lock(users.last());
        add3(live_sum(users.drop_last(), t), if l.end_lock_time > t { l.spec_triple() } else { zero3() })
    }
}

/// Sum of the coefficient atomics of the current locks that end at `w`.
pub open spec fn ending_sum(users: Seq<UserLocks>, w: int) -> (int, int, int)
    decreases users.len(),
{
    if users.len() == 0 {
        zero3()
    } else {
        let l = entry_lock(users.last());
        add3(ending_sum(users.drop_last(), w), if l.end_lock_time == w { l.spec_triple() } else { zero3() })
    }
}

/// Every current lock ends on a week boundary.
pub open spec fn ends_aligned(users: Seq<UserLocks>) -> bool {
    forall|i: int| 0 <= i < users.len() ==> (#[trigger] entry_lock(users[i])).end_lock_time as int
        % SECONDS_PER_WEEK as int == 0
}

proof fn lemma_ends_aligned_drop_last(users: Seq<UserLocks>)
    requires
        users.len() > 0,
        ends_aligned(users),
    ensures
        ends_aligned(users.drop_last()),
        entry_lock(users.last()).end_lock_time as int % SECONDS_PER_WEEK as int == 0,
{
    assert(entry_lock(users[users.len() - 1]).end_lock_time as int % SECONDS_PER_WEEK as int == 0);
    assert forall|i: int| 0 <= i < users.drop_last().len() implies (#[trigger] entry_lock(
        users.drop_last()[i],
    )).end_lock_time as int % SECONDS_PER_WEEK as int == 0 by {
        assert(entry_lock(users[i]).end_lock_time as int % SECONDS_PER_WEEK as int == 0);
    }
}

/// Where no week boundary lies in `(a, b]`, no lock ends there, so the live sums agree.
pub proof fn lemma_live_sum_between_weeks(users: Seq<UserLocks>, a: int, b: int)
    requires
        ends_aligned(users),
        a <= b,
        b < week_floor(a) + SECONDS_PER_WEEK,
    ensures
        live_sum(users, a) == live_sum(users, b),
    decreases users.len(),
{
    if users.len() > 0 {
        lemma_ends_aligned_drop_last(users);
        lemma_live_sum_between_weeks(users.drop_last(), a, b);
        let e = entry_lock(users.last()).end_lock_time as int;
        vstd::arithmetic::div_mod::lemma_fundamental_div_mod(a, SECONDS_PER_WEEK as int);
        vstd::arithmetic::div_mod::lemma_fundamental_div_mod(e, SECONDS_PER_WEEK as int);
        if e > a && e <= b {
            let qe = e / SECONDS_PER_WEEK as int;
            let qa = a / SECONDS_PER_WEEK as int;
            assert(false) by (nonlinear_arith)
                requires
                    e == SECONDS_PER_WEEK * qe,
                    a == SECONDS_PER_WEEK * qa + a % (SECONDS_PER_WEEK as int),
                    0 <= a % (SECONDS_PER_WEEK as int) < SECONDS_PER_WEEK,
                    e > a,
                    e < SECONDS_PER_WEEK * qa + SECONDS_PER_WEEK,
            ;
        }
    }
}

/// Passing the week boundary `w` that follows `a` removes exactly the locks ending at `w`.
pub proof fn lemma_live_sum_step(users: Seq<UserLocks>, a: int, w: int)
    requires
        ends_aligned(users),
        w == week_floor(a) + SECONDS_PER_WEEK,
    ensures
        live_sum(users, a) == add3(live_sum(users, w), ending_sum(users, w)),
    decreases users.len(),
{
    if users.len() > 0 {
        lemma_ends_aligned_drop_last(users);
        lemma_live_sum_step(users.drop_last(), a, w);
        let e = entry_lock(users.last()).end_lock_time as int;
        vstd::arithmetic::div_mod::lemma_fundamental_div_mod(a, SECONDS_PER_WEEK as int);
        vstd::arithmetic::div_mod::lemma_fundamental_div_mod(e, SECONDS_PER_WEEK as int);
        if e > a && e < w {
            let qe = e / SECONDS_PER_WEEK as int;
            let qa = a / SECONDS_PER_WEEK as int;
            assert(false) by (nonlinear_arith)
                requires
                    e == SECONDS_PER_WEEK * qe,
                    a == SECONDS_PER_WEEK * qa + a % (SECONDS_PER_WEEK as int),
                    0 <= a % (SECONDS_PER_WEEK as int) < SECONDS_PER_WEEK,
                    e > a,
                    e < SECONDS_PER_WEEK * qa + SECONDS_PER_WEEK,
            ;
        }
        if e <= a {
            assert(e < w) by {
                assert(week_floor(a) + SECONDS_PER_WEEK > a);
            }
        }
    }
}

proof fn lemma_sums_update(users: Seq<UserLocks>, i: int, e: UserLocks, t: int, w: int)
    requires
        0 <= i < users.len(),
    ensures
        live_sum(users.update(i, e), t) == add3(
            sub3(
                live_sum(users, t),
                if entry_lock(users[i]).end_lock_time > t { entry_lock(users[i]).spec_triple() } else { zero3() },
            ),
            if entry_lock(e).end_lock_time > t { entry_lock(e).spec_triple() } else { zero3() },
        ),
        ending_sum(users.update(i, e), w) == add3(
            sub3(
                ending_sum(users, w),
                if entry_lock(users[i]).end_lock_time == w { entry_lock(users[i]).spec_triple() } else { zero3() },
            ),
            if entry_lock(e).end_lock_time == w { entry_lock(e).spec_triple() } else { zero3() },
        ),
    decreases users.len(),
{
    let u = users.update(i, e);
    if i == users.len() - 1 {
        assert(u.drop_last() == users.drop_last());
    } else {
        assert(u.drop_last() == users.drop_last().update(i, e));
        lemma_sums_update(users.drop_last(), i, e, t, w);
    }
}

proof fn lemma_sums_push(users: Seq<UserLocks>, e: UserLocks, t: int, w: int)
    ensures
        live_sum(users.push(e), t) == add3(
            live_sum(users, t),
            if entry_lock(e).end_lock_time > t { entry_lock(e).spec_triple() } else { zero3() },
        ),
        ending_sum(users.push(e), w) == add3(
            ending_sum(users, w),
            if entry_lock(e).end_lock_time == w { entry_lock(e).spec_triple() } else { zero3() },
        ),
{
    assert(users.push(e).drop_last() == users);
}

/// How many weeks a pending sum takes: all of them up to `to`, unless `n` runs out first.
proof fn lemma_pending_steps_bounds(w: int, to: int, n: nat)
    ensures
        pending_steps(w, to, n) <= n,
        pending_steps(w, to, n) > 0 ==> w + (pending_steps(w, to, n) - 1) * SECONDS_PER_WEEK <= to,
        pending_steps(w, to, n) < n ==> w + pending_steps(w, to, n) * SECONDS_PER_WEEK > to,
    decreases n,
{
    if n > 0 && w <= to {
        lemma_pending_steps_bounds(w + SECONDS_PER_WEEK, to, (n - 1) as nat);
        let k = pending_steps(w + SECONDS_PER_WEEK, to, (n - 1) as nat);
        assert(w + SECONDS_PER_WEEK + (k - 1) * SECONDS_PER_WEEK == w + k * SECONDS_PER_WEEK) by (nonlinear_arith);
        assert(w + SECONDS_PER_WEEK + k * SECONDS_PER_WEEK == w + (k + 1) * SECONDS_PER_WEEK) by (nonlinear_arith);
    }
}

/// Every entry's current lock keeps the void invariant.
pub open spec fn entries_wf(users: Seq<UserLocks>) -> bool {
    forall|i: int| 0 <= i < users.len() ==> (#[trigger] entry_lock(users[i])).wf()
}

pub proof fn lemma_lock_triple_nonneg(l: UserLockedBalance)
    requires
        l.wf(),
    ensures
        nonneg3(l.spec_triple()),
{
    if l.is_live() {
        let d = l.deposited_amount as int;
        let e = l.end_lock_time as int;
        let dur = e - l.start_lock_time as int;
        let s = crate::decimal::DECIMAL_FRACTIONAL as int;
        assert(d * s >= 0 && 2 * e * d * s >= 0 && e * e * d * s >= 0) by (nonlinear_arith)
            requires
                d >= 0,
                e >= 0,
                s >= 0,
        ;
        vstd::arithmetic::div_mod::lemma_div_pos_is_pos(d * s, dur);
        vstd::arithmetic::div_mod::lemma_div_pos_is_pos(2 * e * d * s, dur);
        vstd::arithmetic::div_mod::lemma_div_pos_is_pos(e * e * d * s, dur);
    }
}

/// Each entry's share of the sums is part of them.
pub proof fn lemma_entry_within_sums(users: Seq<UserLocks>, i: int, t: int, w: int)
    requires
        entries_wf(users),
        0 <= i < users.len(),
    ensures
        nonneg3(sub3(
            live_sum(users, t),
            if entry_lock(users[i]).end_lock_time > t { entry_lock(users[i]).spec_triple() } else { zero3() },
        )),
        nonneg3(sub3(
            ending_sum(users, w),
            if entry_lock(users[i]).end_lock_time == w { entry_lock(users[i]).spec_triple() } else { zero3() },
        )),
        deposit_sum(users) >= entry_deposit(users[i]),
        nonneg3(live_sum(users, t)),
        nonneg3(ending_sum(users, w)),
        deposit_sum(users) >= 0,
    decreases users.len(),
{
    let last = users.len() - 1;
    assert(entry_lock(users[last]).wf());
    lemma_lock_triple_nonneg(entry_lock(users[last]));
    let rest = users.drop_last();
    assert(entries_wf(rest)) by {
        assert forall|j: int| 0 <= j < rest.len() implies (#[trigger] entry_lock(rest[j])).wf() by {
            assert(entry_lock(users[j]).wf());
        }
    }
    assert(users.last() == users[last]);
    assert(ending_sum(users, w) == add3(
        ending_sum(rest, w),
        if entry_lock(users[last]).end_lock_time == w { entry_lock(users[last]).spec_triple() } else { zero3() },
    ));
    assert(live_sum(users, t) == add3(
        live_sum(rest, t),
        if entry_lock(users[last]).end_lock_time > t { entry_lock(users[last]).spec_triple() } else { zero3() },
    ));
    assert(deposit_sum(users) == deposit_sum(rest) + entry_deposit(users[last]));
    if rest.len() > 0 {
        let k = if i < last { i } else { 0 };
        lemma_entry_within_sums(rest, k, t, w);
        if i < last {
            assert(rest[i] == users[i]);
        }
    }
}

/// Whether a catch-up from `from` to `to` applies every week boundary up to `to`.
pub open spec fn catch_up_completes(from: int, to: int) -> bool {
    to < next_week(from) + MAX_CATCH_UP_WEEKS * SECONDS_PER_WEEK
}

/// With the schedule holding, at each week, the locks that end then, a complete
/// catch-up from `a` to `to` subtracts exactly the locks that end in `(a, to]`.
pub proof fn lemma_catch_up_is_live_difference(
    changes: Seq<QuadraticEquationCoefficients>,
    users: Seq<UserLocks>,
    a: int,
    w: int,
    to: int,
    n: nat,
)
    requires
        ends_aligned(users),
        forall|x: int| #[trigger] change_at(changes, x) == ending_sum(users, x),
        w == week_floor(a) + SECONDS_PER_WEEK,
        a <= to,
        to < w + n * SECONDS_PER_WEEK,
    ensures
        add3(pending(changes, w, to, n), live_sum(users, to)) == live_sum(users, a),
    decreases n,
{
    if w > to {
        lemma_live_sum_between_weeks(users, a, to);
    } else {
        lemma_live_sum_step(users, a, w);
        vstd::arithmetic::div_mod::lemma_fundamental_div_mod(a, SECONDS_PER_WEEK as int);
        let qa = a / SECONDS_PER_WEEK as int;
        assert(w == SECONDS_PER_WEEK * (qa + 1)) by (nonlinear_arith)
            requires
                w == qa * SECONDS_PER_WEEK + SECONDS_PER_WEEK,
        ;
        vstd::arithmetic::div_mod::lemma_fundamental_div_mod_converse(w, SECONDS_PER_WEEK as int, qa + 1, 0);
        assert(week_floor(w) == w);
        assert(n > 0) by (nonlinear_arith)
            requires
                w <= to,
                to < w + n * SECONDS_PER_WEEK,
                n >= 0,
        ;
        assert(to < (w + SECONDS_PER_WEEK) + (n - 1) * SECONDS_PER_WEEK) by (nonlinear_arith)
            requires
                to < w + n * SECONDS_PER_WEEK,
        ;
        lemma_catch_up_is_live_difference(changes, users, w, w + SECONDS_PER_WEEK, to, (n - 1) as nat);
    }
}

/// Every record of the store keeps the void invariant, and a live record starts when written.
pub open spec fn record_wf(r: UserLockedBalance) -> bool {
    &&& r.wf()
    &&& r.end_lock_time as int % SECONDS_PER_WEEK as int == 0
    &&& (r.is_live() ==> r.start_lock_time == r.timestamp)
}

/// What the aggregate loses of a prior lock at `t`: its coefficients unless it has
/// already expired (then the scheduled change removed them).
pub open spec fn prior_share(prev: UserLockedBalance, t: int) -> (int, int, int) {
    if prev.spec_expired_at(t) {
        zero3()
    } else {
        prev.spec_triple()
    }
}

/// Every component at most the largest decimal.
pub open spec fn fits3(a: (int, int, int)) -> bool {
    a.0 <= max_atomics() && a.1 <= max_atomics() && a.2 <= max_atomics()
}

/// Whether the aggregate update for replacing `prev` by `new` stays in range.
pub open spec fn state_update_fits(coefficients: (int, int, int), total_deposit: int, prev: UserLockedBalance, new: UserLockedBalance) -> bool {
    let reduced = sub3(coefficients, prior_share(prev, new.timestamp as int));
    &&& prev.coefficients_fit()
    &&& new.coefficients_fit()
    &&& nonneg3(reduced)
    &&& total_deposit >= prev.deposited_amount
    &&& fits3(add3(reduced, new.spec_triple()))
    &&& total_deposit - prev.deposited_amount + new.deposited_amount <= u128::MAX
}

/// Whether moving the scheduled reversal of `prev` to that of `new` stays in range.
pub open spec fn schedule_update_fits(changes: Seq<QuadraticEquationCoefficients>, prev: UserLockedBalance, new: UserLockedBalance) -> bool {
    let at_prev = sub3(change_at(changes, prev.end_lock_time as int), prev.spec_triple());
    &&& prev.coefficients_fit()
    &&& new.coefficients_fit()
    &&& nonneg3(at_prev)
    &&& if new.end_lock_time == prev.end_lock_time {
        fits3(add3(at_prev, new.spec_triple()))
    } else {
        fits3(add3(change_at(changes, new.end_lock_time as int), new.spec_triple()))
    }
}

/// The schedule after replacing `prev` by `new`: `prev`'s change is withdrawn from
/// its end week and `new`'s is added at its own.
pub open spec fn rescheduled(
    changes: Seq<QuadraticEquationCoefficients>,
    prev: UserLockedBalance,
    new: UserLockedBalance,
    w: int,
) -> (int, int, int) {
    add3(
        sub3(
            change_at(changes, w),
            if w == prev.end_lock_time { prev.spec_triple() } else { zero3() },
        ),
        if w == new.end_lock_time { new.spec_triple() } else { zero3() },
    )
}

/// Updates the aggregate for the replacement of `prev` by `new`.
pub fn update_state_for_lock_update(
    state: &mut State,
    prev_user_locked_balance: &UserLockedBalance,
    new_user_locked_balance: &UserLockedBalance,
) -> (r: Result<(), ContractError>)
    requires
        prev_user_locked_balance.wf(),
        new_user_locked_balance.wf(),
    ensures
        r.is_err() ==> r == Err::<(), ContractError>(ContractError::Overflow {  }),
        r.is_ok() == state_update_fits(
            triple(old(state).voting_power_coefficients),
            old(state).total_deposit as int,
            *prev_user_locked_balance,
            *new_user_locked_balance,
        ),
        r.is_ok() ==> prev_user_locked_balance.coefficients_fit()
            && new_user_locked_balance.coefficients_fit(),
        r.is_ok() ==> triple(final(state).voting_power_coefficients) == add3(
            sub3(
                triple(old(state).voting_power_coefficients),
                prior_share(*prev_user_locked_balance, new_user_locked_balance.timestamp as int),
            ),
            new_user_locked_balance.spec_triple(),
        ),
        r.is_ok() ==> final(state).total_deposit == old(state).total_deposit
            - prev_user_locked_balance.deposited_amount + new_user_locked_balance.deposited_amount,
        r.is_ok() ==> final(state).timestamp == new_user_locked_balance.timestamp,
{
    let prev_coefficients = match prev_user_locked_balance.voting_power_coefficients() {
        Some(c) => c,
        None => return Err(ContractError::Overflow {}),
    };
    let new_coefficients = match new_user_locked_balance.voting_power_coefficients() {
        Some(c) => c,
        None => return Err(ContractError::Overflow {}),
    };
    let mut coefficients = state.voting_power_coefficients;
    if !prev_user_locked_balance.expired_at_timestamp(new_user_locked_balance.timestamp) {
        coefficients = match coefficients.checked_sub(&prev_coefficients) {
            Some(c) => c,
            None => return Err(ContractError::Overflow {}),
        };
    }
    let total_deposit = match state.total_deposit.checked_sub(
        prev_user_locked_balance.deposited_amount,
    ) {
        Some(x) => x,
        None => return Err(ContractError::Overflow {}),
    };
    let coefficients = match coefficients.checked_add(&new_coefficients) {
        Some(c) => c,
        None => return Err(ContractError::Overflow {}),
    };
    let total_deposit = match total_deposit.checked_add(new_user_locked_balance.deposited_amount) {
        Some(x) => x,
        None => return Err(ContractError::Overflow {}),
    };
    state.voting_power_coefficients = coefficients;
    state.total_deposit = total_deposit;
    state.timestamp = new_user_locked_balance.timestamp;
    Ok(())
}

pub proof fn lemma_lock_as_of_wf(history: Seq<UserLockedBalance>, t: int)
    requires
        forall|j: int| 0 <= j < history.len() ==> record_wf(#[trigger] history[j]),
    ensures
        record_wf(lock_as_of(history, t)),
        lock_as_of(history, t).is_live() ==> lock_as_of(history, t).timestamp < t,
    decreases history.len(),
{
    if history.len() > 0 {
        assert(record_wf(history[history.len() - 1]));
        let h2 = history.drop_last();
        assert forall|j: int| 0 <= j < h2.len() implies record_wf(#[trigger] h2[j]) by {
            assert(record_wf(history[j]));
        }
        lemma_lock_as_of_wf(h2, t);
    }
}

/// The voting-power engine: aggregate snapshots, per-user lock histories and the
/// schedule of coefficient changes at lock ends.
pub struct VeToken {
    pub config: Config,
    /// Snapshots of the aggregate, oldest first; the last is the current one.
    pub states: Vec<State>,
    pub users: Vec<UserLocks>,
    /// `coefficient_changes[k]` is subtracted from the aggregate when it passes week `k`.
    pub coefficient_changes: Vec<QuadraticEquationCoefficients>,
}

impl VeToken {
    pub open spec fn wf(&self) -> bool {
        &&& self.states@.len() > 0
        &&& forall|i: int, j: int|
            0 <= i < self.users@.len() && 0 <= j < self.users@[i].history@.len() ==> record_wf(
                #[trigger] self.users@[i].history@[j],
            )
        &&& forall|i: int, j: int|
            0 <= i < self.users@.len() && 0 <= j < self.users@[i].history@.len() ==> (
            #[trigger] self.users@[i].history@[j]).timestamp <= self.current_state().timestamp
        &&& self.current_state().total_deposit == deposit_sum(self.users@)
    }

    /// Whether replacing `prev` by `new` keeps every value in range: the catch-up to
    /// `new.timestamp`, the aggregate update and the schedule update.
    pub open spec fn update_fits(before: &VeToken, prev: UserLockedBalance, new: UserLockedBalance) -> bool {
        let cur = before.current_state();
        let caught = sub3(
            triple(cur.voting_power_coefficients),
            catch_up_sum(before.changes(), cur.timestamp as int, new.timestamp as int),
        );
        &&& nonneg3(caught)
        &&& state_update_fits(caught, cur.total_deposit as int, prev, new)
        &&& schedule_update_fits(before.changes(), prev, new)
    }

    /// What replacing `user`'s lock `prev` by `new` does: `new` is appended to the
    /// user's history, the aggregate is caught up to `new.timestamp`, loses the prior
    /// lock's share and gains the new one's, and the schedule moves the reversal.
    pub open spec fn lock_replaced(
        before: &VeToken,
        after: &VeToken,
        user: u64,
        prev: UserLockedBalance,
        new: UserLockedBalance,
    ) -> bool {
        let cur = before.current_state();
        let caught = sub3(
            triple(cur.voting_power_coefficients),
            catch_up_sum(before.changes(), cur.timestamp as int, new.timestamp as int),
        );
        &&& after.config == before.config
        &&& history_of(after.users@, user) == history_of(before.users@, user).push(new)
        &&& forall|u: u64| u != user ==> history_of(after.users@, u) == history_of(before.users@, u)
        &&& nonneg3(caught)
        &&& triple(after.current_state().voting_power_coefficients) == add3(
            sub3(caught, prior_share(prev, new.timestamp as int)),
            new.spec_triple(),
        )
        &&& after.current_state().total_deposit == cur.total_deposit - prev.deposited_amount
            + new.deposited_amount
        &&& after.current_state().timestamp == new.timestamp
        &&& forall|w: int| change_at(after.changes(), w) == rescheduled(before.changes(), prev, new, w)
        &&& after.states@.len() == before.states@.len() + pending_steps(
            next_week(cur.timestamp as int),
            new.timestamp as int,
            MAX_CATCH_UP_WEEKS as nat,
        ) + 1
        &&& after.states@.subrange(0, before.states@.len() as int) == before.states@
        &&& forall|j: int|
            before.states@.len() <= j < after.states@.len() - 1 ==> catch_up_snapshot(
                #[trigger] after.states@[j],
                cur,
                before.changes(),
                j - before.states@.len(),
            )
    }

    /// The aggregate holds exactly the locks that end after its time, and the schedule
    /// holds, at each week, exactly the locks that end then.
    pub open spec fn consistent(&self) -> bool {
        &&& forall|w: int| #[trigger] change_at(self.changes(), w) == ending_sum(self.users@, w)
        &&& triple(self.current_state().voting_power_coefficients) == live_sum(
            self.users@,
            self.current_state().timestamp as int,
        )
    }

    pub proof fn lemma_entries_wf(&self)
        requires
            self.wf(),
        ensures
            entries_wf(self.users@),
    {
        assert forall|i: int| 0 <= i < self.users@.len() implies (#[trigger] entry_lock(
            self.users@[i],
        )).wf() by {
            let h = self.users@[i].history@;
            if h.len() > 0 {
                assert(record_wf(self.users@[i].history@[h.len() - 1]));
            }
        }
    }

    pub proof fn lemma_ends_aligned(&self)
        requires
            self.wf(),
        ensures
            ends_aligned(self.users@),
    {
        assert forall|i: int| 0 <= i < self.users@.len() implies (#[trigger] entry_lock(
            self.users@[i],
        )).end_lock_time as int % SECONDS_PER_WEEK as int == 0 by {
            let h = self.users@[i].history@;
            if h.len() > 0 {
                assert(record_wf(self.users@[i].history@[h.len() - 1]));
            }
        }
    }

    /// A checkpoint that reaches `now` leaves the aggregate holding the locks live at `now`.
    pub proof fn lemma_checkpoint_keeps_consistent(before: &VeToken, after: &VeToken, now: int)
        requires
            before.wf(),
            before.consistent(),
            catch_up_completes(before.current_state().timestamp as int, now),
            before.current_state().timestamp <= now,
            after.users@ == before.users@,
            after.changes() == before.changes(),
            triple(after.current_state().voting_power_coefficients) == sub3(
                triple(before.current_state().voting_power_coefficients),
                catch_up_sum(before.changes(), before.current_state().timestamp as int, now),
            ),
            after.current_state().timestamp == catch_up_timestamp(before.current_state().timestamp as int, now),
        ensures
            after.consistent(),
    {
        let a = before.current_state().timestamp as int;
        let w = next_week(a);
        before.lemma_ends_aligned();
        lemma_catch_up_is_live_difference(before.changes(), before.users@, a, w, now, MAX_CATCH_UP_WEEKS as nat);
        lemma_pending_steps_bounds(w, now, MAX_CATCH_UP_WEEKS as nat);
        let n = pending_steps(w, now, MAX_CATCH_UP_WEEKS as nat);
        assert(w + n * SECONDS_PER_WEEK > now) by (nonlinear_arith)
            requires
                n <= MAX_CATCH_UP_WEEKS,
                n < MAX_CATCH_UP_WEEKS ==> w + n * SECONDS_PER_WEEK > now,
                now < w + MAX_CATCH_UP_WEEKS * SECONDS_PER_WEEK,
        ;
        let t2 = catch_up_timestamp(a, now);
        if n == 0 {
            lemma_live_sum_between_weeks(before.users@, a, now);
        } else {
            vstd::arithmetic::div_mod::lemma_fundamental_div_mod(a, SECONDS_PER_WEEK as int);
            let qa = a / SECONDS_PER_WEEK as int;
            assert(t2 == SECONDS_PER_WEEK * (qa + n)) by (nonlinear_arith)
                requires
                    t2 == qa * SECONDS_PER_WEEK + SECONDS_PER_WEEK + (n - 1) * SECONDS_PER_WEEK,
            ;
            vstd::arithmetic::div_mod::lemma_fundamental_div_mod_converse(t2, SECONDS_PER_WEEK as int, qa + n, 0);
            assert(week_floor(t2) == t2);
            assert(t2 + SECONDS_PER_WEEK == w + n * SECONDS_PER_WEEK) by (nonlinear_arith)
                requires
                    t2 == w + (n - 1) * SECONDS_PER_WEEK,
            ;
            lemma_live_sum_between_weeks(before.users@, t2, now);
        }
    }

    pub open spec fn current_state(&self) -> State {
        self.states@.last()
    }

    /// The lock that `user` holds now: its last record, or the void lock.
    pub open spec fn current_lock(&self, user: u64) -> UserLockedBalance {
        let h = history_of(self.users@, user);
        if h.len() == 0 {
            UserLockedBalance { deposited_amount: 0, end_lock_time: 0, start_lock_time: 0, timestamp: 0 }
        } else {
            h.last()
        }
    }

    pub open spec fn changes(&self) -> Seq<QuadraticEquationCoefficients> {
        self.coefficient_changes@
    }

    /// The change scheduled at week `k` (zero where none is).
    fn change_for_week(&self, k: u64) -> (r: QuadraticEquationCoefficients)
        ensures
            triple(r) == change_at(self.changes(), k * SECONDS_PER_WEEK),
    {
        proof {
            vstd::arithmetic::div_mod::lemma_fundamental_div_mod_converse(
                k * SECONDS_PER_WEEK,
                SECONDS_PER_WEEK as int,
                k as int,
                0,
            );
        }
        if k < self.coefficient_changes.len() as u64 {
            self.coefficient_changes[k as usize]
        } else {
            QuadraticEquationCoefficients::zero()
        }
    }

    proof fn lemma_reserved_same(
        &self,
        before: Seq<QuadraticEquationCoefficients>,
        after: Seq<QuadraticEquationCoefficients>,
    )
        requires
            after.len() >= before.len(),
            forall|j: int| 0 <= j < before.len() ==> after[j] == before[j],
            forall|j: int| before.len() <= j < after.len() ==> triple(#[trigger] after[j]) == zero3(),
        ensures
            forall|w: int| change_at(after, w) == change_at(before, w),
    {
        assert forall|w: int| change_at(after, w) == change_at(before, w) by {
            let k = w / SECONDS_PER_WEEK as int;
            if w >= 0 && w % SECONDS_PER_WEEK as int == 0 && k < after.len() {
                if k >= before.len() {
                    assert(triple(after[k]) == zero3());
                }
            }
        }
    }

    /// Grows the schedule with empty weeks until it has an entry for week `k`.
    fn reserve_week(&mut self, k: u64)
        ensures
            final(self).coefficient_changes@.len() > k,
            final(self).coefficient_changes@.len() >= old(self).coefficient_changes@.len(),
            forall|j: int|
                0 <= j < old(self).coefficient_changes@.len() ==> final(self).coefficient_changes@[j]
                    == old(self).coefficient_changes@[j],
            forall|j: int|
                old(self).coefficient_changes@.len() <= j < final(self).coefficient_changes@.len()
                    ==> triple(#[trigger] final(self).coefficient_changes@[j]) == zero3(),
            final(self).config == old(self).config,
            final(self).states == old(self).states,
            final(self).users == old(self).users,
    {
        let ghost before = self.coefficient_changes@;
        while (self.coefficient_changes.len() as u64) <= k
            invariant
                self.coefficient_changes@.len() >= before.len(),
                forall|j: int| 0 <= j < before.len() ==> self.coefficient_changes@[j] == before[j],
                forall|j: int|
                    before.len() <= j < self.coefficient_changes@.len() ==> triple(
                        #[trigger] self.coefficient_changes@[j],
                    ) == zero3(),
                self.config == old(self).config,
                self.states == old(self).states,
                self.users == old(self).users,
                before == old(self).coefficient_changes@,
            decreases k + 1 - self.coefficient_changes@.len(),
        {
            self.coefficient_changes.push(QuadraticEquationCoefficients::zero());
        }
    }

    /// Moves the scheduled reversal of `prev` to that of `new`: `prev`'s coefficients
    /// leave the change at its end week, `new`'s join the change at its own.
    pub fn update_slope_changes_for_lock_update(
        &mut self,
        prev_user_locked_balance: &UserLockedBalance,
        new_user_locked_balance: &UserLockedBalance,
    ) -> (r: Result<(), ContractError>)
        requires
            record_wf(*prev_user_locked_balance),
            record_wf(*new_user_locked_balance),
        ensures
            r.is_err() ==> r == Err::<(), ContractError>(ContractError::Overflow {  }),
            r.is_err() ==> *final(self) == *old(self),
            r.is_ok() == schedule_update_fits(old(self).changes(), *prev_user_locked_balance, *new_user_locked_balance),
            r.is_ok() ==> forall|w: int|
                change_at(final(self).changes(), w) == rescheduled(
                    old(self).changes(),
                    *prev_user_locked_balance,
                    *new_user_locked_balance,
                    w,
                ),
            final(self).config == old(self).config,
            final(self).states == old(self).states,
            final(self).users == old(self).users,
    {
        let prev_coefficients = match prev_user_locked_balance.voting_power_coefficients() {
            Some(c) => c,
            None => return Err(ContractError::Overflow {}),
        };
        let new_coefficients = match new_user_locked_balance.voting_power_coefficients() {
            Some(c) => c,
            None => return Err(ContractError::Overflow {}),
        };
        let prev_week: u64 = prev_user_locked_balance.end_lock_time / SECONDS_PER_WEEK;
        let new_week: u64 = new_user_locked_balance.end_lock_time / SECONDS_PER_WEEK;
        let ghost old_changes = self.changes();
        let ghost pe = prev_user_locked_balance.end_lock_time as int;
        let ghost ne = new_user_locked_balance.end_lock_time as int;
        proof {
            vstd::arithmetic::div_mod::lemma_fundamental_div_mod(pe, SECONDS_PER_WEEK as int);
            vstd::arithmetic::div_mod::lemma_fundamental_div_mod(ne, SECONDS_PER_WEEK as int);
        }
        let old_change = self.change_for_week(prev_week);
        let reduced = match old_change.checked_sub(&prev_coefficients) {
            Some(c) => c,
            None => return Err(ContractError::Overflow {}),
        };
        if new_week == prev_week {
            let updated = match reduced.checked_add(&new_coefficients) {
                Some(c) => c,
                None => return Err(ContractError::Overflow {}),
            };
            self.reserve_week(prev_week);
            let ghost reserved = self.changes();
            proof { self.lemma_reserved_same(old_changes, reserved); }
            let n_weeks: usize = self.coefficient_changes.len();
            assert(prev_week < n_weeks);
            assert(prev_week as usize as int == prev_week as int);
            self.coefficient_changes.set(prev_week as usize, updated);
            proof {
                assert(pe == ne) by (nonlinear_arith)
                    requires
                        pe == SECONDS_PER_WEEK * (pe / SECONDS_PER_WEEK as int),
                        ne == SECONDS_PER_WEEK * (ne / SECONDS_PER_WEEK as int),
                        pe / SECONDS_PER_WEEK as int == ne / SECONDS_PER_WEEK as int,
                ;
                assert forall|w: int|
                    change_at(self.changes(), w) == rescheduled(
                        old_changes,
                        *prev_user_locked_balance,
                        *new_user_locked_balance,
                        w,
                    ) by {
                    assert(change_at(reserved, w) == change_at(old_changes, w));
                    if w >= 0 && w % SECONDS_PER_WEEK as int == 0 {
                        if w / SECONDS_PER_WEEK as int == prev_week as int {
                            vstd::arithmetic::div_mod::lemma_fundamental_div_mod(w, SECONDS_PER_WEEK as int);
                        }
                    }
                }
            }
        } else {
            let other = self.change_for_week(new_week);
            let updated = match other.checked_add(&new_coefficients) {
                Some(c) => c,
                None => return Err(ContractError::Overflow {}),
            };
            self.reserve_week(prev_week);
            self.reserve_week(new_week);
            let ghost reserved = self.changes();
            proof { self.lemma_reserved_same(old_changes, reserved); }
            let n_weeks: usize = self.coefficient_changes.len();
            assert(prev_week < n_weeks && new_week < n_weeks);
            assert(prev_week as usize as int == prev_week as int);
            assert(new_week as usize as int == new_week as int);
            self.coefficient_changes.set(new_week as usize, updated);
            self.coefficient_changes.set(prev_week as usize, reduced);
            proof {
                assert(pe != ne);
                assert forall|w: int|
                    change_at(self.changes(), w) == rescheduled(
                        old_changes,
                        *prev_user_locked_balance,
                        *new_user_locked_balance,
                        w,
                    ) by {
                    assert(change_at(reserved, w) == change_at(old_changes, w));
                    if w >= 0 && w % SECONDS_PER_WEEK as int == 0 {
                        vstd::arithmetic::div_mod::lemma_fundamental_div_mod(w, SECONDS_PER_WEEK as int);
                    }
                }
            }
        }
        Ok(())
    }

    /// Applies the changes scheduled between `state.timestamp` and `timestamp` to `state`,
    /// at most `MAX_CATCH_UP_WEEKS` of them; with `save`, sets `state.timestamp` to each
    /// week applied and records a snapshot of it in `saved`.
    fn internal_apply_pending_slope_changes_to_state(
        &self,
        state: &mut State,
        timestamp: u64,
        save: bool,
        saved: &mut Vec<State>,
    ) -> (r: Result<(), ContractError>)
        requires
            old(saved)@.len() == 0,
        ensures
            r.is_ok() == nonneg3(
                sub3(
                    triple(old(state).voting_power_coefficients),
                    catch_up_sum(self.changes(), old(state).timestamp as int, timestamp as int),
                ),
            ),
            r.is_err() ==> r == Err::<(), ContractError>(ContractError::Overflow {  }),
            r.is_ok() ==> triple(final(state).voting_power_coefficients) == sub3(
                triple(old(state).voting_power_coefficients),
                catch_up_sum(self.changes(), old(state).timestamp as int, timestamp as int),
            ),
            r.is_ok() ==> final(state).total_deposit == old(state).total_deposit,
            r.is_ok() && save ==> final(state).timestamp == catch_up_timestamp(
                old(state).timestamp as int,
                timestamp as int,
            ),
            r.is_ok() && !save ==> final(state).timestamp == old(state).timestamp,
            r.is_ok() && !save ==> final(saved)@.len() == 0,
            r.is_ok() && save ==> final(saved)@.len() == pending_steps(
                next_week(old(state).timestamp as int),
                timestamp as int,
                MAX_CATCH_UP_WEEKS as nat,
            ),
            r.is_ok() && save && final(saved)@.len() > 0 ==> final(saved)@.last() == *final(state),
            forall|j: int|
                0 <= j < final(saved)@.len() ==> (#[trigger] final(saved)@[j]).total_deposit
                    == old(state).total_deposit,
            forall|j: int|
                0 <= j < final(saved)@.len() ==> catch_up_snapshot(
                    #[trigger] final(saved)@[j],
                    *old(state),
                    self.changes(),
                    j,
                ),
    {
        let ghost orig = *state;
        let ghost to = timestamp as int;
        let ghost start = next_week(orig.timestamp as int);
        let base: u64 = state.timestamp / SECONDS_PER_WEEK * SECONDS_PER_WEEK;
        let mut week: u64 = 0;
        let mut more: bool = false;
        if base <= u64::MAX - SECONDS_PER_WEEK {
            week = base + SECONDS_PER_WEEK;
            more = week <= timestamp;
        }
        proof {
            if !more {
                assert(start > to);
            }
            lemma_pending_nonneg(self.changes(), start, to, MAX_CATCH_UP_WEEKS as nat);
        }
        let mut i: u64 = 0;
        while i < MAX_CATCH_UP_WEEKS && more
            invariant
                start == next_week(orig.timestamp as int),
                orig == *old(state),
                to == timestamp as int,
                saved@.len() <= i,
                i <= MAX_CATCH_UP_WEEKS,
                more ==> week as int == start + i * SECONDS_PER_WEEK,
                more ==> week <= timestamp,
                !more ==> start + i * SECONDS_PER_WEEK > to,
                add3(pending(self.changes(), start, to, MAX_CATCH_UP_WEEKS as nat), triple(state.voting_power_coefficients)) == add3(
                    triple(orig.voting_power_coefficients),
                    pending(self.changes(), start + i * SECONDS_PER_WEEK, to, (MAX_CATCH_UP_WEEKS - i) as nat),
                ),
                i + pending_steps(start + i * SECONDS_PER_WEEK, to, (MAX_CATCH_UP_WEEKS - i) as nat)
                    == pending_steps(start, to, MAX_CATCH_UP_WEEKS as nat),
                state.total_deposit == orig.total_deposit,
                save ==> (i == 0 ==> state.timestamp == orig.timestamp),
                save ==> (i > 0 ==> state.timestamp == start + (i - 1) * SECONDS_PER_WEEK),
                !save ==> state.timestamp == orig.timestamp,
                !save ==> saved@.len() == 0,
                save ==> saved@.len() == i,
                save && saved@.len() > 0 ==> saved@.last() == *state,
                forall|j: int| 0 <= j < saved@.len() ==> (#[trigger] saved@[j]).total_deposit == orig.total_deposit,
                triple(state.voting_power_coefficients) == sub3(
                    triple(orig.voting_power_coefficients),
                    pending_upto(self.changes(), start, i as nat),
                ),
                forall|j: int| 0 <= j < saved@.len() ==> catch_up_snapshot(#[trigger] saved@[j], orig, self.changes(), j),
            decreases MAX_CATCH_UP_WEEKS - i,
        {
            let ghost wi = start + i as int * SECONDS_PER_WEEK as int;
            let k: u64 = week / SECONDS_PER_WEEK;
            let change = if k < self.coefficient_changes.len() as u64 {
                self.coefficient_changes[k as usize]
            } else {
                QuadraticEquationCoefficients::zero()
            };
            proof {
                let b = orig.timestamp as int / SECONDS_PER_WEEK as int;
                assert(start == b * SECONDS_PER_WEEK as int + SECONDS_PER_WEEK as int);
                assert(wi == (b + 1 + i) * SECONDS_PER_WEEK as int) by (nonlinear_arith)
                    requires
                        wi == b * SECONDS_PER_WEEK as int + SECONDS_PER_WEEK as int + i as int * SECONDS_PER_WEEK as int,
                ;
                vstd::arithmetic::div_mod::lemma_fundamental_div_mod_converse(wi, SECONDS_PER_WEEK as int, b + 1 + i, 0);
                assert(week as int == wi);
                assert(triple(change) == change_at(self.changes(), wi));
                lemma_pending_nonneg(self.changes(), wi + SECONDS_PER_WEEK, to, (MAX_CATCH_UP_WEEKS - i - 1) as nat);
                assert(pending(self.changes(), wi, to, (MAX_CATCH_UP_WEEKS - i) as nat) == add3(
                    change_at(self.changes(), wi),
                    pending(self.changes(), wi + SECONDS_PER_WEEK, to, (MAX_CATCH_UP_WEEKS - i - 1) as nat),
                ));
                assert(pending_steps(wi, to, (MAX_CATCH_UP_WEEKS - i) as nat) == 1 + pending_steps(
                    wi + SECONDS_PER_WEEK, to, (MAX_CATCH_UP_WEEKS - i - 1) as nat));
                assert(wi + SECONDS_PER_WEEK == start + (i + 1) * SECONDS_PER_WEEK);
                assert(pending_upto(self.changes(), start, (i + 1) as nat) == add3(
                    pending_upto(self.changes(), start, i as nat),
                    change_at(self.changes(), wi),
                ));
            }
            match state.voting_power_coefficients.checked_sub(&change) {
                None => {
                    return Err(ContractError::Overflow {});
                },
                Some(c) => {
                    state.voting_power_coefficients = c;
                },
            }
            if save {
                state.timestamp = week;
                let ghost before_push = saved@;
                saved.push(*state);
                proof {
                    assert forall|j: int| 0 <= j < saved@.len() implies catch_up_snapshot(
                        #[trigger] saved@[j],
                        orig,
                        self.changes(),
                        j,
                    ) by {
                        if j < before_push.len() {
                            assert(saved@[j] == before_push[j]);
                        }
                    }
                }
            }
            i = i + 1;
            if timestamp - week >= SECONDS_PER_WEEK {
                week = week + SECONDS_PER_WEEK;
            } else {
                more = false;
            }
        }
        proof {
            assert(pending(self.changes(), start + i * SECONDS_PER_WEEK, to, (MAX_CATCH_UP_WEEKS - i) as nat) == zero3());
            assert(pending_steps(start + i * SECONDS_PER_WEEK, to, (MAX_CATCH_UP_WEEKS - i) as nat) == 0);
        }
        Ok(())
    }

    pub proof fn lemma_current_lock_wf(&self, user: u64)
        requires
            self.wf(),
        ensures
            record_wf(self.current_lock(user)),
            self.current_lock(user).timestamp <= self.current_state().timestamp,
    {
        lemma_user_index_bounds(self.users@, user);
        let i = user_index(self.users@, user);
        if i >= 0 {
            let h = self.users@[i].history@;
            if h.len() > 0 {
                assert(record_wf(self.users@[i].history@[h.len() - 1]));
            }
        }
    }

    /// Index of `user`'s entry.
    fn find_user(&self, user: u64) -> (r: Option<usize>)
        ensures
            match r {
                Some(i) => i as int == user_index(self.users@, user) && i < self.users@.len(),
                None => user_index(self.users@, user) == -1,
            },
    {
        let mut i: usize = self.users.len();
        assert(self.users@.subrange(0, self.users@.len() as int) == self.users@);
        while i > 0
            invariant
                i <= self.users@.len(),
                user_index(self.users@, user) == user_index(self.users@.subrange(0, i as int), user),
            decreases i,
        {
            let ghost prefix = self.users@.subrange(0, i as int);
            assert(prefix.drop_last() == self.users@.subrange(0, i - 1));
            if self.users[i - 1].user == user {
                return Some(i - 1);
            }
            i = i - 1;
        }
        None
    }

    /// The lock that `user` holds now.
    pub fn current_lock_of(&self, user: u64) -> (r: UserLockedBalance)
        requires
            self.wf(),
        ensures
            r == self.current_lock(user),
            record_wf(r),
            r.timestamp <= self.current_state().timestamp,
    {
        proof {
            lemma_user_index_bounds(self.users@, user);
        }
        match self.find_user(user) {
            None => UserLockedBalance::void_lock_with_timestamp(0),
            Some(i) => {
                let n = self.users[i].history.len();
                if n == 0 {
                    UserLockedBalance::void_lock_with_timestamp(0)
                } else {
                    proof {
                        assert(record_wf(self.users@[i as int].history@[n - 1]));
                    }
                    self.users[i].history[n - 1]
                }
            },
        }
    }

    /// The record of `user` as of `timestamp`: the last one written strictly before it.
    pub fn lock_at(&self, user: u64, timestamp: u64) -> (r: UserLockedBalance)
        requires
            self.wf(),
        ensures
            r == lock_as_of(history_of(self.users@, user), timestamp as int),
            record_wf(r),
            r.is_live() ==> r.timestamp < timestamp,
    {
        proof {
            lemma_user_index_bounds(self.users@, user);
        }
        match self.find_user(user) {
            None => {
                proof {
                    lemma_lock_as_of_wf(Seq::<UserLockedBalance>::empty(), timestamp as int);
                }
                UserLockedBalance::void_lock_with_timestamp(0)
            },
            Some(u) => {
                let ghost h = self.users@[u as int].history@;
                proof {
                    assert forall|j: int| 0 <= j < h.len() implies record_wf(#[trigger] h[j]) by {
                        assert(record_wf(self.users@[u as int].history@[j]));
                    }
                    lemma_lock_as_of_wf(h, timestamp as int);
                }
                let mut i: usize = self.users[u].history.len();
                assert(h.subrange(0, h.len() as int) == h);
                while i > 0
                    invariant
                        u < self.users@.len(),
                        u as int == user_index(self.users@, user),
                        record_wf(lock_as_of(h, timestamp as int)),
                        lock_as_of(h, timestamp as int).is_live() ==> lock_as_of(h, timestamp as int).timestamp < timestamp,
                        i <= h.len(),
                        h == self.users@[u as int].history@,
                        lock_as_of(h, timestamp as int) == lock_as_of(h.subrange(0, i as int), timestamp as int),
                    decreases i,
                {
                    let ghost prefix = h.subrange(0, i as int);
                    assert(prefix.drop_last() == h.subrange(0, i - 1));
                    let rec = self.users[u].history[i - 1];
                    if rec.timestamp < timestamp {
                        assert(prefix.last() == rec);
                        return rec;
                    }
                    i = i - 1;
                }
                UserLockedBalance::void_lock_with_timestamp(0)
            },
        }
    }

    /// The aggregate snapshot as of `timestamp`: the last one written strictly before it,
    /// else the empty aggregate at time zero.
    pub fn state_at(&self, timestamp: u64) -> (r: State)
        ensures
            triple(r.voting_power_coefficients) == snapshot_triple(state_as_of(self.states@, timestamp as int)),
            r.total_deposit == snapshot_deposit(state_as_of(self.states@, timestamp as int)),
            r.timestamp == snapshot_time(state_as_of(self.states@, timestamp as int)),
    {
        let mut i: usize = self.states.len();
        assert(self.states@.subrange(0, self.states@.len() as int) == self.states@);
        while i > 0
            invariant
                i <= self.states@.len(),
                state_as_of(self.states@, timestamp as int) == state_as_of(
                    self.states@.subrange(0, i as int),
                    timestamp as int,
                ),
            decreases i,
        {
            let ghost prefix = self.states@.subrange(0, i as int);
            assert(prefix.drop_last() == self.states@.subrange(0, i - 1));
            let st = self.states[i - 1];
            if st.timestamp < timestamp {
                return st;
            }
            i = i - 1;
        }
        State::initial(0)
    }

    /// Applies the pending changes up to `timestamp` to `state`, read-only: `state`
    /// keeps its timestamp and nothing is recorded.
    pub fn apply_pending_slope_changes_to_state(&self, state: &mut State, timestamp: u64) -> (r:
        Result<(), ContractError>)
        ensures
            r.is_ok() == nonneg3(
                sub3(
                    triple(old(state).voting_power_coefficients),
                    catch_up_sum(self.changes(), old(state).timestamp as int, timestamp as int),
                ),
            ),
            r.is_err() ==> r == Err::<(), ContractError>(ContractError::Overflow {  }),
            r.is_ok() ==> triple(final(state).voting_power_coefficients) == sub3(
                triple(old(state).voting_power_coefficients),
                catch_up_sum(self.changes(), old(state).timestamp as int, timestamp as int),
            ),
            r.is_ok() ==> final(state).total_deposit == old(state).total_deposit,
            r.is_ok() ==> final(state).timestamp == old(state).timestamp,
    {
        let mut saved: Vec<State> = Vec::new();
        self.internal_apply_pending_slope_changes_to_state(state, timestamp, false, &mut saved)
    }

    /// Applies the pending changes up to `timestamp` to `state`, moving its timestamp
    /// to each week applied and recording a snapshot of each.
    pub fn apply_pending_slope_changes_to_state_and_save_updates(
        &mut self,
        state: &mut State,
        timestamp: u64,
    ) -> (r: Result<(), ContractError>)
        ensures
            r.is_ok() == nonneg3(
                sub3(
                    triple(old(state).voting_power_coefficients),
                    catch_up_sum(old(self).changes(), old(state).timestamp as int, timestamp as int),
                ),
            ),
            r.is_err() ==> r == Err::<(), ContractError>(ContractError::Overflow {  }),
            r.is_err() ==> *final(self) == *old(self),
            r.is_ok() ==> triple(final(state).voting_power_coefficients) == sub3(
                triple(old(state).voting_power_coefficients),
                catch_up_sum(old(self).changes(), old(state).timestamp as int, timestamp as int),
            ),
            r.is_ok() ==> final(state).total_deposit == old(state).total_deposit,
            r.is_ok() ==> final(state).timestamp == catch_up_timestamp(
                old(state).timestamp as int,
                timestamp as int,
            ),
            r.is_ok() ==> final(self).states@.len() == old(self).states@.len() + pending_steps(
                next_week(old(state).timestamp as int),
                timestamp as int,
                MAX_CATCH_UP_WEEKS as nat,
            ),
            r.is_ok() ==> final(self).states@.subrange(0, old(self).states@.len() as int) == old(self).states@,
            r.is_ok() && final(self).states@.len() > old(self).states@.len() ==> final(self).states@.last() == *final(state),
            r.is_ok() ==> forall|j: int|
                old(self).states@.len() <= j < final(self).states@.len() ==> (#[trigger] final(self).states@[j]).total_deposit
                    == old(state).total_deposit,
            r.is_ok() ==> forall|j: int|
                old(self).states@.len() <= j < final(self).states@.len() ==> catch_up_snapshot(
                    #[trigger] final(self).states@[j],
                    *old(state),
                    old(self).changes(),
                    j - old(self).states@.len(),
                ),
            final(self).config == old(self).config,
            final(self).users == old(self).users,
            final(self).coefficient_changes == old(self).coefficient_changes,
    {
        let mut saved: Vec<State> = Vec::new();
        let r = self.internal_apply_pending_slope_changes_to_state(state, timestamp, true, &mut saved);
        if r.is_ok() {
            let ghost before = self.states@;
            let ghost added = saved@;
            self.states.append(&mut saved);
            proof {
                assert(self.states@.subrange(0, before.len() as int) == before);
                assert forall|j: int| before.len() <= j < self.states@.len() implies (#[trigger] self.states@[j]).total_deposit
                    == old(state).total_deposit by {
                    assert(self.states@[j] == added[j - before.len()]);
                }
                assert forall|j: int| before.len() <= j < self.states@.len() implies catch_up_snapshot(
                    #[trigger] self.states@[j],
                    *old(state),
                    old(self).changes(),
                    j - before.len(),
                ) by {
                    assert(self.states@[j] == added[j - before.len()]);
                }
            }
        }
        r
    }

    /// Replaces `user`'s lock `prev_user_locked_balance` by `new_user_locked_balance`:
    /// catches the aggregate up to the new record's time, moves the lock's share of it,
    /// reschedules its reversal and records the new aggregate and the new lock.
    pub fn update_user_lock(
        &mut self,
        user: u64,
        prev_user_locked_balance: UserLockedBalance,
        new_user_locked_balance: UserLockedBalance,
    ) -> (r: Result<(), ContractError>)
        requires
            old(self).wf(),
            prev_user_locked_balance == old(self).current_lock(user),
            record_wf(new_user_locked_balance),
            new_user_locked_balance.timestamp >= old(self).current_state().timestamp,
        ensures
            final(self).wf(),
            r.is_err() ==> r == Err::<(), ContractError>(ContractError::Overflow {  }),
            r.is_err() ==> *final(self) == *old(self),
            r.is_ok() == VeToken::update_fits(old(self), prev_user_locked_balance, new_user_locked_balance),
            r.is_ok() ==> VeToken::lock_replaced(
                old(self),
                final(self),
                user,
                prev_user_locked_balance,
                new_user_locked_balance,
            ),
            r.is_ok() && old(self).consistent() && catch_up_completes(
                old(self).current_state().timestamp as int,
                new_user_locked_balance.timestamp as int,
            ) ==> final(self).consistent(),
    {
        proof {
            self.lemma_current_lock_wf(user);
        }
        let ghost before = *self;
        let last: usize = self.states.len() - 1;
        let mut state = self.states[last];
        let mut saved: Vec<State> = Vec::new();
        match self.internal_apply_pending_slope_changes_to_state(
            &mut state,
            new_user_locked_balance.timestamp,
            true,
            &mut saved,
        ) {
            Ok(()) => {},
            Err(e) => return Err(e),
        }
        match update_state_for_lock_update(
            &mut state,
            &prev_user_locked_balance,
            &new_user_locked_balance,
        ) {
            Ok(()) => {},
            Err(e) => return Err(e),
        }
        match self.update_slope_changes_for_lock_update(
            &prev_user_locked_balance,
            &new_user_locked_balance,
        ) {
            Ok(()) => {},
            Err(e) => return Err(e),
        }
        let ghost rescheduled_changes = self.changes();
        let ghost added = saved@;
        self.states.append(&mut saved);
        self.states.push(state);
        proof {
            assert(self.states@.subrange(0, before.states@.len() as int) == before.states@);
            assert forall|j: int|
                before.states@.len() <= j < self.states@.len() - 1 implies catch_up_snapshot(
                    #[trigger] self.states@[j],
                    before.current_state(),
                    before.changes(),
                    j - before.states@.len(),
                ) by {
                assert(self.states@[j] == added[j - before.states@.len()]);
            }
        }
        let ghost users_before = self.users@;
        proof {
            lemma_user_index_bounds(users_before, user);
        }
        match self.find_user(user) {
            Some(i) => {
                self.users[i].history.push(new_user_locked_balance);
                proof {
                    assert(self.users@ == users_before.update(i as int, self.users@[i as int]));
                    lemma_deposit_sum_update(users_before, i as int, self.users@[i as int]);
                    assert(entry_lock(users_before[i as int]) == prev_user_locked_balance);
                    assert(entry_lock(self.users@[i as int]) == new_user_locked_balance);
                    assert forall|w: int| #[trigger] ending_sum(self.users@, w) == add3(
                        sub3(ending_sum(users_before, w), if prev_user_locked_balance.end_lock_time == w { prev_user_locked_balance.spec_triple() } else { zero3() }),
                        if new_user_locked_balance.end_lock_time == w { new_user_locked_balance.spec_triple() } else { zero3() },
                    ) by {
                        lemma_sums_update(users_before, i as int, self.users@[i as int], new_user_locked_balance.timestamp as int, w);
                    }
                    lemma_sums_update(users_before, i as int, self.users@[i as int], new_user_locked_balance.timestamp as int, 0);
                    lemma_user_index_same_owners(self.users@, users_before, user);
                    assert forall|u: u64| u != user implies history_of(self.users@, u) == history_of(users_before, u) by {
                        lemma_user_index_same_owners(self.users@, users_before, u);
                        lemma_user_index_bounds(users_before, u);
                    }
                }
            },
            None => {
                let mut history: Vec<UserLockedBalance> = Vec::new();
                history.push(new_user_locked_balance);
                self.users.push(UserLocks { user, history });
                proof {
                    lemma_deposit_sum_push(users_before, UserLocks { user, history });
                    assert(prev_user_locked_balance.deposited_amount == 0);
                    assert(entry_lock(UserLocks { user, history }) == new_user_locked_balance);
                    assert forall|w: int| #[trigger] ending_sum(self.users@, w) == add3(
                        sub3(ending_sum(users_before, w), if prev_user_locked_balance.end_lock_time == w { prev_user_locked_balance.spec_triple() } else { zero3() }),
                        if new_user_locked_balance.end_lock_time == w { new_user_locked_balance.spec_triple() } else { zero3() },
                    ) by {
                        lemma_sums_push(users_before, UserLocks { user, history }, new_user_locked_balance.timestamp as int, w);
                    }
                    lemma_sums_push(users_before, UserLocks { user, history }, new_user_locked_balance.timestamp as int, 0);
                    assert(self.users@.drop_last() == users_before);
                    assert forall|u: u64| u != user implies history_of(self.users@, u) == history_of(users_before, u) by {
                        lemma_user_index_bounds(users_before, u);
                    }
                }
            },
        }
        proof {
            let b = &before;
            let a = &*self;
            if b.consistent() && catch_up_completes(b.current_state().timestamp as int, new_user_locked_balance.timestamp as int) {
                let t = new_user_locked_balance.timestamp as int;
                b.lemma_ends_aligned();
                lemma_catch_up_is_live_difference(
                    b.changes(),
                    b.users@,
                    b.current_state().timestamp as int,
                    next_week(b.current_state().timestamp as int),
                    t,
                    MAX_CATCH_UP_WEEKS as nat,
                );
                assert(a.changes() == rescheduled_changes);
                assert forall|w: int| #[trigger] change_at(a.changes(), w) == ending_sum(a.users@, w) by {
                    assert(change_at(rescheduled_changes, w) == rescheduled(b.changes(), prev_user_locked_balance, new_user_locked_balance, w));
                    assert(change_at(b.changes(), w) == ending_sum(b.users@, w));
                    assert(ending_sum(a.users@, w) == add3(
                        sub3(ending_sum(b.users@, w), if prev_user_locked_balance.end_lock_time == w { prev_user_locked_balance.spec_triple() } else { zero3() }),
                        if new_user_locked_balance.end_lock_time == w { new_user_locked_balance.spec_triple() } else { zero3() },
                    ));
                }
                assert(new_user_locked_balance.is_live() ==> new_user_locked_balance.end_lock_time > t);
                assert(a.consistent());
            }
            assert(a.config == b.config);
            assert(history_of(a.users@, user) == history_of(b.users@, user).push(new_user_locked_balance));
            assert(forall|u: u64| u != user ==> history_of(a.users@, u) == history_of(b.users@, u));
            assert(a.current_state().timestamp == new_user_locked_balance.timestamp);
            assert(a.changes() == rescheduled_changes);
            assert forall|w: int| change_at(a.changes(), w) == rescheduled(b.changes(), prev_user_locked_balance, new_user_locked_balance, w) by {
                assert(change_at(rescheduled_changes, w) == rescheduled(b.changes(), prev_user_locked_balance, new_user_locked_balance, w));
            }
            assert(b.states@.len() < a.states@.len());
            assert(a.states@.subrange(0, b.states@.len() as int) == b.states@);
            assert forall|i: int, j: int|
                0 <= i < self.users@.len() && 0 <= j < self.users@[i].history@.len() implies record_wf(
                    #[trigger] self.users@[i].history@[j]) && self.users@[i].history@[j].timestamp <= self.current_state().timestamp by {
                if i < users_before.len() && j < users_before[i].history@.len() {
                    assert(record_wf(users_before[i].history@[j]));
                    assert(users_before[i].history@[j] == self.users@[i].history@[j]);
                }
            }
        }
        Ok(())
    }
}

} // verus!
