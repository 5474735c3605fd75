use crate::coefficients::{locked_value, vp_fits, vp_value};
use crate::error::ContractError;
use crate::lock::UserLockedBalance;
use crate::ve_msg::{Cw20HookMsg, StakerResponse, StateResponse};
use crate::ve_token::{
    catch_up_completes, catch_up_sum, change_at, ending_sum, history_of, lock_as_of, nonneg3,
    record_wf, state_as_of, sub3, week_floor, Config, State, UserLocks, VeToken,
};
use crate::{MAX_SECONDS, MAX_WEEKS, SECONDS_PER_WEEK};
use vstd::prelude::*;

verus! {

/// Whether an address belongs to a contract; contracts may not hold locks.
/// Every address here is a user's.
pub fn is_contract(_addr: u64) -> (r: bool)
    ensures
        !r,
{
    false
}

/// The error for an end time more than `MAX_SECONDS` after `now`.
pub open spec fn too_late(end: int, now: int) -> ContractError {
    ContractError::EndLockTimeTooLate {
        max_weeks: MAX_WEEKS,
        lock_duration_in_weeks: ((end - now) / MAX_WEEKS as int) as u64,
    }
}

/// A lock written at `now`, starting then.
pub open spec fn fresh_lock(amount: int, end: int, now: int) -> UserLockedBalance {
    UserLockedBalance {
        deposited_amount: amount as u128,
        end_lock_time: end as u64,
        start_lock_time: now as u64,
        timestamp: now as u64,
    }
}

/// The record that a withdrawal at `now` leaves: void where everything is released,
/// else what is still locked, restarting now.
pub open spec fn withdrawn_record(prev: UserLockedBalance, now: int) -> UserLockedBalance {
    if prev.spec_expired_at(now) || prev.spec_locked_amount(now) == 0 {
        UserLockedBalance { deposited_amount: 0, end_lock_time: 0, start_lock_time: 0, timestamp: now as u64 }
    } else {
        fresh_lock(prev.spec_locked_amount(now), prev.end_lock_time as int, now)
    }
}

/// What a withdrawal at `now` pays out: everything once expired, else what is released.
pub open spec fn withdrawn_amount(prev: UserLockedBalance, now: int) -> int {
    if prev.spec_expired_at(now) {
        prev.deposited_amount as int
    } else {
        prev.deposited_amount - prev.spec_locked_amount(now)
    }
}

/// The outcome of creating a lock of `amount` for `user` until `end_lock_time` at `now`.
pub open spec fn create_lock_result(before: &VeToken, user: u64, amount: u128, end_lock_time: u64, now: u64) -> Result<(), ContractError> {
    let prev = before.current_lock(user);
    let end = week_floor(end_lock_time as int);
    if prev.is_live() {
        Err(ContractError::LockAlreadyExists {  })
    } else if amount == 0 {
        Err(ContractError::InsufficientLockAmount {  })
    } else if end <= now {
        Err(ContractError::EndLockTimeTooEarly {  })
    } else if end > now + MAX_SECONDS {
        Err(too_late(end, now as int))
    } else if VeToken::update_fits(before, prev, fresh_lock(amount as int, end, now as int)) {
        Ok(())
    } else {
        Err(ContractError::Overflow {  })
    }
}

/// The outcome of moving `user`'s lock end to `new_end_lock_time` at `now`.
pub open spec fn increase_end_lock_time_result(before: &VeToken, user: u64, new_end_lock_time: u64, now: u64) -> Result<(), ContractError> {
    let prev = before.current_lock(user);
    let end = week_floor(new_end_lock_time as int);
    if !prev.is_live() {
        Err(ContractError::LockDoesNotExist {  })
    } else if prev.spec_expired_at(now as int) {
        Err(ContractError::LockIsExpired {  })
    } else if prev.end_lock_time >= end {
        Err(ContractError::EndLockTimeTooEarly {  })
    } else if end > now + MAX_SECONDS {
        Err(too_late(end, now as int))
    } else if VeToken::update_fits(before, prev, fresh_lock(prev.deposited_amount as int, end, now as int)) {
        Ok(())
    } else {
        Err(ContractError::Overflow {  })
    }
}

/// The outcome of adding `increase_amount` to `user`'s lock at `now`.
pub open spec fn increase_lock_amount_result(before: &VeToken, user: u64, increase_amount: u128, now: u64) -> Result<(), ContractError> {
    let prev = before.current_lock(user);
    if !prev.is_live() {
        Err(ContractError::LockDoesNotExist {  })
    } else if prev.spec_expired_at(now as int) {
        Err(ContractError::LockIsExpired {  })
    } else if increase_amount == 0 {
        Err(ContractError::InsufficientLockIncreaseAmount {  })
    } else if prev.deposited_amount + increase_amount <= u128::MAX && VeToken::update_fits(
        before,
        prev,
        fresh_lock(prev.deposited_amount + increase_amount, prev.end_lock_time as int, now as int),
    ) {
        Ok(())
    } else {
        Err(ContractError::Overflow {  })
    }
}

/// The outcome of `user` withdrawing at `now`: the amount paid out.
pub open spec fn withdraw_result(before: &VeToken, user: u64, now: u64) -> Result<u128, ContractError> {
    let prev = before.current_lock(user);
    if !prev.is_live() {
        Err(ContractError::LockDoesNotExist {  })
    } else if before.config.cw20_address.is_none() {
        Err(ContractError::ConfigContractsNotRegistered {  })
    } else if VeToken::update_fits(before, prev, withdrawn_record(prev, now as int)) {
        Ok(withdrawn_amount(prev, now as int) as u128)
    } else {
        Err(ContractError::Overflow {  })
    }
}

/// Whether parts make a well-formed engine: there is a snapshot, every record keeps the
/// void invariant and is no newer than the last snapshot, and the last snapshot's total
/// deposit is the sum of the current deposits.
pub open spec fn restorable(states: Seq<State>, users: Seq<UserLocks>) -> bool {
    &&& states.len() > 0
    &&& forall|a: int, b: int|
        0 <= a < users.len() && 0 <= b < users[a].history@.len() ==> record_wf(
            #[trigger] users[a].history@[b],
        ) && users[a].history@[b].timestamp <= states.last().timestamp
    &&& states.last().total_deposit == crate::ve_token::deposit_sum(users)
}

impl VeToken {
    /// The aggregate at `t`: the snapshot as of `t`, caught up to `t`, evaluated at `t`;
    /// `None` where a value leaves its range.
    pub open spec fn state_response(&self, t: int) -> Option<StateResponse> {
        let st = state_as_of(self.states@, t);
        let caught = sub3(
            crate::ve_token::snapshot_triple(st),
            catch_up_sum(self.changes(), crate::ve_token::snapshot_time(st) as int, t),
        );
        if nonneg3(caught) && vp_fits(caught, t) {
            Some(
                StateResponse {
                    total_deposited_amount: crate::ve_token::snapshot_deposit(st),
                    total_locked_amount: locked_value(caught, t) as u128,
                    total_balance: vp_value(caught, t) as u128,
                },
            )
        } else {
            None
        }
    }

    /// `user`'s lock as recorded strictly before `t`, evaluated at `t`; `None` where a
    /// value leaves its range.
    pub open spec fn staker_response(&self, user: u64, t: int) -> Option<StakerResponse> {
        let l = lock_as_of(history_of(self.users@, user), t);
        let live = l.is_live() && !l.spec_expired_at(t);
        if !live || (l.coefficients_fit() && vp_fits(l.spec_triple(), t)) {
            Some(
                StakerResponse {
                    deposited_amount: l.deposited_amount,
                    locked_amount: l.spec_locked_amount(t) as u128,
                    balance: if live {
                        vp_value(l.spec_triple(), t) as u128
                    } else {
                        0
                    },
                },
            )
        } else {
            None
        }
    }

    /// Rebuilds an engine from its parts; `None` where they break its invariant
    /// (no snapshot, a mixed or misaligned lock, a record newer than the aggregate, or a
    /// total deposit that is not the sum of the current deposits).
    pub fn restore(
        config: Config,
        states: Vec<State>,
        users: Vec<UserLocks>,
        coefficient_changes: Vec<crate::coefficients::QuadraticEquationCoefficients>,
    ) -> (r: Option<VeToken>)
        ensures
            r.is_some() == restorable(states@, users@),
            r matches Some(v) ==> v.wf() && v.config == config && v.states@ == states@ && v.users@
                == users@ && v.coefficient_changes@ == coefficient_changes@,
    {
        let n = states.len();
        if n == 0 {
            return None;
        }
        let current_time = states[n - 1].timestamp;
        let total = states[n - 1].total_deposit;
        let mut sum: u128 = 0;
        let mut i: usize = 0;
        while i < users.len()
            invariant
                i <= users@.len(),
                states@.len() > 0,
                current_time == states@.last().timestamp,
                total == states@.last().total_deposit,
                sum == crate::ve_token::deposit_sum(users@.take(i as int)),
                forall|a: int, b: int|
                    0 <= a < i && 0 <= b < users@[a].history@.len() ==> record_wf(
                        #[trigger] users@[a].history@[b],
                    ) && users@[a].history@[b].timestamp <= current_time,
            decreases users.len() - i,
        {
            let mut j: usize = 0;
            while j < users[i].history.len()
                invariant
                    i < users@.len(),
                    states@.len() > 0,
                    current_time == states@.last().timestamp,
                    j <= users@[i as int].history@.len(),
                    forall|b: int|
                        0 <= b < j ==> record_wf(#[trigger] users@[i as int].history@[b])
                            && users@[i as int].history@[b].timestamp <= current_time,
                decreases users@[i as int].history@.len() - j,
            {
                let rec = users[i].history[j];
                let consistent = (rec.deposited_amount == 0 && rec.end_lock_time == 0
                    && rec.start_lock_time == 0) || (rec.deposited_amount > 0 && 0
                    < rec.start_lock_time && rec.start_lock_time < rec.end_lock_time);
                if !consistent || rec.end_lock_time % SECONDS_PER_WEEK != 0 || (rec.deposited_amount
                    > 0 && rec.start_lock_time != rec.timestamp) || rec.timestamp > current_time {
                    proof {
                        assert(!(record_wf(users@[i as int].history@[j as int])
                            && users@[i as int].history@[j as int].timestamp <= states@.last().timestamp));
                    }
                    return None;
                }
                j = j + 1;
            }
            let len = users[i].history.len();
            let deposit: u128 = if len == 0 {
                0
            } else {
                users[i].history[len - 1].deposited_amount
            };
            proof {
                assert(users@.take(i + 1).drop_last() == users@.take(i as int));
            }
            sum = match sum.checked_add(deposit) {
                Some(x) => x,
                None => {
                    proof {
                        crate::ve_token::lemma_deposit_sum_prefix(users@, i + 1);
                    }
                    return None;
                },
            };
            i = i + 1;
        }
        proof {
            assert(users@.take(users@.len() as int) == users@);
        }
        if sum != total {
            return None;
        }
        Some(VeToken { config, states, users, coefficient_changes })
    }

    /// A new engine owned by `owner`, with the empty aggregate recorded at `now`.
    pub fn instantiate(owner: u64, now: u64) -> (r: VeToken)
        ensures
            r.wf(),
            r.config == (Config { cw20_address: None, owner }),
            r.states@.len() == 1,
            r.current_state().timestamp == now,
            r.current_state().total_deposit == 0,
            crate::coefficients::triple(r.current_state().voting_power_coefficients) == (0int, 0int, 0int),
            r.users@.len() == 0,
            r.coefficient_changes@.len() == 0,
            r.consistent(),
    {
        let mut states: Vec<State> = Vec::new();
        states.push(State::initial(now));
        VeToken {
            config: Config { cw20_address: None, owner },
            states,
            users: Vec::new(),
            coefficient_changes: Vec::new(),
        }
    }

    /// Wires the reward token once; a second call fails `Unauthorized`.
    pub fn execute_register_contracts(&mut self, cw20_address: u64) -> (r: Result<(), ContractError>)
        ensures
            old(self).config.cw20_address.is_some() <==> r == Err::<(), ContractError>(ContractError::Unauthorized {  }),
            r.is_ok() <==> old(self).config.cw20_address.is_none(),
            r.is_ok() ==> final(self).config == (Config { cw20_address: Some(cw20_address), owner: old(self).config.owner }),
            r.is_err() ==> *final(self) == *old(self),
            final(self).states == old(self).states,
            final(self).users == old(self).users,
            final(self).coefficient_changes == old(self).coefficient_changes,
            old(self).consistent() ==> final(self).consistent(),
    {
        if self.config.cw20_address.is_some() {
            return Err(ContractError::Unauthorized {});
        }
        self.config.cw20_address = Some(cw20_address);
        proof {
            assert(self.states@ == old(self).states@);
            assert(self.users@ == old(self).users@);
            assert(self.changes() == old(self).changes());
            if old(self).consistent() {
                assert forall|w: int| #[trigger] change_at(self.changes(), w) == ending_sum(self.users@, w) by {
                    assert(change_at(old(self).changes(), w) == ending_sum(old(self).users@, w));
                }
            }
        }
        Ok(())
    }

    /// Advances the aggregate to `now`, recording a snapshot at each week applied.
    pub fn execute_global_checkpoint(&mut self, now: u64) -> (r: Result<(), ContractError>)
        requires
            old(self).wf(),
        ensures
            final(self).wf(),
            r.is_ok() == nonneg3(
                sub3(
                    crate::coefficients::triple(old(self).current_state().voting_power_coefficients),
                    catch_up_sum(old(self).changes(), old(self).current_state().timestamp as int, now as int),
                ),
            ),
            r.is_err() ==> *final(self) == *old(self),
            r.is_ok() ==> crate::coefficients::triple(final(self).current_state().voting_power_coefficients) == sub3(
                crate::coefficients::triple(old(self).current_state().voting_power_coefficients),
                catch_up_sum(old(self).changes(), old(self).current_state().timestamp as int, now as int),
            ),
            r.is_ok() ==> final(self).current_state().total_deposit == old(self).current_state().total_deposit,
            r.is_ok() ==> final(self).states@.subrange(0, old(self).states@.len() as int) == old(self).states@,
            r.is_ok() ==> final(self).states@.len() == old(self).states@.len() + crate::ve_token::pending_steps(
                crate::ve_token::next_week(old(self).current_state().timestamp as int),
                now as int,
                crate::ve_token::MAX_CATCH_UP_WEEKS as nat,
            ),
            r.is_ok() ==> forall|j: int|
                old(self).states@.len() <= j < final(self).states@.len() ==> crate::ve_token::catch_up_snapshot(
                    #[trigger] final(self).states@[j],
                    old(self).current_state(),
                    old(self).changes(),
                    j - old(self).states@.len(),
                ),
            r.is_ok() ==> final(self).current_state().timestamp == crate::ve_token::catch_up_timestamp(
                old(self).current_state().timestamp as int,
                now as int,
            ),
            final(self).users == old(self).users,
            final(self).coefficient_changes == old(self).coefficient_changes,
            r.is_ok() && old(self).consistent() && old(self).current_state().timestamp <= now
                && catch_up_completes(old(self).current_state().timestamp as int, now as int)
                ==> final(self).consistent(),
    {
        let last: usize = self.states.len() - 1;
        let mut state = self.states[last];
        let ghost before = *self;
        let r = self.apply_pending_slope_changes_to_state_and_save_updates(&mut state, now);
        proof {
            if r.is_ok() {
                crate::ve_token::lemma_catch_up_timestamp_grows(before.current_state().timestamp as int, now as int);
                if self.states@.len() == before.states@.len() {
                    assert(self.states@ == before.states@.subrange(0, before.states@.len() as int));
                    let from = before.current_state().timestamp as int;
                    let w = crate::ve_token::next_week(from);
                    assert(crate::ve_token::pending_steps(w, now as int, crate::ve_token::MAX_CATCH_UP_WEEKS as nat) == 0);
                    assert(catch_up_sum(before.changes(), from, now as int) == crate::ve_token::zero3());
                }
                if before.consistent() && before.current_state().timestamp <= now
                    && catch_up_completes(before.current_state().timestamp as int, now as int) {
                    VeToken::lemma_checkpoint_keeps_consistent(&before, self, now as int);
                }
                assert forall|i: int, j: int|
                    0 <= i < self.users@.len() && 0 <= j < self.users@[i].history@.len() implies (
                    #[trigger] self.users@[i].history@[j]).timestamp <= self.current_state().timestamp by {
                    assert(before.users@[i].history@[j].timestamp <= before.current_state().timestamp);
                    if self.states@.len() == before.states@.len() {
                        assert(self.states@.last() == before.states@.last());
                    }
                }
            }
        }
        r
    }

    /// Locks `amount` for `user` until `end_lock_time` rounded down to a week.
    pub fn execute_create_lock(&mut self, user: u64, amount: u128, end_lock_time: u64, now: u64) -> (r:
        Result<(), ContractError>)
        requires
            old(self).wf(),
            0 < now,
            now >= old(self).current_state().timestamp,
        ensures
            final(self).wf(),
            r.is_err() ==> *final(self) == *old(self),
            r == create_lock_result(old(self), user, amount, end_lock_time, now),
            r.is_ok() ==> VeToken::lock_replaced(
                old(self),
                final(self),
                user,
                old(self).current_lock(user),
                fresh_lock(amount as int, week_floor(end_lock_time as int), now as int),
            ),
            r.is_ok() && old(self).consistent() && catch_up_completes(
                old(self).current_state().timestamp as int,
                now as int,
            ) ==> final(self).consistent(),
    {
        let end_lock_time: u64 = end_lock_time / SECONDS_PER_WEEK * SECONDS_PER_WEEK;
        let prev_user_locked_balance = self.current_lock_of(user);
        if is_contract(user) {
            return Err(ContractError::ContractsCannotInteractWithLocks {});
        }
        if prev_user_locked_balance.lock_exists() {
            return Err(ContractError::LockAlreadyExists {});
        }
        if amount == 0 {
            return Err(ContractError::InsufficientLockAmount {});
        }
        if end_lock_time <= now {
            return Err(ContractError::EndLockTimeTooEarly {});
        }
        if end_lock_time - now > MAX_SECONDS {
            return Err(
                ContractError::EndLockTimeTooLate {
                    max_weeks: MAX_WEEKS,
                    lock_duration_in_weeks: (end_lock_time - now) / MAX_WEEKS,
                },
            );
        }
        let new_user_locked_balance = UserLockedBalance {
            deposited_amount: amount,
            end_lock_time,
            start_lock_time: now,
            timestamp: now,
        };
        proof {
            vstd::arithmetic::div_mod::lemma_fundamental_div_mod_converse(
                end_lock_time as int,
                SECONDS_PER_WEEK as int,
                end_lock_time as int / SECONDS_PER_WEEK as int,
                0,
            );
        }
        match self.update_user_lock(user, prev_user_locked_balance, new_user_locked_balance) {
            Ok(()) => Ok(()),
            Err(e) => Err(e),
        }
    }

    /// Moves `user`'s lock end to `new_end_lock_time` rounded down to a week.
    pub fn execute_increase_end_lock_time(&mut self, user: u64, new_end_lock_time: u64, now: u64) -> (r:
        Result<(), ContractError>)
        requires
            old(self).wf(),
            0 < now,
            now >= old(self).current_state().timestamp,
        ensures
            final(self).wf(),
            r.is_err() ==> *final(self) == *old(self),
            r == increase_end_lock_time_result(old(self), user, new_end_lock_time, now),
            r.is_ok() ==> VeToken::lock_replaced(
                old(self),
                final(self),
                user,
                old(self).current_lock(user),
                fresh_lock(
                    old(self).current_lock(user).deposited_amount as int,
                    week_floor(new_end_lock_time as int),
                    now as int,
                ),
            ),
            r.is_ok() && old(self).consistent() && catch_up_completes(
                old(self).current_state().timestamp as int,
                now as int,
            ) ==> final(self).consistent(),
    {
        let new_end_lock_time: u64 = new_end_lock_time / SECONDS_PER_WEEK * SECONDS_PER_WEEK;
        let prev_user_locked_balance = self.current_lock_of(user);
        if is_contract(user) {
            return Err(ContractError::ContractsCannotInteractWithLocks {});
        }
        if prev_user_locked_balance.is_void_or_undefined() {
            return Err(ContractError::LockDoesNotExist {});
        }
        if prev_user_locked_balance.expired_at_timestamp(now) {
            return Err(ContractError::LockIsExpired {});
        }
        if prev_user_locked_balance.end_lock_time >= new_end_lock_time {
            return Err(ContractError::EndLockTimeTooEarly {});
        }
        if new_end_lock_time - now > MAX_SECONDS {
            return Err(
                ContractError::EndLockTimeTooLate {
                    max_weeks: MAX_WEEKS,
                    lock_duration_in_weeks: (new_end_lock_time - now) / MAX_WEEKS,
                },
            );
        }
        let new_user_locked_balance = UserLockedBalance {
            deposited_amount: prev_user_locked_balance.deposited_amount,
            end_lock_time: new_end_lock_time,
            start_lock_time: now,
            timestamp: now,
        };
        proof {
            vstd::arithmetic::div_mod::lemma_fundamental_div_mod_converse(
                new_end_lock_time as int,
                SECONDS_PER_WEEK as int,
                new_end_lock_time as int / SECONDS_PER_WEEK as int,
                0,
            );
        }
        match self.update_user_lock(user, prev_user_locked_balance, new_user_locked_balance) {
            Ok(()) => Ok(()),
            Err(e) => Err(e),
        }
    }

    /// Adds `increase_amount` to `user`'s lock, restarting its decay now.
    pub fn execute_increase_lock_amount(&mut self, user: u64, increase_amount: u128, now: u64) -> (r:
        Result<(), ContractError>)
        requires
            old(self).wf(),
            0 < now,
            now >= old(self).current_state().timestamp,
        ensures
            final(self).wf(),
            r.is_err() ==> *final(self) == *old(self),
            r == increase_lock_amount_result(old(self), user, increase_amount, now),
            r.is_ok() ==> VeToken::lock_replaced(
                old(self),
                final(self),
                user,
                old(self).current_lock(user),
                fresh_lock(
                    old(self).current_lock(user).deposited_amount + increase_amount,
                    old(self).current_lock(user).end_lock_time as int,
                    now as int,
                ),
            ),
            r.is_ok() && old(self).consistent() && catch_up_completes(
                old(self).current_state().timestamp as int,
                now as int,
            ) ==> final(self).consistent(),
    {
        if is_contract(user) {
            return Err(ContractError::ContractsCannotInteractWithLocks {});
        }
        let prev_user_locked_balance = self.current_lock_of(user);
        if prev_user_locked_balance.is_void_or_undefined() {
            return Err(ContractError::LockDoesNotExist {});
        }
        if prev_user_locked_balance.expired_at_timestamp(now) {
            return Err(ContractError::LockIsExpired {});
        }
        if increase_amount == 0 {
            return Err(ContractError::InsufficientLockIncreaseAmount {});
        }
        let deposited_amount = match prev_user_locked_balance.deposited_amount.checked_add(
            increase_amount,
        ) {
            Some(x) => x,
            None => return Err(ContractError::Overflow {}),
        };
        let new_user_locked_balance = UserLockedBalance {
            deposited_amount,
            end_lock_time: prev_user_locked_balance.end_lock_time,
            start_lock_time: now,
            timestamp: now,
        };
        match self.update_user_lock(user, prev_user_locked_balance, new_user_locked_balance) {
            Ok(()) => Ok(()),
            Err(e) => Err(e),
        }
    }

    /// Withdraws what `user`'s lock has released: all of it once expired, else the
    /// deposit less what is still locked, which stays locked until the same end and
    /// restarts its decay now. Returns the amount to transfer to `user`.
    pub fn execute_withdraw(&mut self, user: u64, now: u64) -> (r: Result<u128, ContractError>)
        requires
            old(self).wf(),
            0 < now,
            now >= old(self).current_state().timestamp,
        ensures
            final(self).wf(),
            r.is_err() ==> *final(self) == *old(self),
            r == withdraw_result(old(self), user, now),
            r.is_ok() ==> r.unwrap() == withdrawn_amount(old(self).current_lock(user), now as int),
            r.is_ok() ==> VeToken::lock_replaced(
                old(self),
                final(self),
                user,
                old(self).current_lock(user),
                withdrawn_record(old(self).current_lock(user), now as int),
            ),
            r.is_ok() && old(self).consistent() && catch_up_completes(
                old(self).current_state().timestamp as int,
                now as int,
            ) ==> final(self).consistent(),
    {
        if is_contract(user) {
            return Err(ContractError::ContractsCannotInteractWithLocks {});
        }
        let prev_user_locked_balance = self.current_lock_of(user);
        if prev_user_locked_balance.is_void_or_undefined() {
            return Err(ContractError::LockDoesNotExist {});
        }
        if self.config.cw20_address.is_none() {
            return Err(ContractError::ConfigContractsNotRegistered {});
        }
        let new_user_locked_balance: UserLockedBalance;
        let withdrawn: u128;
        if prev_user_locked_balance.expired_at_timestamp(now) {
            withdrawn = prev_user_locked_balance.deposited_amount;
            new_user_locked_balance = UserLockedBalance::void_lock_with_timestamp(now);
        } else {
            let locked_amount = prev_user_locked_balance.locked_amount_at_timestamp(now);
            withdrawn = prev_user_locked_balance.deposited_amount - locked_amount;
            if withdrawn == prev_user_locked_balance.deposited_amount {
                new_user_locked_balance = UserLockedBalance::void_lock_with_timestamp(now);
            } else {
                new_user_locked_balance = UserLockedBalance {
                    deposited_amount: locked_amount,
                    end_lock_time: prev_user_locked_balance.end_lock_time,
                    start_lock_time: now,
                    timestamp: now,
                };
            }
        }
        match self.update_user_lock(user, prev_user_locked_balance, new_user_locked_balance) {
            Ok(()) => Ok(withdrawn),
            Err(e) => Err(e),
        }
    }

    /// Dispatches a deposit that arrived through the reward token: only the registered
    /// token may call, and `msg` is the decoded request (`None` where it did not decode).
    pub fn receive_cw20(
        &mut self,
        token_sender: u64,
        sender: u64,
        amount: u128,
        msg: Option<Cw20HookMsg>,
        now: u64,
    ) -> (r: Result<(), ContractError>)
        requires
            old(self).wf(),
            0 < now,
            now >= old(self).current_state().timestamp,
        ensures
            final(self).wf(),
            r.is_err() ==> *final(self) == *old(self),
            r == (if old(self).config.cw20_address != Some(token_sender) {
                Err(ContractError::Unauthorized {  })
            } else {
                match msg {
                    Some(Cw20HookMsg::CreateLock { end_lock_time }) => create_lock_result(old(self), sender, amount, end_lock_time, now),
                    Some(Cw20HookMsg::IncreaseLockAmount {  }) => increase_lock_amount_result(old(self), sender, amount, now),
                    None => Err(ContractError::DataShouldBeGiven {  }),
                }
            }),
            r.is_ok() ==> (match msg {
                Some(Cw20HookMsg::CreateLock { end_lock_time }) => VeToken::lock_replaced(
                    old(self),
                    final(self),
                    sender,
                    old(self).current_lock(sender),
                    fresh_lock(amount as int, week_floor(end_lock_time as int), now as int),
                ),
                Some(Cw20HookMsg::IncreaseLockAmount {  }) => VeToken::lock_replaced(
                    old(self),
                    final(self),
                    sender,
                    old(self).current_lock(sender),
                    fresh_lock(
                        old(self).current_lock(sender).deposited_amount + amount,
                        old(self).current_lock(sender).end_lock_time as int,
                        now as int,
                    ),
                ),
                None => false,
            }),
            r.is_ok() && old(self).consistent() && catch_up_completes(
                old(self).current_state().timestamp as int,
                now as int,
            ) ==> final(self).consistent(),
    {
        let authorized = match self.config.cw20_address {
            Some(a) => a == token_sender,
            None => false,
        };
        if !authorized {
            return Err(ContractError::Unauthorized {});
        }
        match msg {
            Some(Cw20HookMsg::CreateLock { end_lock_time }) => self.execute_create_lock(
                sender,
                amount,
                end_lock_time,
                now,
            ),
            Some(Cw20HookMsg::IncreaseLockAmount {  }) => self.execute_increase_lock_amount(
                sender,
                amount,
                now,
            ),
            None => Err(ContractError::DataShouldBeGiven {}),
        }
    }

    /// The aggregate at `timestamp` (now where none is given): the snapshot as of then,
    /// caught up to it, evaluated at it.
    pub fn query_state(&self, timestamp: Option<u64>, now: u64) -> (r: Result<StateResponse, ContractError>)
        ensures
            r == (match self.state_response(match timestamp { Some(t) => t, None => now } as int) {
                Some(x) => Ok::<StateResponse, ContractError>(x),
                None => Err(ContractError::Overflow {  }),
            }),
    {
        let t: u64 = match timestamp {
            Some(t) => t,
            None => now,
        };
        let mut state = self.state_at(t);
        match self.apply_pending_slope_changes_to_state(&mut state, t) {
            Ok(()) => {},
            Err(e) => return Err(e),
        }
        let total_locked_amount = state.voting_power_coefficients.evaluate_locked_balance_at_timestamp(t);
        let total_balance = match state.voting_power_coefficients.evaluate_voting_power_at_timestamp(t) {
            Some(x) => x,
            None => return Err(ContractError::Overflow {}),
        };
        Ok(StateResponse { total_deposited_amount: state.total_deposit, total_locked_amount, total_balance })
    }

    /// `address`'s lock at `timestamp` (now where none is given), as recorded strictly before then.
    pub fn query_staker(&self, address: u64, timestamp: Option<u64>, now: u64) -> (r: Result<
        StakerResponse,
        ContractError,
    >)
        requires
            self.wf(),
        ensures
            r == (match self.staker_response(address, match timestamp { Some(t) => t, None => now } as int) {
                Some(x) => Ok::<StakerResponse, ContractError>(x),
                None => Err(ContractError::Overflow {  }),
            }),
    {
        let t: u64 = match timestamp {
            Some(t) => t,
            None => now,
        };
        let user_locked_balance = self.lock_at(address, t);
        let locked_amount = user_locked_balance.locked_amount_at_timestamp(t);
        let balance = match user_locked_balance.voting_power_at_timestamp(t) {
            Some(x) => x,
            None => return Err(ContractError::Overflow {}),
        };
        Ok(StakerResponse { deposited_amount: user_locked_balance.deposited_amount, locked_amount, balance })
    }
}

} // verus!
