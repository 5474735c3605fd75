use crate::coefficients::{triple, vp_fits, vp_value, QuadraticEquationCoefficients};
use crate::decimal::{floor_product, ratio_atomics, Decimal, DECIMAL_FRACTIONAL};
use vstd::arithmetic::div_mod::{lemma_div_is_ordered, lemma_div_pos_is_pos};
use vstd::arithmetic::mul::{lemma_mul_inequality, lemma_mul_is_commutative};
use vstd::prelude::*;

verus! {

/// One user's lock, as written at `timestamp`.
///
/// Either `deposited_amount`, `start_lock_time` and `end_lock_time` are all zero
/// (the void lock: none yet, or fully withdrawn), or all three are positive.
#[derive(Clone, Copy, Debug, PartialEq, Eq, Structural)]
pub struct UserLockedBalance {
    pub deposited_amount: u128,
    pub end_lock_time: u64,
    pub start_lock_time: u64,
    pub timestamp: u64,
}

/// The exact coefficient atomics `(q, l, c)` of a live lock with deposit `d`,
/// start `s` and end `e`: `d / (e - s)`, `2 e d / (e - s)`, `e^2 d / (e - s)`.
pub open spec fn lock_triple(d: int, s: int, e: int) -> (int, int, int) {
    (ratio_atomics(d, e - s), ratio_atomics(2 * e * d, e - s), ratio_atomics(e * e * d, e - s))
}

impl UserLockedBalance {
    /// The void invariant, with a live lock starting before it ends.
    pub open spec fn wf(&self) -> bool {
        ||| (self.deposited_amount == 0 && self.end_lock_time == 0 && self.start_lock_time == 0)
        ||| (self.deposited_amount > 0 && 0 < self.start_lock_time < self.end_lock_time)
    }

    pub open spec fn is_live(&self) -> bool {
        self.deposited_amount > 0
    }

    pub open spec fn spec_expired_at(&self, t: int) -> bool {
        self.end_lock_time <= t
    }

    /// The locked amount at `t`: the deposit less the elapsed share of it, rounded so
    /// that the locked amount is overestimated.
    pub open spec fn spec_locked_amount(&self, t: int) -> int {
        if !self.is_live() || self.spec_expired_at(t) {
            0
        } else {
            self.deposited_amount - floor_product(
                self.deposited_amount as int,
                ratio_atomics(
                    t - self.start_lock_time,
                    self.end_lock_time - self.start_lock_time,
                ),
            )
        }
    }

    /// Whether the numerators of the coefficients fit in a `u128`.
    pub open spec fn coefficients_fit(&self) -> bool {
        let d = self.deposited_amount as int;
        let e = self.end_lock_time as int;
        let s = self.start_lock_time as int;
        !self.is_live() || (2 * e <= u64::MAX && 2 * e * d <= u128::MAX && e * e * d
            <= u128::MAX)
    }

    /// The coefficient atomics that this lock adds to the aggregate (zero when void).
    pub open spec fn spec_triple(&self) -> (int, int, int) {
        if !self.is_live() {
            (0, 0, 0)
        } else {
            lock_triple(
                self.deposited_amount as int,
                self.start_lock_time as int,
                self.end_lock_time as int,
            )
        }
    }

    /// Whether a lock exists, that is, is not void.
    pub fn lock_exists(&self) -> (r: bool)
        requires
            self.wf(),
        ensures
            r == self.is_live(),
    {
        self.deposited_amount != 0
    }

    pub fn is_void_or_undefined(&self) -> (r: bool)
        requires
            self.wf(),
        ensures
            r == !self.is_live(),
    {
        !self.lock_exists()
    }

    /// The void lock, written at `timestamp`.
    pub fn void_lock_with_timestamp(timestamp: u64) -> (r: UserLockedBalance)
        ensures
            r.wf(),
            !r.is_live(),
            r.deposited_amount == 0 && r.start_lock_time == 0 && r.end_lock_time == 0,
            r.timestamp == timestamp,
    {
        UserLockedBalance { deposited_amount: 0, end_lock_time: 0, start_lock_time: 0, timestamp }
    }

    /// A lock is expired from its end time on.
    pub fn expired_at_timestamp(&self, timestamp: u64) -> (r: bool)
        ensures
            r == self.spec_expired_at(timestamp as int),
    {
        self.end_lock_time <= timestamp
    }

    /// The locked amount at `timestamp`; never more than the deposit.
    pub fn locked_amount_at_timestamp(&self, timestamp: u64) -> (r: u128)
        requires
            self.wf(),
            self.is_live() && !self.spec_expired_at(timestamp as int) ==> self.start_lock_time
                <= timestamp,
        ensures
            r == self.spec_locked_amount(timestamp as int),
            r <= self.deposited_amount,
    {
        if self.is_void_or_undefined() || self.expired_at_timestamp(timestamp) {
            return 0;
        }
        let elapsed: u64 = timestamp - self.start_lock_time;
        let duration: u64 = self.end_lock_time - self.start_lock_time;
        let ratio = Decimal::from_ratio(elapsed as u128, duration as u128);
        assert(duration as u128 <= crate::decimal::MAX_RATIO_DENOMINATOR);
        proof {
            let a = ratio_atomics(elapsed as int, duration as int);
            let s = DECIMAL_FRACTIONAL as int;
            assert(elapsed * s <= duration * s) by (nonlinear_arith)
                requires
                    elapsed <= duration,
                    s > 0,
            ;
            lemma_div_is_ordered(elapsed * s, duration * s, duration as int);
            assert((duration * s) / (duration as int) == s) by (nonlinear_arith)
                requires
                    duration > 0,
            ;
            assert(a <= s);
            assert(a >= 0) by {
                lemma_div_pos_is_pos(elapsed * s, duration as int);
            }
            let d = self.deposited_amount as int;
            lemma_mul_inequality(a, s, d);
            lemma_mul_is_commutative(a, d);
            lemma_mul_is_commutative(s, d);
            lemma_div_is_ordered(d * a, d * s, s);
            assert((d * s) / s == d) by (nonlinear_arith)
                requires
                    s > 0,
            ;
            assert(d * a >= 0) by (nonlinear_arith)
                requires
                    d >= 0,
                    a >= 0,
            ;
            lemma_div_pos_is_pos(d * a, s);
        }
        let released = ratio.floor_mul(self.deposited_amount).unwrap();
        self.deposited_amount - released
    }

    /// `c = e^2 d / (e - s)` of a live lock, zero of a void one; `None` where `e^2 d`
    /// leaves the range.
    fn voting_power_constant_coefficient(&self) -> (r: Option<Decimal>)
        requires
            self.wf(),
        ensures
            r.is_some() == (!self.is_live() || self.end_lock_time * self.end_lock_time
                * self.deposited_amount <= u128::MAX),
            r.is_some() ==> r.unwrap().atomics() == self.spec_triple().2,
    {
        if self.is_void_or_undefined() {
            return Some(Decimal::zero());
        }
        let end: u128 = self.end_lock_time as u128;
        assert(end * end <= u128::MAX) by (nonlinear_arith)
            requires
                end <= u64::MAX,
        ;
        let numerator = match (end * end).checked_mul(self.deposited_amount) {
            Some(x) => x,
            None => return None,
        };
        let duration: u128 = (self.end_lock_time - self.start_lock_time) as u128;
        assert(duration <= crate::decimal::MAX_RATIO_DENOMINATOR);
        Some(Decimal::from_ratio(numerator, duration))
    }

    /// `l = 2 e d / (e - s)` of a live lock, zero of a void one; `None` where `2 e d`
    /// leaves the range.
    fn voting_power_linear_coefficient(&self) -> (r: Option<Decimal>)
        requires
            self.wf(),
        ensures
            r.is_some() == (!self.is_live() || (2 * self.end_lock_time <= u64::MAX && 2
                * self.end_lock_time * self.deposited_amount <= u128::MAX)),
            r.is_some() ==> r.unwrap().atomics() == self.spec_triple().1,
    {
        if self.is_void_or_undefined() {
            return Some(Decimal::zero());
        }
        let double_end = match self.end_lock_time.checked_mul(2) {
            Some(x) => x as u128,
            None => return None,
        };
        let numerator = match double_end.checked_mul(self.deposited_amount) {
            Some(x) => x,
            None => return None,
        };
        let duration: u128 = (self.end_lock_time - self.start_lock_time) as u128;
        assert(duration <= crate::decimal::MAX_RATIO_DENOMINATOR);
        Some(Decimal::from_ratio(numerator, duration))
    }

    /// `q = d / (e - s)` of a live lock, zero of a void one.
    fn voting_power_quad_coefficient(&self) -> (r: Decimal)
        requires
            self.wf(),
        ensures
            r.atomics() == self.spec_triple().0,
    {
        if self.is_void_or_undefined() {
            return Decimal::zero();
        }
        let duration: u128 = (self.end_lock_time - self.start_lock_time) as u128;
        assert(duration <= crate::decimal::MAX_RATIO_DENOMINATOR);
        Decimal::from_ratio(self.deposited_amount, duration)
    }

    /// The coefficients that this lock contributes to the aggregate; `None` where
    /// a numerator leaves the range.
    pub fn voting_power_coefficients(&self) -> (r: Option<QuadraticEquationCoefficients>)
        requires
            self.wf(),
        ensures
            r.is_some() == self.coefficients_fit(),
            r.is_some() ==> triple(r.unwrap()) == self.spec_triple(),
    {
        if self.is_void_or_undefined() {
            return Some(QuadraticEquationCoefficients::zero());
        }
        let constant_coefficient = match self.voting_power_constant_coefficient() {
            Some(x) => x,
            None => return None,
        };
        let linear_coefficient = match self.voting_power_linear_coefficient() {
            Some(x) => x,
            None => return None,
        };
        let quad_coefficient = self.voting_power_quad_coefficient();
        Some(QuadraticEquationCoefficients { quad_coefficient, linear_coefficient, constant_coefficient })
    }

    /// The voting power at `timestamp`: zero for a void or expired lock, else this
    /// lock's coefficients evaluated at `timestamp`. `None` where a value leaves the range.
    pub fn voting_power_at_timestamp(&self, timestamp: u64) -> (r: Option<u128>)
        requires
            self.wf(),
        ensures
            !self.is_live() || self.spec_expired_at(timestamp as int) ==> r == Some(0u128),
            self.is_live() && !self.spec_expired_at(timestamp as int) ==> (r.is_some() <==> (
            self.coefficients_fit() && vp_fits(self.spec_triple(), timestamp as int))),
            self.is_live() && !self.spec_expired_at(timestamp as int) && r.is_some() ==> r.unwrap()
                == vp_value(self.spec_triple(), timestamp as int),
    {
        if self.is_void_or_undefined() || self.expired_at_timestamp(timestamp) {
            return Some(0);
        }
        match self.voting_power_coefficients() {
            None => None,
            Some(c) => c.evaluate_voting_power_at_timestamp(timestamp),
        }
    }
}

/// The voting power at `timestamp` from the simplified formula
/// `locked amount * remaining seconds / VOTING_POWER_CONSTANT_DIVISOR`, which the
/// coefficient evaluation matches up to rounding.
pub fn calculate_voting_power_at_timestamp(locked_balance: &UserLockedBalance, timestamp: u64) -> (r:
    Option<u128>)
    requires
        locked_balance.wf(),
        locked_balance.is_live() && !locked_balance.spec_expired_at(timestamp as int)
            ==> locked_balance.start_lock_time <= timestamp,
        timestamp <= locked_balance.end_lock_time,
    ensures
        r.is_some() == (locked_balance.spec_locked_amount(timestamp as int) * (
        locked_balance.end_lock_time - timestamp) <= u128::MAX),
        r.is_some() ==> r.unwrap() == locked_balance.spec_locked_amount(timestamp as int) * (
        locked_balance.end_lock_time - timestamp) / crate::VOTING_POWER_CONSTANT_DIVISOR as int,
{
    let locked = locked_balance.locked_amount_at_timestamp(timestamp);
    let remaining: u128 = (locked_balance.end_lock_time - timestamp) as u128;
    match locked.checked_mul(remaining) {
        Some(x) => Some(x / crate::VOTING_POWER_CONSTANT_DIVISOR as u128),
        None => None,
    }
}

} // verus!
