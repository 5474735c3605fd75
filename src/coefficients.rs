use crate::decimal::{floor_product, max_atomics, Decimal};
use crate::wide::two_128;
use crate::VOTING_POWER_CONSTANT_DIVISOR;
use vstd::prelude::*;

verus! {

/// Coefficients `(q, l, c)` of the voting-power function
/// `vp(t) = (c + q * t^2 - l * t) / VOTING_POWER_CONSTANT_DIVISOR`.
///
/// The locked amount is linear in `t` and comes from the same coefficients:
/// `locked(t) = l / 2 - q * t`.
#[derive(Clone, Copy, Debug, PartialEq, Eq, Structural)]
pub struct QuadraticEquationCoefficients {
    pub quad_coefficient: Decimal,
    pub linear_coefficient: Decimal,
    pub constant_coefficient: Decimal,
}

/// The three atomics of a coefficient triple, in the order `(q, l, c)`.
pub open spec fn triple(c: QuadraticEquationCoefficients) -> (int, int, int) {
    (
        c.quad_coefficient.atomics() as int,
        c.linear_coefficient.atomics() as int,
        c.constant_coefficient.atomics() as int,
    )
}

/// The numerator of the voting power at `t` for coefficient atomics `k = (q, l, c)`,
/// each product rounded down.
pub open spec fn vp_numerator(k: (int, int, int), t: int) -> int {
    floor_product(1, k.2) + floor_product(t * t, k.0) - floor_product(t, k.1)
}

/// Whether the voting power at `t` fits in a `u128`.
pub open spec fn vp_fits(k: (int, int, int), t: int) -> bool {
    vp_value(k, t) <= u128::MAX
}

/// The voting power at `t`: a negative numerator (from truncation) counts as zero.
pub open spec fn vp_value(k: (int, int, int), t: int) -> int {
    if vp_numerator(k, t) < 0 {
        0
    } else {
        vp_numerator(k, t) / VOTING_POWER_CONSTANT_DIVISOR as int
    }
}

/// The locked amount at `t`: `l / 2 - q * t`, saturating at zero.
pub open spec fn locked_value(k: (int, int, int), t: int) -> int {
    let half = floor_product(1, k.1) / 2;
    let slope = floor_product(t, k.0);
    if half < slope {
        0
    } else {
        half - slope
    }
}

impl QuadraticEquationCoefficients {
    pub fn zero() -> (r: QuadraticEquationCoefficients)
        ensures
            triple(r) == (0int, 0int, 0int),
    {
        QuadraticEquationCoefficients {
            quad_coefficient: Decimal::zero(),
            linear_coefficient: Decimal::zero(),
            constant_coefficient: Decimal::zero(),
        }
    }

    /// Evaluates the voting power at `timestamp`; `None` where it does not fit in a `u128`.
    /// Intermediate values are kept in full, so terms that cancel never overflow.
    pub fn evaluate_voting_power_at_timestamp(&self, timestamp: u64) -> (r: Option<u128>)
        ensures
            r.is_some() == vp_fits(triple(*self), timestamp as int),
            r.is_some() ==> r.unwrap() == vp_value(triple(*self), timestamp as int),
    {
        let t: u128 = timestamp as u128;
        assert(t * t <= (u64::MAX as int) * (u64::MAX as int)) by (nonlinear_arith)
            requires
                t <= u64::MAX,
        ;
        let constant = self.constant_coefficient.floor_mul_wide(1);
        let quad = self.quad_coefficient.floor_mul_wide(t * t);
        let linear = self.linear_coefficient.floor_mul_wide(t);
        proof {
            let tt = (t * t) as int;
            let m = u64::MAX as int;
            assert(constant.value() + quad.value() <= (tt + 1) * two_128()) by (nonlinear_arith)
                requires
                    constant.value() <= 1 * two_128(),
                    quad.value() <= tt * two_128(),
            ;
            assert((tt + 1) * two_128() < two_128() * two_128()) by (nonlinear_arith)
                requires
                    tt <= m * m,
                    m == 0xffff_ffff_ffff_ffff,
                    two_128() == u128::MAX + 1,
            ;
        }
        let positive = constant.checked_add(quad).unwrap();
        let numerator = positive.saturating_sub(linear);
        let power = numerator.div_small(VOTING_POWER_CONSTANT_DIVISOR as u128);
        power.to_u128()
    }

    /// Evaluates the locked amount at `timestamp`.
    pub fn evaluate_locked_balance_at_timestamp(&self, timestamp: u64) -> (r: u128)
        ensures
            r == locked_value(triple(*self), timestamp as int),
    {
        let half: u128 = self.linear_coefficient.whole() / 2;
        match self.quad_coefficient.floor_mul(timestamp as u128) {
            None => 0,
            Some(slope) => if half < slope {
                0
            } else {
                half - slope
            },
        }
    }

    /// Coefficient-wise sum; `None` where a sum leaves the range.
    pub fn checked_add(&self, other: &QuadraticEquationCoefficients) -> (r: Option<
        QuadraticEquationCoefficients,
    >)
        ensures
            r.is_some() == (triple(*self).0 + triple(*other).0 <= max_atomics() && triple(*self).1
                + triple(*other).1 <= max_atomics() && triple(*self).2 + triple(*other).2
                <= max_atomics()),
            r.is_some() ==> triple(r.unwrap()) == (
                triple(*self).0 + triple(*other).0,
                triple(*self).1 + triple(*other).1,
                triple(*self).2 + triple(*other).2,
            ),
    {
        let quad_coefficient = match self.quad_coefficient.checked_add(other.quad_coefficient) {
            Some(x) => x,
            None => return None,
        };
        let linear_coefficient = match self.linear_coefficient.checked_add(
            other.linear_coefficient,
        ) {
            Some(x) => x,
            None => return None,
        };
        let constant_coefficient = match self.constant_coefficient.checked_add(
            other.constant_coefficient,
        ) {
            Some(x) => x,
            None => return None,
        };
        Some(QuadraticEquationCoefficients { quad_coefficient, linear_coefficient, constant_coefficient })
    }

    /// Coefficient-wise difference; `None` where a difference would be negative.
    pub fn checked_sub(&self, other: &QuadraticEquationCoefficients) -> (r: Option<
        QuadraticEquationCoefficients,
    >)
        ensures
            r.is_some() == (triple(*self).0 >= triple(*other).0 && triple(*self).1 >= triple(
                *other,
            ).1 && triple(*self).2 >= triple(*other).2),
            r.is_some() ==> triple(r.unwrap()) == (
                triple(*self).0 - triple(*other).0,
                triple(*self).1 - triple(*other).1,
                triple(*self).2 - triple(*other).2,
            ),
    {
        let quad_coefficient = match self.quad_coefficient.checked_sub(other.quad_coefficient) {
            Some(x) => x,
            None => return None,
        };
        let linear_coefficient = match self.linear_coefficient.checked_sub(
            other.linear_coefficient,
        ) {
            Some(x) => x,
            None => return None,
        };
        let constant_coefficient = match self.constant_coefficient.checked_sub(
            other.constant_coefficient,
        ) {
            Some(x) => x,
            None => return None,
        };
        Some(QuadraticEquationCoefficients { quad_coefficient, linear_coefficient, constant_coefficient })
    }
}

} // verus!
