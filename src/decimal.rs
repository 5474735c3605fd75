use vstd::arithmetic::div_mod::{
    lemma_div_pos_is_pos, lemma_fundamental_div_mod, lemma_fundamental_div_mod_converse,
};
use crate::wide::{two_128, U256};
use vstd::prelude::*;

verus! {

/// Number of atomic units in one whole unit of a [`Decimal`]: eighteen fractional digits.
pub const DECIMAL_FRACTIONAL: u128 = 1_000_000_000_000_000_000;

/// Largest denominator that [`Decimal::from_ratio`] accepts: any remainder of a
/// division by it, times [`DECIMAL_FRACTIONAL`], still fits in a `u128`.
pub const MAX_RATIO_DENOMINATOR: u128 = 340_282_366_920_938_463_463;

/// The atomics of `numerator / denominator` truncated to eighteen fractional digits.
pub open spec fn ratio_atomics(numerator: int, denominator: int) -> int {
    numerator * DECIMAL_FRACTIONAL as int / denominator
}

/// `value * (atomics / 10^18)`, rounded down.
pub open spec fn floor_product(value: int, atomics: int) -> int {
    value * atomics / DECIMAL_FRACTIONAL as int
}

/// The most atomics a [`Decimal`] holds: a whole part of `u128::MAX` and a full fraction.
pub open spec fn max_atomics() -> int {
    u128::MAX as int * DECIMAL_FRACTIONAL as int + DECIMAL_FRACTIONAL as int - 1
}

/// A non-negative fixed-point number with eighteen fractional digits: a whole part
/// and a fraction counted in units of `10^-18`.
///
/// Addition and subtraction are exact, so sums of decimals are associative
/// and commutative; the only rounding happens in `from_ratio` and `floor_mul`.
#[derive(Clone, Copy, Debug, PartialEq, Eq, Structural)]
pub struct Decimal {
    whole: u128,
    frac: u128,
}

impl Decimal {
    #[verifier::type_invariant]
    spec fn fraction_below_one(self) -> bool {
        self.frac < DECIMAL_FRACTIONAL
    }

    /// The value in atomic units (`10^-18`).
    pub closed spec fn atomics(self) -> nat {
        (self.whole * DECIMAL_FRACTIONAL + self.frac) as nat
    }

    pub fn zero() -> (r: Decimal)
        ensures
            r.atomics() == 0,
    {
        Decimal { whole: 0, frac: 0 }
    }

    /// The whole part.
    pub fn whole(&self) -> (r: u128)
        ensures
            r == self.atomics() as int / DECIMAL_FRACTIONAL as int,
    {
        proof {
            use_type_invariant(self);
            lemma_fundamental_div_mod_converse(
                self.atomics() as int,
                DECIMAL_FRACTIONAL as int,
                self.whole as int,
                self.frac as int,
            );
        }
        self.whole
    }

    /// The fraction, in atomic units.
    pub fn frac(&self) -> (r: u128)
        ensures
            r == self.atomics() as int % DECIMAL_FRACTIONAL as int,
    {
        proof {
            use_type_invariant(self);
            lemma_fundamental_div_mod_converse(
                self.atomics() as int,
                DECIMAL_FRACTIONAL as int,
                self.whole as int,
                self.frac as int,
            );
        }
        self.frac
    }

    /// The decimal `whole + frac / 10^18`; `None` where `frac` is not below `10^18`.
    pub fn from_parts(whole: u128, frac: u128) -> (r: Option<Decimal>)
        ensures
            r.is_some() == (frac < DECIMAL_FRACTIONAL),
            r.is_some() ==> r.unwrap().atomics() == whole * DECIMAL_FRACTIONAL as int + frac,
    {
        if frac < DECIMAL_FRACTIONAL {
            Some(Decimal { whole, frac })
        } else {
            None
        }
    }

    /// `numerator / denominator`, truncated to eighteen fractional digits.
    pub fn from_ratio(numerator: u128, denominator: u128) -> (r: Decimal)
        requires
            0 < denominator <= MAX_RATIO_DENOMINATOR,
        ensures
            r.atomics() == ratio_atomics(numerator as int, denominator as int),
    {
        let q: u128 = numerator / denominator;
        let rem: u128 = numerator % denominator;
        assert(rem * DECIMAL_FRACTIONAL <= u128::MAX) by (nonlinear_arith)
            requires
                rem < denominator,
                denominator <= MAX_RATIO_DENOMINATOR,
        ;
        let lo: u128 = rem * DECIMAL_FRACTIONAL / denominator;
        proof {
            let n = numerator as int;
            let d = denominator as int;
            let s = DECIMAL_FRACTIONAL as int;
            let k = (rem * DECIMAL_FRACTIONAL) as int / d;
            let j = (rem * DECIMAL_FRACTIONAL) as int % d;
            lemma_fundamental_div_mod(n, d);
            lemma_fundamental_div_mod((rem * DECIMAL_FRACTIONAL) as int, d);
            assert(n * s == d * (q * s + k) + j) by (nonlinear_arith)
                requires
                    n == d * q + rem,
                    rem * s == d * k + j,
            ;
            lemma_fundamental_div_mod_converse(n * s, d, q * s + k, j);
            lemma_div_pos_is_pos((rem * DECIMAL_FRACTIONAL) as int, d);
            assert(k < s) by (nonlinear_arith)
                requires
                    rem * s == d * k + j,
                    rem < d,
                    0 <= j,
                    s > 0,
            ;
        }
        Decimal { whole: q, frac: lo }
    }

    /// Exact sum; `None` where it exceeds the range.
    pub fn checked_add(self, other: Decimal) -> (r: Option<Decimal>)
        ensures
            match r {
                Some(d) => d.atomics() == self.atomics() + other.atomics() && d.atomics()
                    <= max_atomics(),
                None => self.atomics() + other.atomics() > max_atomics(),
            },
    {
        proof {
            use_type_invariant(self);
            use_type_invariant(other);
        }
        let frac_sum: u128 = self.frac + other.frac;
        let carry: u128 = if frac_sum >= DECIMAL_FRACTIONAL { 1 } else { 0 };
        let frac: u128 = frac_sum - carry * DECIMAL_FRACTIONAL;
        match self.whole.checked_add(other.whole) {
            None => None,
            Some(w) => match w.checked_add(carry) {
                None => None,
                Some(whole) => Some(Decimal { whole, frac }),
            },
        }
    }

    /// Exact difference; `None` where it would be negative.
    pub fn checked_sub(self, other: Decimal) -> (r: Option<Decimal>)
        ensures
            match r {
                Some(d) => d.atomics() == self.atomics() - other.atomics(),
                None => self.atomics() < other.atomics(),
            },
    {
        proof {
            use_type_invariant(self);
            use_type_invariant(other);
        }
        if self.frac >= other.frac {
            match self.whole.checked_sub(other.whole) {
                None => None,
                Some(whole) => Some(Decimal { whole, frac: self.frac - other.frac }),
            }
        } else {
            if self.whole <= other.whole {
                None
            } else {
                Some(
                    Decimal {
                        whole: self.whole - other.whole - 1,
                        frac: self.frac + DECIMAL_FRACTIONAL - other.frac,
                    },
                )
            }
        }
    }

    /// `value * self`, rounded down; `None` where the result exceeds the range.
    pub fn floor_mul(self, value: u128) -> (r: Option<u128>)
        ensures
            match r {
                Some(x) => x == floor_product(value as int, self.atomics() as int),
                None => floor_product(value as int, self.atomics() as int) > u128::MAX,
            },
    {
        proof {
            use_type_invariant(self);
        }
        let a_hi: u128 = self.whole;
        let a_lo: u128 = self.frac;
        let v_hi: u128 = value / DECIMAL_FRACTIONAL;
        let v_lo: u128 = value % DECIMAL_FRACTIONAL;
        assert(v_lo * a_lo <= u128::MAX) by (nonlinear_arith)
            requires
                v_lo < DECIMAL_FRACTIONAL,
                a_lo < DECIMAL_FRACTIONAL,
        ;
        let tail: u128 = v_lo * a_lo / DECIMAL_FRACTIONAL;
        proof {
            let s = DECIMAL_FRACTIONAL as int;
            let k = (v_lo * a_lo) as int / s;
            let j = (v_lo * a_lo) as int % s;
            let v = value as int;
            let a = self.atomics() as int;
            lemma_fundamental_div_mod(v, s);
            lemma_fundamental_div_mod((v_lo * a_lo) as int, s);
            assert(v == s * v_hi + v_lo);
            assert(a == s * a_hi + a_lo);
            assert((v_lo * a_lo) as int == s * k + j);
            assert(v * a == s * (v * a_hi + v_hi * a_lo + k) + j) by (nonlinear_arith)
                requires
                    v == s * v_hi + v_lo,
                    a == s * a_hi + a_lo,
                    v_lo * a_lo == s * k + j,
            ;
            lemma_fundamental_div_mod_converse(v * a, s, v * a_hi + v_hi * a_lo + k, j);
            lemma_div_pos_is_pos((v_lo * a_lo) as int, s);
            assert(v * a_hi >= 0) by (nonlinear_arith)
                requires
                    v >= 0,
                    a_hi >= 0,
            ;
            assert(v_hi * a_lo >= 0) by (nonlinear_arith)
                requires
                    v_hi >= 0,
                    a_lo >= 0,
            ;
        }
        match value.checked_mul(a_hi) {
            None => None,
            Some(x) => match v_hi.checked_mul(a_lo) {
                None => None,
                Some(y) => match x.checked_add(y) {
                    None => None,
                    Some(xy) => xy.checked_add(tail),
                },
            },
        }
    }

    /// `value * self`, rounded down, in full: never out of range.
    pub fn floor_mul_wide(self, value: u128) -> (r: U256)
        ensures
            r.value() == floor_product(value as int, self.atomics() as int),
            r.value() <= value * two_128(),
    {
        proof {
            use_type_invariant(self);
        }
        let a_hi: u128 = self.whole;
        let a_lo: u128 = self.frac;
        let v_hi: u128 = value / DECIMAL_FRACTIONAL;
        let v_lo: u128 = value % DECIMAL_FRACTIONAL;
        assert(v_lo * a_lo <= u128::MAX) by (nonlinear_arith)
            requires
                v_lo < DECIMAL_FRACTIONAL,
                a_lo < DECIMAL_FRACTIONAL,
        ;
        let tail: u128 = v_lo * a_lo / DECIMAL_FRACTIONAL;
        let ghost s = DECIMAL_FRACTIONAL as int;
        let ghost v = value as int;
        let ghost a = self.atomics() as int;
        let ghost k = (v_lo * a_lo) as int / s;
        let ghost j = (v_lo * a_lo) as int % s;
        proof {
            lemma_fundamental_div_mod(v, s);
            lemma_fundamental_div_mod((v_lo * a_lo) as int, s);
            assert(v * a == s * (v * a_hi + v_hi * a_lo + k) + j) by (nonlinear_arith)
                requires
                    v == s * v_hi + v_lo,
                    a == s * a_hi + a_lo,
                    v_lo * a_lo == s * k + j,
            ;
            lemma_fundamental_div_mod_converse(v * a, s, v * a_hi + v_hi * a_lo + k, j);
            lemma_div_pos_is_pos((v_lo * a_lo) as int, s);
            assert(a < two_128() * s) by (nonlinear_arith)
                requires
                    a == s * a_hi + a_lo,
                    a_hi <= u128::MAX,
                    a_lo < s,
                    two_128() == u128::MAX + 1,
            ;
            assert((v * a_hi + v_hi * a_lo + k) * s <= v * a) by (nonlinear_arith)
                requires
                    v * a == s * (v * a_hi + v_hi * a_lo + k) + j,
                    j >= 0,
            ;
            assert(v * a <= v * (two_128() * s)) by (nonlinear_arith)
                requires
                    a < two_128() * s,
                    v >= 0,
            ;
            assert(v * a_hi + v_hi * a_lo + k <= v * two_128()) by (nonlinear_arith)
                requires
                    (v * a_hi + v_hi * a_lo + k) * s <= v * (two_128() * s),
                    s > 0,
            ;
            assert(v * a_hi >= 0 && v_hi * a_lo >= 0) by (nonlinear_arith)
                requires
                    v >= 0,
                    a_hi >= 0,
                    v_hi >= 0,
                    a_lo >= 0,
            ;
            assert(two_128() * two_128() > v * two_128()) by (nonlinear_arith)
                requires
                    v < two_128(),
                    two_128() > 0,
            ;
        }
        let x = U256::mul_wide(value, a_hi);
        let y = U256::mul_wide(v_hi, a_lo);
        let xy = x.checked_add(y).unwrap();
        xy.checked_add(U256::from_u128(tail)).unwrap()
    }
}

} // verus!
