use vstd::arithmetic::div_mod::{
    lemma_div_pos_is_pos, lemma_fundamental_div_mod, lemma_fundamental_div_mod_converse,
};
use vstd::arithmetic::power2::{lemma2_to64, lemma_pow2_adds, lemma_pow2_unfold, pow2};
use vstd::prelude::*;

verus! {

/// `2^64`.
pub const TWO_64: u128 = 0x1_0000_0000_0000_0000;

/// `2^127`.
pub const TWO_127: u128 = 0x8000_0000_0000_0000_0000_0000_0000_0000;

/// `2^128`.
pub open spec fn two_128() -> int {
    u128::MAX as int + 1
}

/// An unsigned integer below `2^256`, as two 128-bit halves: `hi * 2^128 + lo`.
/// It holds the intermediate products of the evaluators, so that a result is
/// returned whenever it fits, however large the terms that cancel in it.
#[derive(Clone, Copy, Debug, PartialEq, Eq, Structural)]
pub struct U256 {
    pub hi: u128,
    pub lo: u128,
}

impl U256 {
    pub open spec fn value(self) -> int {
        self.hi * two_128() + self.lo
    }

    pub fn from_u128(x: u128) -> (r: U256)
        ensures
            r.value() == x,
    {
        U256 { hi: 0, lo: x }
    }

    /// The full product of two `u128`s.
    pub fn mul_wide(a: u128, b: u128) -> (r: U256)
        ensures
            r.value() == a * b,
    {
        let a1: u128 = a / TWO_64;
        let a0: u128 = a % TWO_64;
        let b1: u128 = b / TWO_64;
        let b0: u128 = b % TWO_64;
        assert(a0 * b0 <= u128::MAX && a0 * b1 <= u128::MAX && a1 * b0 <= u128::MAX && a1 * b1
            <= u128::MAX) by (nonlinear_arith)
            requires
                a0 < TWO_64,
                b0 < TWO_64,
                a1 < TWO_64,
                b1 < TWO_64,
        ;
        let p00: u128 = a0 * b0;
        let m: u128 = a0 * b1;
        let n: u128 = a1 * b0;
        let p11: u128 = a1 * b1;
        let m_hi: u128 = m / TWO_64;
        let m_lo: u128 = m % TWO_64;
        let n_hi: u128 = n / TWO_64;
        let n_lo: u128 = n % TWO_64;
        assert(m_lo * TWO_64 <= u128::MAX && n_lo * TWO_64 <= u128::MAX) by (nonlinear_arith)
            requires
                m_lo < TWO_64,
                n_lo < TWO_64,
        ;
        let (s1, c1) = add_carry(p00, m_lo * TWO_64);
        let (lo, c2) = add_carry(s1, n_lo * TWO_64);
        proof {
            let t = two_128();
            let w = TWO_64 as int;
            lemma_fundamental_div_mod(a as int, w);
            lemma_fundamental_div_mod(b as int, w);
            lemma_fundamental_div_mod(m as int, w);
            lemma_fundamental_div_mod(n as int, w);
            assert(a1 * b == w * p11 + n) by (nonlinear_arith)
                requires
                    b == w * b1 + b0,
                    n == a1 * b0,
                    p11 == a1 * b1,
            ;
            assert(a0 * b == w * m + p00) by (nonlinear_arith)
                requires
                    b == w * b1 + b0,
                    p00 == a0 * b0,
                    m == a0 * b1,
            ;
            assert(a * b == w * (a1 * b) + a0 * b) by (nonlinear_arith)
                requires
                    a == w * a1 + a0,
            ;
            assert(w * (w * p11 + n) == t * p11 + w * n) by (nonlinear_arith)
                requires
                    t == w * w,
            ;
            assert(a * b == t * p11 + w * m + w * n + p00);
            assert(w * m == t * m_hi + w * m_lo) by (nonlinear_arith)
                requires
                    m == w * m_hi + m_lo,
                    t == w * w,
            ;
            assert(w * n == t * n_hi + w * n_lo) by (nonlinear_arith)
                requires
                    n == w * n_hi + n_lo,
                    t == w * w,
            ;
            assert((p11 + m_hi + n_hi + c1 + c2) * t == t * p11 + t * m_hi + t * n_hi + c1 * t
                + c2 * t) by (nonlinear_arith);
            assert(m_lo * w == w * m_lo && n_lo * w == w * n_lo) by (nonlinear_arith);
            assert(a * b == (p11 + m_hi + n_hi + c1 + c2) * t + lo);
            assert(a * b <= (t - 1) * (t - 1)) by (nonlinear_arith)
                requires
                    0 <= a < t,
                    0 <= b < t,
            ;
            assert(p11 + m_hi + n_hi + c1 + c2 < t) by (nonlinear_arith)
                requires
                    a * b == (p11 + m_hi + n_hi + c1 + c2) * t + lo,
                    a * b <= (t - 1) * (t - 1),
                    lo >= 0,
                    t > 1,
            ;
        }
        U256 { hi: p11 + m_hi + n_hi + c1 + c2, lo }
    }

    /// The exact sum; `None` where it reaches `2^256`.
    pub fn checked_add(self, other: U256) -> (r: Option<U256>)
        ensures
            r.is_some() == (self.value() + other.value() < two_128() * two_128()),
            r.is_some() ==> r.unwrap().value() == self.value() + other.value(),
    {
        let (lo, carry) = add_carry(self.lo, other.lo);
        let hi_sum = match self.hi.checked_add(other.hi) {
            Some(x) => x,
            None => {
                proof {
                    assert(self.value() + other.value() >= two_128() * two_128()) by (nonlinear_arith)
                        requires
                            self.hi + other.hi > u128::MAX,
                            self.value() == self.hi * two_128() + self.lo,
                            other.value() == other.hi * two_128() + other.lo,
                            self.lo >= 0,
                            other.lo >= 0,
                            two_128() == u128::MAX + 1,
                    ;
                }
                return None;
            },
        };
        match hi_sum.checked_add(carry) {
            Some(hi) => {
                proof {
                    assert(hi * two_128() + lo == self.value() + other.value()) by (nonlinear_arith)
                        requires
                            hi == self.hi + other.hi + carry,
                            self.value() == self.hi * two_128() + self.lo,
                            other.value() == other.hi * two_128() + other.lo,
                            lo == self.lo + other.lo - carry * two_128(),
                    ;
                }
                Some(U256 { hi, lo })
            },
            None => {
                proof {
                    assert(self.value() + other.value() >= two_128() * two_128()) by (nonlinear_arith)
                        requires
                            hi_sum + carry > u128::MAX,
                            hi_sum == self.hi + other.hi,
                            self.value() == self.hi * two_128() + self.lo,
                            other.value() == other.hi * two_128() + other.lo,
                            lo == self.lo + other.lo - carry * two_128(),
                            lo >= 0,
                            two_128() == u128::MAX + 1,
                    ;
                }
                None
            },
        }
    }

    /// `self - other`, or zero where that would be negative.
    pub fn saturating_sub(self, other: U256) -> (r: U256)
        ensures
            r.value() == if self.value() < other.value() {
                0
            } else {
                self.value() - other.value()
            },
    {
        if self.hi < other.hi || (self.hi == other.hi && self.lo < other.lo) {
            proof {
                assert(self.value() < other.value()) by (nonlinear_arith)
                    requires
                        self.hi < other.hi || (self.hi == other.hi && self.lo < other.lo),
                        self.value() == self.hi * two_128() + self.lo,
                        other.value() == other.hi * two_128() + other.lo,
                        self.lo < two_128(),
                        other.lo >= 0,
                ;
            }
            return U256 { hi: 0, lo: 0 };
        }
        proof {
            assert(self.value() >= other.value()) by (nonlinear_arith)
                requires
                    !(self.hi < other.hi || (self.hi == other.hi && self.lo < other.lo)),
                    self.value() == self.hi * two_128() + self.lo,
                    other.value() == other.hi * two_128() + other.lo,
                    other.lo < two_128(),
                    self.lo >= 0,
            ;
        }
        if self.lo >= other.lo {
            let r = U256 { hi: (self.hi - other.hi) as u128, lo: (self.lo - other.lo) as u128 };
            proof {
                assert(r.value() == self.value() - other.value()) by (nonlinear_arith)
                    requires
                        r.hi == self.hi - other.hi,
                        r.lo == self.lo - other.lo,
                        r.value() == r.hi * two_128() + r.lo,
                        self.value() == self.hi * two_128() + self.lo,
                        other.value() == other.hi * two_128() + other.lo,
                ;
            }
            r
        } else {
            proof {
                assert(self.hi > other.hi) by (nonlinear_arith)
                    requires
                        self.hi >= other.hi,
                        self.lo < other.lo,
                        self.value() >= other.value(),
                        self.value() == self.hi * two_128() + self.lo,
                        other.value() == other.hi * two_128() + other.lo,
                ;
            }
            // A borrow from the high half.
            let r = U256 { hi: (self.hi - other.hi - 1) as u128, lo: ((u128::MAX - other.lo) + self.lo + 1) as u128 };
            proof {
                assert(r.value() == self.value() - other.value()) by (nonlinear_arith)
                    requires
                        r.hi == self.hi - other.hi - 1,
                        r.lo == (u128::MAX - other.lo) + self.lo + 1,
                        r.value() == r.hi * two_128() + r.lo,
                        self.value() == self.hi * two_128() + self.lo,
                        other.value() == other.hi * two_128() + other.lo,
                        two_128() == u128::MAX + 1,
                ;
            }
            r
        }
    }

    /// The quotient by a divisor below `2^64`, rounded down.
    pub fn div_small(self, d: u128) -> (r: U256)
        requires
            0 < d < TWO_64,
        ensures
            r.value() == self.value() / d as int,
    {
        let q_hi: u128 = self.hi / d;
        let r1: u128 = self.hi % d;
        let lo_hi: u128 = self.lo / TWO_64;
        let lo_lo: u128 = self.lo % TWO_64;
        assert(r1 * TWO_64 + lo_hi <= u128::MAX) by (nonlinear_arith)
            requires
                r1 < d,
                d < TWO_64,
                lo_hi < TWO_64,
        ;
        let x1: u128 = r1 * TWO_64 + lo_hi;
        let q1: u128 = x1 / d;
        let r2: u128 = x1 % d;
        assert(r2 * TWO_64 + lo_lo <= u128::MAX) by (nonlinear_arith)
            requires
                r2 < d,
                d < TWO_64,
                lo_lo < TWO_64,
        ;
        let x2: u128 = r2 * TWO_64 + lo_lo;
        let q0: u128 = x2 / d;
        let r3: u128 = x2 % d;
        proof {
            let w = TWO_64 as int;
            lemma_fundamental_div_mod(self.hi as int, d as int);
            lemma_fundamental_div_mod(self.lo as int, w);
            lemma_fundamental_div_mod(x1 as int, d as int);
            lemma_fundamental_div_mod(x2 as int, d as int);
            assert(q1 < w && q0 < w) by (nonlinear_arith)
                requires
                    x1 == d * q1 + r2,
                    x2 == d * q0 + r3,
                    x1 < d * w,
                    x2 < d * w,
                    r2 >= 0,
                    r3 >= 0,
                    d > 0,
            ;
        }
        assert(q1 * TWO_64 + q0 <= u128::MAX) by (nonlinear_arith)
            requires
                q1 < TWO_64,
                q0 < TWO_64,
        ;
        let q = U256 { hi: q_hi, lo: q1 * TWO_64 + q0 };
        proof {
            let w = TWO_64 as int;
            let t = two_128();
            assert(self.value() == d * q.value() + r3) by (nonlinear_arith)
                requires
                    self.value() == self.hi * t + self.lo,
                    self.hi == d * q_hi + r1,
                    self.lo == w * lo_hi + lo_lo,
                    x1 == r1 * w + lo_hi,
                    x1 == d * q1 + r2,
                    x2 == r2 * w + lo_lo,
                    x2 == d * q0 + r3,
                    q.value() == q_hi * t + (q1 * w + q0),
                    t == w * w,
            ;
            lemma_fundamental_div_mod_converse(self.value(), d as int, q.value(), r3 as int);
        }
        q
    }

    /// The value as a `u128`, where it fits.
    pub fn to_u128(self) -> (r: Option<u128>)
        ensures
            r.is_some() == (self.value() <= u128::MAX),
            r.is_some() ==> r.unwrap() == self.value(),
    {
        proof {
            assert(self.hi > 0 ==> self.value() > u128::MAX) by (nonlinear_arith)
                requires
                    self.value() == self.hi * two_128() + self.lo,
                    self.lo >= 0,
                    two_128() == u128::MAX + 1,
            ;
        }
        if self.hi == 0 {
            Some(self.lo)
        } else {
            None
        }
    }

    /// The quotient by a nonzero `u128`, rounded down, where it fits in a `u128`.
    pub fn div_u128(self, d: u128) -> (r: Option<u128>)
        requires
            d > 0,
        ensures
            r.is_some() == (self.value() / d as int <= u128::MAX),
            r.is_some() ==> r.unwrap() == self.value() / d as int,
    {
        let ghost t = two_128();
        let ghost value = self.value();
        if self.hi >= d {
            proof {
                assert(value >= d * t) by (nonlinear_arith)
                    requires
                        value == self.hi * t + self.lo,
                        self.hi >= d,
                        self.lo >= 0,
                        t > 0,
                ;
                vstd::arithmetic::div_mod::lemma_div_is_ordered(d * t, value, d as int);
                assert((d * t) / (d as int) == t) by (nonlinear_arith)
                    requires
                        d > 0,
                ;
            }
            return None;
        }
        proof {
            lemma2_to64();
            lemma_pow2_adds(64, 64);
            assert(pow2(128) == t);
        }
        // Binary long division over the 128 bits of `lo`, most significant first.
        let mut x: u128 = self.lo;
        let mut rem: u128 = self.hi;
        let mut q: u128 = 0;
        let mut j: u32 = 0;
        let ghost mut v: int = self.hi as int;
        let ghost mut p: int = 1;
        proof {
            assert(pow2(0) == 1);
        }
        while j < 128
            invariant
                j <= 128,
                t == two_128(),
                pow2(128) == t,
                p == pow2(j as nat),
                value == self.value(),
                value < d * t,
                value * p == v * t + x,
                v == q * d + rem,
                rem < d,
                q < p,
                0 <= v,
            decreases 128 - j,
        {
            proof {
                lemma_pow2_unfold((j + 1) as nat);
                lemma_pow2_adds((j + 1) as nat, (127 - j) as nat);
                assert(p * 2 <= t) by (nonlinear_arith)
                    requires
                        pow2((j + 1) as nat) * pow2((127 - j) as nat) == pow2(128),
                        pow2((j + 1) as nat) == 2 * p,
                        pow2((127 - j) as nat) >= 1,
                        pow2(128) == t,
                ;
            }
            let bit: u128 = if x >= TWO_127 { 1 } else { 0 };
            let x_next: u128 = (x - bit * TWO_127) * 2;
            let carry: u128 = if rem >= TWO_127 { 1 } else { 0 };
            let low: u128 = (rem - carry * TWO_127) * 2 + bit;
            let subtract = carry == 1 || low >= d;
            let rem_next: u128 = if carry == 1 {
                proof {
                    assert(low + (u128::MAX - d) + 1 < d) by (nonlinear_arith)
                        requires
                            low == (rem - TWO_127) * 2 + bit,
                            rem < d,
                            bit <= 1,
                            TWO_127 * 2 == u128::MAX + 1,
                    ;
                }
                low + (u128::MAX - d) + 1
            } else if low >= d {
                low - d
            } else {
                low
            };
            proof {
                assert(2 * q + 1 < 2 * p) by (nonlinear_arith)
                    requires
                        q < p,
                ;
            }
            let q_next: u128 = if subtract { 2 * q + 1 } else { 2 * q };
            proof {
                let v_next = 2 * v + bit;
                assert(value * (2 * p) == 2 * (value * p)) by (nonlinear_arith);
                assert(v_next * t == 2 * (v * t) + bit * t) by (nonlinear_arith)
                    requires
                        v_next == 2 * v + bit,
                ;
                assert(bit * t == 2 * (bit * TWO_127)) by (nonlinear_arith)
                    requires
                        TWO_127 * 2 == t,
                ;
                assert(value * (2 * p) == v_next * t + x_next);
                assert((2 * q + 1) * d == 2 * (q * d) + d) by (nonlinear_arith);
                assert((2 * q) * d == 2 * (q * d)) by (nonlinear_arith);
                assert(carry * TWO_127 * 2 == carry * (u128::MAX + 1)) by (nonlinear_arith)
                    requires
                        TWO_127 * 2 == u128::MAX + 1,
                ;
                assert(2 * rem + bit == carry * (u128::MAX + 1) + low);
                assert(v_next == q_next * d + rem_next);
                assert(rem_next < d) by (nonlinear_arith)
                    requires
                        rem < d,
                        low == (rem - carry * TWO_127) * 2 + bit,
                        TWO_127 * 2 == u128::MAX + 1,
                        carry == 1 ==> rem >= TWO_127,
                        carry == 0 ==> rem < TWO_127,
                        carry == 1 || carry == 0,
                        bit <= 1,
                        carry == 1 ==> rem_next == low + (u128::MAX - d) + 1,
                        carry != 1 && low >= d ==> rem_next == low - d,
                        carry != 1 && low < d ==> rem_next == low,
                ;
                v = v_next;
                p = 2 * p;
            }
            x = x_next;
            rem = rem_next;
            q = q_next;
            j = j + 1;
        }
        proof {
            assert(v == value) by (nonlinear_arith)
                requires
                    value * t == v * t + x,
                    0 <= x < t,
                    t > 0,
            ;
            lemma_fundamental_div_mod_converse(value, d as int, q as int, rem as int);
        }
        Some(q)
    }
}

/// `x + y` as a 128-bit sum and a carry.
fn add_carry(x: u128, y: u128) -> (r: (u128, u128))
    ensures
        r.1 <= 1,
        r.0 == x + y - r.1 * two_128(),
{
    if x > u128::MAX - y {
        (x - (u128::MAX - y) - 1, 1)
    } else {
        (x + y, 0)
    }
}

} // verus!
