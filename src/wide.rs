//! Unsigned 256-bit integers, wide enough for the products of two 128-bit
//! scaled values that the pricing formulas divide afterwards.
use vstd::arithmetic::div_mod::lemma_fundamental_div_mod_converse;
use vstd::arithmetic::power2::{lemma2_to64, lemma_pow2_pos, lemma_pow2_unfold, pow2};
use vstd::prelude::*;

verus! {

/// 2^64, the base of the half words that a multiplication works on.
pub open spec fn half_base() -> int {
    0x1_0000_0000_0000_0000
}

/// 2^128, the base of the two words of a `U256`.
pub open spec fn word_base() -> int {
    u128::MAX as int + 1
}

/// 2^256: every `U256` holds a value below it.
pub open spec fn wide_limit() -> int {
    word_base() * word_base()
}

const HALF: u128 = 0x1_0000_0000_0000_0000;

/// An unsigned integer of 256 bits, kept as a high and a low word.
#[derive(Clone, Copy, Debug, PartialEq, Eq, Structural)]
pub struct U256 {
    pub hi: u128,
    pub lo: u128,
}

proof fn lemma_split_product(a0: int, a1: int, b0: int, b1: int)
    requires
        0 <= a0 < half_base(),
        0 <= a1 < half_base(),
        0 <= b0 < half_base(),
        0 <= b1 < half_base(),
    ensures
        0 <= a0 * b0 < word_base(),
        0 <= a0 * b1 < word_base(),
        0 <= a1 * b0 < word_base(),
        0 <= a1 * b1 < word_base(),
        (a1 * half_base() + a0) * (b1 * half_base() + b0) == a1 * b1 * word_base() + (a0 * b1
            + a1 * b0) * half_base() + a0 * b0,
{
    let h = half_base();
    assert(word_base() == h * h);
    assert(0 <= a0 * b0 < h * h) by (nonlinear_arith)
        requires
            0 <= a0 < h,
            0 <= b0 < h,
    ;
    assert(0 <= a0 * b1 < h * h) by (nonlinear_arith)
        requires
            0 <= a0 < h,
            0 <= b1 < h,
    ;
    assert(0 <= a1 * b0 < h * h) by (nonlinear_arith)
        requires
            0 <= a1 < h,
            0 <= b0 < h,
    ;
    assert(0 <= a1 * b1 < h * h) by (nonlinear_arith)
        requires
            0 <= a1 < h,
            0 <= b1 < h,
    ;
    lemma_expand_product(a0, a1, b0, b1, h);
}

proof fn lemma_expand_product(a0: int, a1: int, b0: int, b1: int, h: int)
    ensures
        (a1 * h + a0) * (b1 * h + b0) == a1 * b1 * (h * h) + (a0 * b1 + a1 * b0) * h + a0 * b0,
{
    assert((a1 * h + a0) * (b1 * h + b0) == (a1 * h) * (b1 * h) + (a1 * h) * b0 + a0 * (b1 * h)
        + a0 * b0) by (nonlinear_arith);
    assert((a1 * h) * (b1 * h) == a1 * b1 * (h * h)) by (nonlinear_arith);
    assert((a1 * h) * b0 + a0 * (b1 * h) == (a0 * b1 + a1 * b0) * h) by (nonlinear_arith);
}

/// A larger factor gives a product larger by at least the other factor.
proof fn lemma_mul_gap(x: int, y: int, b: int)
    requires
        x < y,
        b > 0,
    ensures
        x * b + b <= y * b,
{
    assert(x * b + b <= y * b) by (nonlinear_arith)
        requires
            x < y,
            b > 0,
    ;
}

proof fn lemma_value_bounds(x: U256)
    ensures
        0 <= x.value() < wide_limit(),
        x.hi == 0 ==> x.value() == x.lo,
        x.hi > 0 ==> x.value() >= word_base(),
{
    let b = word_base();
    assert(0 <= x.hi as int * b <= (b - 1) * b) by (nonlinear_arith)
        requires
            0 <= x.hi < b,
    ;
    assert((b - 1) * b + b == b * b) by (nonlinear_arith);
    if x.hi > 0 {
        lemma_mul_gap(0, x.hi as int, b);
    }
}

/// Every value lies in `0..2^256`.
pub proof fn lemma_value_below_limit(x: U256)
    ensures
        0 <= x.value() < wide_limit(),
{
    lemma_value_bounds(x);
}

impl U256 {
    /// The number that the two words stand for.
    pub open spec fn value(self) -> int {
        self.hi as int * word_base() + self.lo as int
    }

    pub fn new(hi: u128, lo: u128) -> (r: U256)
        ensures
            r.hi == hi,
            r.lo == lo,
    {
        U256 { hi, lo }
    }

    pub fn zero() -> (r: U256)
        ensures
            r.value() == 0,
    {
        U256 { hi: 0, lo: 0 }
    }

    pub fn from_u128(x: u128) -> (r: U256)
        ensures
            r.value() == x,
    {
        U256 { hi: 0, lo: x }
    }

    pub fn is_zero(&self) -> (r: bool)
        ensures
            r == (self.value() == 0),
    {
        proof {
            lemma_value_bounds(*self);
        }
        self.hi == 0 && self.lo == 0
    }

    pub fn lt(&self, other: &U256) -> (r: bool)
        ensures
            r == (self.value() < other.value()),
    {
        proof {
            lemma_value_bounds(*self);
            lemma_value_bounds(*other);
            let b = word_base();
            if self.hi < other.hi {
                lemma_mul_gap(self.hi as int, other.hi as int, b);
            } else if self.hi > other.hi {
                lemma_mul_gap(other.hi as int, self.hi as int, b);
            }
        }
        self.hi < other.hi || (self.hi == other.hi && self.lo < other.lo)
    }

    pub fn le(&self, other: &U256) -> (r: bool)
        ensures
            r == (self.value() <= other.value()),
    {
        !other.lt(self)
    }

    /// The low word when the value fits in 128 bits.
    pub fn to_u128(&self) -> (r: Option<u128>)
        ensures
            r is Some <==> self.value() < word_base(),
            r matches Some(v) ==> v == self.value(),
    {
        proof {
            lemma_value_bounds(*self);
        }
        if self.hi == 0 {
            Some(self.lo)
        } else {
            None
        }
    }

    /// The full product of two 128-bit numbers.
    pub fn full_mul(a: u128, b: u128) -> (r: U256)
        ensures
            r.value() == a as int * b as int,
    {
        let a0 = a % HALF;
        let a1 = a / HALF;
        let b0 = b % HALF;
        let b1 = b / HALF;
        proof {
            lemma_split_product(a0 as int, a1 as int, b0 as int, b1 as int);
        }
        let p00 = a0 * b0;
        let p01 = a0 * b1;
        let p10 = a1 * b0;
        let p11 = a1 * b1;
        let mid = p01 % HALF + p10 % HALF + p00 / HALF;
        let lo = p00 % HALF + (mid % HALF) * HALF;
        proof {
            let h = half_base();
            let total = a as int * b as int;
            assert(total == p11 * word_base() + (p01 + p10) * h + p00);
            assert(p01 == (p01 / HALF) * h + p01 % HALF);
            assert(p10 == (p10 / HALF) * h + p10 % HALF);
            assert(p00 == (p00 / HALF) * h + p00 % HALF);
            assert(mid == (mid / HALF) * h + mid % HALF);
            assert(total == (p11 + p01 / HALF + p10 / HALF + mid / HALF) * word_base() + (p00
                % HALF + (mid % HALF) * h)) by (nonlinear_arith)
                requires
                    h == half_base(),
                    word_base() == h * h,
                    total == p11 * word_base() + (p01 + p10) * h + p00,
                    p01 == (p01 / HALF) * h + p01 % HALF,
                    p10 == (p10 / HALF) * h + p10 % HALF,
                    p00 == (p00 / HALF) * h + p00 % HALF,
                    mid == p01 % HALF + p10 % HALF + p00 / HALF,
                    mid == (mid / HALF) * h + mid % HALF,
            ;
            assert(0 <= total < wide_limit()) by (nonlinear_arith)
                requires
                    total == a as int * b as int,
                    0 <= a < word_base(),
                    0 <= b < word_base(),
                    wide_limit() == word_base() * word_base(),
            ;
            let hv = p11 + p01 / HALF + p10 / HALF + mid / HALF;
            let lv = p00 % HALF + (mid % HALF) * h;
            assert(0 <= lv < word_base());
            assert(hv < word_base()) by (nonlinear_arith)
                requires
                    total == hv * word_base() + lv,
                    0 <= lv,
                    total < word_base() * word_base(),
                    word_base() > 0,
            ;
        }
        let hi = p11 + p01 / HALF + p10 / HALF + mid / HALF;
        U256 { hi, lo }
    }

    pub fn checked_add(&self, other: &U256) -> (r: Option<U256>)
        ensures
            r is Some <==> self.value() + other.value() < wide_limit(),
            r matches Some(s) ==> s.value() == self.value() + other.value(),
    {
        proof {
            lemma_value_bounds(*self);
            lemma_value_bounds(*other);
        }
        let (lo, carry) = if self.lo <= u128::MAX - other.lo {
            (self.lo + other.lo, 0u128)
        } else {
            (self.lo - (u128::MAX - other.lo) - 1, 1u128)
        };
        if self.hi > u128::MAX - other.hi || self.hi + other.hi > u128::MAX - carry {
            proof {
                let b = word_base();
                assert(self.hi as int + other.hi as int + carry >= b);
                assert(self.value() + other.value() == (self.hi as int + other.hi as int + carry)
                    * b + lo) by (nonlinear_arith)
                    requires
                        b == word_base(),
                        self.lo as int + other.lo as int == carry * b + lo,
                ;
                assert((self.hi as int + other.hi as int + carry) * b >= b * b) by (
                nonlinear_arith)
                    requires
                        self.hi as int + other.hi as int + carry >= b,
                        b > 0,
                ;
            }
            None
        } else {
            let s = U256 { hi: self.hi + other.hi + carry, lo };
            proof {
                let b = word_base();
                assert(s.value() == self.value() + other.value()) by (nonlinear_arith)
                    requires
                        b == word_base(),
                        self.lo as int + other.lo as int == carry * b + lo,
                        s.hi == self.hi + other.hi + carry,
                        s.lo == lo,
                ;
                lemma_value_bounds(s);
            }
            Some(s)
        }
    }

    pub fn checked_sub(&self, other: &U256) -> (r: Option<U256>)
        ensures
            r is Some <==> self.value() >= other.value(),
            r matches Some(s) ==> s.value() == self.value() - other.value(),
    {
        if self.lt(other) {
            None
        } else {
            proof {
                let b = word_base();
                if self.hi < other.hi {
                    lemma_mul_gap(self.hi as int, other.hi as int, b);
                }
            }
            let s = if self.lo >= other.lo {
                U256 { hi: self.hi - other.hi, lo: self.lo - other.lo }
            } else {
                proof {
                    let b = word_base();
                    if self.hi == other.hi {
                        assert(self.value() < other.value());
                    }
                }
                U256 { hi: self.hi - other.hi - 1, lo: (u128::MAX - other.lo) + self.lo + 1 }
            };
            proof {
                let b = word_base();
                assert(s.value() == self.value() - other.value()) by (nonlinear_arith)
                    requires
                        b == word_base(),
                        s.value() == s.hi as int * b + s.lo as int,
                        self.value() == self.hi as int * b + self.lo as int,
                        other.value() == other.hi as int * b + other.lo as int,
                        (s.hi == self.hi - other.hi && s.lo == self.lo - other.lo) || (s.hi
                            == self.hi - other.hi - 1 && s.lo == self.lo + b - other.lo),
                ;
            }
            Some(s)
        }
    }

    /// The product with a 128-bit number, when it stays below 2^256.
    fn checked_mul_word(&self, k: u128) -> (r: Option<U256>)
        ensures
            r is Some <==> self.value() * k < wide_limit(),
            r matches Some(p) ==> p.value() == self.value() * k,
    {
        let low = U256::full_mul(self.lo, k);
        let high = U256::full_mul(self.hi, k);
        proof {
            let b = word_base();
            lemma_value_bounds(low);
            lemma_value_bounds(high);
            assert(self.value() * k == high.hi as int * (b * b) + (high.lo as int + low.hi as int)
                * b + low.lo as int) by (nonlinear_arith)
                requires
                    b == word_base(),
                    self.value() == self.hi as int * b + self.lo as int,
                    low.value() == low.hi as int * b + low.lo as int,
                    high.value() == high.hi as int * b + high.lo as int,
                    low.value() == self.lo as int * k as int,
                    high.value() == self.hi as int * k as int,
            ;
            if high.hi > 0 {
                assert(high.hi as int * (b * b) >= b * b) by (nonlinear_arith)
                    requires
                        high.hi > 0,
                        b > 0,
                ;
            }
            if high.lo as int + low.hi as int >= b {
                assert((high.lo as int + low.hi as int) * b >= b * b) by (nonlinear_arith)
                    requires
                        high.lo as int + low.hi as int >= b,
                        b > 0,
                ;
            }
        }
        if high.hi != 0 || high.lo > u128::MAX - low.hi {
            None
        } else {
            let p = U256 { hi: high.lo + low.hi, lo: low.lo };
            proof {
                lemma_value_bounds(p);
            }
            Some(p)
        }
    }

    pub fn checked_mul(&self, other: &U256) -> (r: Option<U256>)
        ensures
            r is Some <==> self.value() * other.value() < wide_limit(),
            r matches Some(p) ==> p.value() == self.value() * other.value(),
    {
        proof {
            lemma_value_bounds(*self);
            lemma_value_bounds(*other);
        }
        if self.hi != 0 && other.hi != 0 {
            proof {
                let b = word_base();
                assert(self.value() * other.value() >= b * b) by (nonlinear_arith)
                    requires
                        self.value() >= b,
                        other.value() >= b,
                        b > 0,
                ;
            }
            None
        } else if other.hi == 0 {
            self.checked_mul_word(other.lo)
        } else {
            proof {
                assert(self.value() * other.value() == other.value() * self.lo) by (
                nonlinear_arith)
                    requires
                        self.value() == self.lo,
                ;
            }
            other.checked_mul_word(self.lo)
        }
    }

    /// The quotient, when the divisor is not zero.
    pub fn checked_div(&self, d: &U256) -> (r: Option<U256>)
        ensures
            r is Some <==> d.value() != 0,
            r matches Some(q) ==> q.value() == self.value() / d.value(),
    {
        proof {
            lemma_value_bounds(*d);
        }
        if d.is_zero() {
            None
        } else {
            Some(self.div_rem(d).0)
        }
    }

    /// Quotient and remainder, by subtracting the divisor times falling powers of two.
    pub fn div_rem(&self, d: &U256) -> (r: (U256, U256))
        requires
            d.value() > 0,
        ensures
            r.0.value() == self.value() / d.value(),
            r.1.value() == self.value() % d.value(),
    {
        let ghost n = self.value();
        let ghost dv = d.value();
        let mut shifted = *d;
        let mut power = U256::from_u128(1);
        let ghost mut j: nat = 0;
        proof {
            lemma2_to64();
        }
        loop
            invariant
                n == self.value(),
                dv == d.value(),
                dv > 0,
                shifted.value() == dv * power.value(),
                power.value() == pow2(j),
            ensures
                shifted.value() == dv * power.value(),
                power.value() == pow2(j),
                n < 2 * shifted.value(),
            decreases wide_limit() - shifted.value(),
        {
            proof {
                lemma_value_bounds(shifted);
            }
            let grow = match self.checked_sub(&shifted) {
                Some(room) => shifted.le(&room),
                None => false,
            };
            if !grow {
                break;
            }
            proof {
                lemma_value_bounds(*self);
                lemma_pow2_unfold(j + 1);
                lemma_pow2_pos(j);
                assert(dv * (2 * power.value()) == 2 * (dv * power.value())) by (nonlinear_arith);
                assert(power.value() <= shifted.value()) by (nonlinear_arith)
                    requires
                        shifted.value() == dv * power.value(),
                        dv >= 1,
                        power.value() >= 0,
                ;
            }
            proof {
                assert(shifted.value() >= 1) by (nonlinear_arith)
                    requires
                        shifted.value() == dv * power.value(),
                        dv >= 1,
                        power.value() >= 1,
                ;
            }
            shifted = shifted.checked_add(&shifted).unwrap();
            power = power.checked_add(&power).unwrap();
            proof {
                j = j + 1;
                lemma_value_bounds(shifted);
            }
        }
        let mut quotient = U256::zero();
        let mut rest = *self;
        loop
            invariant
                n == self.value(),
                dv == d.value(),
                dv > 0,
                shifted.value() == dv * power.value(),
                power.value() == pow2(j),
                quotient.value() * dv + rest.value() == n,
                rest.value() < 2 * shifted.value(),
            ensures
                quotient.value() * dv + rest.value() == n,
                rest.value() < dv,
            decreases j,
        {
            proof {
                lemma_value_bounds(quotient);
                lemma_value_bounds(rest);
                lemma_value_bounds(*self);
                lemma_pow2_pos(j);
            }
            if shifted.le(&rest) {
                proof {
                    assert((quotient.value() + power.value()) * dv == quotient.value() * dv
                        + shifted.value()) by (nonlinear_arith)
                        requires
                            shifted.value() == dv * power.value(),
                    ;
                    assert(quotient.value() + power.value() <= n) by (nonlinear_arith)
                        requires
                            (quotient.value() + power.value()) * dv <= n,
                            dv >= 1,
                            quotient.value() + power.value() >= 0,
                    ;
                }
                rest = rest.checked_sub(&shifted).unwrap();
                quotient = quotient.checked_add(&power).unwrap();
            }
            assert(rest.value() < shifted.value());
            if power.hi == 0 && power.lo == 1 {
                assert(power.value() == 1);
                assert(shifted.value() == dv) by (nonlinear_arith)
                    requires
                        shifted.value() == dv * power.value(),
                        power.value() == 1,
                ;
                break;
            }
            proof {
                lemma2_to64();
                if j == 0 {
                    assert(power.value() == 1);
                }
                lemma_pow2_unfold(j);
                assert(shifted.value() == 2 * (dv * pow2((j - 1) as nat))) by (nonlinear_arith)
                    requires
                        shifted.value() == dv * power.value(),
                        power.value() == 2 * pow2((j - 1) as nat),
                ;
            }
            shifted = shifted.half();
            power = power.half();
            proof {
                j = (j - 1) as nat;
            }
        }
        proof {
            lemma_fundamental_div_mod_converse(n, dv, quotient.value(), rest.value());
        }
        (quotient, rest)
    }

    /// Half the value, rounded down.
    fn half(&self) -> (r: U256)
        ensures
            r.value() == self.value() / 2,
    {
        let r = U256 { hi: self.hi / 2, lo: self.lo / 2 + (self.hi % 2) * 0x8000_0000_0000_0000_0000_0000_0000_0000 };
        proof {
            let b = word_base();
            assert(r.value() == self.value() / 2) by (nonlinear_arith)
                requires
                    b == word_base(),
                    b == 2 * 0x8000_0000_0000_0000_0000_0000_0000_0000,
                    r.value() == r.hi as int * b + r.lo as int,
                    self.value() == self.hi as int * b + self.lo as int,
                    r.hi == self.hi / 2,
                    r.lo == self.lo / 2 + (self.hi % 2) * 0x8000_0000_0000_0000_0000_0000_0000_0000,
                    self.hi >= 0,
                    self.lo >= 0,
            ;
        }
        r
    }
}

} // verus!
