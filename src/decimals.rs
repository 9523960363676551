//! Scaled-integer unit types. Each wraps an unsigned magnitude at a fixed
//! decimal scale, so that prices, liquidity, token amounts, fee accumulators
//! and general ratios cannot be mixed up by accident.
use crate::wide::{word_base, U256};
use vstd::arithmetic::div_mod::lemma_fundamental_div_mod_converse;
use vstd::prelude::*;

verus! {

/// 10^24: one whole unit of a square-root price.
pub const PRICE_ONE: u128 = 1_000_000_000_000_000_000_000_000;

/// 10^12: one whole unit of liquidity.
pub const LIQUIDITY_ONE: u128 = 1_000_000_000_000;

/// 10^12: one whole unit of a general fixed-point value.
pub const FIXED_POINT_ONE: u128 = 1_000_000_000_000;

/// 10^24: one whole unit of a fee-growth accumulator.
pub const FEE_GROWTH_ONE: u128 = 1_000_000_000_000_000_000_000_000;

/// 10^12: the ratio of the price scale to the liquidity scale.
pub const PRICE_LIQUIDITY_DENOMINATOR: u128 = 1_000_000_000_000;

/// Ten to the power `n`.
pub open spec fn pow10(n: nat) -> nat
    decreases n,
{
    if n == 0 {
        1
    } else {
        10 * pow10((n - 1) as nat)
    }
}

/// `a / b` rounded up.
pub open spec fn div_up(a: int, b: int) -> int {
    (a + b - 1) / b
}

proof fn lemma_pow10_grows(i: nat, j: nat)
    requires
        i <= j,
    ensures
        1 <= pow10(i) <= pow10(j),
    decreases j,
{
    if j > 0 {
        if i < j {
            lemma_pow10_grows(i, (j - 1) as nat);
        } else {
            lemma_pow10_grows(0, (j - 1) as nat);
        }
    }
}

/// `val * 10^shift`.
fn scale_up(val: u128, shift: u32) -> (r: u128)
    requires
        val * pow10(shift as nat) <= u128::MAX,
    ensures
        r == val * pow10(shift as nat),
{
    let mut r = val;
    let mut i: u32 = 0;
    assert(pow10(0) == 1);
    while i < shift
        invariant
            i <= shift,
            r == val * pow10(i as nat),
            val * pow10(shift as nat) <= u128::MAX,
        decreases shift - i,
    {
        proof {
            lemma_pow10_grows((i + 1) as nat, shift as nat);
            assert(pow10((i + 1) as nat) == 10 * pow10(i as nat));
            assert(val * pow10((i + 1) as nat) == 10 * (val * pow10(i as nat))) by (
            nonlinear_arith)
                requires
                    pow10((i + 1) as nat) == 10 * pow10(i as nat),
            ;
            assert(val * pow10((i + 1) as nat) <= val * pow10(shift as nat)) by (nonlinear_arith)
                requires
                    pow10((i + 1) as nat) <= pow10(shift as nat),
                    val >= 0,
            ;
        }
        r = r * 10;
        i = i + 1;
    }
    r
}

/// `floor(a * b / c)`, for a result that fits in 128 bits.
pub(crate) fn mul_div(a: u128, b: u128, c: u128) -> (r: u128)
    requires
        c > 0,
        a as int * b as int / c as int <= u128::MAX,
    ensures
        r == a as int * b as int / c as int,
{
    let q = U256::full_mul(a, b).checked_div(&U256::from_u128(c)).unwrap();
    q.to_u128().unwrap()
}

/// `ceil(a * b / c)`, for a result that fits in 128 bits.
pub(crate) fn mul_div_up(a: u128, b: u128, c: u128) -> (r: u128)
    requires
        c > 0,
        div_up(a as int * b as int, c as int) <= u128::MAX,
    ensures
        r == div_up(a as int * b as int, c as int),
{
    let p = U256::full_mul(a, b);
    proof {
        assert(a as int * b as int <= (u128::MAX as int) * (u128::MAX as int)) by (nonlinear_arith)
            requires
                a <= u128::MAX,
                b <= u128::MAX,
        ;
        assert((u128::MAX as int) * (u128::MAX as int) + c - 1 < word_base() * word_base())
            by (nonlinear_arith)
            requires
                c <= u128::MAX,
                word_base() == u128::MAX + 1,
        ;
    }
    let s = p.checked_add(&U256::from_u128(c - 1)).unwrap();
    let q = s.checked_div(&U256::from_u128(c)).unwrap();
    q.to_u128().unwrap()
}

/// A square-root price, scaled by 10^24.
#[derive(Clone, Copy, Debug, PartialEq, Eq, Structural)]
pub struct Price {
    pub v: u128,
}

/// Pool depth, scaled by 10^12.
#[derive(Clone, Copy, Debug, PartialEq, Eq, Structural)]
pub struct Liquidity {
    pub v: u128,
}

/// A general ratio or time-weighted accumulator, scaled by 10^12.
#[derive(Clone, Copy, Debug, PartialEq, Eq, Structural)]
pub struct FixedPoint {
    pub v: u128,
}

/// A fee accumulator per unit of liquidity, scaled by 10^24; it wraps modulo 2^128.
#[derive(Clone, Copy, Debug, PartialEq, Eq, Structural)]
pub struct FeeGrowth {
    pub v: u128,
}

/// A whole number of token units.
#[derive(Clone, Copy, Debug, PartialEq, Eq, Structural)]
pub struct TokenAmount(pub u64);

impl Price {
    pub fn new(v: u128) -> (r: Price)
        ensures
            r.v == v,
    {
        Price { v }
    }

    pub fn one() -> (r: u128)
        ensures
            r == PRICE_ONE,
    {
        PRICE_ONE
    }

    pub fn from_integer(n: u128) -> (r: Price)
        requires
            n * PRICE_ONE <= u128::MAX,
        ensures
            r.v == n * PRICE_ONE,
    {
        Price { v: n * PRICE_ONE }
    }

    /// `val` read with `digits` decimal places.
    pub fn from_scale(val: u128, digits: u32) -> (r: Price)
        requires
            digits <= 24,
            val * pow10((24 - digits) as nat) <= u128::MAX,
        ensures
            r.v == val * pow10((24 - digits) as nat),
    {
        Price { v: scale_up(val, 24 - digits) }
    }

    /// Product of two prices, rounded down.
    pub fn big_mul(&self, other: &Price) -> (r: Price)
        requires
            self.v * other.v / PRICE_ONE as int <= u128::MAX,
        ensures
            r.v == self.v * other.v / PRICE_ONE as int,
    {
        Price { v: mul_div(self.v, other.v, PRICE_ONE) }
    }

    /// Quotient of two prices, rounded down.
    pub fn big_div(&self, other: &Price) -> (r: Price)
        requires
            other.v > 0,
            self.v * PRICE_ONE / other.v as int <= u128::MAX,
        ensures
            r.v == self.v * PRICE_ONE / other.v as int,
    {
        Price { v: mul_div(self.v, PRICE_ONE, other.v) }
    }
}

impl Liquidity {
    pub fn new(v: u128) -> (r: Liquidity)
        ensures
            r.v == v,
    {
        Liquidity { v }
    }

    pub fn from_integer(n: u128) -> (r: Liquidity)
        requires
            n * LIQUIDITY_ONE <= u128::MAX,
        ensures
            r.v == n * LIQUIDITY_ONE,
    {
        Liquidity { v: n * LIQUIDITY_ONE }
    }

    pub fn is_zero(&self) -> (r: bool)
        ensures
            r == (self.v == 0),
    {
        self.v == 0
    }
}

impl FixedPoint {
    pub fn new(v: u128) -> (r: FixedPoint)
        ensures
            r.v == v,
    {
        FixedPoint { v }
    }

    pub fn from_integer(n: u128) -> (r: FixedPoint)
        requires
            n * FIXED_POINT_ONE <= u128::MAX,
        ensures
            r.v == n * FIXED_POINT_ONE,
    {
        FixedPoint { v: n * FIXED_POINT_ONE }
    }

    /// `val` read with `digits` decimal places.
    pub fn from_scale(val: u128, digits: u32) -> (r: FixedPoint)
        requires
            digits <= 12,
            val * pow10((12 - digits) as nat) <= u128::MAX,
        ensures
            r.v == val * pow10((12 - digits) as nat),
    {
        FixedPoint { v: scale_up(val, 12 - digits) }
    }
}

/// `(a + b) mod 2^128`.
pub open spec fn wrapping_add_spec(a: int, b: int) -> int {
    (a + b) % word_base()
}

/// `(a - b) mod 2^128`.
pub open spec fn wrapping_sub_spec(a: int, b: int) -> int {
    (a - b) % word_base()
}

pub(crate) fn wrapping_sub_u128(a: u128, b: u128) -> (r: u128)
    ensures
        r == wrapping_sub_spec(a as int, b as int),
{
    if a >= b {
        proof {
            lemma_fundamental_div_mod_converse(a - b, word_base(), 0, a - b);
        }
        a - b
    } else {
        proof {
            lemma_fundamental_div_mod_converse(a - b, word_base(), -1, a - b + word_base());
        }
        u128::MAX - (b - a) + 1
    }
}

impl FeeGrowth {
    pub fn new(v: u128) -> (r: FeeGrowth)
        ensures
            r.v == v,
    {
        FeeGrowth { v }
    }

    pub fn from_integer(n: u128) -> (r: FeeGrowth)
        requires
            n * FEE_GROWTH_ONE <= u128::MAX,
        ensures
            r.v == n * FEE_GROWTH_ONE,
    {
        FeeGrowth { v: n * FEE_GROWTH_ONE }
    }

    /// Sum modulo 2^128.
    pub fn unchecked_add(&self, other: &FeeGrowth) -> (r: FeeGrowth)
        ensures
            r.v == wrapping_add_spec(self.v as int, other.v as int),
    {
        let ghost a = self.v as int;
        let ghost b = other.v as int;
        if self.v <= u128::MAX - other.v {
            proof {
                lemma_fundamental_div_mod_converse(a + b, word_base(), 0, a + b);
            }
            FeeGrowth { v: self.v + other.v }
        } else {
            proof {
                lemma_fundamental_div_mod_converse(a + b, word_base(), 1, a + b - word_base());
            }
            FeeGrowth { v: self.v - (u128::MAX - other.v) - 1 }
        }
    }

    /// Difference modulo 2^128.
    pub fn unchecked_sub(&self, other: &FeeGrowth) -> (r: FeeGrowth)
        ensures
            r.v == wrapping_sub_spec(self.v as int, other.v as int),
    {
        FeeGrowth { v: wrapping_sub_u128(self.v, other.v) }
    }
}

impl TokenAmount {
    pub fn new(v: u64) -> (r: TokenAmount)
        ensures
            r.0 == v,
    {
        TokenAmount(v)
    }

    pub fn is_zero(&self) -> (r: bool)
        ensures
            r == (self.0 == 0),
    {
        self.0 == 0
    }

    /// The whole token units in a liquidity value, rounded down.
    pub fn from_decimal(l: Liquidity) -> (r: TokenAmount)
        requires
            l.v / LIQUIDITY_ONE <= u64::MAX,
        ensures
            r.0 == l.v / LIQUIDITY_ONE,
    {
        TokenAmount((l.v / LIQUIDITY_ONE) as u64)
    }
}

} // verus!
