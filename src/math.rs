//! Tick to price conversion, the token-amount formulas between two prices,
//! their inverses, the single swap step, and range accounting.
use crate::decimals::{
    div_up, mul_div, mul_div_up, FixedPoint, Liquidity, Price, TokenAmount, FIXED_POINT_ONE,
    LIQUIDITY_ONE, PRICE_LIQUIDITY_DENOMINATOR, PRICE_ONE,
};
use crate::decimals::{pow10, wrapping_sub_spec, wrapping_sub_u128, FeeGrowth};
use crate::errors::ErrorCode;
use crate::state::{
    can_advance_seconds, seconds_per_liquidity_increment, updated_liquidity, Pool, Tick,
};
use crate::wide::{wide_limit, word_base, U256};
use vstd::arithmetic::power2::{lemma2_to64, lemma_pow2_pos, lemma_pow2_unfold, pow2};
use vstd::arithmetic::div_mod::{
    lemma_div_denominator, lemma_div_is_ordered, lemma_fundamental_div_mod, lemma_fundamental_div_mod_converse,
    lemma_mod_pos_bound,
};
use vstd::prelude::*;

verus! {

/// 10^36: price scale times liquidity scale.
pub const PRICE_TIMES_LIQUIDITY_ONE: u128 = 1_000_000_000_000_000_000_000_000_000_000_000_000;

pub open spec fn abs_diff(a: int, b: int) -> int {
    if a > b {
        a - b
    } else {
        b - a
    }
}

/// The largest product of two 128-bit numbers.
pub open spec fn max_product() -> int {
    u128::MAX as int * u128::MAX as int
}

proof fn lemma_product_bound(a: u128, b: u128)
    ensures
        0 <= a as int * b as int <= max_product(),
        max_product() + u128::MAX < wide_limit(),
{
    assert(0 <= a as int * b as int <= max_product()) by (nonlinear_arith)
        requires
            a <= u128::MAX,
            b <= u128::MAX,
    ;
    assert(max_product() + u128::MAX < word_base() * word_base()) by (nonlinear_arith)
        requires
            word_base() == u128::MAX + 1,
    ;
}

/// `n / d` rounded up, for `n` and `d` of 256 bits.
fn div_up_wide(n: &U256, d: &U256) -> (r: U256)
    requires
        d.value() > 0,
    ensures
        r.value() == div_up(n.value(), d.value()),
{
    let (q, rest) = n.div_rem(d);
    proof {
        let (nv, dv) = (n.value(), d.value());
        lemma_fundamental_div_mod(nv, dv);
        lemma_mod_pos_bound(nv, dv);
        assert(nv == (nv / dv) * dv + nv % dv) by (nonlinear_arith)
            requires
                nv == dv * (nv / dv) + (nv % dv),
        ;
        if nv % dv == 0 {
            lemma_fundamental_div_mod_converse(nv + dv - 1, dv, nv / dv, dv - 1);
        } else {
            assert((nv / dv + 1) * dv == (nv / dv) * dv + dv) by (nonlinear_arith);
            lemma_fundamental_div_mod_converse(nv + dv - 1, dv, nv / dv + 1, nv % dv - 1);
        }
        assert(q.value() <= nv) by (nonlinear_arith)
            requires
                q.value() == nv / dv,
                dv >= 1,
                nv >= 0,
        ;
        if nv % dv != 0 {
            assert(q.value() < nv) by (nonlinear_arith)
                requires
                    nv == q.value() * dv + nv % dv,
                    nv % dv > 0,
                    dv >= 1,
                    q.value() >= 0,
            ;
        }
    }
    if rest.is_zero() {
        q
    } else {
        q.checked_add(&U256::from_u128(1)).unwrap()
    }
}

/// The token amount held in a 256-bit value, when it fits in 64 bits.
fn to_token_amount(q: &U256) -> (r: Option<TokenAmount>)
    requires
        q.value() >= 0,
    ensures
        r is Some <==> q.value() <= u64::MAX,
        r matches Some(t) ==> t.0 == q.value(),
{
    match q.to_u128() {
        Some(v) => {
            if v <= u64::MAX as u128 {
                Some(TokenAmount(v as u64))
            } else {
                None
            }
        },
        None => None,
    }
}

/// Numerator of the token-x formula with every scale taken out:
/// `L * |a - b| * 10^12`, so that the amount is this over `a * b`.
pub open spec fn delta_x_numerator(a: int, b: int, l: int) -> int {
    l * abs_diff(a, b) * LIQUIDITY_ONE
}

/// Token-x amount between two prices, `L * |a - b| / (a * b)`, rounded once,
/// before the range check.
pub open spec fn delta_x_value(a: int, b: int, l: int, up: bool) -> int {
    if up {
        div_up(delta_x_numerator(a, b, l), a * b)
    } else {
        delta_x_numerator(a, b, l) / (a * b)
    }
}

/// What `get_delta_x` returns: zero when the numerator is zero, else nothing
/// when a price is zero or the amount does not fit in 64 bits.
pub open spec fn delta_x_spec(a: Price, b: Price, l: Liquidity, up: bool) -> Option<TokenAmount> {
    let (av, bv, lv) = (a.v as int, b.v as int, l.v as int);
    if delta_x_numerator(av, bv, lv) == 0 {
        Some(TokenAmount(0))
    } else if av * bv == 0 || delta_x_value(av, bv, lv, up) > u64::MAX {
        None
    } else {
        Some(TokenAmount(delta_x_value(av, bv, lv, up) as u64))
    }
}

/// The exact token-x amount `L * |a - b| / (a * b)`, with all scales taken
/// out, compares to `t` as `up` asks: `t` is at least it when rounding up
/// and at most it when rounding down.
pub open spec fn bounds_exact_delta_x(t: int, a: int, b: int, l: int, up: bool) -> bool {
    if up {
        t * (a * b) >= delta_x_numerator(a, b, l)
    } else {
        t * (a * b) <= delta_x_numerator(a, b, l)
    }
}

/// The exact token-y amount `L * |a - b|`, with all scales taken out,
/// compares to `t` as `up` asks.
pub open spec fn bounds_exact_delta_y(t: int, a: int, b: int, l: int, up: bool) -> bool {
    if up {
        t * PRICE_TIMES_LIQUIDITY_ONE >= l * abs_diff(a, b)
    } else {
        t * PRICE_TIMES_LIQUIDITY_ONE <= l * abs_diff(a, b)
    }
}

/// Floor and ceiling of `x / d` bracket the quotient.
proof fn lemma_div_rounding(x: int, d: int)
    requires
        x >= 0,
        d > 0,
    ensures
        0 <= x / d,
        (x / d) * d <= x,
        div_up(x, d) * d >= x,
        div_up(x, d) >= x / d,
        div_up(x, d) == 0 ==> x == 0,
        x / d == 0 ==> x < d,
{
    lemma_fundamental_div_mod(x, d);
    lemma_mod_pos_bound(x, d);
    lemma_fundamental_div_mod(x + d - 1, d);
    lemma_mod_pos_bound(x + d - 1, d);
    assert((x / d) * d <= x && x < (x / d) * d + d) by (nonlinear_arith)
        requires
            x == d * (x / d) + x % d,
            0 <= x % d < d,
    ;
    assert(div_up(x, d) * d >= x) by (nonlinear_arith)
        requires
            x + d - 1 == d * div_up(x, d) + (x + d - 1) % d,
            0 <= (x + d - 1) % d < d,
    ;
    assert(0 <= x / d) by (nonlinear_arith)
        requires
            (x / d) * d <= x,
            x < (x / d) * d + d,
            x >= 0,
            d > 0,
    ;
    assert(div_up(x, d) >= x / d) by (nonlinear_arith)
        requires
            div_up(x, d) * d >= x,
            x < (x / d) * d + d,
            d > 0,
    ;
}

/// From `x == q * d + r` with `0 <= r < d`: the quotient rounded down is `q`,
/// and rounded up it is `q`, plus one when `r` is not zero.
proof fn lemma_quotient_from_remainder(x: int, d: int, q: int, r: int)
    requires
        d > 0,
        0 <= r < d,
        x == q * d + r,
    ensures
        x / d == q,
        div_up(x, d) == if r == 0 {
            q
        } else {
            q + 1
        },
{
    lemma_fundamental_div_mod_converse(x, d, q, r);
    if r == 0 {
        lemma_fundamental_div_mod_converse(x + d - 1, d, q, d - 1);
    } else {
        assert((q + 1) * d == q * d + d) by (nonlinear_arith);
        lemma_fundamental_div_mod_converse(x + d - 1, d, q + 1, r - 1);
    }
}

/// `r * k` split by `d`: the quotient digit and the remainder, for `r < d`.
fn mul_small_mod(r: &U256, k: u32, d: &U256) -> (out: (u32, U256))
    requires
        r.value() < d.value(),
        0 < k <= 10,
    ensures
        out.0 as int * d.value() + out.1.value() == r.value() * k,
        out.1.value() < d.value(),
        out.0 < k,
{
    let room = d.checked_sub(r).unwrap();
    let mut acc = U256::zero();
    let mut digit: u32 = 0;
    let mut j: u32 = 0;
    while j < k
        invariant
            j <= k <= 10,
            digit <= j,
            digit as int * d.value() + acc.value() == r.value() * j,
            acc.value() < d.value(),
            room.value() == d.value() - r.value(),
            r.value() < d.value(),
        decreases k - j,
    {
        proof {
            assert(r.value() * (j + 1) == r.value() * j + r.value()) by (nonlinear_arith);
            assert((digit + 1) as int * d.value() == digit as int * d.value() + d.value())
                by (nonlinear_arith);
        }
        if room.le(&acc) {
            acc = acc.checked_sub(&room).unwrap();
            digit = digit + 1;
        } else {
            proof {
                assert(acc.value() + r.value() < wide_limit()) by {
                    crate::wide::lemma_value_below_limit(*d);
                }
            }
            acc = acc.checked_add(r).unwrap();
        }
        j = j + 1;
    }
    proof {
        assert(r.value() >= 0 && acc.value() >= 0) by {
            crate::wide::lemma_value_below_limit(*r);
            crate::wide::lemma_value_below_limit(acc);
        }
        assert(digit < k) by (nonlinear_arith)
            requires
                digit as int * d.value() + acc.value() == r.value() * k,
                acc.value() >= 0,
                0 <= r.value() < d.value(),
                k > 0,
                digit >= 0,
        ;
    }
    (digit, acc)
}

/// `m * 10^12 / d`, rounded down or up, when it fits in 64 bits; the digits
/// of the scale come one at a time so no intermediate exceeds 256 bits.
fn scaled_quotient(m: &U256, d: &U256, up: bool) -> (r: Option<TokenAmount>)
    requires
        d.value() > 0,
    ensures
        ({
            let x = m.value() * LIQUIDITY_ONE;
            let v = if up {
                div_up(x, d.value())
            } else {
                x / d.value()
            };
            r == if v <= u64::MAX {
                Some(TokenAmount(v as u64))
            } else {
                None::<TokenAmount>
            }
        }),
{
    let (q, r0) = m.div_rem(d);
    let ghost dv = d.value();
    proof {
        crate::wide::lemma_value_below_limit(*m);
        crate::wide::lemma_value_below_limit(r0);
        crate::wide::lemma_value_below_limit(q);
        lemma_fundamental_div_mod(m.value(), dv);
        lemma_mod_pos_bound(m.value(), dv);
        assert(m.value() == q.value() * dv + r0.value()) by (nonlinear_arith)
            requires
                m.value() == dv * (m.value() / dv) + m.value() % dv,
                q.value() == m.value() / dv,
                r0.value() == m.value() % dv,
        ;
    }
    let mut frac: u64 = 0;
    let mut rest = r0;
    let mut i: u32 = 0;
    assert(pow10(0) == 1);
    while i < 12
        invariant
            i <= 12,
            dv == d.value(),
            dv > 0,
            frac < pow10(i as nat),
            pow10(i as nat) <= 1_000_000_000_000,
            frac as int * dv + rest.value() == r0.value() * pow10(i as nat),
            rest.value() < dv,
        decreases 12 - i,
    {
        proof {
            reveal_with_fuel(pow10, 13);
        }
        let (digit, next) = mul_small_mod(&rest, 10, d);
        proof {
            assert(pow10((i + 1) as nat) == 10 * pow10(i as nat));
            assert((frac * 10 + digit) as int * dv + next.value() == r0.value() * pow10(
                (i + 1) as nat,
            )) by (nonlinear_arith)
                requires
                    frac as int * dv + rest.value() == r0.value() * pow10(i as nat),
                    digit as int * dv + next.value() == rest.value() * 10,
                    pow10((i + 1) as nat) == 10 * pow10(i as nat),
            ;
            assert(frac * 10 + digit < pow10((i + 1) as nat)) by (nonlinear_arith)
                requires
                    frac < pow10(i as nat),
                    digit < 10,
                    pow10((i + 1) as nat) == 10 * pow10(i as nat),
            ;
        }
        frac = frac * 10 + digit as u64;
        rest = next;
        i = i + 1;
    }
    proof {
        reveal_with_fuel(pow10, 13);
        assert(pow10(12) == LIQUIDITY_ONE);
    }
    let ghost x = m.value() * LIQUIDITY_ONE;
    let ghost floor = q.value() * LIQUIDITY_ONE + frac;
    proof {
        crate::wide::lemma_value_below_limit(rest);
        assert(x == floor * dv + rest.value()) by (nonlinear_arith)
            requires
                m.value() == q.value() * dv + r0.value(),
                frac as int * dv + rest.value() == r0.value() * LIQUIDITY_ONE,
                x == m.value() * LIQUIDITY_ONE,
                floor == q.value() * LIQUIDITY_ONE + frac,
        ;
        lemma_quotient_from_remainder(x, dv, floor, rest.value());
    }
    if q.hi != 0 || q.lo > u64::MAX as u128 {
        proof {
            assert(q.value() > u64::MAX);
            assert(floor > u64::MAX) by (nonlinear_arith)
                requires
                    q.value() > u64::MAX,
                    floor == q.value() * LIQUIDITY_ONE + frac,
                    frac >= 0,
            ;
        }
        return None;
    }
    let total: u128 = q.lo * LIQUIDITY_ONE + frac as u128;
    let total = if up && !rest.is_zero() {
        total + 1
    } else {
        total
    };
    if total > u64::MAX as u128 {
        None
    } else {
        Some(TokenAmount(total as u64))
    }
}

/// Token-y amount between two prices, `L * |a - b|`, at token scale.
pub open spec fn delta_y_value(a: int, b: int, l: int, up: bool) -> int {
    if up {
        div_up(abs_diff(a, b) * l, PRICE_TIMES_LIQUIDITY_ONE as int)
    } else {
        abs_diff(a, b) * l / PRICE_TIMES_LIQUIDITY_ONE as int
    }
}

/// What `get_delta_y` returns: nothing when the amount does not fit in 64 bits.
pub open spec fn delta_y_spec(a: Price, b: Price, l: Liquidity, up: bool) -> Option<TokenAmount> {
    if delta_y_value(a.v as int, b.v as int, l.v as int, up) > u64::MAX {
        None
    } else {
        Some(TokenAmount(delta_y_value(a.v as int, b.v as int, l.v as int, up) as u64))
    }
}

/// Amount of token x between two square-root prices:
/// `L * |a - b| / (a * b)`, rounded once, up or down as `up` asks.
pub fn get_delta_x(sqrt_price_a: Price, sqrt_price_b: Price, liquidity: Liquidity, up: bool) -> (r:
    Option<TokenAmount>)
    ensures
        r == delta_x_spec(sqrt_price_a, sqrt_price_b, liquidity, up),
        r matches Some(t) ==> bounds_exact_delta_x(
            t.0 as int,
            sqrt_price_a.v as int,
            sqrt_price_b.v as int,
            liquidity.v as int,
            up,
        ),
{
    let (a, b) = (sqrt_price_a.v, sqrt_price_b.v);
    let delta_price = if a > b {
        a - b
    } else {
        b - a
    };
    let nominator = U256::full_mul(liquidity.v, delta_price);
    let denominator = U256::full_mul(a, b);
    let ghost n = delta_x_numerator(a as int, b as int, liquidity.v as int);
    proof {
        assert(liquidity.v * delta_price >= 0 && n == (liquidity.v * delta_price) * LIQUIDITY_ONE)
            by (nonlinear_arith)
            requires
                n == liquidity.v * abs_diff(a as int, b as int) * LIQUIDITY_ONE,
                delta_price == abs_diff(a as int, b as int),
                liquidity.v >= 0,
                delta_price >= 0,
        ;
        assert(a * b >= 0) by (nonlinear_arith)
            requires
                a >= 0,
                b >= 0,
        ;
    }
    if nominator.is_zero() {
        proof {
            assert(0 * (a * b) == 0);
        }
        return Some(TokenAmount(0));
    }
    if denominator.is_zero() {
        return None;
    }
    proof {
        assert(n >= 0) by (nonlinear_arith)
            requires
                n == (liquidity.v * delta_price) * LIQUIDITY_ONE,
                liquidity.v * delta_price >= 0,
        ;
        lemma_div_rounding(n, a * b);
    }
    scaled_quotient(&nominator, &denominator, up)
}

/// Amount of token y between two square-root prices: `L * |a - b|`.
pub fn get_delta_y(sqrt_price_a: Price, sqrt_price_b: Price, liquidity: Liquidity, up: bool) -> (r:
    Option<TokenAmount>)
    ensures
        r == delta_y_spec(sqrt_price_a, sqrt_price_b, liquidity, up),
        r matches Some(t) ==> bounds_exact_delta_y(
            t.0 as int,
            sqrt_price_a.v as int,
            sqrt_price_b.v as int,
            liquidity.v as int,
            up,
        ),
{
    let (a, b) = (sqrt_price_a.v, sqrt_price_b.v);
    let delta_price = if a > b {
        a - b
    } else {
        b - a
    };
    let product = U256::full_mul(delta_price, liquidity.v);
    let one = U256::from_u128(PRICE_TIMES_LIQUIDITY_ONE);
    proof {
        let m = abs_diff(a as int, b as int) * liquidity.v;
        assert(m >= 0 && liquidity.v * abs_diff(a as int, b as int) == m) by (nonlinear_arith)
            requires
                m == abs_diff(a as int, b as int) * liquidity.v,
                abs_diff(a as int, b as int) >= 0,
                liquidity.v >= 0,
        ;
        lemma_div_rounding(m, PRICE_TIMES_LIQUIDITY_ONE as int);
    }
    let q = if up {
        div_up_wide(&product, &one)
    } else {
        product.checked_div(&one).unwrap()
    };
    to_token_amount(&q)
}

/// Numerator of the token-x inverse: `price * L` at price scale, rounded up.
pub open spec fn next_x_nominator(p: int, l: int) -> int {
    div_up(p * l, LIQUIDITY_ONE as int)
}

/// Denominator of the token-x inverse: `L ± amount * price` at price scale.
pub open spec fn next_x_denominator(p: int, l: int, a: int, add: bool) -> int {
    if add {
        l * PRICE_LIQUIDITY_DENOMINATOR + p * a
    } else {
        l * PRICE_LIQUIDITY_DENOMINATOR - p * a
    }
}

/// The price after adding (or removing) `a` of token x: `L * p / (L ± a * p)`, rounded up.
pub open spec fn next_x_up_spec(p: int, l: int, a: int, add: bool) -> int {
    if a == 0 {
        p
    } else {
        div_up(next_x_nominator(p, l) * PRICE_ONE, next_x_denominator(p, l, a, add))
    }
}

/// Inputs on which the token-x inverse has a positive denominator, fits its
/// 256-bit intermediate, and gives a price of 128 bits.
pub open spec fn next_x_up_defined(p: int, l: int, a: int, add: bool) -> bool {
    a == 0 || (next_x_denominator(p, l, a, add) > 0 && next_x_nominator(p, l) * PRICE_ONE
        < wide_limit() && next_x_up_spec(p, l, a, add) <= u128::MAX)
}

/// `a / L` at price scale, rounded down or up.
pub open spec fn next_y_quotient(l: int, a: int, up: bool) -> int {
    let n = a * PRICE_ONE * PRICE_ONE;
    let d = l * PRICE_LIQUIDITY_DENOMINATOR;
    if up {
        div_up(n, d)
    } else {
        n / d
    }
}

/// The price after adding (or removing) `a` of token y: `p ± a / L`; the
/// quotient is rounded down when added and up when subtracted.
pub open spec fn next_y_down_spec(p: int, l: int, a: int, add: bool) -> int {
    if add {
        p + next_y_quotient(l, a, false)
    } else {
        p - next_y_quotient(l, a, true)
    }
}

/// Inputs on which the token-y inverse gives a price of 128 bits; removing
/// nothing is outside them, as the quotient removed must not be zero.
pub open spec fn next_y_down_defined(p: int, l: int, a: int, add: bool) -> bool {
    &&& l > 0
    &&& add || a > 0
    &&& 0 <= next_y_down_spec(p, l, a, add) <= u128::MAX
}

/// Next square-root price from an amount of token x, or nothing outside the
/// inputs on which the formula is defined.
pub fn checked_next_sqrt_price_x_up(
    price_sqrt: Price,
    liquidity: Liquidity,
    amount: TokenAmount,
    add: bool,
) -> (r: Option<Price>)
    ensures
        r is Some <==> next_x_up_defined(
            price_sqrt.v as int,
            liquidity.v as int,
            amount.0 as int,
            add,
        ),
        r matches Some(q) ==> q.v == next_x_up_spec(
            price_sqrt.v as int,
            liquidity.v as int,
            amount.0 as int,
            add,
        ),
{
    if amount.is_zero() {
        return Some(price_sqrt);
    }
    let (p, l, a) = (price_sqrt.v, liquidity.v, amount.0 as u128);
    let big_liquidity = U256::full_mul(l, PRICE_LIQUIDITY_DENOMINATOR);
    let price_amount = U256::full_mul(p, a);
    proof {
        lemma_product_bound(l, PRICE_LIQUIDITY_DENOMINATOR);
        lemma_product_bound(p, a);
        lemma_product_bound(p, l);
        assert(l * PRICE_LIQUIDITY_DENOMINATOR + p * a < wide_limit()) by (nonlinear_arith)
            requires
                l <= u128::MAX,
                p <= u128::MAX,
                a <= u64::MAX,
                wide_limit() == word_base() * word_base(),
                word_base() == u128::MAX + 1,
        ;
    }
    let denominator = if add {
        big_liquidity.checked_add(&price_amount).unwrap()
    } else {
        match big_liquidity.checked_sub(&price_amount) {
            Some(d) => d,
            None => {
                return None;
            },
        }
    };
    if denominator.is_zero() {
        return None;
    }
    let nominator = div_up_wide(&U256::full_mul(p, l), &U256::from_u128(LIQUIDITY_ONE));
    let scaled = match nominator.checked_mul(&U256::from_u128(PRICE_ONE)) {
        Some(x) => x,
        None => {
            return None;
        },
    };
    proof {
        crate::wide::lemma_value_below_limit(scaled);
        crate::wide::lemma_value_below_limit(denominator);
        lemma_div_rounding(scaled.value(), denominator.value());
    }
    let q = div_up_wide(&scaled, &denominator);
    match q.to_u128() {
        Some(v) => Some(Price { v }),
        None => None,
    }
}

/// Next square-root price from an amount of token y, or nothing outside the
/// inputs on which the formula is defined.
pub fn checked_next_sqrt_price_y_down(
    price_sqrt: Price,
    liquidity: Liquidity,
    amount: TokenAmount,
    add: bool,
) -> (r: Option<Price>)
    ensures
        r is Some <==> next_y_down_defined(
            price_sqrt.v as int,
            liquidity.v as int,
            amount.0 as int,
            add,
        ),
        r matches Some(q) ==> q.v == next_y_down_spec(
            price_sqrt.v as int,
            liquidity.v as int,
            amount.0 as int,
            add,
        ),
{
    if liquidity.v == 0 || (!add && amount.0 == 0) {
        return None;
    }
    let (p, l, a) = (price_sqrt.v, liquidity.v, amount.0 as u128);
    proof {
        assert(a * PRICE_ONE * PRICE_ONE < wide_limit()) by (nonlinear_arith)
            requires
                0 <= a <= u64::MAX,
                wide_limit() == word_base() * word_base(),
                word_base() == u128::MAX + 1,
        ;
        assert(l * PRICE_LIQUIDITY_DENOMINATOR > 0) by (nonlinear_arith)
            requires
                l > 0,
        ;
        lemma_product_bound(l, PRICE_LIQUIDITY_DENOMINATOR);
    }
    let n = U256::full_mul(a, PRICE_ONE).checked_mul(&U256::from_u128(PRICE_ONE)).unwrap();
    let d = U256::full_mul(l, PRICE_LIQUIDITY_DENOMINATOR);
    proof {
        crate::wide::lemma_value_below_limit(n);
        lemma_div_rounding(n.value(), d.value());
    }
    if add {
        match n.checked_div(&d).unwrap().to_u128() {
            Some(q) => {
                if q <= u128::MAX - p {
                    Some(Price { v: p + q })
                } else {
                    None
                }
            },
            None => None,
        }
    } else {
        match div_up_wide(&n, &d).to_u128() {
            Some(q) => {
                if q <= p {
                    Some(Price { v: p - q })
                } else {
                    None
                }
            },
            None => None,
        }
    }
}

/// Next square-root price from an amount of token x: `L * p / (L ± amount * p)`, rounded up.
pub fn get_next_sqrt_price_x_up(
    price_sqrt: Price,
    liquidity: Liquidity,
    amount: TokenAmount,
    add: bool,
) -> (r: Price)
    requires
        next_x_up_defined(price_sqrt.v as int, liquidity.v as int, amount.0 as int, add),
    ensures
        r.v == next_x_up_spec(price_sqrt.v as int, liquidity.v as int, amount.0 as int, add),
{
    checked_next_sqrt_price_x_up(price_sqrt, liquidity, amount, add).unwrap()
}

/// Next square-root price from an amount of token y: `p ± amount / L`,
/// rounded down when adding and up when subtracting.
pub fn get_next_sqrt_price_y_down(
    price_sqrt: Price,
    liquidity: Liquidity,
    amount: TokenAmount,
    add: bool,
) -> (r: Price)
    requires
        next_y_down_defined(price_sqrt.v as int, liquidity.v as int, amount.0 as int, add),
    ensures
        r.v == next_y_down_spec(price_sqrt.v as int, liquidity.v as int, amount.0 as int, add),
{
    checked_next_sqrt_price_y_down(price_sqrt, liquidity, amount, add).unwrap()
}

/// The price at which an amount of the input token leaves the pool.
pub open spec fn next_from_input_spec(p: int, l: int, a: int, x_to_y: bool) -> int {
    if x_to_y {
        next_x_up_spec(p, l, a, true)
    } else {
        next_y_down_spec(p, l, a, true)
    }
}

/// Inputs on which the price after an input can be computed: a positive
/// price and liquidity, and a defined formula for the input token.
pub open spec fn next_from_input_defined(p: int, l: int, a: int, x_to_y: bool) -> bool {
    p > 0 && l > 0 && if x_to_y {
        next_x_up_defined(p, l, a, true)
    } else {
        next_y_down_defined(p, l, a, true)
    }
}

/// The price at which an amount of the output token has left the pool.
pub open spec fn next_from_output_spec(p: int, l: int, a: int, x_to_y: bool) -> int {
    if x_to_y {
        next_y_down_spec(p, l, a, false)
    } else {
        next_x_up_spec(p, l, a, false)
    }
}

/// Inputs on which the price after an output can be computed: a positive
/// price and liquidity, and a defined formula for the output token.
pub open spec fn next_from_output_defined(p: int, l: int, a: int, x_to_y: bool) -> bool {
    p > 0 && l > 0 && if x_to_y {
        next_y_down_defined(p, l, a, false)
    } else {
        next_x_up_defined(p, l, a, false)
    }
}

/// Next square-root price after an input, or nothing outside the inputs on
/// which it is defined.
pub fn checked_next_sqrt_price_from_input(
    price_sqrt: Price,
    liquidity: Liquidity,
    amount: TokenAmount,
    x_to_y: bool,
) -> (r: Option<Price>)
    ensures
        r is Some <==> next_from_input_defined(
            price_sqrt.v as int,
            liquidity.v as int,
            amount.0 as int,
            x_to_y,
        ),
        r matches Some(q) ==> q.v == next_from_input_spec(
            price_sqrt.v as int,
            liquidity.v as int,
            amount.0 as int,
            x_to_y,
        ),
{
    if price_sqrt.v == 0 || liquidity.v == 0 {
        None
    } else if x_to_y {
        checked_next_sqrt_price_x_up(price_sqrt, liquidity, amount, true)
    } else {
        checked_next_sqrt_price_y_down(price_sqrt, liquidity, amount, true)
    }
}

/// Next square-root price after an output, or nothing outside the inputs on
/// which it is defined.
pub fn checked_next_sqrt_price_from_output(
    price_sqrt: Price,
    liquidity: Liquidity,
    amount: TokenAmount,
    x_to_y: bool,
) -> (r: Option<Price>)
    ensures
        r is Some <==> next_from_output_defined(
            price_sqrt.v as int,
            liquidity.v as int,
            amount.0 as int,
            x_to_y,
        ),
        r matches Some(q) ==> q.v == next_from_output_spec(
            price_sqrt.v as int,
            liquidity.v as int,
            amount.0 as int,
            x_to_y,
        ),
{
    if price_sqrt.v == 0 || liquidity.v == 0 {
        None
    } else if x_to_y {
        checked_next_sqrt_price_y_down(price_sqrt, liquidity, amount, false)
    } else {
        checked_next_sqrt_price_x_up(price_sqrt, liquidity, amount, false)
    }
}

/// Next square-root price after `amount` of the input token comes in.
pub fn get_next_sqrt_price_from_input(
    price_sqrt: Price,
    liquidity: Liquidity,
    amount: TokenAmount,
    x_to_y: bool,
) -> (r: Price)
    requires
        next_from_input_defined(price_sqrt.v as int, liquidity.v as int, amount.0 as int, x_to_y),
    ensures
        r.v == next_from_input_spec(price_sqrt.v as int, liquidity.v as int, amount.0 as int, x_to_y),
{
    if x_to_y {
        get_next_sqrt_price_x_up(price_sqrt, liquidity, amount, true)
    } else {
        get_next_sqrt_price_y_down(price_sqrt, liquidity, amount, true)
    }
}

/// Next square-root price after `amount` of the output token goes out.
pub fn get_next_sqrt_price_from_output(
    price_sqrt: Price,
    liquidity: Liquidity,
    amount: TokenAmount,
    x_to_y: bool,
) -> (r: Price)
    requires
        next_from_output_defined(price_sqrt.v as int, liquidity.v as int, amount.0 as int, x_to_y),
    ensures
        r.v == next_from_output_spec(price_sqrt.v as int, liquidity.v as int, amount.0 as int, x_to_y),
{
    if x_to_y {
        get_next_sqrt_price_y_down(price_sqrt, liquidity, amount, false)
    } else {
        get_next_sqrt_price_x_up(price_sqrt, liquidity, amount, false)
    }
}

/// The largest tick whose square-root price is defined.
pub const MAX_TICK: i32 = 221_818;

/// Scale step from a fixed-point value to a price.
pub const FIXED_POINT_TO_PRICE: u128 = 1_000_000_000_000;

/// The number of bits of a tick's magnitude.
pub const TICK_BITS: u32 = 18;

/// `sqrt(1.0001)^(2^b)` at fixed-point scale, for the bits `b` of a tick's magnitude.
pub open spec fn tick_factor(b: int) -> int {
    if b == 0 {
        1000049998750
    } else if b == 1 {
        1000100000000
    } else if b == 2 {
        1000200010000
    } else if b == 3 {
        1000400060004
    } else if b == 4 {
        1000800280056
    } else if b == 5 {
        1001601200560
    } else if b == 6 {
        1003204964963
    } else if b == 7 {
        1006420201726
    } else if b == 8 {
        1012881622442
    } else if b == 9 {
        1025929181080
    } else if b == 10 {
        1052530684591
    } else if b == 11 {
        1107820842005
    } else if b == 12 {
        1227267017980
    } else if b == 13 {
        1506184333421
    } else if b == 14 {
        2268591246242
    } else if b == 15 {
        5146506242525
    } else if b == 16 {
        26486526504348
    } else {
        701536086265529
    }
}

fn tick_factor_exec(b: u32) -> (r: u128)
    requires
        b < TICK_BITS,
    ensures
        r == tick_factor(b as int),
{
    if b == 0 {
        1000049998750
    } else if b == 1 {
        1000100000000
    } else if b == 2 {
        1000200010000
    } else if b == 3 {
        1000400060004
    } else if b == 4 {
        1000800280056
    } else if b == 5 {
        1001601200560
    } else if b == 6 {
        1003204964963
    } else if b == 7 {
        1006420201726
    } else if b == 8 {
        1012881622442
    } else if b == 9 {
        1025929181080
    } else if b == 10 {
        1052530684591
    } else if b == 11 {
        1107820842005
    } else if b == 12 {
        1227267017980
    } else if b == 13 {
        1506184333421
    } else if b == 14 {
        2268591246242
    } else if b == 15 {
        5146506242525
    } else if b == 16 {
        26486526504348
    } else {
        701536086265529
    }
}

/// Whether bit `b` of `t` is set.
pub open spec fn bit_set(t: nat, b: nat) -> bool {
    (t / pow2(b)) % 2 == 1
}

/// The product of the factors of the bits below `k` that are set in `t`,
/// rounded down after each factor, at fixed-point scale.
pub open spec fn tick_product(t: nat, k: nat) -> int
    decreases k,
{
    if k == 0 {
        FIXED_POINT_ONE as int
    } else {
        let p = tick_product(t, (k - 1) as nat);
        if bit_set(t, (k - 1) as nat) {
            p * tick_factor(k - 1) / FIXED_POINT_ONE as int
        } else {
            p
        }
    }
}

/// What `tick_product` stays below when every factor up to `b` is applied.
spec fn product_bound(b: int) -> int {
    if b == 0 {
        1000000000000
    } else if b == 1 {
        1000049998750
    } else if b == 2 {
        1000150003749
    } else if b == 3 {
        1000350043751
    } else if b == 4 {
        1000750243793
    } else if b == 5 {
        1001551124254
    } else if b == 6 {
        1003154808475
    } else if b == 7 {
        1006369884488
    } else if b == 8 {
        1012830982157
    } else if b == 9 {
        1025877888466
    } else if b == 10 {
        1052478062002
    } else if b == 11 {
        1107765455115
    } else if b == 12 {
        1227205659229
    } else if b == 13 {
        1506109029850
    } else if b == 14 {
        2268477825183
    } else if b == 15 {
        5146248936504
    } else if b == 16 {
        26485202277305
    } else if b == 17 {
        701501012090856
    } else {
        492128274533526656
    }
}

proof fn lemma_tick_product_bounds(t: nat, k: nat)
    requires
        k <= TICK_BITS,
    ensures
        FIXED_POINT_ONE <= tick_product(t, k) <= product_bound(k as int),
        k < TICK_BITS ==> tick_product(t, k) * tick_factor(k as int) <= u128::MAX,
    decreases k,
{
    let s = FIXED_POINT_ONE as int;
    if k > 0 {
        let b = (k - 1) as int;
        lemma_tick_product_bounds(t, (k - 1) as nat);
        let p = tick_product(t, (k - 1) as nat);
        let f = tick_factor(b);
        let u = product_bound(b);
        assert(s <= f && u <= product_bound(b + 1) && u * f / s == product_bound(b + 1));
        if bit_set(t, (k - 1) as nat) {
            assert(s * s <= p * f <= u * f) by (nonlinear_arith)
                requires
                    0 <= s <= p <= u,
                    s <= f,
            ;
            lemma_div_is_ordered(p * f, u * f, s);
            lemma_div_is_ordered(s * s, p * f, s);
            assert(s * s / s == s);
        }
    }
    if k < TICK_BITS {
        let p = tick_product(t, k);
        let f = tick_factor(k as int);
        let u = product_bound(k as int);
        assert(u * f <= u128::MAX);
        assert(p * f <= u * f) by (nonlinear_arith)
            requires
                0 <= p <= u,
                0 <= f,
        ;
    }
}

/// The magnitude of a tick.
pub open spec fn tick_magnitude(tick: int) -> nat {
    if tick < 0 {
        (-tick) as nat
    } else {
        tick as nat
    }
}

/// The square-root price of a tick: the fixed-point product for its
/// magnitude, inverted (rounded down) for a negative tick, at price scale.
pub open spec fn price_sqrt_spec(tick: int) -> int {
    let p = tick_product(tick_magnitude(tick), TICK_BITS as nat);
    if tick >= 0 {
        p * FIXED_POINT_TO_PRICE
    } else {
        (FIXED_POINT_ONE * FIXED_POINT_ONE / p) * FIXED_POINT_TO_PRICE
    }
}

/// The square-root price `sqrt(1.0001)^tick`, by binary exponentiation over
/// the bits of the tick's magnitude.
pub fn calculate_price_sqrt(tick_index: i32) -> (r: Price)
    requires
        -MAX_TICK <= tick_index <= MAX_TICK,
    ensures
        r.v == price_sqrt_spec(tick_index as int),
{
    let tick: u32 = if tick_index < 0 {
        (-tick_index) as u32
    } else {
        tick_index as u32
    };
    let ghost t = tick as nat;
    let mut price: u128 = FIXED_POINT_ONE;
    let mut rest: u32 = tick;
    let mut b: u32 = 0;
    proof {
        lemma2_to64();
    }
    while b < TICK_BITS
        invariant
            b <= TICK_BITS,
            t == tick_magnitude(tick_index as int),
            price == tick_product(t, b as nat),
            rest == t / pow2(b as nat),
        decreases TICK_BITS - b,
    {
        proof {
            lemma_tick_product_bounds(t, b as nat);
            lemma_pow2_pos(b as nat);
            lemma_pow2_unfold((b + 1) as nat);
            lemma_div_denominator(t as int, pow2(b as nat) as int, 2);
        }
        if rest % 2 == 1 {
            price = price * tick_factor_exec(b) / FIXED_POINT_ONE;
        }
        rest = rest / 2;
        b = b + 1;
    }
    proof {
        lemma_tick_product_bounds(t, TICK_BITS as nat);
    }
    if tick_index >= 0 {
        Price { v: price * FIXED_POINT_TO_PRICE }
    } else {
        Price { v: (FIXED_POINT_ONE * FIXED_POINT_ONE / price) * FIXED_POINT_TO_PRICE }
    }
}

/// Every valid tick has a positive square-root price, and the price of `-t`
/// is the inverse of the price of `t` rounded down to one fixed-point unit:
/// their product is at most one (at price scale, squared) and adding one
/// fixed-point unit to the price of `-t` takes it past one.
pub proof fn lemma_price_sqrt_positive_and_inverse(t: int)
    requires
        0 <= t <= MAX_TICK,
    ensures
        price_sqrt_spec(t) > 0,
        price_sqrt_spec(-t) > 0,
        price_sqrt_spec(t) * price_sqrt_spec(-t) <= PRICE_ONE * PRICE_ONE,
        PRICE_ONE * PRICE_ONE < price_sqrt_spec(t) * (price_sqrt_spec(-t) + FIXED_POINT_TO_PRICE),
{
    let p = tick_product(tick_magnitude(t), TICK_BITS as nat);
    lemma_tick_product_bounds(tick_magnitude(t), TICK_BITS as nat);
    let s = FIXED_POINT_ONE as int;
    let k = FIXED_POINT_TO_PRICE as int;
    assert(PRICE_ONE == s * s) by (nonlinear_arith)
        requires
            s == 1_000_000_000_000,
    ;
    if t == 0 {
        assert(tick_magnitude(0) == 0);
        assert(-t == 0);
        assert(p == s) by {
            lemma2_to64();
            lemma_zero_has_no_bits(TICK_BITS as nat);
        }
    } else {
        assert(tick_magnitude(-t) == tick_magnitude(t));
        let inv = s * s / p;
        lemma_fundamental_div_mod(s * s, p);
        lemma_mod_pos_bound(s * s, p);
        assert(inv >= 1) by {
            lemma_div_is_ordered(p, s * s, p);
            assert(p / p == 1) by (nonlinear_arith)
                requires
                    p > 0,
            ;
        }
        assert(p * inv <= s * s < p * (inv + 1)) by (nonlinear_arith)
            requires
                s * s == p * inv + (s * s) % p,
                0 <= (s * s) % p < p,
        ;
        assert((p * k) * (inv * k) <= PRICE_ONE * PRICE_ONE) by (nonlinear_arith)
            requires
                p * inv <= s * s,
                k == s,
                PRICE_ONE == s * s,
                s > 0,
        ;
        assert(PRICE_ONE * PRICE_ONE < (p * k) * (inv * k + k)) by (nonlinear_arith)
            requires
                s * s < p * (inv + 1),
                k == s,
                PRICE_ONE == s * s,
                s > 0,
        ;
        assert((p * k) > 0 && (inv * k) > 0) by (nonlinear_arith)
            requires
                p >= 1,
                inv >= 1,
                k > 0,
        ;
    }
}

proof fn lemma_zero_has_no_bits(k: nat)
    ensures
        tick_product(0, k) == FIXED_POINT_ONE,
    decreases k,
{
    if k > 0 {
        lemma_zero_has_no_bits((k - 1) as nat);
        lemma_pow2_pos((k - 1) as nat);
        assert(0nat / pow2((k - 1) as nat) == 0);
    }
}

/// Rounding up never gives less than rounding down: whenever the amount of
/// token x rounded up exists, so does the amount rounded down, and it is no larger.
pub proof fn lemma_delta_x_up_covers_down(a: Price, b: Price, l: Liquidity)
    ensures
        delta_x_spec(a, b, l, true) is Some ==> delta_x_spec(a, b, l, false) is Some
            && delta_x_spec(a, b, l, false)->Some_0.0 <= delta_x_spec(a, b, l, true)->Some_0.0,
{
    let (av, bv, lv) = (a.v as int, b.v as int, l.v as int);
    let n = delta_x_numerator(av, bv, lv);
    assert(av * bv >= 0) by (nonlinear_arith)
        requires
            av >= 0,
            bv >= 0,
    ;
    assert(n >= 0) by (nonlinear_arith)
        requires
            n == lv * abs_diff(av, bv) * LIQUIDITY_ONE,
            abs_diff(av, bv) >= 0,
            lv >= 0,
    ;
    if av * bv > 0 {
        lemma_div_rounding(n, av * bv);
    }
}

/// Rounding up never gives less than rounding down, for amounts of token y.
pub proof fn lemma_delta_y_up_covers_down(a: Price, b: Price, l: Liquidity)
    ensures
        delta_y_spec(a, b, l, true) is Some ==> delta_y_spec(a, b, l, false) is Some
            && delta_y_spec(a, b, l, false)->Some_0.0 <= delta_y_spec(a, b, l, true)->Some_0.0,
{
    let m = abs_diff(a.v as int, b.v as int) * l.v;
    assert(m >= 0) by (nonlinear_arith)
        requires
            m == abs_diff(a.v as int, b.v as int) * l.v,
            abs_diff(a.v as int, b.v as int) >= 0,
            l.v >= 0,
    ;
    let k = PRICE_TIMES_LIQUIDITY_ONE as int;
    lemma_div_is_ordered(m, m + k - 1, k);
}

/// A step by input never spends more than the amount: input plus fee is at
/// most the amount, whether the step ends on its target or short of it.
pub proof fn lemma_swap_step_no_overspend(
    current: Price,
    target: Price,
    l: Liquidity,
    amount: TokenAmount,
    fee: FixedPoint,
)
    requires
        swap_step_defined(current, target, l, amount, true, fee),
    ensures
        swap_step_spec(current, target, l, amount, true, fee).amount_in.0 + swap_step_spec(
            current,
            target,
            l,
            amount,
            true,
            fee,
        ).fee_amount.0 <= amount.0,
{
    let a = amount.0 as int;
    let f = fee.v as int;
    let s = FIXED_POINT_ONE as int;
    let r = swap_step_spec(current, target, l, amount, true, fee);
    if step_is_no_op(l, amount) {
        return;
    }
    if !step_reaches_target(current, target, l, a, true, f) {
        let next = Price { v: step_next_price(current, target, l, a, true, f) as u128 };
        let x = amount_or_max(step_in_between(current, next, l, current.v >= target.v));
        assert(0 <= x <= a);
        assert(r.amount_in.0 == x && r.fee_amount.0 == a - x);
        return;
    }
    let x = step_capacity(current, target, l, true);
    let c = div_up(x * f, s);
    assert(0 <= x <= u64::MAX);
    lemma_fee_bounds(x, f);
    assert(step_next_price(current, target, l, a, true, f) == target.v);
    assert(r.amount_in.0 == x && r.fee_amount.0 == c);
    lemma_fundamental_div_mod(a * (s - f), s);
    lemma_mod_pos_bound(a * (s - f), s);
    assert(x * s <= a * (s - f)) by (nonlinear_arith)
        requires
            0 <= x <= a * (s - f) / s,
            a * (s - f) == s * (a * (s - f) / s) + (a * (s - f)) % s,
            0 <= (a * (s - f)) % s,
            s > 0,
    ;
    lemma_fundamental_div_mod(x * f + s - 1, s);
    lemma_mod_pos_bound(x * f + s - 1, s);
    assert(c * s <= x * f + s - 1) by (nonlinear_arith)
        requires
            x * f + s - 1 == s * c + (x * f + s - 1) % s,
            0 <= (x * f + s - 1) % s,
    ;
    assert(x + c < a + 1) by (nonlinear_arith)
        requires
            x * s <= a * (s - f),
            c * s <= x * f + s - 1,
            0 <= f <= s,
            s > 0,
            x >= 0,
            a >= 0,
    ;
}

/// Without liquidity a step always lands on its target, exchanging nothing
/// and charging no fee, for any amount and either direction.
pub proof fn lemma_swap_step_without_liquidity(
    current: Price,
    target: Price,
    l: Liquidity,
    amount: TokenAmount,
    by_amount_in: bool,
    fee: FixedPoint,
)
    requires
        l.v == 0,
        fee.v <= FIXED_POINT_ONE,
    ensures
        swap_step_defined(current, target, l, amount, by_amount_in, fee),
        swap_step_spec(current, target, l, amount, by_amount_in, fee) == (SwapResult {
            next_price_sqrt: target,
            amount_in: TokenAmount(0),
            amount_out: TokenAmount(0),
            fee_amount: TokenAmount(0),
        }),
{
    assert forall|a: Price, b: Price| delta_x_numerator(a.v as int, b.v as int, 0) == 0
        && delta_y_value(
        a.v as int,
        b.v as int,
        0,
        true,
    ) == 0 && delta_y_value(a.v as int, b.v as int, 0, false) == 0 by {
        assert(abs_diff(a.v as int, b.v as int) * 0 == 0);
    }
    lemma_fee_bounds(amount.0 as int, fee.v as int);
    assert(div_up(0 * fee.v, FIXED_POINT_ONE as int) == 0);
}

/// Outcome of one swap step at constant liquidity.
#[derive(Clone, Copy, Debug, PartialEq, Eq, Structural)]
pub struct SwapResult {
    pub next_price_sqrt: Price,
    pub amount_in: TokenAmount,
    pub amount_out: TokenAmount,
    pub fee_amount: TokenAmount,
}

/// The part of an input amount left once the fee rate is taken, rounded down.
pub open spec fn amount_after_fee(amount: int, fee: int) -> int {
    amount * (FIXED_POINT_ONE - fee) / FIXED_POINT_ONE as int
}

/// A token amount, or the largest one when there is none.
pub open spec fn amount_or_max(r: Option<TokenAmount>) -> int {
    match r {
        Some(t) => t.0 as int,
        None => u64::MAX as int,
    }
}

/// Input (rounded up) needed to move the price from `current` to `next`.
pub open spec fn step_in_between(current: Price, next: Price, l: Liquidity, x_to_y: bool) -> Option<
    TokenAmount,
> {
    if x_to_y {
        delta_x_spec(next, current, l, true)
    } else {
        delta_y_spec(current, next, l, true)
    }
}

/// Output (rounded down) released by moving the price from `current` to `next`.
pub open spec fn step_out_between(current: Price, next: Price, l: Liquidity, x_to_y: bool) -> Option<
    TokenAmount,
> {
    if x_to_y {
        delta_y_spec(next, current, l, false)
    } else {
        delta_x_spec(current, next, l, false)
    }
}

/// What reaching the target takes in (by input) or gives out (by output).
pub open spec fn step_capacity(current: Price, target: Price, l: Liquidity, by_amount_in: bool) -> int {
    let x_to_y = current.v >= target.v;
    if by_amount_in {
        amount_or_max(step_in_between(current, target, l, x_to_y))
    } else {
        amount_or_max(step_out_between(current, target, l, x_to_y))
    }
}

/// Whether the amount (net of fee when it is an input) covers the way to the target.
pub open spec fn step_reaches_target(
    current: Price,
    target: Price,
    l: Liquidity,
    amount: int,
    by_amount_in: bool,
    fee: int,
) -> bool {
    if by_amount_in {
        amount_after_fee(amount, fee) >= step_capacity(current, target, l, true)
    } else {
        amount >= step_capacity(current, target, l, false)
    }
}

/// The price a step ends at: the target when the amount covers it, else the
/// price that the amount moves to.
pub open spec fn step_next_price(
    current: Price,
    target: Price,
    l: Liquidity,
    amount: int,
    by_amount_in: bool,
    fee: int,
) -> int {
    let x_to_y = current.v >= target.v;
    if step_reaches_target(current, target, l, amount, by_amount_in, fee) {
        target.v as int
    } else if by_amount_in {
        next_from_input_spec(current.v as int, l.v as int, amount_after_fee(amount, fee), x_to_y)
    } else {
        next_from_output_spec(current.v as int, l.v as int, amount, x_to_y)
    }
}

/// A step with nothing to trade where there is liquidity to trade against
/// does nothing.
pub open spec fn step_is_no_op(l: Liquidity, amount: TokenAmount) -> bool {
    amount.0 == 0 && l.v > 0
}

/// Inputs on which a swap step stays within its types: a fee rate of at most
/// one by input and a fee of 64 bits by output, a computable next price, amounts between the prices that fit in 64
/// bits, and, for a partial fill by input, an input no larger than the amount.
pub open spec fn swap_step_defined(
    current: Price,
    target: Price,
    l: Liquidity,
    amount: TokenAmount,
    by_amount_in: bool,
    fee: FixedPoint,
) -> bool {
    let x_to_y = current.v >= target.v;
    let a = amount.0 as int;
    let next = Price { v: step_next_price(current, target, l, a, by_amount_in, fee.v as int) as u128 };
    let partial = !step_reaches_target(current, target, l, a, by_amount_in, fee.v as int);
    step_is_no_op(l, amount) || {
        &&& by_amount_in ==> fee.v <= FIXED_POINT_ONE
        &&& !by_amount_in ==> div_up(
            amount_or_max(step_in_between(current, next, l, x_to_y)) * fee.v,
            FIXED_POINT_ONE as int,
        ) <= u64::MAX
        &&& partial ==> if by_amount_in {
            next_from_input_defined(
                current.v as int,
                l.v as int,
                amount_after_fee(a, fee.v as int),
                x_to_y,
            )
        } else {
            next_from_output_defined(current.v as int, l.v as int, a, x_to_y)
        }
        &&& (partial || !by_amount_in) ==> step_in_between(current, next, l, x_to_y) is Some
        &&& (partial || by_amount_in) ==> step_out_between(current, next, l, x_to_y) is Some
        &&& (by_amount_in && partial) ==> amount_or_max(step_in_between(current, next, l, x_to_y))
            <= a
    }
}

/// One swap step as the pricing rules define it: nothing for a zero amount
/// against liquidity; otherwise the next price, the input (rounded up) and
/// output (rounded down) between the current and the next price, recomputed
/// when the amount falls short of the target, the output capped at a
/// requested output, and the fee: the rest of the amount for a partial fill
/// by input, else the fee rate on the input, rounded up.
pub open spec fn swap_step_spec(
    current: Price,
    target: Price,
    l: Liquidity,
    amount: TokenAmount,
    by_amount_in: bool,
    fee: FixedPoint,
) -> SwapResult {
    let x_to_y = current.v >= target.v;
    let a = amount.0 as int;
    let next = Price { v: step_next_price(current, target, l, a, by_amount_in, fee.v as int) as u128 };
    let partial = !step_reaches_target(current, target, l, a, by_amount_in, fee.v as int);
    let amount_in = if partial || !by_amount_in {
        amount_or_max(step_in_between(current, next, l, x_to_y))
    } else {
        step_capacity(current, target, l, true)
    };
    let out = if partial || by_amount_in {
        amount_or_max(step_out_between(current, next, l, x_to_y))
    } else {
        step_capacity(current, target, l, false)
    };
    let amount_out = if !by_amount_in && out > a {
        a
    } else {
        out
    };
    let fee_amount = if by_amount_in && partial {
        a - amount_in
    } else {
        div_up(amount_in * fee.v, FIXED_POINT_ONE as int)
    };
    if step_is_no_op(l, amount) {
        SwapResult {
            next_price_sqrt: current,
            amount_in: TokenAmount(0),
            amount_out: TokenAmount(0),
            fee_amount: TokenAmount(0),
        }
    } else {
        SwapResult {
            next_price_sqrt: next,
            amount_in: TokenAmount(amount_in as u64),
            amount_out: TokenAmount(amount_out as u64),
            fee_amount: TokenAmount(fee_amount as u64),
        }
    }
}

proof fn lemma_fee_bounds(a: int, f: int)
    requires
        0 <= a,
        0 <= f <= FIXED_POINT_ONE,
    ensures
        0 <= amount_after_fee(a, f) <= a,
        0 <= div_up(a * f, FIXED_POINT_ONE as int) <= a,
{
    let s = FIXED_POINT_ONE as int;
    assert(0 <= a * (s - f) <= a * s) by (nonlinear_arith)
        requires
            0 <= a,
            0 <= f <= s,
    ;
    assert(a * s / s == a) by (nonlinear_arith)
        requires
            s > 0,
    ;
    lemma_div_is_ordered(a * (s - f), a * s, s);
    assert(0 <= a * f <= a * s) by (nonlinear_arith)
        requires
            0 <= a,
            0 <= f <= s,
    ;
    lemma_div_is_ordered(a * f + s - 1, a * s + s - 1, s);
    assert((a * s + s - 1) / s == a) by (nonlinear_arith)
        requires
            s > 0,
            a >= 0,
    ;
}

fn token_or_max(r: Option<TokenAmount>) -> (t: TokenAmount)
    ensures
        t.0 == amount_or_max(r),
{
    match r {
        Some(t) => t,
        None => TokenAmount(u64::MAX),
    }
}

/// Whether `compute_swap_step` accepts these inputs.
pub fn swap_step_is_defined(
    current_price_sqrt: Price,
    target_price_sqrt: Price,
    liquidity: Liquidity,
    amount: TokenAmount,
    by_amount_in: bool,
    fee: FixedPoint,
) -> (r: bool)
    ensures
        r == swap_step_defined(
            current_price_sqrt,
            target_price_sqrt,
            liquidity,
            amount,
            by_amount_in,
            fee,
        ),
{
    let current = current_price_sqrt;
    let target = target_price_sqrt;
    if amount.0 == 0 && liquidity.v > 0 {
        return true;
    }
    if by_amount_in && fee.v > FIXED_POINT_ONE {
        return false;
    }
    let x_to_y = current.v >= target.v;
    let mut partial = false;
    let next = if by_amount_in {
        proof {
            lemma_fee_bounds(amount.0 as int, fee.v as int);
        }
        let amount_after_fee = TokenAmount(
            mul_div(amount.0 as u128, FIXED_POINT_ONE - fee.v, FIXED_POINT_ONE) as u64,
        );
        let capacity = token_or_max(
            if x_to_y {
                get_delta_x(target, current, liquidity, true)
            } else {
                get_delta_y(current, target, liquidity, true)
            },
        );
        if amount_after_fee.0 >= capacity.0 {
            target
        } else {
            partial = true;
            match checked_next_sqrt_price_from_input(current, liquidity, amount_after_fee, x_to_y) {
                Some(p) => p,
                None => {
                    return false;
                },
            }
        }
    } else {
        let capacity = token_or_max(
            if x_to_y {
                get_delta_y(target, current, liquidity, false)
            } else {
                get_delta_x(current, target, liquidity, false)
            },
        );
        if amount.0 >= capacity.0 {
            target
        } else {
            partial = true;
            match checked_next_sqrt_price_from_output(current, liquidity, amount, x_to_y) {
                Some(p) => p,
                None => {
                    return false;
                },
            }
        }
    };
    let in_between = if x_to_y {
        get_delta_x(next, current, liquidity, true)
    } else {
        get_delta_y(current, next, liquidity, true)
    };
    let out_between = if x_to_y {
        get_delta_y(next, current, liquidity, false)
    } else {
        get_delta_x(current, next, liquidity, false)
    };
    if (partial || !by_amount_in) && in_between.is_none() {
        return false;
    }
    if (partial || by_amount_in) && out_between.is_none() {
        return false;
    }
    let amount_in = token_or_max(in_between);
    if by_amount_in && partial && amount_in.0 > amount.0 {
        return false;
    }
    if !by_amount_in {
        let product = U256::full_mul(amount_in.0 as u128, fee.v);
        let fee_amount = div_up_wide(&product, &U256::from_u128(FIXED_POINT_ONE));
        return to_token_amount(&fee_amount).is_some();
    }
    true
}

/// One step of a swap at constant liquidity, towards `target_price_sqrt`.
pub fn compute_swap_step(
    current_price_sqrt: Price,
    target_price_sqrt: Price,
    liquidity: Liquidity,
    amount: TokenAmount,
    by_amount_in: bool,
    fee: FixedPoint,
) -> (r: SwapResult)
    requires
        swap_step_defined(current_price_sqrt, target_price_sqrt, liquidity, amount, by_amount_in, fee),
    ensures
        r == swap_step_spec(current_price_sqrt, target_price_sqrt, liquidity, amount, by_amount_in, fee),
{
    let current = current_price_sqrt;
    let target = target_price_sqrt;
    if amount.0 == 0 && liquidity.v > 0 {
        return SwapResult {
            next_price_sqrt: current,
            amount_in: TokenAmount(0),
            amount_out: TokenAmount(0),
            fee_amount: TokenAmount(0),
        };
    }
    let x_to_y = current.v >= target.v;
    let mut amount_in = TokenAmount(0);
    let mut amount_out = TokenAmount(0);
    let mut partial = false;
    let next_price_sqrt = if by_amount_in {
        proof {
            lemma_fee_bounds(amount.0 as int, fee.v as int);
        }
        let amount_after_fee = TokenAmount(
            mul_div(amount.0 as u128, FIXED_POINT_ONE - fee.v, FIXED_POINT_ONE) as u64,
        );
        amount_in = token_or_max(
            if x_to_y {
                get_delta_x(target, current, liquidity, true)
            } else {
                get_delta_y(current, target, liquidity, true)
            },
        );
        if amount_after_fee.0 >= amount_in.0 {
            target
        } else {
            partial = true;
            get_next_sqrt_price_from_input(current, liquidity, amount_after_fee, x_to_y)
        }
    } else {
        amount_out = token_or_max(
            if x_to_y {
                get_delta_y(target, current, liquidity, false)
            } else {
                get_delta_x(current, target, liquidity, false)
            },
        );
        if amount.0 >= amount_out.0 {
            target
        } else {
            partial = true;
            get_next_sqrt_price_from_output(current, liquidity, amount, x_to_y)
        }
    };
    if x_to_y {
        if partial || !by_amount_in {
            amount_in = get_delta_x(next_price_sqrt, current, liquidity, true).unwrap();
        }
        if partial || by_amount_in {
            amount_out = get_delta_y(next_price_sqrt, current, liquidity, false).unwrap();
        }
    } else {
        if partial || !by_amount_in {
            amount_in = get_delta_y(current, next_price_sqrt, liquidity, true).unwrap();
        }
        if partial || by_amount_in {
            amount_out = get_delta_x(current, next_price_sqrt, liquidity, false).unwrap();
        }
    }
    if !by_amount_in && amount_out.0 > amount.0 {
        amount_out = amount;
    }
    proof {
        if by_amount_in {
            lemma_fee_bounds(amount_in.0 as int, fee.v as int);
        }
    }
    let fee_amount = if by_amount_in && partial {
        TokenAmount(amount.0 - amount_in.0)
    } else {
        TokenAmount(mul_div_up(amount_in.0 as u128, fee.v, FIXED_POINT_ONE) as u64)
    };
    SwapResult { next_price_sqrt, amount_in, amount_out, fee_amount }
}

/// The part of a global accumulator that accrued while the current tick was
/// inside `[lower_index, upper_index)`: each boundary's snapshot counts as
/// "below" or "above" directly or as its complement in the global value,
/// depending on which side of the boundary the current tick is. All
/// subtraction is modulo 2^128.
pub open spec fn range_inside(
    global: int,
    lower_outside: int,
    upper_outside: int,
    lower_index: int,
    upper_index: int,
    current: int,
) -> int {
    let below = if current >= lower_index {
        lower_outside
    } else {
        wrapping_sub_spec(global, lower_outside)
    };
    let above = if current < upper_index {
        upper_outside
    } else {
        wrapping_sub_spec(global, upper_outside)
    };
    wrapping_sub_spec(wrapping_sub_spec(global, below), above)
}

fn inside_value(
    global: u128,
    lower_outside: u128,
    upper_outside: u128,
    current_above_lower: bool,
    current_below_upper: bool,
) -> (r: u128)
    ensures
        r == ({
            let below = if current_above_lower {
                lower_outside as int
            } else {
                wrapping_sub_spec(global as int, lower_outside as int)
            };
            let above = if current_below_upper {
                upper_outside as int
            } else {
                wrapping_sub_spec(global as int, upper_outside as int)
            };
            wrapping_sub_spec(wrapping_sub_spec(global as int, below), above)
        }),
{
    let below = if current_above_lower {
        lower_outside
    } else {
        wrapping_sub_u128(global, lower_outside)
    };
    let above = if current_below_upper {
        upper_outside
    } else {
        wrapping_sub_u128(global, upper_outside)
    };
    wrapping_sub_u128(wrapping_sub_u128(global, below), above)
}

/// Fee growth of tokens x and y inside the range of two ticks.
pub fn calculate_fee_growth_inside(
    tick_lower: Tick,
    tick_upper: Tick,
    tick_current: i32,
    fee_growth_global_x: FeeGrowth,
    fee_growth_global_y: FeeGrowth,
) -> (r: (FeeGrowth, FeeGrowth))
    ensures
        r.0.v == range_inside(
            fee_growth_global_x.v as int,
            tick_lower.fee_growth_outside_x.v as int,
            tick_upper.fee_growth_outside_x.v as int,
            tick_lower.index as int,
            tick_upper.index as int,
            tick_current as int,
        ),
        r.1.v == range_inside(
            fee_growth_global_y.v as int,
            tick_lower.fee_growth_outside_y.v as int,
            tick_upper.fee_growth_outside_y.v as int,
            tick_lower.index as int,
            tick_upper.index as int,
            tick_current as int,
        ),
{
    let current_above_lower = tick_current >= tick_lower.index;
    let current_below_upper = tick_current < tick_upper.index;
    let inside_x = inside_value(
        fee_growth_global_x.v,
        tick_lower.fee_growth_outside_x.v,
        tick_upper.fee_growth_outside_x.v,
        current_above_lower,
        current_below_upper,
    );
    let inside_y = inside_value(
        fee_growth_global_y.v,
        tick_lower.fee_growth_outside_y.v,
        tick_upper.fee_growth_outside_y.v,
        current_above_lower,
        current_below_upper,
    );
    (FeeGrowth { v: inside_x }, FeeGrowth { v: inside_y })
}

/// The pool once its time accounting has reached `now`: with liquidity, the
/// accumulator advances by the elapsed time over the liquidity; without,
/// only the timestamp moves.
pub open spec fn pool_at_time(pool: Pool, now: u64) -> Pool {
    if pool.liquidity.v > 0 {
        Pool {
            seconds_per_liquidity_global: FixedPoint {
                v: (pool.seconds_per_liquidity_global.v + seconds_per_liquidity_increment(
                    now - pool.last_timestamp,
                    pool.liquidity.v as int,
                )) as u128,
            },
            last_timestamp: now,
            ..pool
        }
    } else {
        Pool { last_timestamp: now, ..pool }
    }
}

/// Seconds per unit of liquidity spent inside the range of two ticks, after
/// bringing the pool's accumulator up to `current_timestamp`.
pub fn calculate_seconds_per_liquidity_inside(
    tick_lower: Tick,
    tick_upper: Tick,
    pool: &mut Pool,
    current_timestamp: u64,
) -> (r: FixedPoint)
    requires
        old(pool).liquidity.v > 0 ==> can_advance_seconds(*old(pool), current_timestamp),
    ensures
        *final(pool) == pool_at_time(*old(pool), current_timestamp),
        r.v == range_inside(
            final(pool).seconds_per_liquidity_global.v as int,
            tick_lower.seconds_per_liquidity_outside.v as int,
            tick_upper.seconds_per_liquidity_outside.v as int,
            tick_lower.index as int,
            tick_upper.index as int,
            final(pool).current_tick_index as int,
        ),
{
    if !pool.liquidity.is_zero() {
        pool.update_seconds_per_liquidity_global(current_timestamp);
    } else {
        pool.last_timestamp = current_timestamp;
    }
    let tick_current = pool.current_tick_index;
    let v = inside_value(
        pool.seconds_per_liquidity_global.v,
        tick_lower.seconds_per_liquidity_outside.v,
        tick_upper.seconds_per_liquidity_outside.v,
        tick_current >= tick_lower.index,
        tick_current < tick_upper.index,
    );
    FixedPoint { v }
}

/// The square-root price of a tick, as a price.
pub open spec fn tick_price(tick: int) -> Price {
    Price { v: price_sqrt_spec(tick) as u128 }
}

/// Token amounts that a change of `delta` liquidity over `[lower_tick, upper_tick)`
/// involves, rounded up when liquidity is added and down when it is removed:
/// all token x below the range, all token y above it, and both inside it,
/// split at the pool's price.
pub open spec fn amount_delta_spec(
    pool: Pool,
    delta: Liquidity,
    sign: bool,
    upper_tick: int,
    lower_tick: int,
) -> (Option<TokenAmount>, Option<TokenAmount>) {
    if pool.current_tick_index < lower_tick {
        (delta_x_spec(tick_price(lower_tick), tick_price(upper_tick), delta, sign), Some(TokenAmount(0)))
    } else if pool.current_tick_index < upper_tick {
        (
            delta_x_spec(pool.sqrt_price, tick_price(upper_tick), delta, sign),
            delta_y_spec(tick_price(lower_tick), pool.sqrt_price, delta, sign),
        )
    } else {
        (Some(TokenAmount(0)), delta_y_spec(tick_price(lower_tick), tick_price(upper_tick), delta, sign))
    }
}

/// Token amounts for adding (`liquidity_sign`) or removing `liquidity_delta`
/// over `[lower_tick, upper_tick)`. It fails with `ArithmeticOverflow` when an
/// amount does not fit in 64 bits. When the pool's tick lies inside the range
/// the pool's liquidity changes by the delta too; that is the only change to
/// the pool, and it fails with `InvalidPoolLiquidity` when the liquidity
/// would leave its range. A failure changes nothing.
pub fn calculate_amount_delta(
    pool: &mut Pool,
    liquidity_delta: Liquidity,
    liquidity_sign: bool,
    upper_tick: i32,
    lower_tick: i32,
) -> (r: Result<(TokenAmount, TokenAmount), ErrorCode>)
    requires
        -MAX_TICK <= lower_tick <= MAX_TICK,
        -MAX_TICK <= upper_tick <= MAX_TICK,
    ensures
        ({
            let amounts = amount_delta_spec(
                *old(pool),
                liquidity_delta,
                liquidity_sign,
                upper_tick as int,
                lower_tick as int,
            );
            let inside = lower_tick <= old(pool).current_tick_index < upper_tick;
            let new_liquidity = updated_liquidity(
                old(pool).liquidity.v as int,
                liquidity_delta.v as int,
                liquidity_sign,
            );
            if amounts.0 is None || amounts.1 is None {
                r == Err::<(TokenAmount, TokenAmount), ErrorCode>(ErrorCode::ArithmeticOverflow)
                    && *final(pool) == *old(pool)
            } else if inside && new_liquidity is None {
                r == Err::<(TokenAmount, TokenAmount), ErrorCode>(ErrorCode::InvalidPoolLiquidity)
                    && *final(pool) == *old(pool)
            } else {
                &&& r == Ok::<(TokenAmount, TokenAmount), ErrorCode>(
                    (amounts.0->Some_0, amounts.1->Some_0),
                )
                &&& *final(pool) == if inside {
                    Pool { liquidity: Liquidity { v: new_liquidity->Some_0 as u128 }, ..*old(pool) }
                } else {
                    *old(pool)
                }
            }
        }),
{
    let (amount_x, amount_y) = if pool.current_tick_index < lower_tick {
        (
            get_delta_x(
                calculate_price_sqrt(lower_tick),
                calculate_price_sqrt(upper_tick),
                liquidity_delta,
                liquidity_sign,
            ),
            Some(TokenAmount(0)),
        )
    } else if pool.current_tick_index < upper_tick {
        (
            get_delta_x(
                pool.sqrt_price,
                calculate_price_sqrt(upper_tick),
                liquidity_delta,
                liquidity_sign,
            ),
            get_delta_y(
                calculate_price_sqrt(lower_tick),
                pool.sqrt_price,
                liquidity_delta,
                liquidity_sign,
            ),
        )
    } else {
        (
            Some(TokenAmount(0)),
            get_delta_y(
                calculate_price_sqrt(lower_tick),
                calculate_price_sqrt(upper_tick),
                liquidity_delta,
                liquidity_sign,
            ),
        )
    };
    let (amount_x, amount_y) = match (amount_x, amount_y) {
        (Some(x), Some(y)) => (x, y),
        _ => {
            return Err(ErrorCode::ArithmeticOverflow);
        },
    };
    if lower_tick <= pool.current_tick_index && pool.current_tick_index < upper_tick {
        match pool.update_liquidity_safely(liquidity_delta, liquidity_sign) {
            Ok(()) => {},
            Err(e) => {
                return Err(e);
            },
        }
    }
    Ok((amount_x, amount_y))
}

/// Whether an amount moves the price at all: the price that it would lead to
/// differs from the current one, which always counts as moving when there is
/// no liquidity.
pub open spec fn pushes_price(
    amount: TokenAmount,
    current: Price,
    l: Liquidity,
    fee: FixedPoint,
    by_amount_in: bool,
    x_to_y: bool,
) -> bool {
    l.v == 0 || current.v != if by_amount_in {
        next_from_input_spec(
            current.v as int,
            l.v as int,
            amount_after_fee(amount.0 as int, fee.v as int),
            x_to_y,
        )
    } else {
        next_from_output_spec(current.v as int, l.v as int, amount.0 as int, x_to_y)
    }
}

/// Inputs on which `is_enough_amount_to_push_price` can compute the next
/// price; without liquidity it computes none.
pub open spec fn push_price_defined(
    amount: TokenAmount,
    current: Price,
    l: Liquidity,
    fee: FixedPoint,
    by_amount_in: bool,
    x_to_y: bool,
) -> bool {
    l.v > 0 ==> {
        &&& fee.v <= FIXED_POINT_ONE
        &&& if by_amount_in {
            next_from_input_defined(
                current.v as int,
                l.v as int,
                amount_after_fee(amount.0 as int, fee.v as int),
                x_to_y,
            )
        } else {
            next_from_output_defined(current.v as int, l.v as int, amount.0 as int, x_to_y)
        }
    }
}

/// Whether `is_enough_amount_to_push_price` accepts these inputs.
pub fn push_price_is_defined(
    amount: TokenAmount,
    current_price_sqrt: Price,
    liquidity: Liquidity,
    fee: FixedPoint,
    by_amount_in: bool,
    x_to_y: bool,
) -> (r: bool)
    ensures
        r == push_price_defined(amount, current_price_sqrt, liquidity, fee, by_amount_in, x_to_y),
{
    if liquidity.v == 0 {
        return true;
    }
    if fee.v > FIXED_POINT_ONE {
        return false;
    }
    if by_amount_in {
        proof {
            lemma_fee_bounds(amount.0 as int, fee.v as int);
        }
        let amount_after_fee = TokenAmount(
            mul_div(amount.0 as u128, FIXED_POINT_ONE - fee.v, FIXED_POINT_ONE) as u64,
        );
        checked_next_sqrt_price_from_input(current_price_sqrt, liquidity, amount_after_fee, x_to_y).is_some()
    } else {
        checked_next_sqrt_price_from_output(current_price_sqrt, liquidity, amount, x_to_y).is_some()
    }
}

/// Whether `amount` (net of fee when it is an input) is enough to change the
/// price at the kernel's precision.
pub fn is_enough_amount_to_push_price(
    amount: TokenAmount,
    current_price_sqrt: Price,
    liquidity: Liquidity,
    fee: FixedPoint,
    by_amount_in: bool,
    x_to_y: bool,
) -> (r: bool)
    requires
        push_price_defined(amount, current_price_sqrt, liquidity, fee, by_amount_in, x_to_y),
    ensures
        r == pushes_price(amount, current_price_sqrt, liquidity, fee, by_amount_in, x_to_y),
{
    if liquidity.is_zero() {
        return true;
    }
    let next_price_sqrt = if by_amount_in {
        proof {
            lemma_fee_bounds(amount.0 as int, fee.v as int);
        }
        let amount_after_fee = TokenAmount(
            mul_div(amount.0 as u128, FIXED_POINT_ONE - fee.v, FIXED_POINT_ONE) as u64,
        );
        get_next_sqrt_price_from_input(current_price_sqrt, liquidity, amount_after_fee, x_to_y)
    } else {
        get_next_sqrt_price_from_output(current_price_sqrt, liquidity, amount, x_to_y)
    };
    current_price_sqrt.v != next_price_sqrt.v
}

} // verus!
