//! Fixed-point decimals: prices, amounts of money, ratios and percentages.

use vstd::prelude::*;

verus! {

/// A decimal number with six fractional digits, held as the number times [`UNIT`].
///
/// 10.5 yuan is `10_500_000`, a ratio of 5% is `50_000`, a percentage of 1.74 is `1_740_000`.
pub type Decimal = i128;

/// The decimal 1.
pub const UNIT: i128 = 1_000_000;

/// The decimal 0.01, the smallest step of a price.
pub const CENT: i128 = 10_000;

/// The largest magnitude of a price, a ratio or a percentage: one thousand million.
pub const PRICE_MAX: i128 = 1_000_000_000_000_000;

/// The largest magnitude of an amount of money.
pub const MONEY_MAX: i128 = 1_000_000_000_000_000_000_000_000_000_000;

/// Whether a price, ratio or percentage is in the range that the arithmetic covers.
pub open spec fn price_ok(p: int) -> bool {
    -PRICE_MAX <= p <= PRICE_MAX
}

/// Whether an amount of money is in the range that the arithmetic covers.
pub open spec fn money_ok(m: int) -> bool {
    -MONEY_MAX <= m <= MONEY_MAX
}

pub open spec fn abs(n: int) -> int {
    if n < 0 {
        -n
    } else {
        n
    }
}

pub open spec fn min(a: int, b: int) -> int {
    if a <= b {
        a
    } else {
        b
    }
}

pub open spec fn max(a: int, b: int) -> int {
    if a >= b {
        a
    } else {
        b
    }
}

/// `n / d` rounded to the nearest integer, halves away from zero.
pub open spec fn div_round(n: int, d: int) -> int
    recommends
        d > 0,
{
    if n >= 0 {
        (2 * n + d) / (2 * d)
    } else {
        -((d - 2 * n) / (2 * d))
    }
}

/// `n / d` for natural `n`, rounded to the nearest integer, halves to the even one.
pub open spec fn div_round_even(n: int, d: int) -> int
    recommends
        n >= 0,
        d > 0,
{
    let q = n / d;
    let r = n % d;
    if 2 * r < d || (2 * r == d && q % 2 == 0) {
        q
    } else {
        q + 1
    }
}

/// The smallest integer that is not below `n / d`, for natural `n`.
pub open spec fn div_ceil(n: int, d: int) -> int
    recommends
        n >= 0,
        d > 0,
{
    (n + d - 1) / d
}

pub open spec fn pow10(k: nat) -> int
    decreases k,
{
    if k == 0 {
        1
    } else {
        10 * pow10((k - 1) as nat)
    }
}

/// A bound under which the rounded divisions cannot overflow.
pub const DIV_MAX: i128 = 40_000_000_000_000_000_000_000_000_000_000_000_000;

/// Whether a decimal is in the range of a price.
pub fn is_price(d: Decimal) -> (r: bool)
    ensures
        r == price_ok(d as int),
{
    -PRICE_MAX <= d && d <= PRICE_MAX
}

/// Whether a decimal that is there is in the range of a price.
pub fn is_price_or_none(d: Option<Decimal>) -> (r: bool)
    ensures
        r == (d matches Some(v) ==> price_ok(v as int)),
{
    match d {
        Some(v) => is_price(v),
        None => true,
    }
}

/// Whether a decimal is in the range of an amount.
pub fn is_money(d: Decimal) -> (r: bool)
    ensures
        r == money_ok(d as int),
{
    -MONEY_MAX <= d && d <= MONEY_MAX
}

pub fn decimal_min(a: Decimal, b: Decimal) -> (r: Decimal)
    ensures
        r == min(a as int, b as int),
{
    if a <= b {
        a
    } else {
        b
    }
}

pub fn decimal_max(a: Decimal, b: Decimal) -> (r: Decimal)
    ensures
        r == max(a as int, b as int),
{
    if a >= b {
        a
    } else {
        b
    }
}

/// Rounded division, halves away from zero.
pub fn rounded_div(n: i128, d: i128) -> (r: i128)
    requires
        0 < d <= DIV_MAX,
        -DIV_MAX <= n <= DIV_MAX,
    ensures
        r == div_round(n as int, d as int),
{
    proof {
        if n >= 0 {
            lemma_div_small(2 * n + d, 2 * d);
        } else {
            lemma_div_small(d - 2 * n, 2 * d);
        }
    }
    if n >= 0 {
        (2 * n + d) / (2 * d)
    } else {
        -((d - 2 * n) / (2 * d))
    }
}

/// Rounded division of a natural number, halves to the even neighbour.
pub fn rounded_even_div(n: i128, d: i128) -> (r: i128)
    requires
        0 < d <= DIV_MAX,
        0 <= n <= DIV_MAX,
    ensures
        r == div_round_even(n as int, d as int),
        0 <= r <= n + 1,
{
    proof {
        lemma_div_small(n as int, d as int);
        vstd::arithmetic::div_mod::lemma_mod_bound(n as int, d as int);
    }
    let q: i128 = n / d;
    let m: i128 = n % d;
    if 2 * m < d || (2 * m == d && q % 2 == 0) {
        q
    } else {
        q + 1
    }
}

/// Division of a natural number, rounded up.
pub fn ceil_div(n: i128, d: i128) -> (r: i128)
    requires
        0 < d <= DIV_MAX,
        0 <= n <= DIV_MAX,
    ensures
        r == div_ceil(n as int, d as int),
        r >= 0,
{
    proof {
        lemma_div_small(n + d - 1, d as int);
    }
    (n + d - 1) / d
}

proof fn lemma_div_small(n: int, d: int)
    requires
        n >= 0,
        d > 0,
    ensures
        0 <= n / d <= n,
{
    vstd::arithmetic::div_mod::lemma_div_pos_is_pos(n, d);
    vstd::arithmetic::div_mod::lemma_div_is_ordered_by_denominator(n, 1, d);
}

/// The rounded quotient is at most half a divisor away from the exact one.
pub proof fn lemma_div_round_nearest(n: int, d: int)
    requires
        d > 0,
    ensures
        2 * abs(n - div_round(n, d) * d) <= d,
        n >= 0 ==> div_round(n, d) >= 0,
        n <= 0 ==> div_round(n, d) <= 0,
{
    let r = div_round(n, d);
    if n >= 0 {
        let q = (2 * n + d) / (2 * d);
        vstd::arithmetic::div_mod::lemma_fundamental_div_mod(2 * n + d, 2 * d);
        vstd::arithmetic::div_mod::lemma_mod_bound(2 * n + d, 2 * d);
        vstd::arithmetic::div_mod::lemma_div_pos_is_pos(2 * n + d, 2 * d);
        assert((2 * d) * q == 2 * (q * d)) by (nonlinear_arith);
    } else {
        let q = (d - 2 * n) / (2 * d);
        vstd::arithmetic::div_mod::lemma_fundamental_div_mod(d - 2 * n, 2 * d);
        vstd::arithmetic::div_mod::lemma_mod_bound(d - 2 * n, 2 * d);
        vstd::arithmetic::div_mod::lemma_div_pos_is_pos(d - 2 * n, 2 * d);
        assert((2 * d) * q == 2 * (q * d)) by (nonlinear_arith);
        assert(r * d == -(q * d)) by (nonlinear_arith)
            requires
                r == -q,
        ;
    }
    if n == 0 {
        assert(d / (2 * d) == 0) by {
            vstd::arithmetic::div_mod::lemma_basic_div(d, 2 * d);
        }
    }
}

/// Rounding keeps the order of the dividends.
pub proof fn lemma_div_round_monotone(a: int, b: int, d: int)
    requires
        d > 0,
        a <= b,
    ensures
        div_round(a, d) <= div_round(b, d),
{
    lemma_div_round_nearest(a, d);
    lemma_div_round_nearest(b, d);
    if a >= 0 {
        vstd::arithmetic::div_mod::lemma_div_is_ordered(2 * a + d, 2 * b + d, 2 * d);
    } else if b < 0 {
        vstd::arithmetic::div_mod::lemma_div_is_ordered(d - 2 * b, d - 2 * a, 2 * d);
    }
}

/// A multiple of the divisor is divided exactly.
pub proof fn lemma_div_round_exact(q: int, d: int)
    requires
        d > 0,
    ensures
        div_round(q * d, d) == q,
{
    let n = q * d;
    lemma_div_round_nearest(n, d);
    let r = div_round(n, d);
    assert((q - r) * d == n - r * d) by (nonlinear_arith)
        requires
            n == q * d,
    ;
    assert(q == r) by (nonlinear_arith)
        requires
            d > 0,
            2 * abs((q - r) * d) <= d,
            2 * ((q - r) * d) <= d,
            -2 * ((q - r) * d) <= d,
    ;
}

} // verus!
