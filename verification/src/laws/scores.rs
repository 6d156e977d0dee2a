//! Laws of the two scores of the screen: who has one, what raises it, and what each factor is
//! worth.

use vstd::prelude::*;

use crate::decimal;
use crate::decimal::{Decimal, UNIT};
use crate::order::Fraction;
use crate::screen;
use crate::screen::{ScreenRowView, FINE};

verus! {

/// How far a value is from another.
pub open spec fn distance(a: Decimal, b: int) -> int {
    if a >= b {
        a - b
    } else {
        b - a
    }
}

proof fn lemma_share_grows(a: int, b: int, den: int)
    requires
        a <= b,
        den > 0,
    ensures
        0 <= screen::share(a, den) <= screen::share(b, den) <= FINE,
{
    if 0 < a < den {
        vstd::arithmetic::div_mod::lemma_div_pos_is_pos(a * FINE, den);
        vstd::arithmetic::div_mod::lemma_multiply_divide_lt(a * FINE, den, FINE as int);
    }
    if 0 < b < den {
        vstd::arithmetic::div_mod::lemma_div_pos_is_pos(b * FINE, den);
        vstd::arithmetic::div_mod::lemma_multiply_divide_lt(b * FINE, den, FINE as int);
        if 0 < a {
            vstd::arithmetic::div_mod::lemma_div_is_ordered(a * FINE, b * FINE, den);
        }
    }
}

/// A triangle factor: full at its peak, nothing from its width on, and never more further away.
proof fn lemma_peak(a: Decimal, b: Decimal, ideal: int, tol: int)
    requires
        tol > 0,
        distance(a, ideal) <= distance(b, ideal),
    ensures
        ({
            let pa = screen::peak_of(screen::fraction_of(a), ideal, tol);
            let pb = screen::peak_of(screen::fraction_of(b), ideal, tol);
            &&& 0 <= pb <= pa <= FINE
            &&& a == ideal ==> pa == FINE
            &&& distance(b, ideal) >= tol ==> pb == 0
        }),
{
    let xa = a * UNIT - ideal * UNIT;
    let xb = b * UNIT - ideal * UNIT;
    assert(decimal::abs(xa) == distance(a, ideal) * UNIT);
    assert(decimal::abs(xb) == distance(b, ideal) * UNIT);
    lemma_share_grows(tol * UNIT - decimal::abs(xb), tol * UNIT - decimal::abs(xa), tol * UNIT);
}

/// Only a stock whose price stands above its 20-day average, and that above its 60-day
/// average, all of them above zero, has a score as an uptrend.
pub proof fn uptrends_are_above_their_averages(s: ScreenRowView)
    ensures
        screen::momentum_score(s) is Some <==> s.adj_close > s.ma20 && s.ma20 > s.ma60 && s.ma60
            > 0,
{
}

/// Among uptrends that are otherwise alike, a change of the day that is closer to 2% scores no
/// lower; 2% itself is worth 20 points more than a change 6 points of percent or more away.
pub proof fn uptrends_should_rise_gently(s: ScreenRowView, pct: Decimal)
    requires
        screen::momentum_score(s) is Some,
    ensures
        ({
            let other = ScreenRowView { pct, ..s };
            let a = screen::momentum_score(s)->0;
            let b = screen::momentum_score(other)->0;
            &&& distance(s.pct, 2_000_000) <= distance(pct, 2_000_000) ==> a >= b
            &&& s.pct == 2_000_000 && distance(pct, 2_000_000) >= 6_000_000 ==> a == b + 20 * FINE
        }),
{
    if distance(s.pct, 2_000_000) <= distance(pct, 2_000_000) {
        lemma_peak(s.pct, pct, 2_000_000, 6_000_000);
    }
}

/// Among uptrends that are otherwise alike, a volume ratio closer to 1.8 scores no lower; 1.8
/// is worth 20 points more than one 2 or more away, and 10 more than none.
pub proof fn uptrends_should_have_volume(s: ScreenRowView, a: Decimal, b: Decimal)
    requires
        screen::momentum_score(s) is Some,
        distance(a, 1_800_000) <= distance(b, 1_800_000),
    ensures
        ({
            let near = screen::momentum_score(ScreenRowView { volume_ratio: Some(a), ..s })->0;
            let far = screen::momentum_score(ScreenRowView { volume_ratio: Some(b), ..s })->0;
            let none = screen::momentum_score(ScreenRowView { volume_ratio: None, ..s })->0;
            &&& near >= far
            &&& a == 1_800_000 && distance(b, 1_800_000) >= 2_000_000 ==> near == far + 20 * FINE
            &&& a == 1_800_000 ==> near == none + 10 * FINE
        }),
{
    lemma_peak(a, b, 1_800_000, 2_000_000);
}

/// Among uptrends that are otherwise alike, a place closer to the middle of the range of sixty
/// days scores no lower; the middle is worth 15 points more than either end, or than none.
pub proof fn uptrends_should_have_room(s: ScreenRowView, a: Decimal, b: Decimal)
    requires
        screen::momentum_score(s) is Some,
        distance(a, 500_000) <= distance(b, 500_000),
    ensures
        ({
            let near = screen::momentum_score(ScreenRowView { position: Some(a), ..s })->0;
            let far = screen::momentum_score(ScreenRowView { position: Some(b), ..s })->0;
            let none = screen::momentum_score(ScreenRowView { position: None, ..s })->0;
            &&& near >= far
            &&& a == 500_000 && distance(b, 500_000) >= 500_000 ==> near == far + 15 * FINE
            &&& a == 500_000 ==> near == none + 15 * FINE
        }),
{
    lemma_peak(a, b, 500_000, 500_000);
}

/// What a value that is the share `num / den` of a rise is worth: nothing below zero, all of
/// it from 1 on, and in between the share to twelve digits.
pub open spec fn is_part(part: int, num: int, den: int) -> bool {
    &&& num <= 0 ==> part == 0
    &&& num >= den ==> part == FINE
    &&& 0 < num < den ==> part * den <= num * FINE < (part + 1) * den
}

proof fn lemma_part(num: int, den: int)
    requires
        den > 0,
    ensures
        is_part(screen::share(num, den), num, den),
{
    if 0 < num < den {
        let part = screen::share(num, den);
        vstd::arithmetic::div_mod::lemma_fundamental_div_mod(num * FINE, den);
        vstd::arithmetic::div_mod::lemma_mod_bound(num * FINE, den);
        assert(part * den == den * part && (part + 1) * den == den * part + den)
            by (nonlinear_arith);
    }
}

/// An uptrend with the ideal change, volume and place scores 55 points, up to 25 more as its
/// 20-day average stands 0 to 4% above its 60-day average, and up to 20 more as its price
/// stands 0 to 1.5% above the 20-day average.
pub proof fn uptrends_should_spread(s: ScreenRowView, spread: int, above: int)
    requires
        s.ok(),
        screen::momentum_score(s) is Some,
        s.pct == 2_000_000,
        s.volume_ratio == Some(1_800_000 as Decimal),
        s.position == Some(500_000 as Decimal),
        is_part(spread, (s.ma20 - s.ma60) * 100, 4 * s.ma60),
        is_part(above, (s.adj_close - s.ma20) * 1000, 15 * s.ma20),
    ensures
        screen::momentum_score(s)->0 == 55 * FINE + 25 * spread + 20 * above,
{
    lemma_peak(s.pct, s.pct, 2_000_000, 6_000_000);
    lemma_peak(1_800_000, 1_800_000, 1_800_000, 2_000_000);
    lemma_peak(500_000, 500_000, 500_000, 500_000);
    let a = s.ma20 as int;
    let b = s.ma60 as int;
    let c = s.adj_close as int;
    lemma_ramp(screen::change_percent(s.ma20, s.ma60), 4_000_000, (a - b) * 100, 4 * b, 1_000_000, spread);
    lemma_ramp(
        screen::change_percent(s.adj_close, s.ma20),
        1_500_000,
        (c - a) * 1000,
        15 * a,
        100_000,
        above,
    );
}

proof fn lemma_ramp(x: Fraction, hi: int, num: int, den: int, scale: int, part: int)
    requires
        hi > 0,
        x.den > 0,
        scale > 0,
        den > 0,
        x.num * UNIT == num * scale,
        hi * x.den == den * scale,
        is_part(part, num, den),
    ensures
        screen::ramp_of(x, 0, hi) == part,
{
    lemma_same_share(num, den, scale, part);
    assert(0 * x.den == 0) by (nonlinear_arith);
    assert((hi - 0) * x.den == hi * x.den);
}

/// Only a stock whose 20-day average stands above its 60-day average and whose price is 3.5%
/// below to 2% above the 20-day average has a score as a pullback.
pub proof fn pullbacks_are_near_their_average(s: ScreenRowView)
    ensures
        screen::pullback_score(s) is Some <==> {
            &&& s.ma20 > s.ma60
            &&& s.ma60 > 0
            &&& s.adj_close > 0
            &&& s.adj_close * 1000 >= s.ma20 * 965
            &&& s.adj_close * 100 <= s.ma20 * 102
        },
{
}

/// Among pullbacks that are otherwise alike, a change of the day closer to -1% scores no lower;
/// -1% is worth 20 points more than a change 4 points of percent or more away.
pub proof fn pullbacks_should_fall_little(s: ScreenRowView, pct: Decimal)
    requires
        screen::pullback_score(s) is Some,
        distance(s.pct, -1_000_000) <= distance(pct, -1_000_000),
    ensures
        ({
            let a = screen::pullback_score(s)->0;
            let b = screen::pullback_score(ScreenRowView { pct, ..s })->0;
            &&& a >= b
            &&& s.pct == -1_000_000 && distance(pct, -1_000_000) >= 4_000_000 ==> a == b + 20 * FINE
        }),
{
    lemma_peak(s.pct, pct, -1_000_000, 4_000_000);
}

/// Among pullbacks that are otherwise alike, a change over five days closer to -3% scores no
/// lower; -3% is worth 20 points more than a change 7 points of percent or more away.
pub proof fn pullbacks_should_have_fallen(s: ScreenRowView, chg5: Decimal)
    requires
        screen::pullback_score(s) is Some,
        distance(s.chg5, -3_000_000) <= distance(chg5, -3_000_000),
    ensures
        ({
            let a = screen::pullback_score(s)->0;
            let b = screen::pullback_score(ScreenRowView { chg5, ..s })->0;
            &&& a >= b
            &&& s.chg5 == -3_000_000 && distance(chg5, -3_000_000) >= 7_000_000 ==> a == b + 20
                * FINE
        }),
{
    lemma_peak(s.chg5, chg5, -3_000_000, 7_000_000);
}

/// Among pullbacks that are otherwise alike, a volume ratio closer to 0.8 scores no lower; 0.8
/// is worth 15 points more than one 0.8 or more away, or than none.
pub proof fn pullbacks_should_be_quiet(s: ScreenRowView, a: Decimal, b: Decimal)
    requires
        screen::pullback_score(s) is Some,
        distance(a, 800_000) <= distance(b, 800_000),
    ensures
        ({
            let near = screen::pullback_score(ScreenRowView { volume_ratio: Some(a), ..s })->0;
            let far = screen::pullback_score(ScreenRowView { volume_ratio: Some(b), ..s })->0;
            let none = screen::pullback_score(ScreenRowView { volume_ratio: None, ..s })->0;
            &&& near >= far
            &&& a == 800_000 && distance(b, 800_000) >= 800_000 ==> near == far + 15 * FINE
            &&& a == 800_000 ==> near == none + 15 * FINE
        }),
{
    lemma_peak(a, b, 800_000, 800_000);
}

/// Among pullbacks that are otherwise alike, a place closer to 0.4 of the range of sixty days
/// scores no lower; 0.4 is worth 10 points more than one 0.5 or more away, or than none.
pub proof fn pullbacks_should_be_low(s: ScreenRowView, a: Decimal, b: Decimal)
    requires
        screen::pullback_score(s) is Some,
        distance(a, 400_000) <= distance(b, 400_000),
    ensures
        ({
            let near = screen::pullback_score(ScreenRowView { position: Some(a), ..s })->0;
            let far = screen::pullback_score(ScreenRowView { position: Some(b), ..s })->0;
            let none = screen::pullback_score(ScreenRowView { position: None, ..s })->0;
            &&& near >= far
            &&& a == 400_000 && distance(b, 400_000) >= 500_000 ==> near == far + 10 * FINE
            &&& a == 400_000 ==> near == none + 10 * FINE
        }),
{
    lemma_peak(a, b, 400_000, 500_000);
}

/// A pullback with the ideal changes, volume and place scores 65 points, and up to 35 more the
/// closer its price is to 0.5% below the 20-day average, with nothing from 3% away on.
pub proof fn pullbacks_should_touch_their_average(s: ScreenRowView, near: int)
    requires
        s.ok(),
        screen::pullback_score(s) is Some,
        s.pct == -1_000_000,
        s.chg5 == -3_000_000,
        s.volume_ratio == Some(800_000 as Decimal),
        s.position == Some(400_000 as Decimal),
        is_part(
            near,
            30 * s.ma20 - if s.adj_close * 1000 >= s.ma20 * 995 {
                s.adj_close * 1000 - s.ma20 * 995
            } else {
                s.ma20 * 995 - s.adj_close * 1000
            },
            30 * s.ma20,
        ),
    ensures
        screen::pullback_score(s)->0 == 65 * FINE + 35 * near,
{
    lemma_peak(s.pct, s.pct, -1_000_000, 4_000_000);
    lemma_peak(s.chg5, s.chg5, -3_000_000, 7_000_000);
    lemma_peak(800_000, 800_000, 800_000, 800_000);
    lemma_peak(400_000, 400_000, 400_000, 500_000);
    let a = s.ma20 as int;
    let c = s.adj_close as int;
    let x = screen::change_percent(s.adj_close, s.ma20);
    let off = x.num * UNIT - (-500_000) * a;
    assert(off == (c * 1000 - a * 995) * 100_000);
    let away = if c * 1000 >= a * 995 {
        c * 1000 - a * 995
    } else {
        a * 995 - c * 1000
    };
    assert(decimal::abs(off) == away * 100_000);
    let num = 30 * a - away;
    lemma_same_share(num, 30 * a, 100_000, near);
    assert(num * 100_000 == 3_000_000 * a - decimal::abs(off));
    assert(30 * a * 100_000 == 3_000_000 * a);
}

proof fn lemma_same_share(num: int, den: int, scale: int, part: int)
    requires
        den > 0,
        scale > 0,
        is_part(part, num, den),
    ensures
        screen::share(num * scale, den * scale) == part,
{
    let n = num * scale;
    let d = den * scale;
    assert(d > 0) by (nonlinear_arith)
        requires
            d == den * scale,
            den > 0,
            scale > 0,
    ;
    lemma_part(n, d);
    let p = screen::share(n, d);
    assert(num <= 0 <==> n <= 0) by (nonlinear_arith)
        requires
            n == num * scale,
            scale > 0,
    ;
    assert(num >= den <==> n >= d) by (nonlinear_arith)
        requires
            n == num * scale,
            d == den * scale,
            scale > 0,
    ;
    if 0 < num < den {
        assert(p * den <= num * FINE < (p + 1) * den) by (nonlinear_arith)
            requires
                p * d <= n * FINE < (p + 1) * d,
                n == num * scale,
                d == den * scale,
                scale > 0,
        ;
        assert(p == part) by (nonlinear_arith)
            requires
                p * den <= num * FINE < (p + 1) * den,
                part * den <= num * FINE < (part + 1) * den,
                den > 0,
        ;
    }
}

/// A rise without a length is nothing.
pub proof fn ramps_have_a_length(x: Fraction, lo: int, hi: int)
    requires
        hi <= lo,
    ensures
        screen::ramp_of(x, lo, hi) == 0,
{
}

/// A rise is nothing up to its start, full from its end on, and never falls in between.
pub proof fn ramps_rise(x: Fraction, y: Fraction, lo: int, hi: int)
    requires
        x.den > 0,
        y.den == x.den,
        x.num <= y.num,
        lo < hi,
    ensures
        0 <= screen::ramp_of(x, lo, hi) <= screen::ramp_of(y, lo, hi) <= FINE,
        x.num * UNIT <= lo * x.den ==> screen::ramp_of(x, lo, hi) == 0,
        x.num * UNIT >= hi * x.den ==> screen::ramp_of(x, lo, hi) == FINE,
{
    let d = (hi - lo) * x.den;
    assert(d > 0) by (nonlinear_arith)
        requires
            d == (hi - lo) * x.den,
            hi > lo,
            x.den > 0,
    ;
    assert(d == hi * x.den - lo * x.den) by (nonlinear_arith)
        requires
            d == (hi - lo) * x.den,
    ;
    lemma_share_grows(x.num * UNIT - lo * x.den, y.num * UNIT - lo * y.den, d);
}

} // verus!
