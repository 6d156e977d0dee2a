//! Forward-adjusted daily bars: the latest prices stand, and earlier ones are brought down by
//! the corporate actions that came after them.
//!
//! Before a dividend `D` and bonus shares `B`, both per share, a price becomes
//! `(price - D) / (1 + B)` and a volume `volume * (1 + B)`; the turnover stays. The actions
//! are applied from the earliest to the latest.

use vstd::prelude::*;

use crate::adjustment::AdjustmentEvent;
use crate::decimal;
use crate::decimal::{rounded_div, Decimal, PRICE_MAX, UNIT};

verus! {

/// While prices are adjusted they have twelve decimal digits: a million to one of a [`Decimal`].
pub const EXTRA: i128 = 1_000_000;

/// The largest volume, in millionths of a share.
pub const VOLUME_MAX: i128 = 100_000_000_000_000_000_000;

/// The most corporate actions of one stock.
pub const EVENTS_MAX: usize = 100_000;

/// A daily bar.
#[derive(Debug)]
pub struct DailyBar {
    pub date_ms: i64,
    pub date: String,
    pub open: Decimal,
    pub high: Decimal,
    pub low: Decimal,
    pub close: Decimal,
    pub volume: Decimal,
    pub turnover: Decimal,
}

#[verifier::ext_equal]
pub struct BarView {
    pub date_ms: i64,
    pub date: Seq<char>,
    pub open: Decimal,
    pub high: Decimal,
    pub low: Decimal,
    pub close: Decimal,
    pub volume: Decimal,
    pub turnover: Decimal,
}

impl View for DailyBar {
    type V = BarView;

    open spec fn view(&self) -> BarView {
        BarView {
            date_ms: self.date_ms,
            date: self.date@,
            open: self.open,
            high: self.high,
            low: self.low,
            close: self.close,
            volume: self.volume,
            turnover: self.turnover,
        }
    }
}

pub open spec fn bar_views(list: Seq<DailyBar>) -> Seq<BarView> {
    Seq::new(list.len(), |i: int| list[i]@)
}

/// Whether a corporate action moves a bar: it comes later, and it is not empty.
pub open spec fn moves(e: AdjustmentEvent, date_ms: i64) -> bool {
    date_ms < e.ex_date_ms && !(e.dividend == 0 && e.bonus == 0)
}

/// A price before a corporate action, with twelve digits.
pub open spec fn price_before(price: int, e: AdjustmentEvent) -> int {
    decimal::div_round((price - e.dividend * EXTRA) * UNIT, UNIT + e.bonus)
}

/// A volume before a corporate action.
pub open spec fn volume_before(volume: int, e: AdjustmentEvent) -> int {
    decimal::div_round(volume * (UNIT + e.bonus), UNIT as int)
}

/// A price of a day after the corporate actions, with twelve digits.
pub open spec fn adjusted_price(price: int, date_ms: i64, events: Seq<AdjustmentEvent>) -> int
    decreases events.len(),
{
    if events.len() == 0 {
        price
    } else {
        let before = adjusted_price(price, date_ms, events.drop_last());
        if moves(events.last(), date_ms) {
            price_before(before, events.last())
        } else {
            before
        }
    }
}

/// A volume of a day after the corporate actions.
pub open spec fn adjusted_volume(volume: int, date_ms: i64, events: Seq<AdjustmentEvent>) -> int
    decreases events.len(),
{
    if events.len() == 0 {
        volume
    } else {
        let before = adjusted_volume(volume, date_ms, events.drop_last());
        if moves(events.last(), date_ms) {
            volume_before(before, events.last())
        } else {
            before
        }
    }
}

/// A price with twelve digits as one with four.
pub open spec fn four_digits(price: int) -> int {
    decimal::div_round(price, 100 * EXTRA) * 100
}

/// An adjusted price, to four digits.
pub open spec fn final_price(price: Decimal, date_ms: i64, events: Seq<AdjustmentEvent>) -> int {
    four_digits(adjusted_price(price * EXTRA, date_ms, events))
}

/// An adjusted volume, in whole shares.
pub open spec fn final_volume(volume: Decimal, date_ms: i64, events: Seq<AdjustmentEvent>) -> int {
    decimal::div_round(adjusted_volume(volume as int, date_ms, events), UNIT as int) * UNIT
}

/// An adjusted bar.
pub open spec fn adjusted_bar(b: BarView, events: Seq<AdjustmentEvent>) -> BarView {
    BarView {
        open: final_price(b.open, b.date_ms, events) as Decimal,
        high: final_price(b.high, b.date_ms, events) as Decimal,
        low: final_price(b.low, b.date_ms, events) as Decimal,
        close: final_price(b.close, b.date_ms, events) as Decimal,
        volume: final_volume(b.volume, b.date_ms, events) as Decimal,
        ..b
    }
}

pub open spec fn event_fits(e: AdjustmentEvent) -> bool {
    decimal::price_ok(e.dividend as int) && 0 <= e.bonus <= PRICE_MAX
}

pub open spec fn events_fit(events: Seq<AdjustmentEvent>) -> bool {
    events.len() <= EVENTS_MAX && forall|i: int|
        0 <= i < events.len() ==> event_fits(#[trigger] events[i])
}

/// The prices of a bar are in range, and its volume is once it is adjusted.
pub open spec fn bar_fits(b: BarView, events: Seq<AdjustmentEvent>) -> bool {
    &&& decimal::price_ok(b.open as int)
    &&& decimal::price_ok(b.high as int)
    &&& decimal::price_ok(b.low as int)
    &&& decimal::price_ok(b.close as int)
    &&& 0 <= b.volume
    &&& adjusted_volume(b.volume as int, b.date_ms, events) <= VOLUME_MAX
}

pub open spec fn price_bound(n: int) -> int {
    (n + 1) * (PRICE_MAX * EXTRA)
}

/// A step of the adjustment keeps a price in range.
pub proof fn lemma_price_step(price: int, e: AdjustmentEvent, n: int)
    requires
        event_fits(e),
        0 <= n <= EVENTS_MAX,
        -price_bound(n) <= price <= price_bound(n),
    ensures
        -price_bound(n + 1) <= price_before(price, e) <= price_bound(n + 1),
        -price_bound(n + 1) <= price - e.dividend * EXTRA <= price_bound(n + 1),
        price_bound(n) <= price_bound(n + 1) <= 100_002 * (PRICE_MAX * EXTRA),
{
    let m = PRICE_MAX * EXTRA;
    assert(price_bound(n + 1) == price_bound(n) + m) by (nonlinear_arith)
        requires
            price_bound(n + 1) == (n + 2) * m,
            price_bound(n) == (n + 1) * m,
    ;
    assert((n + 2) * m <= 100_002 * m) by (nonlinear_arith)
        requires
            n <= 100_000,
            m >= 0,
    ;
    let x = price - e.dividend * EXTRA;
    let d = UNIT + e.bonus;
    let top = price_bound(n + 1);
    assert(-top * d <= x * UNIT <= top * d) by (nonlinear_arith)
        requires
            -top <= x <= top,
            d >= UNIT,
            UNIT > 0,
            top >= 0,
    ;
    decimal::lemma_div_round_exact(top, d);
    decimal::lemma_div_round_exact(-top, d);
    decimal::lemma_div_round_monotone(-top * d, x * UNIT, d);
    decimal::lemma_div_round_monotone(x * UNIT, top * d, d);
}

proof fn lemma_volume_step(volume: int, e: AdjustmentEvent)
    requires
        0 <= volume,
        0 <= e.bonus,
    ensures
        volume <= volume_before(volume, e),
{
    assert(volume * UNIT <= volume * (UNIT + e.bonus)) by (nonlinear_arith)
        requires
            volume >= 0,
            e.bonus >= 0,
    ;
    decimal::lemma_div_round_exact(volume, UNIT as int);
    decimal::lemma_div_round_monotone(volume * UNIT, volume * (UNIT + e.bonus), UNIT as int);
}

proof fn lemma_volume_grows(volume: int, date_ms: i64, events: Seq<AdjustmentEvent>, k: int)
    requires
        0 <= volume,
        0 <= k <= events.len(),
        events_fit(events),
    ensures
        0 <= adjusted_volume(volume, date_ms, events.take(k)) <= adjusted_volume(
            volume,
            date_ms,
            events,
        ),
    decreases events.len(), events.len() - k,
{
    lemma_volume_natural(volume, date_ms, events.take(k));
    if k == events.len() {
        assert(events.take(k) =~= events);
    } else {
        lemma_volume_grows(volume, date_ms, events, k + 1);
        assert(events.take(k + 1).drop_last() =~= events.take(k));
        assert(event_fits(events[k]));
        lemma_volume_step(adjusted_volume(volume, date_ms, events.take(k)), events[k]);
    }
}

/// Adjusted volumes are not negative.
pub proof fn lemma_volume_natural(volume: int, date_ms: i64, events: Seq<AdjustmentEvent>)
    requires
        0 <= volume,
        forall|i: int| 0 <= i < events.len() ==> event_fits(#[trigger] events[i]),
    ensures
        0 <= adjusted_volume(volume, date_ms, events),
    decreases events.len(),
{
    if events.len() > 0 {
        let short = events.drop_last();
        assert forall|i: int| 0 <= i < short.len() implies event_fits(#[trigger] short[i]) by {
            assert(short[i] == events[i]);
        }
        lemma_volume_natural(volume, date_ms, short);
        assert(event_fits(events[events.len() - 1]));
        lemma_volume_step(adjusted_volume(volume, date_ms, short), events.last());
    }
}

fn adjust_price(price: Decimal, date_ms: i64, events: &Vec<AdjustmentEvent>) -> (r: Decimal)
    requires
        decimal::price_ok(price as int),
        events_fit(events@),
    ensures
        r == final_price(price, date_ms, events@),
{
    let mut p: i128 = price * EXTRA;
    assert(events@.take(0) =~= Seq::empty());
    for i in 0..events.len()
        invariant
            events_fit(events@),
            p == adjusted_price(price * EXTRA, date_ms, events@.take(i as int)),
            -price_bound(i as int) <= p <= price_bound(i as int),
    {
        let e = &events[i];
        proof {
            assert(events@.take(i + 1).drop_last() =~= events@.take(i as int));
            assert(event_fits(events@[i as int]));
            lemma_price_step(p as int, *e, i as int);
        }
        if date_ms < e.ex_date_ms && !(e.dividend == 0 && e.bonus == 0) {
            p = rounded_div((p - e.dividend * EXTRA) * UNIT, UNIT + e.bonus);
        }
    }
    assert(events@.take(events@.len() as int) =~= events@);
    proof {
        let n = events@.len() as int;
        assert(price_bound(n) <= 100_001 * (PRICE_MAX * EXTRA)) by (nonlinear_arith)
            requires
                n <= 100_000,
                price_bound(n) == (n + 1) * (PRICE_MAX * EXTRA),
                PRICE_MAX * EXTRA >= 0,
        ;
        decimal::lemma_div_round_nearest(p as int, 100 * EXTRA);
    }
    rounded_div(p, 100 * EXTRA) * 100
}

fn adjust_volume(volume: Decimal, date_ms: i64, events: &Vec<AdjustmentEvent>) -> (r: Decimal)
    requires
        0 <= volume,
        events_fit(events@),
        adjusted_volume(volume as int, date_ms, events@) <= VOLUME_MAX,
    ensures
        r == final_volume(volume, date_ms, events@),
{
    let mut v: i128 = volume;
    assert(events@.take(0) =~= Seq::empty());
    for i in 0..events.len()
        invariant
            0 <= volume,
            events_fit(events@),
            adjusted_volume(volume as int, date_ms, events@) <= VOLUME_MAX,
            v == adjusted_volume(volume as int, date_ms, events@.take(i as int)),
    {
        let e = &events[i];
        proof {
            assert(events@.take(i + 1).drop_last() =~= events@.take(i as int));
            assert(event_fits(events@[i as int]));
            lemma_volume_grows(volume as int, date_ms, events@, i as int);
            assert(0 <= v * (UNIT + e.bonus) <= VOLUME_MAX * (UNIT + PRICE_MAX))
                by (nonlinear_arith)
                requires
                    0 <= v <= VOLUME_MAX,
                    0 <= e.bonus <= PRICE_MAX,
                    UNIT > 0,
            ;
        }
        if date_ms < e.ex_date_ms && !(e.dividend == 0 && e.bonus == 0) {
            v = rounded_div(v * (UNIT + e.bonus), UNIT);
        }
    }
    assert(events@.take(events@.len() as int) =~= events@);
    proof {
        lemma_volume_grows(volume as int, date_ms, events@, events@.len() as int);
        decimal::lemma_div_round_nearest(v as int, UNIT as int);
    }
    rounded_div(v, UNIT) * UNIT
}

/// Whether the corporate actions of a stock can be applied.
pub fn events_in_range(events: &Vec<AdjustmentEvent>) -> (r: bool)
    ensures
        r == events_fit(events@),
{
    if events.len() > EVENTS_MAX {
        return false;
    }
    for i in 0..events.len()
        invariant
            forall|j: int| 0 <= j < i ==> event_fits(#[trigger] events@[j]),
    {
        let e = &events[i];
        if e.dividend < -PRICE_MAX || e.dividend > PRICE_MAX || e.bonus < 0 || e.bonus > PRICE_MAX {
            assert(!event_fits(events@[i as int]));
            return false;
        }
    }
    true
}

/// Whether a volume stays in range once it is adjusted.
pub fn volume_in_range(volume: Decimal, date_ms: i64, events: &Vec<AdjustmentEvent>) -> (r: bool)
    requires
        events_fit(events@),
    ensures
        r == (0 <= volume && adjusted_volume(volume as int, date_ms, events@) <= VOLUME_MAX),
{
    if volume < 0 {
        return false;
    }
    let mut v: i128 = volume;
    assert(events@.take(0) =~= Seq::empty());
    for i in 0..events.len()
        invariant
            0 <= volume,
            events_fit(events@),
            v == adjusted_volume(volume as int, date_ms, events@.take(i as int)),
    {
        let e = &events[i];
        proof {
            assert(events@.take(i + 1).drop_last() =~= events@.take(i as int));
            assert(event_fits(events@[i as int]));
            lemma_volume_grows(volume as int, date_ms, events@, i as int);
        }
        if v > VOLUME_MAX {
            return false;
        }
        proof {
            assert(0 <= v * (UNIT + e.bonus) <= VOLUME_MAX * (UNIT + PRICE_MAX))
                by (nonlinear_arith)
                requires
                    0 <= v <= VOLUME_MAX,
                    0 <= e.bonus <= PRICE_MAX,
                    UNIT > 0,
            ;
        }
        if date_ms < e.ex_date_ms && !(e.dividend == 0 && e.bonus == 0) {
            v = rounded_div(v * (UNIT + e.bonus), UNIT);
        }
    }
    assert(events@.take(events@.len() as int) =~= events@);
    v <= VOLUME_MAX
}

/// The adjusted bars of a stock. The bars and the corporate actions come by date.
pub fn rebuild_adj_bars_for(bars: &Vec<DailyBar>, events: &Vec<AdjustmentEvent>) -> (r: Vec<
    DailyBar,
>)
    requires
        events_fit(events@),
        forall|i: int| 0 <= i < bars@.len() ==> bar_fits((#[trigger] bars@[i])@, events@),
    ensures
        bar_views(r@) == Seq::new(
            bars@.len(),
            |i: int| adjusted_bar(bar_views(bars@)[i], events@),
        ),
{
    let mut out: Vec<DailyBar> = Vec::new();
    for i in 0..bars.len()
        invariant
            events_fit(events@),
            forall|j: int| 0 <= j < bars@.len() ==> bar_fits((#[trigger] bars@[j])@, events@),
            out@.len() == i,
            forall|j: int|
                0 <= j < i ==> (#[trigger] out@[j])@ == adjusted_bar(bars@[j]@, events@),
    {
        let b = &bars[i];
        assert(bar_fits(bars@[i as int]@, events@));
        let row = DailyBar {
            date_ms: b.date_ms,
            date: b.date.clone(),
            open: adjust_price(b.open, b.date_ms, events),
            high: adjust_price(b.high, b.date_ms, events),
            low: adjust_price(b.low, b.date_ms, events),
            close: adjust_price(b.close, b.date_ms, events),
            volume: adjust_volume(b.volume, b.date_ms, events),
            turnover: b.turnover,
        };
        out.push(row);
    }
    assert(bar_views(out@) =~= Seq::new(
        bars@.len(),
        |i: int| adjusted_bar(bar_views(bars@)[i], events@),
    ));
    out
}

/// A day that no corporate action follows keeps its prices, to four digits, and its volume,
/// in whole shares.
pub proof fn the_latest_bars_stand(
    price: Decimal,
    volume: Decimal,
    date_ms: i64,
    events: Seq<AdjustmentEvent>,
)
    requires
        forall|i: int| 0 <= i < events.len() ==> (#[trigger] events[i]).ex_date_ms <= date_ms,
    ensures
        final_price(price, date_ms, events) == four_digits(price * EXTRA),
        (price as int) % 100 == 0 ==> final_price(price, date_ms, events) == price,
        final_volume(volume, date_ms, events) == decimal::div_round(volume as int, UNIT as int)
            * UNIT,
    decreases events.len(),
{
    if events.len() > 0 {
        let short = events.drop_last();
        assert forall|i: int| 0 <= i < short.len() implies (#[trigger] short[i]).ex_date_ms
            <= date_ms by {
            assert(short[i] == events[i]);
        }
        the_latest_bars_stand(price, volume, date_ms, short);
        assert(events[events.len() - 1].ex_date_ms <= date_ms);
    }
    if (price as int) % 100 == 0 {
        let q = (price as int) / 100;
        assert(price == q * 100);
        decimal::lemma_div_round_exact(q, 100 * EXTRA);
    }
}

/// Adjusting keeps the order of the prices of a day: a low stays below a high.
pub proof fn adjusting_keeps_the_order(
    low: Decimal,
    high: Decimal,
    date_ms: i64,
    events: Seq<AdjustmentEvent>,
)
    requires
        low <= high,
        forall|i: int| 0 <= i < events.len() ==> event_fits(#[trigger] events[i]),
    ensures
        final_price(low, date_ms, events) <= final_price(high, date_ms, events),
{
    lemma_adjusting_monotone(low * EXTRA, high * EXTRA, date_ms, events);
    decimal::lemma_div_round_monotone(
        adjusted_price(low * EXTRA, date_ms, events),
        adjusted_price(high * EXTRA, date_ms, events),
        100 * EXTRA,
    );
}

proof fn lemma_adjusting_monotone(
    low: int,
    high: int,
    date_ms: i64,
    events: Seq<AdjustmentEvent>,
)
    requires
        low <= high,
        forall|i: int| 0 <= i < events.len() ==> event_fits(#[trigger] events[i]),
    ensures
        adjusted_price(low, date_ms, events) <= adjusted_price(high, date_ms, events),
    decreases events.len(),
{
    if events.len() > 0 {
        let short = events.drop_last();
        assert forall|i: int| 0 <= i < short.len() implies event_fits(#[trigger] short[i]) by {
            assert(short[i] == events[i]);
        }
        lemma_adjusting_monotone(low, high, date_ms, short);
        let e = events[events.len() - 1];
        assert(event_fits(e));
        let a = adjusted_price(low, date_ms, short);
        let b = adjusted_price(high, date_ms, short);
        decimal::lemma_div_round_monotone(
            (a - e.dividend * EXTRA) * UNIT,
            (b - e.dividend * EXTRA) * UNIT,
            UNIT + e.bonus,
        );
    }
}

} // verus!
