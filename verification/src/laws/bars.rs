//! Laws of adjusted bars: what a later corporate action does to an earlier price and volume.

use vstd::prelude::*;

use crate::adjust;
use crate::adjust::BarView;
use crate::adjustment::AdjustmentEvent;
use crate::decimal;
use crate::decimal::{Decimal, UNIT};

verus! {

/// An action on or before a day, or one without dividend and bonus shares, does not move the
/// prices and the volume of the day.
pub proof fn earlier_actions_do_not_move_a_bar(
    price: int,
    volume: int,
    date_ms: i64,
    events: Seq<AdjustmentEvent>,
    e: AdjustmentEvent,
)
    requires
        e.ex_date_ms <= date_ms || (e.dividend == 0 && e.bonus == 0),
    ensures
        adjust::adjusted_price(price, date_ms, events.push(e)) == adjust::adjusted_price(
            price,
            date_ms,
            events,
        ),
        adjust::adjusted_volume(volume, date_ms, events.push(e)) == adjust::adjusted_volume(
            volume,
            date_ms,
            events,
        ),
{
    assert(events.push(e).drop_last() =~= events);
}

/// An action after a day takes the dividend off the price of the day and divides the rest by
/// one plus the ratio of bonus shares, and multiplies the volume by the same: the price to
/// twelve digits, the volume to six.
pub proof fn later_actions_move_a_bar(
    price: int,
    volume: int,
    date_ms: i64,
    events: Seq<AdjustmentEvent>,
    e: AdjustmentEvent,
)
    requires
        date_ms < e.ex_date_ms,
        e.dividend != 0 || e.bonus != 0,
        e.bonus >= 0,
    ensures
        ({
            let factor = UNIT + e.bonus;
            let p = adjust::adjusted_price(price, date_ms, events);
            let q = adjust::adjusted_price(price, date_ms, events.push(e));
            let v = adjust::adjusted_volume(volume, date_ms, events);
            let w = adjust::adjusted_volume(volume, date_ms, events.push(e));
            &&& -factor <= 2 * (q * factor - (p - e.dividend * 1_000_000) * UNIT) <= factor
            &&& -UNIT <= 2 * (w * UNIT - v * factor) <= UNIT
        }),
{
    assert(events.push(e).drop_last() =~= events);
    let factor = UNIT + e.bonus;
    let p = adjust::adjusted_price(price, date_ms, events);
    let v = adjust::adjusted_volume(volume, date_ms, events);
    decimal::lemma_div_round_nearest((p - e.dividend * 1_000_000) * UNIT, factor);
    decimal::lemma_div_round_nearest(v * factor, UNIT as int);
}

/// An adjusted bar keeps its day and its turnover; each of its prices is adjusted on its own,
/// to four digits, and the volume to whole shares. Without actions nothing else changes.
pub proof fn adjusted_bars_are_rounded(b: BarView, events: Seq<AdjustmentEvent>)
    requires
        adjust::events_fit(events),
        adjust::bar_fits(b, events),
    ensures
        ({
            let r = adjust::adjusted_bar(b, events);
            let exact = |price: Decimal| adjust::adjusted_price(price * 1_000_000, b.date_ms, events);
            &&& r.date_ms == b.date_ms
            &&& r.date == b.date
            &&& r.turnover == b.turnover
            &&& is_rounded(r.open as int, exact(b.open))
            &&& is_rounded(r.high as int, exact(b.high))
            &&& is_rounded(r.low as int, exact(b.low))
            &&& is_rounded(r.close as int, exact(b.close))
            &&& r.volume % 1_000_000 == 0
            &&& -UNIT <= 2 * (r.volume - adjust::adjusted_volume(
                b.volume as int,
                b.date_ms,
                events,
            )) <= UNIT
        }),
{
    lemma_price(b.open, b.date_ms, events);
    lemma_price(b.high, b.date_ms, events);
    lemma_price(b.low, b.date_ms, events);
    lemma_price(b.close, b.date_ms, events);
    let v = adjust::adjusted_volume(b.volume as int, b.date_ms, events);
    decimal::lemma_div_round_nearest(v, UNIT as int);
    adjust::lemma_volume_natural(b.volume as int, b.date_ms, events);
    let q = decimal::div_round(v, UNIT as int);
    assert((q * UNIT) % 1_000_000 == 0);
}

/// Whether a price in whole ten-thousandths is the nearest one to a price of twelve digits.
pub open spec fn is_rounded(price: int, exact: int) -> bool {
    &&& price % 100 == 0
    &&& -100_000_000 <= 2 * (price * 1_000_000 - exact) <= 100_000_000
}

proof fn lemma_price(price: Decimal, date_ms: i64, events: Seq<AdjustmentEvent>)
    requires
        adjust::events_fit(events),
        decimal::price_ok(price as int),
    ensures
        is_rounded(
            adjust::final_price(price, date_ms, events) as Decimal as int,
            adjust::adjusted_price(price * 1_000_000, date_ms, events),
        ),
{
    let exact = adjust::adjusted_price(price * 1_000_000, date_ms, events);
    decimal::lemma_div_round_nearest(exact, 100_000_000);
    let q = decimal::div_round(exact, 100_000_000);
    assert((q * 100) % 100 == 0);
    lemma_bound(price * 1_000_000, date_ms, events);
}

proof fn lemma_bound(price: int, date_ms: i64, events: Seq<AdjustmentEvent>)
    requires
        adjust::events_fit(events),
        -adjust::price_bound(0) <= price <= adjust::price_bound(0),
    ensures
        ({
            let n = events.len() as int;
            let p = adjust::adjusted_price(price, date_ms, events);
            &&& -adjust::price_bound(n) <= p <= adjust::price_bound(n)
            &&& adjust::price_bound(n) <= 100_002 * (decimal::PRICE_MAX * 1_000_000)
        }),
    decreases events.len(),
{
    if events.len() > 0 {
        let short = events.drop_last();
        let n = short.len() as int;
        assert forall|i: int| 0 <= i < short.len() implies adjust::event_fits(
            #[trigger] short[i],
        ) by {
            assert(short[i] == events[i]);
        }
        lemma_bound(price, date_ms, short);
        assert(adjust::event_fits(events[n]));
        adjust::lemma_price_step(adjust::adjusted_price(price, date_ms, short), events[n], n);
    }
}

} // verus!
