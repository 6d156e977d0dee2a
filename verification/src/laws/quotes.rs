//! Laws of the market data: which snapshot and which bar a reading takes, what an average and a
//! range are, and what the factors of the screen say.

use vstd::prelude::*;

use crate::decimal;
use crate::decimal::{Decimal, PRICE_MAX, UNIT};
use crate::like;
use crate::market;
use crate::market::{LatestQuote, SnapshotRowView, SourceView, TickerView};
use crate::store;
use crate::store::{BarRowView, DailyBarRow, StoreView, TimedSnapshot, TimedSnapshotView};
use crate::table::{Key, Row, Table};
use crate::text;

verus! {

/// Whether snapshot `k` is one of a stock, and none of the stock is later.
pub open spec fn is_newest(snapshots: Seq<TimedSnapshotView>, code: Seq<char>, k: int) -> bool {
    &&& 0 <= k < snapshots.len()
    &&& snapshots[k].row.thscode == code
    &&& forall|j: int|
        0 <= j < snapshots.len() && (#[trigger] snapshots[j]).row.thscode == code
            ==> snapshots[j].ts_ms <= snapshots[k].ts_ms
}

/// The price of a stock is that of its snapshot with the latest time; a reading for a day takes
/// the same snapshot, where it is of that day.
pub proof fn the_latest_snapshot_is_read(
    store: StoreView,
    code: Seq<char>,
    day_start_ms: i64,
    k: int,
)
    requires
        Table::<TimedSnapshot>::sorted(store.snapshots),
        is_newest(store.snapshots, code, k),
    ensures
        store.last_price(code) == Some(store.snapshots[k].row.last_price),
        store::latest_of(store.snapshots, code) == Some(store.snapshots[k]),
        store.snapshots[k].ts_ms >= day_start_ms ==> store.snapshot_since(code, day_start_ms)
            == Some(store.snapshots[k].row),
        store.snapshots[k].ts_ms < day_start_ms ==> store.snapshot_since(code, day_start_ms)
            is None,
{
    let rows = store.snapshots;
    let own = Table::<TimedSnapshot>::of_code(rows, code);
    Table::<TimedSnapshot>::rows_of_a_text_run(rows, code);
    let at = Table::<TimedSnapshot>::lemma_of_code_member(rows, code, k);
    let n = own.len() - 1;
    assert(rows.contains(own[n]));
    let j = choose|j: int| 0 <= j < rows.len() && rows[j] == own[n];
    assert(rows[j].row.thscode == code) by {
        assert(TimedSnapshot::key_of(own[n]).code == code);
    }
    if at < n {
        assert(TimedSnapshot::key_of(own[at]).number < TimedSnapshot::key_of(own[n]).number);
    }
}

/// A stock without snapshots has no price.
pub proof fn no_snapshot_is_read_of_another_stock(
    store: StoreView,
    code: Seq<char>,
    day_start_ms: i64,
)
    requires
        Table::<TimedSnapshot>::sorted(store.snapshots),
        forall|j: int|
            0 <= j < store.snapshots.len() ==> (#[trigger] store.snapshots[j]).row.thscode != code,
    ensures
        store.last_price(code) is None,
        store.snapshot_since(code, day_start_ms) is None,
{
    let rows = store.snapshots;
    let own = Table::<TimedSnapshot>::of_code(rows, code);
    Table::<TimedSnapshot>::rows_of_a_text_run(rows, code);
    if own.len() > 0 {
        assert(rows.contains(own[0]));
        let j = choose|j: int| 0 <= j < rows.len() && rows[j] == own[0];
        assert(TimedSnapshot::key_of(own[0]).code == code);
        assert(rows[j].row.thscode == code);
    }
}

/// The last close of a stock is that of its bar with the latest date.
pub proof fn the_latest_close_is_read(store: StoreView, code: Seq<char>, k: int)
    requires
        Table::<DailyBarRow>::sorted(store.daily_bars),
        0 <= k < store.daily_bars.len(),
        store.daily_bars[k].thscode == code,
        forall|j: int|
            0 <= j < store.daily_bars.len() && (#[trigger] store.daily_bars[j]).thscode == code
                ==> store.daily_bars[j].bar.date_ms <= store.daily_bars[k].bar.date_ms,
    ensures
        store.last_close(code) == Some(store.daily_bars[k].bar.close),
{
    let rows = store.daily_bars;
    let own = Table::<DailyBarRow>::of_code(rows, code);
    Table::<DailyBarRow>::rows_of_a_text_run(rows, code);
    let at = Table::<DailyBarRow>::lemma_of_code_member(rows, code, k);
    let n = own.len() - 1;
    assert(rows.contains(own[n]));
    let j = choose|j: int| 0 <= j < rows.len() && rows[j] == own[n];
    assert(rows[j].thscode == code) by {
        assert(DailyBarRow::key_of(own[n]).code == code);
    }
    if at < n {
        assert(DailyBarRow::key_of(own[at]).number < DailyBarRow::key_of(own[n]).number);
    }
}

/// The latest time of snapshots is one of theirs, and none is later.
pub proof fn no_snapshot_is_later_than_the_last(snapshots: Seq<TimedSnapshotView>)
    ensures
        store::last_time(snapshots) is None <==> snapshots.len() == 0,
        store::last_time(snapshots) matches Some(t) ==> {
            &&& exists|i: int| 0 <= i < snapshots.len() && (#[trigger] snapshots[i]).ts_ms == t
            &&& forall|i: int| 0 <= i < snapshots.len() ==> (#[trigger] snapshots[i]).ts_ms <= t
        },
    decreases snapshots.len(),
{
    if snapshots.len() > 0 {
        let rest = snapshots.drop_last();
        let n = snapshots.len() - 1;
        no_snapshot_is_later_than_the_last(rest);
        let t = store::last_time(snapshots)->0;
        if snapshots[n].ts_ms != t {
            let i = choose|i: int| 0 <= i < rest.len() && (#[trigger] rest[i]).ts_ms == t;
            assert(snapshots[i].ts_ms == t);
        }
        assert forall|i: int| 0 <= i < snapshots.len() implies (#[trigger] snapshots[i]).ts_ms
            <= t by {
            if i < n {
                assert(rest[i].ts_ms == snapshots[i].ts_ms);
            }
        }
    }
}

/// The latest date of bars is one of theirs, and none is later.
pub proof fn no_bar_is_later_than_the_last(bars: Seq<BarRowView>)
    ensures
        store::last_date(bars) is None <==> bars.len() == 0,
        store::last_date(bars) matches Some(d) ==> {
            &&& exists|i: int| 0 <= i < bars.len() && (#[trigger] bars[i]).bar.date == d
            &&& forall|i: int|
                0 <= i < bars.len() ==> !text::text_less(d, (#[trigger] bars[i]).bar.date)
        },
    decreases bars.len(),
{
    if bars.len() > 0 {
        let rest = bars.drop_last();
        let n = bars.len() - 1;
        no_bar_is_later_than_the_last(rest);
        let d = store::last_date(bars)->0;
        if bars[n].bar.date != d {
            let i = choose|i: int| 0 <= i < rest.len() && (#[trigger] rest[i]).bar.date == d;
            assert(bars[i].bar.date == d);
        }
        assert forall|i: int| 0 <= i < bars.len() implies !text::text_less(
            d,
            (#[trigger] bars[i]).bar.date,
        ) by {
            if i < n {
                assert(rest[i].bar.date == bars[i].bar.date);
                let best = store::last_date(rest)->0;
                text::text_order_is_total(best, d);
                if text::text_less(d, bars[i].bar.date) && text::text_less(best, d) {
                    text::text_order_is_transitive(best, d, bars[i].bar.date);
                }
            } else {
                text::text_order_is_total(d, bars[n].bar.date);
                text::text_order_is_total(d, d);
                let before = store::last_date(rest);
                if before is Some {
                    text::text_order_is_total(before->0, bars[n].bar.date);
                }
            }
        }
    }
}

/// A search finds the securities whose code, name or ticker matches, and no others.
pub proof fn searches_find_what_matches(tickers: Seq<TickerView>, q: Seq<char>, t: TickerView)
    ensures
        store::matching(tickers, q).contains(t) <==> tickers.contains(t) && {
            let p = like::search_pattern(q);
            like::like(t.thscode, p) || like::like(t.name, p) || like::like(t.ticker, p)
        },
    decreases tickers.len(),
{
    if tickers.len() > 0 {
        let rest = tickers.drop_last();
        let n = tickers.len() - 1;
        searches_find_what_matches(rest, q, t);
        let before = store::matching(rest, q);
        let all = store::matching(tickers, q);
        if tickers.contains(t) && t != tickers[n] {
            let i = choose|i: int| 0 <= i < tickers.len() && tickers[i] == t;
            assert(rest[i] == t);
        }
        if rest.contains(t) {
            let i = choose|i: int| 0 <= i < rest.len() && rest[i] == t;
            assert(tickers[i] == t);
        }
        if before.contains(t) {
            let i = choose|i: int| 0 <= i < before.len() && before[i] == t;
            assert(all[i] == t);
        }
        if all.contains(t) && !before.contains(t) {
            let i = choose|i: int| 0 <= i < all.len() && all[i] == t;
            if i < before.len() {
                assert(before[i] == t);
            }
        }
        if all.len() > before.len() {
            assert(all[before.len() as int] == tickers[n]);
        }
        assert(tickers.contains(tickers[n]));
    }
}

/// A stock without a price counts for nothing; one with a price is quoted, and is up where its
/// change is above zero.
pub proof fn the_breadth_counts_stocks(quotes: Seq<LatestQuote>, q: LatestQuote)
    ensures
        market::breadth(Seq::empty()) == (0int, 0int),
        ({
            let (up, total) = market::breadth(quotes);
            market::breadth(quotes.push(q)) == (
                if q.last_price > 0 && q.pct > 0 {
                    up + 1
                } else {
                    up
                },
                if q.last_price > 0 {
                    total + 1
                } else {
                    total
                },
            )
        }),
{
    assert(quotes.push(q).drop_last() =~= quotes);
}

/// The steps of the distribution, in percent: 9.8, 5, 0.1, -0.1, -5 and -9.8. A stock that rose
/// more is never in a lower step.
pub proof fn the_distribution_goes_by_the_change(a: Decimal, b: Decimal)
    ensures
        0 <= market::bucket_of(a) <= 6,
        a <= b ==> market::bucket_of(b) <= market::bucket_of(a),
        market::bucket_of(a) == 0 <==> a >= 9_800_000,
        market::bucket_of(a) <= 1 <==> a >= 5_000_000,
        market::bucket_of(a) <= 2 <==> a > 100_000,
        market::bucket_of(a) <= 3 <==> a >= -100_000,
        market::bucket_of(a) <= 4 <==> a > -5_000_000,
        market::bucket_of(a) <= 5 <==> a > -9_800_000,
{
}

/// Only the latest snapshots are counted, and only those with a price: each has a price above
/// zero and is the last one of its stock.
pub proof fn the_latest_prices_are_taken(snapshots: Seq<TimedSnapshotView>, i: int)
    requires
        0 <= i < store::latest_priced(snapshots).len(),
    ensures
        store::latest_priced(snapshots)[i].last_price > 0,
        exists|k: int|
            0 <= k < snapshots.len() && (#[trigger] snapshots[k]).row == store::latest_priced(
                snapshots,
            )[i] && (k + 1 == snapshots.len() || snapshots[k + 1].row.thscode
                != snapshots[k].row.thscode),
{
    let places = Table::<TimedSnapshot>::latest(snapshots);
    lemma_latest_places(snapshots, snapshots.len());
    lemma_priced(snapshots, places, i);
    let p = choose|p: int|
        0 <= p < places.len() && snapshots[#[trigger] places[p]].row == store::priced_at(
            snapshots,
            places,
        )[i];
    let k = places[p];
    assert(0 <= k < snapshots.len() && Table::<TimedSnapshot>::is_latest(snapshots, k));
    assert(snapshots[k].row == store::latest_priced(snapshots)[i]);
}

proof fn lemma_latest_places(snapshots: Seq<TimedSnapshotView>, n: nat)
    ensures
        forall|p: int|
            0 <= p < Table::<TimedSnapshot>::latest_to(snapshots, n).len() ==> 0
                <= #[trigger] Table::<TimedSnapshot>::latest_to(snapshots, n)[p] < n
                && Table::<TimedSnapshot>::is_latest(
                snapshots,
                Table::<TimedSnapshot>::latest_to(snapshots, n)[p],
            ),
    decreases n,
{
    if n > 0 {
        let m = (n - 1) as nat;
        lemma_latest_places(snapshots, m);
        let before = Table::<TimedSnapshot>::latest_to(snapshots, m);
        let all = Table::<TimedSnapshot>::latest_to(snapshots, n);
        assert forall|p: int| 0 <= p < all.len() implies 0 <= #[trigger] all[p] < n
            && Table::<TimedSnapshot>::is_latest(snapshots, all[p]) by {
            if p < before.len() {
                assert(all[p] == before[p]);
            }
        }
    }
}

proof fn lemma_priced(snapshots: Seq<TimedSnapshotView>, places: Seq<int>, i: int)
    requires
        0 <= i < store::priced_at(snapshots, places).len(),
    ensures
        store::priced_at(snapshots, places)[i].last_price > 0,
        exists|p: int|
            0 <= p < places.len() && snapshots[#[trigger] places[p]].row == store::priced_at(
                snapshots,
                places,
            )[i],
    decreases places.len(),
{
    let rest = places.drop_last();
    let before = store::priced_at(snapshots, rest);
    let n = places.len() - 1;
    if i < before.len() {
        lemma_priced(snapshots, rest, i);
        let p = choose|p: int|
            0 <= p < rest.len() && snapshots[#[trigger] rest[p]].row == before[i];
        assert(places[p] == rest[p]);
    } else {
        assert(snapshots[places[n]].row == store::priced_at(snapshots, places)[i]);
    }
}

/// A quotient is the nearest number of millionths, halves away from zero, as long as it is in
/// the range of a price.
pub proof fn ratios_are_the_nearest(num: int, den: int)
    requires
        den > 0,
        -PRICE_MAX * den <= num * UNIT <= PRICE_MAX * den,
    ensures
        2 * (market::ratio(num, den) * den - num * UNIT) <= den,
        2 * (num * UNIT - market::ratio(num, den) * den) <= den,
        num >= 0 ==> market::ratio(num, den) >= 0,
        num <= 0 ==> market::ratio(num, den) <= 0,
{
    let q = decimal::div_round(num * UNIT, den);
    decimal::lemma_div_round_nearest(num * UNIT, den);
    decimal::lemma_div_round_monotone(num * UNIT, PRICE_MAX * den, den);
    decimal::lemma_div_round_monotone(-PRICE_MAX * den, num * UNIT, den);
    decimal::lemma_div_round_exact(PRICE_MAX as int, den);
    decimal::lemma_div_round_exact(-PRICE_MAX, den);
    decimal::lemma_div_round_exact(0, den);
    assert(0 * den == 0);
    if num >= 0 {
        decimal::lemma_div_round_monotone(0, num * UNIT, den);
    } else {
        decimal::lemma_div_round_monotone(num * UNIT, 0, den);
    }
}

/// The price of a stock in the screen is that of its snapshot, or its last close where the
/// snapshot has none; a stock without a close is left out.
pub proof fn screened_prices_are_the_latest(s: SourceView)
    ensures
        market::factors_of(s) is None <==> s.last_close is None,
        market::factors_of(s) matches Some(f) ==> {
            &&& f.thscode == s.thscode
            &&& f.adj_close == s.last_close->0
            &&& s.price is Some && s.price->0 > 0 ==> f.price == s.price->0
            &&& (s.price is None || s.price->0 <= 0) ==> f.price == s.last_close->0
            &&& s.price is Some && s.price->0 > 0 && s.turnover is Some ==> f.turnover
                == s.turnover->0
            &&& (s.price is None || s.price->0 <= 0) && s.last_turnover is Some ==> f.turnover
                == s.last_turnover->0
            &&& s.pct is Some ==> f.pct == s.pct->0
            &&& s.ma20 is Some ==> f.ma20 == s.ma20->0
            &&& s.ma60 is Some ==> f.ma60 == s.ma60->0
        },
{
}

/// The change over five days, the volume ratio and the place in the range are quotients: of the
/// rise by the close before it in percent, of the last turnover by the average of five days,
/// and of the height above the low by the range.
pub proof fn screened_factors_are_quotients(
    s: SourceView,
    last: int,
    before: int,
    turnover: int,
    average: int,
    low: int,
    high: int,
)
    requires
        s.last_close matches Some(v) && v == last,
        s.close6 matches Some(v) && v == before,
        s.last_turnover matches Some(v) && v == turnover,
        s.avg5_turnover matches Some(v) && v == average,
        s.min60 matches Some(v) && v == low,
        s.max60 matches Some(v) && v == high,
        0 < before,
        0 <= last,
        0 <= turnover,
        0 < average,
        low < high,
        low <= last <= high,
        last * 100 * UNIT <= PRICE_MAX * before,
        100 * UNIT <= PRICE_MAX,
        turnover * UNIT <= PRICE_MAX * average,
    ensures
        market::factors_of(s) matches Some(f) && {
            &&& -before <= 2 * (f.chg5 * before - (last - before) * 100 * UNIT) <= before
            &&& f.volume_ratio matches Some(v) && -average <= 2 * (v * average - turnover * UNIT)
                <= average
            &&& f.position matches Some(v) && -(high - low) <= 2 * (v * (high - low) - (last - low)
                * UNIT) <= high - low
        },
{
    let rise = (last - before) * 100;
    assert(-PRICE_MAX * before <= rise * UNIT <= PRICE_MAX * before) by (nonlinear_arith)
        requires
            rise == (last - before) * 100,
            last * 100 * UNIT <= PRICE_MAX * before,
            0 <= last,
            0 < before,
            100 * UNIT <= PRICE_MAX,
    ;
    ratios_are_the_nearest(rise, before);
    assert(turnover * UNIT >= -PRICE_MAX * average) by (nonlinear_arith)
        requires
            turnover >= 0,
            average > 0,
            PRICE_MAX > 0,
            UNIT > 0,
    ;
    ratios_are_the_nearest(turnover, average);
    let range = high - low;
    let above = last - low;
    assert(-PRICE_MAX * range <= above * UNIT <= PRICE_MAX * range) by (nonlinear_arith)
        requires
            0 <= above <= range,
            UNIT <= PRICE_MAX,
            UNIT > 0,
    ;
    ratios_are_the_nearest(above, range);
}

/// Adding a bar adds its close to the sum of the closes, and its turnover to that of the
/// turnovers.
pub proof fn sums_add_up(rows: Seq<BarRowView>, b: BarRowView)
    ensures
        store::closes(Seq::empty()) == 0,
        store::turnovers(Seq::empty()) == 0,
        store::closes(rows.push(b)) == store::closes(rows) + b.bar.close,
        store::turnovers(rows.push(b)) == store::turnovers(rows) + b.bar.turnover,
{
    assert(rows.push(b).drop_last() =~= rows);
}

/// The lowest price of bars is a low of one of them and none is lower; the highest one is a
/// high of one of them and none is higher.
pub proof fn ranges_hold_all_prices(rows: Seq<BarRowView>)
    requires
        rows.len() > 0,
    ensures
        forall|i: int| 0 <= i < rows.len() ==> store::lowest(rows) <= (#[trigger] rows[i]).bar.low,
        forall|i: int| 0 <= i < rows.len() ==> store::highest(rows) >= (#[trigger] rows[i]).bar.high,
        exists|i: int| 0 <= i < rows.len() && store::lowest(rows) == (#[trigger] rows[i]).bar.low,
        exists|i: int| 0 <= i < rows.len() && store::highest(rows) == (#[trigger] rows[i]).bar.high,
    decreases rows.len(),
{
    let n = rows.len() - 1;
    if rows.len() == 1 {
        assert(store::lowest(rows) == rows[0].bar.low);
        assert(store::highest(rows) == rows[0].bar.high);
    } else {
        let rest = rows.drop_last();
        ranges_hold_all_prices(rest);
        assert forall|i: int| 0 <= i < rows.len() implies store::lowest(rows) <= (
        #[trigger] rows[i]).bar.low by {
            if i < n {
                assert(rest[i].bar.low == rows[i].bar.low);
            }
        }
        assert forall|i: int| 0 <= i < rows.len() implies store::highest(rows) >= (
        #[trigger] rows[i]).bar.high by {
            if i < n {
                assert(rest[i].bar.high == rows[i].bar.high);
            }
        }
        let a = choose|i: int|
            0 <= i < rest.len() && store::lowest(rest) == (#[trigger] rest[i]).bar.low;
        let b = choose|i: int|
            0 <= i < rest.len() && store::highest(rest) == (#[trigger] rest[i]).bar.high;
        assert(rows[a] == rest[a] && rows[b] == rest[b]);
        if store::lowest(rows) != rows[n].bar.low {
            assert(store::lowest(rows) == rows[a].bar.low);
        }
        if store::highest(rows) != rows[n].bar.high {
            assert(store::highest(rows) == rows[b].bar.high);
        }
    }
}

/// The last rows of a list are as many as asked for, or all, and end where the list ends.
pub proof fn the_last_rows_are_taken(rows: Seq<BarRowView>, n: int, i: int)
    requires
        n >= 0,
        0 <= i < store::last_rows(rows, n).len(),
    ensures
        store::last_rows(rows, n).len() == if n < rows.len() { n } else { rows.len() as int },
        store::last_rows(rows, n)[i] == rows[rows.len() - store::last_rows(rows, n).len() + i],
{
}

/// What the screen takes of a stock with sixty bars or more: the averages of the last 20 and 60
/// closes to the nearest millionth, the range of the last 60 days, the last close and the one
/// five days before it, and the average turnover of the five days before the last.
pub proof fn screened_averages_are_of_the_last_bars(
    rows: Seq<BarRowView>,
    snapshot: Option<SnapshotRowView>,
)
    requires
        rows.len() >= 60,
        store::bars_ok(rows),
    ensures
        ({
            let s = store::source_of(rows, snapshot);
            let n = rows.len() as int;
            let twenty = store::closes(rows.subrange(n - 20, n));
            let sixty = store::closes(rows.subrange(n - 60, n));
            let five = store::turnovers(rows.subrange(n - 6, n - 1));
            &&& s.thscode == rows[n - 1].thscode
            &&& s.last_close == Some(rows[n - 1].bar.close)
            &&& s.last_turnover == Some(rows[n - 1].bar.turnover)
            &&& s.close6 == Some(rows[n - 6].bar.close)
            &&& s.ma20 matches Some(v) && -20 <= 2 * (v * 20 - twenty) <= 20
            &&& s.ma60 matches Some(v) && -60 <= 2 * (v * 60 - sixty) <= 60
            &&& s.avg5_turnover matches Some(v) && -5 <= 2 * (v * 5 - five) <= 5
            &&& s.min60 matches Some(v) && v == store::lowest(rows.subrange(n - 60, n))
            &&& s.max60 matches Some(v) && v == store::highest(rows.subrange(n - 60, n))
            &&& snapshot matches Some(p) ==> s.price == Some(p.last_price) && s.pct == Some(
                p.price_change_ratio_pct,
            ) && s.turnover == Some(p.turnover)
            &&& snapshot is None ==> s.price is None && s.pct is None && s.turnover is None
        }),
{
    let n = rows.len() as int;
    let a = rows.subrange(n - 20, n);
    let b = rows.subrange(n - 60, n);
    let c = rows.subrange(n - 6, n - 1);
    assert(store::last_rows(rows, 20) =~= a);
    assert(store::last_rows(rows, 60) =~= b);
    assert(store::five_before(rows) =~= c);
    assert(store::bars_ok(a)) by {
        assert forall|i: int| 0 <= i < a.len() implies store::bar_ok((#[trigger] a[i]).bar) by {
            assert(a[i] == rows[n - 20 + i]);
        }
    }
    assert(store::bars_ok(b)) by {
        assert forall|i: int| 0 <= i < b.len() implies store::bar_ok((#[trigger] b[i]).bar) by {
            assert(b[i] == rows[n - 60 + i]);
        }
    }
    assert(store::bars_ok(c)) by {
        assert forall|i: int| 0 <= i < c.len() implies store::bar_ok((#[trigger] c[i]).bar) by {
            assert(c[i] == rows[n - 6 + i]);
        }
    }
    lemma_sums_fit(a);
    lemma_sums_fit(b);
    lemma_sums_fit(c);
    decimal::lemma_div_round_nearest(store::closes(a), 20);
    decimal::lemma_div_round_nearest(store::closes(b), 60);
    decimal::lemma_div_round_nearest(store::turnovers(c), 5);
    ranges_hold_all_prices(b);
    let i = choose|i: int| 0 <= i < b.len() && store::lowest(b) == (#[trigger] b[i]).bar.low;
    let j = choose|i: int| 0 <= i < b.len() && store::highest(b) == (#[trigger] b[i]).bar.high;
    assert(store::bar_ok(b[i].bar) && store::bar_ok(b[j].bar));
}

proof fn lemma_sums_fit(rows: Seq<BarRowView>)
    requires
        store::bars_ok(rows),
        rows.len() <= 60,
    ensures
        -PRICE_MAX * rows.len() <= store::closes(rows) <= PRICE_MAX * rows.len(),
        -decimal::MONEY_MAX * rows.len() <= store::turnovers(rows) <= decimal::MONEY_MAX
            * rows.len(),
    decreases rows.len(),
{
    if rows.len() > 0 {
        let rest = rows.drop_last();
        let n = rows.len() - 1;
        assert forall|i: int| 0 <= i < rest.len() implies store::bar_ok((#[trigger] rest[i]).bar) by {
            assert(rest[i] == rows[i]);
        }
        lemma_sums_fit(rest);
        assert(store::bar_ok(rows[n].bar));
    }
}

/// A stock is analysed by its adjusted bars exactly where each of its bars has one.
pub proof fn adjusted_bars_are_preferred(store: StoreView, code: Seq<char>)
    ensures
        ({
            let raw = Table::<DailyBarRow>::of_code(store.daily_bars, code);
            let complete = forall|i: int|
                0 <= i < raw.len() ==> Table::<DailyBarRow>::holds(
                    store.adj_daily_bars,
                    Key {
                        code: (#[trigger] raw[i]).thscode,
                        number: raw[i].bar.date_ms as int,
                    },
                );
            store.analysis_rows(code) == if complete {
                Table::<DailyBarRow>::of_code(store.adj_daily_bars, code)
            } else {
                raw
            }
        }),
{
    let raw = Table::<DailyBarRow>::of_code(store.daily_bars, code);
    let complete = forall|i: int|
        0 <= i < raw.len() ==> Table::<DailyBarRow>::holds(
            store.adj_daily_bars,
            Key {
                code: (#[trigger] raw[i]).thscode,
                number: raw[i].bar.date_ms as int,
            },
        );
    assert(complete == store.is_adjusted(code)) by {
        if complete {
            assert forall|i: int| 0 <= i < raw.len() implies Table::<DailyBarRow>::holds(
                store.adj_daily_bars,
                DailyBarRow::key_of(#[trigger] raw[i]),
            ) by {
            }
        }
    }
}

/// A step of the distribution is listed exactly where it holds stocks, with how many it holds.
pub proof fn empty_steps_are_left_out(quotes: Seq<LatestQuote>, n: nat)
    ensures
        ({
            let before = market::buckets_to(quotes, n);
            let after = market::buckets_to(quotes, n + 1);
            let held = market::bucket_count(quotes, n as int);
            &&& held > 0 ==> after.len() == before.len() + 1 && after.last().1 == held
                && after.last().0 == market::bucket_text(n as int) && after.drop_last() == before
            &&& held <= 0 ==> after == before
        }),
        market::buckets_to(quotes, 0).len() == 0,
{
    let before = market::buckets_to(quotes, n);
    let after = market::buckets_to(quotes, n + 1);
    if market::bucket_count(quotes, n as int) > 0 {
        assert(after.drop_last() =~= before);
    }
}

/// A stock with a price counts in the step of its change and in no other; one without a price
/// counts in none.
pub proof fn each_stock_is_in_one_step(quotes: Seq<LatestQuote>, q: LatestQuote, step: int)
    ensures
        market::bucket_count(Seq::empty(), step) == 0,
        market::bucket_count(quotes.push(q), step) == market::bucket_count(quotes, step) + (if q.last_price
            > 0 && market::bucket_of(q.pct) == step {
            1int
        } else {
            0int
        }),
{
    assert(quotes.push(q).drop_last() =~= quotes);
}

/// The update of a day makes the bars anew of the stocks with an action on it, and counts them.
pub proof fn updates_rebuild_what_changed(store: StoreView, day_ms: i64, n: nat)
    requires
        n < store.adjustment_events.len(),
    ensures
        ({
            let e = store.adjustment_events[n as int];
            let before = store.rebuilt_for(day_ms, n);
            let after = store.rebuilt_for(day_ms, n + 1);
            let bars = Table::<DailyBarRow>::of_code(store.daily_bars, e.thscode).len();
            &&& e.event.ex_date_ms == day_ms ==> after == before.rebuilt(e.thscode)
                && store.rebuilt_count(day_ms, n + 1) == store.rebuilt_count(day_ms, n) + bars
            &&& e.event.ex_date_ms != day_ms ==> after == before && store.rebuilt_count(
                day_ms,
                n + 1,
            ) == store.rebuilt_count(day_ms, n)
        }),
        store.rebuilt_for(day_ms, 0) == store,
        store.rebuilt_count(day_ms, 0) == 0,
{
}

/// The update of a day takes over the bar of each stock that has no action on it, as it is,
/// unless there is an adjusted one already; it counts what it adds.
pub proof fn updates_take_over_new_bars(
    store: StoreView,
    adj: Seq<BarRowView>,
    day_ms: i64,
    n: nat,
)
    requires
        n < store.daily_bars.len(),
    ensures
        ({
            let b = store.daily_bars[n as int];
            let before = store.copied(adj, day_ms, n);
            let after = store.copied(adj, day_ms, n + 1);
            let key = Key { code: b.thscode, number: b.bar.date_ms as int };
            let fresh = b.bar.date_ms == day_ms && !store.acts_on(b.thscode, day_ms)
                && !Table::<DailyBarRow>::holds(before, key);
            &&& !fresh ==> after == before && store.copied_count(adj, day_ms, n + 1)
                == store.copied_count(adj, day_ms, n)
            &&& fresh ==> store.copied_count(adj, day_ms, n + 1) == store.copied_count(
                adj,
                day_ms,
                n,
            ) + 1
            &&& fresh && Table::<DailyBarRow>::sorted(before) ==> after.len() == before.len() + 1
                && Table::<DailyBarRow>::found(after, key) == Some(b)
        }),
        store.copied(adj, day_ms, 0) == adj,
        store.copied_count(adj, day_ms, 0) == 0,
{
    let b = store.daily_bars[n as int];
    let before = store.copied(adj, day_ms, n);
    let key = Key { code: b.thscode, number: b.bar.date_ms as int };
    assert(DailyBarRow::key_of(b) == key);
    if Table::<DailyBarRow>::sorted(before) {
        Table::<DailyBarRow>::ranks_part_the_rows(before, key);
        Table::<DailyBarRow>::written_rows_are_read_back(before, b);
    }
}

/// The update of a day is both: what changed is made anew and what is new is taken over, and it
/// counts both. The raw bars and the actions stay.
pub proof fn updates_are_counted(store: StoreView, day_ms: i64)
    ensures
        ({
            let n = store.adjustment_events.len();
            let m = store.daily_bars.len();
            let anew = store.rebuilt_for(day_ms, n).adj_daily_bars;
            &&& store.updated(day_ms).adj_daily_bars == store.copied(anew, day_ms, m)
            &&& store.updated_count(day_ms) == store.rebuilt_count(day_ms, n) + store.copied_count(
                anew,
                day_ms,
                m,
            )
            &&& store.updated(day_ms).daily_bars == store.daily_bars
            &&& store.updated(day_ms).adjustment_events == store.adjustment_events
            &&& store.updated(day_ms).snapshots == store.snapshots
        }),
{
}

/// The volume ratio of a stock is the turnover of its last day by the average of up to five days
/// before it.
pub proof fn volume_ratios_are_by_the_days_before(
    store: StoreView,
    places: Seq<int>,
    place: int,
    sum: int,
    days: int,
    last: int,
)
    requires
        ({
            let rows = Table::<DailyBarRow>::of_code(
                store.daily_bars,
                store.daily_bars[place].thscode,
            );
            let n = rows.len() as int;
            &&& n >= 2
            &&& days == if n - 1 < 5 { n - 1 } else { 5 }
            &&& sum == store::turnovers(rows.subrange(n - 1 - days, n - 1))
            &&& last == rows[n - 1].bar.turnover
        }),
        sum > 0,
        last >= 0,
        last * days * UNIT <= PRICE_MAX * sum,
    ensures
        ({
            let before = store.ratios_at(places);
            let after = store.ratios_at(places.push(place));
            &&& after.len() == before.len() + 1
            &&& after.drop_last() == before
            &&& after.last().0 == store.daily_bars[place].thscode
            &&& -sum <= 2 * (after.last().1 * sum - last * days * UNIT) <= sum
        }),
{
    assert(places.push(place).drop_last() =~= places);
    let rows = Table::<DailyBarRow>::of_code(store.daily_bars, store.daily_bars[place].thscode);
    let n = rows.len() as int;
    let five = store::five_before(rows);
    assert(five =~= rows.subrange(n - 1 - days, n - 1));
    assert(five.len() == days);
    let before = store.ratios_at(places);
    let after = store.ratios_at(places.push(place));
    assert(after.drop_last() =~= before);
    assert(last * days * UNIT >= 0) by (nonlinear_arith)
        requires
            last >= 0,
            days >= 0,
            UNIT > 0,
    ;
    assert(-PRICE_MAX * sum <= 0) by (nonlinear_arith)
        requires
            sum > 0,
            PRICE_MAX > 0,
    ;
    ratios_are_the_nearest(last * days, sum);
}

/// The screen takes the stocks that have a close, in their order.
pub proof fn stocks_with_a_close_are_screened(list: Seq<SourceView>, s: SourceView)
    ensures
        market::rows_of(Seq::empty()).len() == 0,
        s.last_close is None ==> market::rows_of(list.push(s)) == market::rows_of(list),
        s.last_close is Some ==> market::rows_of(list.push(s)) == market::rows_of(list).push(
            market::factors_of(s)->0,
        ),
{
    assert(list.push(s).drop_last() =~= list);
}

/// The screen takes the stocks with sixty bars or more, by their bars for analysis and their
/// latest snapshot, and no others.
pub proof fn sixty_bars_are_enough(store: StoreView, places: Seq<int>, place: int)
    ensures
        ({
            let code = store.daily_bars[place].thscode;
            let rows = store.analysis_rows(code);
            let before = store.sources_at(places);
            let after = store.sources_at(places.push(place));
            &&& rows.len() < 60 ==> after == before
            &&& rows.len() >= 60 ==> after == before.push(
                store::source_of(rows, store::latest_row(store.snapshots, code)),
            )
        }),
        store.sources_at(Seq::empty()).len() == 0,
{
    assert(places.push(place).drop_last() =~= places);
}

/// A stock without turnover on the days before its last has no volume ratio.
pub proof fn no_turnover_gives_no_ratio(store: StoreView, places: Seq<int>, place: int)
    requires
        ({
            let rows = Table::<DailyBarRow>::of_code(
                store.daily_bars,
                store.daily_bars[place].thscode,
            );
            let n = rows.len() as int;
            n >= 1 && store::turnovers(
                rows.subrange(if n > 6 { n - 6 } else { 0 }, n - 1),
            ) <= 0
        }),
    ensures
        store.ratios_at(places.push(place)) == store.ratios_at(places),
{
    assert(places.push(place).drop_last() =~= places);
    let rows = Table::<DailyBarRow>::of_code(store.daily_bars, store.daily_bars[place].thscode);
    let n = rows.len() as int;
    assert(store::five_before(rows) =~= rows.subrange(if n > 6 { n - 6 } else { 0 }, n - 1));
}

} // verus!
