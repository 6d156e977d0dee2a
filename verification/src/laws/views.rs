//! Laws of what is shown: charts, positions, the value and the risk of an account, curves and
//! the timeline.

use vstd::prelude::*;

use crate::account::{AccountSnapshot, PositionView};
use crate::api;
use crate::api::{FeedView, IndexSource, KlineView, NameRow, RiskStatus, TodayQuote};
use crate::context::RecentBar;
use crate::decimal;
use crate::decimal::{Decimal, PRICE_MAX, UNIT};
use crate::laws::books;
use crate::laws::quotes;
use crate::ledger;
use crate::ledger::LedgerView;
use crate::market;
use crate::order;
use crate::order::Fraction;
use crate::risk;
use crate::risk::MarketView;

verus! {

/// The sum of closes over days: of no days nothing, and a further day adds its close at either
/// end.
pub proof fn windows_slide(bars: Seq<RecentBar>, from: int, to: int)
    requires
        0 <= from < to <= bars.len(),
    ensures
        api::closes_between(bars, from, from) == 0,
        api::closes_between(bars, from, to) == api::closes_between(bars, from, to - 1) + bars[to
            - 1].close,
        api::closes_between(bars, from, to) == bars[from].close + api::closes_between(
            bars,
            from + 1,
            to,
        ),
    decreases to - from,
{
    if to - from > 1 {
        windows_slide(bars, from, to - 1);
    }
}

/// The average of a day is that of the closes of the last `n` days up to it, to the nearest
/// millionth; 0 where there are fewer.
pub proof fn averages_are_of_the_last_days(bars: Seq<RecentBar>, i: int, n: int)
    requires
        0 <= i < bars.len(),
        n > 0,
    ensures
        i + 1 < n ==> api::average_at(bars, i, n) == 0,
        i + 1 >= n ==> -n <= 2 * (api::average_at(bars, i, n) * n - api::closes_between(
            bars,
            i + 1 - n,
            i + 1,
        )) <= n,
        n == 1 ==> api::average_at(bars, i, n) == bars[i].close,
{
    if i + 1 >= n {
        decimal::lemma_div_round_nearest(api::closes_between(bars, i + 1 - n, i + 1), n);
        if n == 1 {
            windows_slide(bars, i, i + 1);
            decimal::lemma_div_round_exact(bars[i].close as int, 1);
        }
    }
}

/// A day of a chart has open, close, low and high in this order, its volume, and the averages
/// over 5, 10, 20 and 60 days.
pub proof fn chart_days_show_their_bar(bars: Seq<RecentBar>, i: int)
    requires
        0 <= i < bars.len(),
    ensures
        ({
            let p = api::point_at(bars, i);
            &&& p.ohlc.len() == 4
            &&& p.ohlc[0] == bars[i].open
            &&& p.ohlc[1] == bars[i].close
            &&& p.ohlc[2] == bars[i].low
            &&& p.ohlc[3] == bars[i].high
            &&& p.volume == bars[i].volume
            &&& p.ma5 == api::average_at(bars, i, 5) as Decimal
            &&& p.ma10 == api::average_at(bars, i, 10) as Decimal
            &&& p.ma20 == api::average_at(bars, i, 20) as Decimal
            &&& p.ma60 == api::average_at(bars, i, 60) as Decimal
        }),
{
}

/// The quote of today ends a chart that has days: it replaces the day that is today, or comes
/// after the last day; the days before it stay.
pub proof fn charts_end_with_today(points: Seq<KlineView>, q: TodayQuote, today: Seq<char>, i: int)
    requires
        0 <= i < points.len(),
    ensures
        ({
            let out = api::with_today(points, Some(q), today);
            let same = points.last().date == today;
            &&& out.len() == if same { points.len() } else { (points.len() + 1) as nat }
            &&& out.last().date == today
            &&& out.last().ohlc[0] == q.open
            &&& out.last().ohlc[1] == q.price
            &&& out.last().ohlc[2] == q.low
            &&& out.last().ohlc[3] == q.high
            &&& out.last().volume == q.volume
            &&& i < out.len() - 1 ==> out[i] == points[i]
            &&& same ==> out.last().ma5 == points.last().ma5 && out.last().ma60
                == points.last().ma60
        }),
        api::with_today(points, None, today) == points,
        api::with_today(Seq::empty(), Some(q), today) == Seq::<KlineView>::empty(),
{
}

/// Whether `r` is `num / den` in percent, to the nearest millionth of a percent.
pub open spec fn is_percent(r: int, num: int, den: int) -> bool {
    -den <= 2 * (r * den - num * 100 * UNIT) <= den
}

proof fn lemma_percent(num: int, den: int)
    requires
        den > 0,
        -PRICE_MAX * den <= num * 100 * UNIT <= PRICE_MAX * den,
    ensures
        is_percent(market::ratio(num * 100, den) as Decimal as int, num, den),
{
    quotes::ratios_are_the_nearest(num * 100, den);
}

/// A position is shown at its latest price, its cost where it has none; its gain is the price
/// less the cost, times the quantity, and in percent of the cost.
pub proof fn shown_positions_show_their_gain(
    p: PositionView,
    market: MarketView,
    names: Seq<NameRow>,
    price: int,
)
    requires
        market.last_price(p.thscode) matches Some(v) ==> v == price,
        market.last_price(p.thscode) is None ==> price == p.avg_cost,
        0 < p.avg_cost <= PRICE_MAX,
        0 <= price <= PRICE_MAX,
        price * 100 * UNIT <= PRICE_MAX * p.avg_cost,
    ensures
        ({
            let row = api::position_row(p, market, names);
            &&& row.thscode == p.thscode
            &&& row.quantity == p.quantity
            &&& row.avg_cost == p.avg_cost
            &&& row.price == price
            &&& row.pnl == price * p.quantity - p.avg_cost * p.quantity
            &&& is_percent(row.pnl_pct as int, price - p.avg_cost, p.avg_cost as int)
        }),
{
    let cost = p.avg_cost as int;
    let gain = price - cost;
    assert(-PRICE_MAX * cost <= gain * 100 * UNIT <= PRICE_MAX * cost) by (nonlinear_arith)
        requires
            gain == price - cost,
            price * 100 * UNIT <= PRICE_MAX * cost,
            0 <= price,
            0 < cost,
            UNIT == 1_000_000,
            PRICE_MAX == 1_000_000_000_000_000,
    ;
    lemma_percent(gain, cost);
    risk::lemma_product(price, p.quantity as int);
    risk::lemma_product(cost, p.quantity as int);
    assert(gain * p.quantity == price * p.quantity - cost * p.quantity) by (nonlinear_arith)
        requires
            gain == price - cost,
    ;
}

/// The value of an account is its cash and its positions at the latest prices; its return is
/// what it has over the initial capital, in percent of it; what it made today is what it has
/// over the last recorded value.
pub proof fn shown_accounts_add_up(
    name: Seq<char>,
    books: LedgerView,
    market: MarketView,
    k: int,
)
    requires
        books.ok(),
        books.account is Some,
        books.account->0.initial_capital > 0,
        api::can_show(books, market),
        0 <= k < books.snapshots.len(),
        forall|j: int|
            0 <= j < books.snapshots.len() && j != k ==> (#[trigger] books.snapshots[j]).ts_ms
                < books.snapshots[k].ts_ms,
        ({
            let total = risk::asset_of(books, market);
            let initial = books.account->0.initial_capital;
            -PRICE_MAX * initial <= (total - initial) * 100 * UNIT <= PRICE_MAX * initial
        }),
    ensures
        ({
            let v = api::asset_view(name, books, market);
            let a = books.account->0;
            &&& v.cash == a.cash
            &&& v.market_value == risk::market_value(books.positions, market)
            &&& v.total == v.cash + v.market_value
            &&& is_percent(
                v.return_pct as int,
                v.total - a.initial_capital,
                a.initial_capital as int,
            )
            &&& v.today_pnl == v.total - books.snapshots[k].total_asset
            &&& v.position_count == books.positions.len()
        }),
{
    let a = books.account->0;
    let total = risk::asset_of(books, market);
    api::lemma_shown_value(books.positions, market);
    lemma_percent(total - a.initial_capital, a.initial_capital as int);
    books::account_values_come_by_time(books.snapshots);
    let sorted = ledger::snapshots_by_time(books.snapshots);
    assert(sorted.contains(books.snapshots[k]));
    let i = choose|i: int| 0 <= i < sorted.len() && sorted[i] == books.snapshots[k];
    let n = sorted.len() - 1;
    if i < n {
        assert(sorted[i].ts_ms <= sorted[n].ts_ms);
    }
    lemma_sorted_from(books.snapshots, n);
    let j = choose|j: int| 0 <= j < books.snapshots.len() && books.snapshots[j] == sorted[n];
    assert(j == k) by {
        if j != k {
            assert(books.snapshots[j].ts_ms < books.snapshots[k].ts_ms);
        }
    }
    assert(decimal::money_ok(books.snapshots[k].total_asset as int));
    assert(api::totals(books.snapshots).last() == books.snapshots[k].total_asset);
}

proof fn lemma_sorted_from(snapshots: Seq<AccountSnapshot>, i: int)
    requires
        0 <= i < ledger::snapshots_by_time(snapshots).len(),
    ensures
        snapshots.contains(ledger::snapshots_by_time(snapshots)[i]),
{
    let keys = Seq::new(snapshots.len(), |j: int| Fraction::whole(snapshots[j].ts_ms as i128));
    order::lemma_arranged_in_range(keys, snapshots.len());
    let o = order::arranged(keys);
    assert(0 <= o[i] < snapshots.len());
    assert(snapshots[o[i]] == ledger::snapshots_by_time(snapshots)[i]);
}

/// The small chart of an account is its last twenty recorded values, by time.
pub proof fn small_charts_hold_twenty_values(name: Seq<char>, books: LedgerView, market: MarketView)
    ensures
        ({
            let line = api::asset_view(name, books, market).sparkline;
            let sorted = ledger::snapshots_by_time(books.snapshots);
            let n = sorted.len() as int;
            &&& line.len() == if n < 20 { n } else { 20 }
            &&& forall|i: int|
                0 <= i < line.len() ==> #[trigger] line[i] == sorted[n - line.len() + i].total_asset
        }),
{
}

/// How far a position is from its stop is its price over 95% of its cost, and how far from its
/// target over 115% of it, in percent of those.
pub proof fn shown_risks_show_their_distance(
    p: PositionView,
    market: MarketView,
    names: Seq<NameRow>,
    price: int,
)
    requires
        market.last_price(p.thscode) matches Some(v) ==> v == price,
        market.last_price(p.thscode) is None ==> price == p.avg_cost,
        0 < p.avg_cost <= PRICE_MAX,
        0 <= price <= PRICE_MAX,
        100 * price * 100 * UNIT <= PRICE_MAX * p.avg_cost,
    ensures
        ({
            let row = api::risk_row(p, market, names);
            let cost = p.avg_cost as int;
            &&& row.thscode == p.thscode
            &&& row.price == price
            &&& row.avg_cost == p.avg_cost
            &&& is_percent(row.to_stop_pct as int, 100 * price - 95 * cost, 95 * cost)
            &&& is_percent(row.to_profit_pct as int, 100 * price - 115 * cost, 115 * cost)
        }),
{
    let cost = p.avg_cost as int;
    let a = 100 * price - 95 * cost;
    let b = 100 * price - 115 * cost;
    lemma_percent(a, 95 * cost);
    lemma_percent(b, 115 * cost);
}

/// The drawdown that is shown is what the total assets are below the recorded peak, and the
/// position what the holdings are of the total assets, in percent; the fuse is shown as long as
/// the recorded stop has not passed.
pub proof fn shown_drawdowns_are_from_the_peak(
    r: RiskStatus,
    books: LedgerView,
    market: MarketView,
    names: Seq<NameRow>,
    now_ms: i64,
    total: int,
    peak: int,
)
    requires
        api::is_status_of(r, books, market, names, now_ms),
        books.account is Some,
        total == risk::asset_of(books, market),
        peak == risk::stored_peak(books),
        0 < total <= peak,
        -PRICE_MAX * total <= risk::market_value(books.positions, market) * 100 * UNIT <= PRICE_MAX
            * total,
    ensures
        r.total == total,
        r.peak == peak,
        is_percent(r.drawdown_pct as int, peak - total, peak),
        is_percent(r.position_pct as int, risk::market_value(books.positions, market), total),
        r.fuse_active <==> risk::stored_fuse(books) > now_ms,
        r.positions@.len() == books.positions.len(),
{
    let down = peak - total;
    assert(-PRICE_MAX * peak <= down * 100 * UNIT <= PRICE_MAX * peak) by (nonlinear_arith)
        requires
            down == peak - total,
            0 < total <= peak,
            UNIT == 1_000_000,
            PRICE_MAX == 1_000_000_000_000_000,
    ;
    lemma_percent(down, peak);
    lemma_percent(risk::market_value(books.positions, market), total);
    assert(api::risk_row_views(r.positions@).len() == r.positions@.len());
}

/// The timeline is the latest entries, the last one first, twenty at most; none that is left
/// out is later than one of them.
pub proof fn the_timeline_is_the_latest(list: Seq<FeedView>)
    ensures
        ({
            let out = api::latest_feed(list);
            &&& out.len() == if list.len() > 20 { 20int } else { list.len() as int }
            &&& forall|a: int, b: int|
                0 <= a < b < out.len() ==> (#[trigger] out[a]).ts_ms >= (#[trigger] out[b]).ts_ms
            &&& forall|i: int|
                0 <= i < list.len() ==> out.contains(#[trigger] list[i]) || (forall|a: int|
                    0 <= a < out.len() ==> (#[trigger] out[a]).ts_ms >= list[i].ts_ms)
        }),
{
    let keys = Seq::new(list.len(), |i: int| Fraction::whole((-(list[i].ts_ms as i128)) as i128));
    books::lemma_in_order(list, keys, 20);
    let o = order::arranged(keys);
    let out = api::latest_feed(list);
    assert(out == order::picked(list, o, 20));
    assert forall|a: int, b: int| 0 <= a < b < out.len() implies (#[trigger] out[a]).ts_ms >= (
    #[trigger] out[b]).ts_ms by {
        assert(keys[o[a]].num <= keys[o[b]].num);
    }
    assert forall|i: int| 0 <= i < list.len() implies out.contains(#[trigger] list[i]) || (forall|
        a: int,
    |
        0 <= a < out.len() ==> (#[trigger] out[a]).ts_ms >= list[i].ts_ms) by {
        if !out.contains(list[i]) {
            assert forall|a: int| 0 <= a < out.len() implies (#[trigger] out[a]).ts_ms
                >= list[i].ts_ms by {
                assert(keys[o[a]].num <= keys[i].num);
            }
        }
    }
}

/// A benchmark has a point for each bar from a day before the start on, at the close scaled so
/// that the base stands for the capital, to the nearest millionth, and none for earlier bars.
pub proof fn benchmarks_follow_the_closes(
    bars: Seq<RecentBar>,
    b: RecentBar,
    first_ms: i64,
    base: int,
    initial: int,
)
    requires
        base > 0,
        0 <= initial * b.close <= 1_000_000_000_000_000_000_000_000_000_000_000_000,
    ensures
        ({
            let before = api::scaled_bars(bars, first_ms, base, initial);
            let after = api::scaled_bars(bars.push(b), first_ms, base, initial);
            if b.date_ms >= first_ms - 86_400_000 {
                &&& after.len() == before.len() + 1
                &&& after.drop_last() == before
                &&& after.last().ts == b.date_ms
                &&& -base <= 2 * (after.last().total * base - initial * b.close) <= base
            } else {
                after == before
            }
        }),
{
    assert(bars.push(b).drop_last() =~= bars);
    let before = api::scaled_bars(bars, first_ms, base, initial);
    let after = api::scaled_bars(bars.push(b), first_ms, base, initial);
    let n = initial * b.close;
    decimal::lemma_div_round_nearest(n, base);
    let q = decimal::div_round(n, base);
    assert(0 <= q <= n) by {
        decimal::lemma_div_round_exact(0, base);
        assert(0 * base == 0);
        decimal::lemma_div_round_monotone(0, n, base);
        decimal::lemma_div_round_exact(n, base);
        assert(n <= n * base) by (nonlinear_arith)
            requires
                n >= 0,
                base >= 1,
        ;
        decimal::lemma_div_round_monotone(n, n * base, base);
    }
    if b.date_ms >= first_ms - 86_400_000 {
        assert(after.drop_last() =~= before);
    }
}

/// The base of a benchmark is the close of the last bar that is not after the start, or of the
/// first bar where all are.
pub proof fn benchmarks_start_from_the_last_close(bars: Seq<RecentBar>, first_ms: i64, k: int)
    requires
        0 <= k < bars.len(),
        bars[k].date_ms <= first_ms || k == 0,
        forall|j: int| k < j < bars.len() ==> (#[trigger] bars[j]).date_ms > first_ms,
    ensures
        api::base_close(bars, first_ms) == Some(bars[k].close),
{
    if bars[k].date_ms <= first_ms {
        api::lemma_last_not_after(bars, first_ms, bars.len() as int, k);
    } else {
        lemma_all_after(bars, first_ms, bars.len() as int);
    }
}

proof fn lemma_all_after(bars: Seq<RecentBar>, first_ms: i64, n: int)
    requires
        0 <= n <= bars.len(),
        forall|j: int| 0 <= j < n ==> (#[trigger] bars[j]).date_ms > first_ms,
    ensures
        api::last_not_after(bars, first_ms, n) == -1,
    decreases n,
{
    if n > 0 {
        assert(bars[n - 1].date_ms > first_ms);
        lemma_all_after(bars, first_ms, n - 1);
    }
}

/// The returns of an account are its recorded values over the initial capital, in percent of
/// it, by time.
pub proof fn returns_are_over_the_capital(
    snapshots: Seq<AccountSnapshot>,
    initial: int,
    i: int,
    value: int,
)
    requires
        initial > 0,
        0 <= i < ledger::snapshots_by_time(snapshots).len(),
        value == ledger::snapshots_by_time(snapshots)[i].total_asset,
        -PRICE_MAX * initial <= (value - initial) * 100 * UNIT <= PRICE_MAX * initial,
    ensures
        api::returns_of(snapshots, initial).len() == ledger::snapshots_by_time(snapshots).len(),
        api::returns_of(snapshots, initial)[i].ts == ledger::snapshots_by_time(snapshots)[i].ts_ms,
        is_percent(api::returns_of(snapshots, initial)[i].total as int, value - initial, initial),
{
    lemma_percent(value - initial, initial);
}

/// An index is shown by its snapshot, without one by its last close, and not at all without
/// either.
pub proof fn indices_show_their_latest_price(s: IndexSource)
    ensures
        s.snapshot matches Some(q) ==> (api::index_of(s) matches Some(v) && v.price == q.0 && v.pct
            == q.1),
        s.snapshot is None && s.last_close is Some ==> (api::index_of(s) matches Some(v) && v.price
            == s.last_close->0 && v.pct == 0),
        s.snapshot is None && s.last_close is None ==> api::index_of(s) is None,
{
}

/// The time of the indices is that of the latest of their snapshots.
pub proof fn the_time_of_the_indices_is_the_latest(list: Seq<IndexSource>, i: int)
    requires
        0 <= i < list.len(),
    ensures
        list[i].snapshot matches Some(q) ==> q.2 <= api::latest_time(list),
        api::latest_time(list) == 0 || exists|k: int|
            0 <= k < list.len() && ((#[trigger] list[k]).snapshot matches Some(q) && q.2
                == api::latest_time(list)),
    decreases list.len(),
{
    let rest = list.drop_last();
    let n = list.len() - 1;
    if i < n {
        the_time_of_the_indices_is_the_latest(rest, i);
        assert(rest[i] == list[i]);
    } else if n > 0 {
        the_time_of_the_indices_is_the_latest(rest, 0);
    }
    if api::latest_time(list) != 0 {
        if !(list[n].snapshot matches Some(q) && q.2 == api::latest_time(list)) {
            let k = choose|k: int|
                0 <= k < rest.len() && ((#[trigger] rest[k]).snapshot matches Some(q) && q.2
                    == api::latest_time(rest));
            assert(list[k] == rest[k]);
        }
    }
}

/// The name to show is the one on record, unless it is blank or only the code; in its place
/// stands the one in the table of securities, or else the code.
pub proof fn names_are_shown_where_known(
    ticker: Option<Seq<char>>,
    code: Seq<char>,
    name: Seq<char>,
)
    ensures
        name.len() > 0 && name != code ==> api::shown_name(ticker, code, name) == name,
        (name.len() == 0 || name == code) && ticker is Some ==> api::shown_name(ticker, code, name)
            == ticker->0,
        (name.len() == 0 || name == code) && ticker is None ==> api::shown_name(ticker, code, name)
            == code,
{
}

/// The name of a security is that of the first row with its code.
pub proof fn names_are_found(list: Seq<NameRow>, code: Seq<char>, k: int)
    requires
        0 <= k < list.len(),
        list[k].thscode@ == code,
        forall|j: int| 0 <= j < k ==> (#[trigger] list[j]).thscode@ != code,
    ensures
        api::name_of(list, code) == Some(list[k].name@),
    decreases list.len(),
{
    if k > 0 {
        let rest = list.drop_first();
        assert(list[0].thscode@ != code);
        assert forall|j: int| 0 <= j < k - 1 implies (#[trigger] rest[j]).thscode@ != code by {
            assert(rest[j] == list[j + 1]);
        }
        names_are_found(rest, code, k - 1);
    }
}

/// Positions are shown under the name that is shown of their stock.
pub proof fn shown_positions_have_names(p: PositionView, market: MarketView, names: Seq<NameRow>)
    ensures
        p.name.len() > 0 && p.name != p.thscode ==> api::position_row(p, market, names).name
            == p.name,
        api::position_row(p, market, names).name == api::risk_row(p, market, names).name,
{
}

/// The indices that are shown are those with a price, in their order: a further index is added
/// at the end, or not at all.
pub proof fn indices_come_in_order(list: Seq<IndexSource>, s: IndexSource)
    ensures
        api::indexes_of(Seq::empty()).len() == 0,
        s.snapshot is None && s.last_close is None ==> api::indexes_of(list.push(s))
            == api::indexes_of(list),
        s.snapshot is Some || s.last_close is Some ==> {
            let after = api::indexes_of(list.push(s));
            &&& after.len() == api::indexes_of(list).len() + 1
            &&& after.drop_last() == api::indexes_of(list)
            &&& after.last().thscode == s.thscode@
            &&& after.last().name == s.name@
        },
{
    assert(list.push(s).drop_last() =~= list);
    if s.snapshot is Some || s.last_close is Some {
        assert(api::indexes_of(list.push(s)).drop_last() =~= api::indexes_of(list));
    }
}

/// What is shown of an account are its fifty latest trades and decisions, and in the timeline
/// its ten latest decisions, the last one first.
pub proof fn the_latest_is_shown(name: Seq<char>, books: LedgerView)
    ensures
        api::shown_trades(books).len() == if books.trades.len() > 50 {
            50int
        } else {
            books.trades.len() as int
        },
        api::shown_decisions(books).len() == if books.decisions.len() > 50 {
            50int
        } else {
            books.decisions.len() as int
        },
        api::feed_entries(name, books).len() == if books.decisions.len() > 10 {
            10int
        } else {
            books.decisions.len() as int
        },
        forall|a: int, b: int|
            0 <= a < b < api::shown_trades(books).len() ==> (#[trigger] api::shown_trades(books)[a]).ts_ms
                >= (#[trigger] api::shown_trades(books)[b]).ts_ms,
        forall|a: int, b: int|
            0 <= a < b < api::shown_decisions(books).len() ==> (#[trigger] api::shown_decisions(
                books,
            )[a]).ts_ms >= (#[trigger] api::shown_decisions(books)[b]).ts_ms,
        forall|a: int, b: int|
            0 <= a < b < api::feed_entries(name, books).len() ==> (#[trigger] api::feed_entries(
                name,
                books,
            )[a]).ts_ms >= (#[trigger] api::feed_entries(name, books)[b]).ts_ms,
        forall|a: int|
            0 <= a < api::feed_entries(name, books).len() ==> (#[trigger] api::feed_entries(
                name,
                books,
            )[a]).account == name,
{
    books::the_latest_trades_come_first(books.trades, 50);
    books::the_latest_decisions_come_first(books.decisions, 50);
    books::the_latest_decisions_come_first(books.decisions, 10);
    let ds = ledger::latest_decisions(books.decisions, 10);
    let feed = api::feed_entries(name, books);
    assert forall|a: int, b: int| 0 <= a < b < feed.len() implies (#[trigger] feed[a]).ts_ms >= (
    #[trigger] feed[b]).ts_ms by {
        assert(ds[a].ts_ms >= ds[b].ts_ms);
    }
}

/// A position without a cost has no distance to its stop, and a benchmark without a base or a
/// capital above zero has no points.
pub proof fn nothing_is_measured_against_nothing(
    price: int,
    cost: int,
    percent: int,
    bars: Seq<RecentBar>,
    first_ms: i64,
    initial: int,
)
    ensures
        cost <= 0 ==> api::distance(price, cost, percent) == 0,
        initial <= 0 ==> api::benchmark_of(bars, first_ms, initial).len() == 0,
        api::base_close(bars, first_ms) is None || api::base_close(bars, first_ms)->0 <= 0
            ==> api::benchmark_of(bars, first_ms, initial).len() == 0,
{
}

} // verus!
