//! The store of market data: securities, trading days, daily bars, corporate actions, snapshots
//! and settings.

use vstd::prelude::*;

use crate::adjust;
use crate::adjust::{BarView, DailyBar};
use crate::adjustment::AdjustmentEvent;
use crate::context::RecentBar;
use crate::decimal;
use crate::decimal::{is_money, is_price, rounded_div, Decimal, MONEY_MAX, PRICE_MAX};
use crate::like;
use crate::like::is_found;
use crate::market;
use crate::market::{
    ratio_of, LatestQuote, ScreenSource, SnapshotRow, SnapshotRowView, SourceView, Stats,
    TickerRow, TickerView, TradingDayRow, TradingDayView,
};
use crate::screen::ScreenRow;
use crate::table::{Key, Row, Table};
use crate::text;
use crate::text::is_less;

verus! {

/// A daily bar of a stock; the date is `yyyy-MM-dd`.
#[derive(Debug)]
pub struct DailyBarRow {
    pub thscode: String,
    pub date_ms: i64,
    pub date: String,
    pub open: Decimal,
    pub high: Decimal,
    pub low: Decimal,
    pub close: Decimal,
    pub volume: Decimal,
    pub turnover: Decimal,
}

#[verifier::ext_equal]
pub struct BarRowView {
    pub thscode: Seq<char>,
    pub bar: BarView,
}

impl View for DailyBarRow {
    type V = BarRowView;

    open spec fn view(&self) -> BarRowView {
        BarRowView {
            thscode: self.thscode@,
            bar: BarView {
                date_ms: self.date_ms,
                date: self.date@,
                open: self.open,
                high: self.high,
                low: self.low,
                close: self.close,
                volume: self.volume,
                turnover: self.turnover,
            },
        }
    }
}

impl Clone for DailyBarRow {
    fn clone(&self) -> (r: Self)
        ensures
            r@ == self@,
    {
        DailyBarRow {
            thscode: self.thscode.clone(),
            date_ms: self.date_ms,
            date: self.date.clone(),
            open: self.open,
            high: self.high,
            low: self.low,
            close: self.close,
            volume: self.volume,
            turnover: self.turnover,
        }
    }
}

/// A corporate action of a stock.
#[derive(Debug)]
pub struct EventRow {
    pub thscode: String,
    pub event: AdjustmentEvent,
    pub allot_price: Option<Decimal>,
}

#[verifier::ext_equal]
pub struct EventRowView {
    pub thscode: Seq<char>,
    pub event: AdjustmentEvent,
    pub allot_price: Option<Decimal>,
}

impl View for EventRow {
    type V = EventRowView;

    open spec fn view(&self) -> EventRowView {
        EventRowView {
            thscode: self.thscode@,
            event: self.event,
            allot_price: self.allot_price,
        }
    }
}

/// A snapshot of a stock at a time.
#[derive(Debug)]
pub struct TimedSnapshot {
    pub ts_ms: i64,
    pub row: SnapshotRow,
}

#[verifier::ext_equal]
pub struct TimedSnapshotView {
    pub ts_ms: i64,
    pub row: SnapshotRowView,
}

impl View for TimedSnapshot {
    type V = TimedSnapshotView;

    open spec fn view(&self) -> TimedSnapshotView {
        TimedSnapshotView { ts_ms: self.ts_ms, row: self.row@ }
    }
}

/// A setting.
#[derive(Debug)]
pub struct MetaRow {
    pub key: String,
    pub value: String,
}

#[verifier::ext_equal]
pub struct MetaRowView {
    pub key: Seq<char>,
    pub value: Seq<char>,
}

impl View for MetaRow {
    type V = MetaRowView;

    open spec fn view(&self) -> MetaRowView {
        MetaRowView { key: self.key@, value: self.value@ }
    }
}

impl Row for TickerRow {
    open spec fn key_of(v: TickerView) -> Key {
        Key { code: v.thscode, number: 0 }
    }

    fn code(&self) -> &str {
        self.thscode.as_str()
    }

    fn number(&self) -> i64 {
        0
    }

    fn copy(&self) -> Self {
        self.clone()
    }
}

impl Row for TradingDayRow {
    open spec fn key_of(v: TradingDayView) -> Key {
        Key { code: v.date, number: 0 }
    }

    fn code(&self) -> &str {
        self.date.as_str()
    }

    fn number(&self) -> i64 {
        0
    }

    fn copy(&self) -> Self {
        self.clone()
    }
}

impl Row for DailyBarRow {
    open spec fn key_of(v: BarRowView) -> Key {
        Key { code: v.thscode, number: v.bar.date_ms as int }
    }

    fn code(&self) -> &str {
        self.thscode.as_str()
    }

    fn number(&self) -> i64 {
        self.date_ms
    }

    fn copy(&self) -> Self {
        self.clone()
    }
}

impl Row for EventRow {
    open spec fn key_of(v: EventRowView) -> Key {
        Key { code: v.thscode, number: v.event.ex_date_ms as int }
    }

    fn code(&self) -> &str {
        self.thscode.as_str()
    }

    fn number(&self) -> i64 {
        self.event.ex_date_ms
    }

    fn copy(&self) -> Self {
        EventRow {
            thscode: self.thscode.clone(),
            event: self.event,
            allot_price: self.allot_price,
        }
    }
}

impl Row for TimedSnapshot {
    open spec fn key_of(v: TimedSnapshotView) -> Key {
        Key { code: v.row.thscode, number: v.ts_ms as int }
    }

    fn code(&self) -> &str {
        self.row.thscode.as_str()
    }

    fn number(&self) -> i64 {
        self.ts_ms
    }

    fn copy(&self) -> Self {
        TimedSnapshot { ts_ms: self.ts_ms, row: self.row.clone() }
    }
}

impl Row for MetaRow {
    open spec fn key_of(v: MetaRowView) -> Key {
        Key { code: v.key, number: 0 }
    }

    fn code(&self) -> &str {
        self.key.as_str()
    }

    fn number(&self) -> i64 {
        0
    }

    fn copy(&self) -> Self {
        MetaRow { key: self.key.clone(), value: self.value.clone() }
    }
}

/// The store of market data.
#[derive(Debug)]
pub struct Db {
    pub meta: Table<MetaRow>,
    pub trading_days: Table<TradingDayRow>,
    pub tickers: Table<TickerRow>,
    pub daily_bars: Table<DailyBarRow>,
    pub adj_daily_bars: Table<DailyBarRow>,
    pub adjustment_events: Table<EventRow>,
    pub snapshots: Table<TimedSnapshot>,
}

#[verifier::ext_equal]
pub struct StoreView {
    pub meta: Seq<MetaRowView>,
    pub trading_days: Seq<TradingDayView>,
    pub tickers: Seq<TickerView>,
    pub daily_bars: Seq<BarRowView>,
    pub adj_daily_bars: Seq<BarRowView>,
    pub adjustment_events: Seq<EventRowView>,
    pub snapshots: Seq<TimedSnapshotView>,
}

impl View for Db {
    type V = StoreView;

    open spec fn view(&self) -> StoreView {
        StoreView {
            meta: self.meta@,
            trading_days: self.trading_days@,
            tickers: self.tickers@,
            daily_bars: self.daily_bars@,
            adj_daily_bars: self.adj_daily_bars@,
            adjustment_events: self.adjustment_events@,
            snapshots: self.snapshots@,
        }
    }
}

/// Snapshots of one time.
pub open spec fn timed(ts_ms: i64, rows: Seq<SnapshotRowView>) -> Seq<TimedSnapshotView> {
    Seq::new(rows.len(), |i: int| TimedSnapshotView { ts_ms, row: rows[i] })
}

pub open spec fn snapshot_views(rows: Seq<SnapshotRow>) -> Seq<SnapshotRowView> {
    Seq::new(rows.len(), |i: int| rows[i]@)
}

/// The latest snapshot of a stock.
pub open spec fn latest_of(snapshots: Seq<TimedSnapshotView>, code: Seq<char>) -> Option<
    TimedSnapshotView,
> {
    let own = Table::<TimedSnapshot>::of_code(snapshots, code);
    if own.len() == 0 {
        None
    } else {
        Some(own.last())
    }
}

/// The latest date of daily bars, by text.
pub open spec fn last_date(bars: Seq<BarRowView>) -> Option<Seq<char>>
    decreases bars.len(),
{
    if bars.len() == 0 {
        None
    } else {
        let d = bars.last().bar.date;
        match last_date(bars.drop_last()) {
            Some(best) => Some(
                if text::text_less(best, d) {
                    d
                } else {
                    best
                },
            ),
            None => Some(d),
        }
    }
}

/// The latest time of snapshots.
pub open spec fn last_time(snapshots: Seq<TimedSnapshotView>) -> Option<i64>
    decreases snapshots.len(),
{
    if snapshots.len() == 0 {
        None
    } else {
        let t = snapshots.last().ts_ms;
        match last_time(snapshots.drop_last()) {
            Some(best) => Some(
                if best < t {
                    t
                } else {
                    best
                },
            ),
            None => Some(t),
        }
    }
}

/// The securities whose code, name or ticker matches a search.
pub open spec fn matching(tickers: Seq<TickerView>, q: Seq<char>) -> Seq<TickerView>
    decreases tickers.len(),
{
    if tickers.len() == 0 {
        Seq::empty()
    } else {
        let before = matching(tickers.drop_last(), q);
        let t = tickers.last();
        let p = like::search_pattern(q);
        if like::like(t.thscode, p) || like::like(t.name, p) || like::like(t.ticker, p) {
            before.push(t)
        } else {
            before
        }
    }
}

pub open spec fn symbol_views(list: Seq<(String, String, String)>) -> Seq<
    (Seq<char>, Seq<char>, Seq<char>),
> {
    Seq::new(list.len(), |i: int| (list[i].0@, list[i].1@, list[i].2@))
}

pub open spec fn recent_bar(b: BarView) -> RecentBar {
    RecentBar {
        date_ms: b.date_ms,
        open: b.open,
        high: b.high,
        low: b.low,
        close: b.close,
        volume: b.volume,
    }
}

/// The last rows of a list.
pub open spec fn last_rows<V>(rows: Seq<V>, n: int) -> Seq<V> {
    rows.skip(decimal::max(rows.len() - n, 0))
}

/// The latest snapshot of each stock that has a price, by code.
pub open spec fn latest_priced(snapshots: Seq<TimedSnapshotView>) -> Seq<SnapshotRowView> {
    priced_at(snapshots, Table::<TimedSnapshot>::latest(snapshots))
}

/// The snapshots at places that have a price.
pub open spec fn priced_at(snapshots: Seq<TimedSnapshotView>, places: Seq<int>) -> Seq<
    SnapshotRowView,
>
    decreases places.len(),
{
    if places.len() == 0 {
        Seq::empty()
    } else {
        let before = priced_at(snapshots, places.drop_last());
        let row = snapshots[places.last()].row;
        if row.last_price > 0 {
            before.push(row)
        } else {
            before
        }
    }
}

/// The quotes of snapshots.
pub open spec fn quotes_of(rows: Seq<SnapshotRowView>) -> Seq<LatestQuote> {
    Seq::new(
        rows.len(),
        |i: int|
            LatestQuote { last_price: rows[i].last_price, pct: rows[i].price_change_ratio_pct },
    )
}

/// A snapshot as a query gives it.
#[derive(Debug)]
pub struct SnapshotView {
    pub thscode: String,
    pub last_price: Decimal,
    pub pct: Decimal,
    pub prev_price: Decimal,
    pub volume: Decimal,
    pub turnover: Decimal,
}

/// Whether a row shows a snapshot.
pub open spec fn shows(r: SnapshotView, row: SnapshotRowView) -> bool {
    &&& r.thscode@ == row.thscode
    &&& r.last_price == row.last_price
    &&& r.pct == row.price_change_ratio_pct
    &&& r.prev_price == row.prev_price
    &&& r.volume == row.volume
    &&& r.turnover == row.turnover
}

/// The actions of a stock, by date.
pub open spec fn events_of(events: Seq<EventRowView>, code: Seq<char>) -> Seq<AdjustmentEvent> {
    let own = Table::<EventRow>::of_code(events, code);
    Seq::new(own.len(), |i: int| own[i].event)
}

/// The adjusted rows of a stock.
pub open spec fn adjusted_rows(
    bars: Seq<BarRowView>,
    events: Seq<EventRowView>,
    code: Seq<char>,
) -> Seq<BarRowView> {
    let own = Table::<DailyBarRow>::of_code(bars, code);
    Seq::new(
        own.len(),
        |i: int|
            BarRowView {
                thscode: code,
                bar: adjust::adjusted_bar(own[i].bar, events_of(events, code)),
            },
    )
}

impl StoreView {
    /// The store with the adjusted bars of a stock made anew; where the stock has no bars, as
    /// it is.
    pub open spec fn rebuilt(self, code: Seq<char>) -> StoreView {
        let rows = adjusted_rows(self.daily_bars, self.adjustment_events, code);
        if rows.len() == 0 {
            self
        } else {
            StoreView {
                adj_daily_bars: Table::<DailyBarRow>::all_written(
                    Table::<DailyBarRow>::without_code(self.adj_daily_bars, code),
                    rows,
                ),
                ..self
            }
        }
    }

    /// Whether a stock has a corporate action on a day.
    pub open spec fn acts_on(self, code: Seq<char>, day_ms: i64) -> bool {
        Table::<EventRow>::holds(
            self.adjustment_events,
            Key { code, number: day_ms as int },
        )
    }

    /// The store with the bars made anew of each stock that has an action on a day, among the
    /// first `n` actions.
    pub open spec fn rebuilt_for(self, day_ms: i64, n: nat) -> StoreView
        decreases n,
    {
        if n == 0 {
            self
        } else {
            let before = self.rebuilt_for(day_ms, (n - 1) as nat);
            let e = self.adjustment_events[n - 1];
            if e.event.ex_date_ms == day_ms {
                before.rebuilt(e.thscode)
            } else {
                before
            }
        }
    }

    /// How many bars are made anew for the first `n` actions.
    pub open spec fn rebuilt_count(self, day_ms: i64, n: nat) -> int
        decreases n,
    {
        if n == 0 {
            0
        } else {
            let e = self.adjustment_events[n - 1];
            self.rebuilt_count(day_ms, (n - 1) as nat) + if e.event.ex_date_ms == day_ms {
                Table::<DailyBarRow>::of_code(self.daily_bars, e.thscode).len() as int
            } else {
                0
            }
        }
    }

    /// Adjusted bars with those of a day, among the first `n` bars, of the stocks that have no
    /// action on it.
    pub open spec fn copied(self, adj: Seq<BarRowView>, day_ms: i64, n: nat) -> Seq<BarRowView>
        decreases n,
    {
        if n == 0 {
            adj
        } else {
            let before = self.copied(adj, day_ms, (n - 1) as nat);
            let b = self.daily_bars[n - 1];
            if b.bar.date_ms == day_ms && !self.acts_on(b.thscode, day_ms) {
                Table::<DailyBarRow>::added(before, b)
            } else {
                before
            }
        }
    }

    /// How many bars of a day, among the first `n`, are new among the adjusted ones.
    pub open spec fn copied_count(self, adj: Seq<BarRowView>, day_ms: i64, n: nat) -> int
        decreases n,
    {
        if n == 0 {
            0
        } else {
            let before = self.copied(adj, day_ms, (n - 1) as nat);
            let b = self.daily_bars[n - 1];
            self.copied_count(adj, day_ms, (n - 1) as nat) + if b.bar.date_ms == day_ms
                && !self.acts_on(b.thscode, day_ms) && !Table::<DailyBarRow>::holds(
                before,
                DailyBarRow::key_of(b),
            ) {
                1int
            } else {
                0int
            }
        }
    }

    proof fn lemma_rebuilt_count(self, day_ms: i64, k: nat, n: nat)
        requires
            k <= n,
        ensures
            0 <= self.rebuilt_count(day_ms, k) <= self.rebuilt_count(day_ms, n),
        decreases n,
    {
        if n > 0 {
            if k < n {
                self.lemma_rebuilt_count(day_ms, k, (n - 1) as nat);
            } else {
                self.lemma_rebuilt_count(day_ms, (n - 1) as nat, (n - 1) as nat);
            }
        }
    }

    /// The store after the update of a day.
    pub open spec fn updated(self, day_ms: i64) -> StoreView {
        let s = self.rebuilt_for(day_ms, self.adjustment_events.len());
        StoreView {
            adj_daily_bars: self.copied(s.adj_daily_bars, day_ms, self.daily_bars.len()),
            ..self
        }
    }

    /// What adjusting the bars of a stock takes: its actions fit, and so do its bars.
    pub open spec fn can_adjust(self, code: Seq<char>) -> bool {
        let events = events_of(self.adjustment_events, code);
        let own = Table::<DailyBarRow>::of_code(self.daily_bars, code);
        &&& adjust::events_fit(events)
        &&& forall|i: int| 0 <= i < own.len() ==> adjust::bar_fits((#[trigger] own[i]).bar, events)
    }
}

impl StoreView {
    /// What the update of a day takes: every stock with an action on that day can be adjusted,
    /// and the bars can be counted.
    pub open spec fn can_update(self, day_ms: i64) -> bool {
        &&& forall|i: int|
            0 <= i < self.adjustment_events.len() && (
            #[trigger] self.adjustment_events[i]).event.ex_date_ms == day_ms ==> self.can_adjust(
                self.adjustment_events[i].thscode,
            )
        &&& self.rebuilt_count(day_ms, self.adjustment_events.len()) + self.daily_bars.len()
            <= u64::MAX
    }

    /// How many adjusted bars the update of a day writes.
    pub open spec fn updated_count(self, day_ms: i64) -> int {
        let n = self.adjustment_events.len();
        self.rebuilt_count(day_ms, n) + self.copied_count(
            self.rebuilt_for(day_ms, n).adj_daily_bars,
            day_ms,
            self.daily_bars.len(),
        )
    }
}

/// Sum of the closes of bars.
pub open spec fn closes(rows: Seq<BarRowView>) -> int
    decreases rows.len(),
{
    if rows.len() == 0 {
        0
    } else {
        closes(rows.drop_last()) + rows.last().bar.close
    }
}

/// Sum of the turnovers of bars.
pub open spec fn turnovers(rows: Seq<BarRowView>) -> int
    decreases rows.len(),
{
    if rows.len() == 0 {
        0
    } else {
        turnovers(rows.drop_last()) + rows.last().bar.turnover
    }
}

/// The lowest price of bars.
pub open spec fn lowest(rows: Seq<BarRowView>) -> int
    recommends
        rows.len() > 0,
    decreases rows.len(),
{
    if rows.len() <= 1 {
        rows[0].bar.low as int
    } else {
        decimal::min(lowest(rows.drop_last()), rows.last().bar.low as int)
    }
}

/// The highest price of bars.
pub open spec fn highest(rows: Seq<BarRowView>) -> int
    recommends
        rows.len() > 0,
    decreases rows.len(),
{
    if rows.len() <= 1 {
        rows[0].bar.high as int
    } else {
        decimal::max(highest(rows.drop_last()), rows.last().bar.high as int)
    }
}

/// Up to five bars before the last one.
pub open spec fn five_before(rows: Seq<BarRowView>) -> Seq<BarRowView> {
    last_rows(rows.drop_last(), 5)
}

/// What the screening takes of a stock with at least sixty bars, and of its latest snapshot.
pub open spec fn source_of(rows: Seq<BarRowView>, snapshot: Option<SnapshotRowView>) -> SourceView {
    let last = rows.last();
    let sixty = last_rows(rows, 60);
    SourceView {
        thscode: last.thscode,
        last_close: Some(last.bar.close),
        last_turnover: Some(last.bar.turnover),
        ma20: Some(decimal::div_round(closes(last_rows(rows, 20)), 20) as Decimal),
        ma60: Some(decimal::div_round(closes(sixty), 60) as Decimal),
        min60: Some(lowest(sixty) as Decimal),
        max60: Some(highest(sixty) as Decimal),
        close6: Some(rows[rows.len() - 6].bar.close),
        avg5_turnover: Some(decimal::div_round(turnovers(five_before(rows)), 5) as Decimal),
        price: match snapshot {
            Some(s) => Some(s.last_price),
            None => None,
        },
        pct: match snapshot {
            Some(s) => Some(s.price_change_ratio_pct),
            None => None,
        },
        turnover: match snapshot {
            Some(s) => Some(s.turnover),
            None => None,
        },
    }
}

/// The latest snapshot of a stock, without its time.
pub open spec fn latest_row(snapshots: Seq<TimedSnapshotView>, code: Seq<char>) -> Option<
    SnapshotRowView,
> {
    match latest_of(snapshots, code) {
        Some(s) => Some(s.row),
        None => None,
    }
}

/// What the screening takes of a snapshot is in range.
pub open spec fn snapshot_ok(s: SnapshotRowView) -> bool {
    &&& decimal::price_ok(s.last_price as int)
    &&& decimal::price_ok(s.price_change_ratio_pct as int)
    &&& decimal::money_ok(s.turnover as int)
}

impl StoreView {
    /// The close of the latest daily bar of a stock.
    pub open spec fn last_close(self, code: Seq<char>) -> Option<Decimal> {
        let own = Table::<DailyBarRow>::of_code(self.daily_bars, code);
        if own.len() == 0 {
            None
        } else {
            Some(own.last().bar.close)
        }
    }

    /// The price of the latest snapshot of a stock.
    pub open spec fn last_price(self, code: Seq<char>) -> Option<Decimal> {
        match latest_of(self.snapshots, code) {
            Some(s) => Some(s.row.last_price),
            None => None,
        }
    }

    /// The latest snapshot of a stock, where it was taken since the start of a day.
    pub open spec fn snapshot_since(self, code: Seq<char>, day_start_ms: i64) -> Option<
        SnapshotRowView,
    > {
        match latest_of(self.snapshots, code) {
            Some(s) => if s.ts_ms >= day_start_ms {
                Some(s.row)
            } else {
                None
            },
            None => None,
        }
    }

    /// Whether there is an adjusted bar of a stock for each of its raw bars.
    pub open spec fn is_adjusted(self, code: Seq<char>) -> bool {
        let raw = Table::<DailyBarRow>::of_code(self.daily_bars, code);
        forall|i: int|
            0 <= i < raw.len() ==> Table::<DailyBarRow>::holds(
                self.adj_daily_bars,
                DailyBarRow::key_of(#[trigger] raw[i]),
            )
    }

    /// The bars of a stock for analysis: the adjusted ones, or the raw ones where adjusted ones
    /// are missing.
    pub open spec fn analysis_rows(self, code: Seq<char>) -> Seq<BarRowView> {
        if self.is_adjusted(code) {
            Table::<DailyBarRow>::of_code(self.adj_daily_bars, code)
        } else {
            Table::<DailyBarRow>::of_code(self.daily_bars, code)
        }
    }

    /// What the screening takes of the stocks whose last bars are at places: those with at
    /// least sixty bars.
    pub open spec fn sources_at(self, places: Seq<int>) -> Seq<SourceView>
        decreases places.len(),
    {
        if places.len() == 0 {
            Seq::empty()
        } else {
            let before = self.sources_at(places.drop_last());
            let code = self.daily_bars[places.last()].thscode;
            let rows = self.analysis_rows(code);
            if rows.len() >= 60 {
                before.push(source_of(rows, latest_row(self.snapshots, code)))
            } else {
                before
            }
        }
    }

    pub open spec fn sources(self) -> Seq<SourceView> {
        self.sources_at(Table::<DailyBarRow>::latest(self.daily_bars))
    }

    /// The turnovers of the last day of the stocks whose last bars are at places, by the
    /// average of up to five days before; without those that have no days before, or no
    /// turnover on them.
    pub open spec fn ratios_at(self, places: Seq<int>) -> Seq<(Seq<char>, int)>
        decreases places.len(),
    {
        if places.len() == 0 {
            Seq::empty()
        } else {
            let before = self.ratios_at(places.drop_last());
            let code = self.daily_bars[places.last()].thscode;
            let rows = Table::<DailyBarRow>::of_code(self.daily_bars, code);
            let five = five_before(rows);
            let sum = turnovers(five);
            if five.len() > 0 && sum > 0 {
                before.push(
                    (code, market::ratio(rows.last().bar.turnover * five.len(), sum)),
                )
            } else {
                before
            }
        }
    }

    /// Prices, turnovers and changes in range.
    pub open spec fn in_range(self) -> bool {
        &&& bars_ok(self.daily_bars)
        &&& bars_ok(self.adj_daily_bars)
        &&& forall|i: int|
            0 <= i < self.snapshots.len() ==> snapshot_ok((#[trigger] self.snapshots[i]).row)
    }
}

pub open spec fn bar_ok(b: BarView) -> bool {
    &&& decimal::price_ok(b.open as int)
    &&& decimal::price_ok(b.high as int)
    &&& decimal::price_ok(b.low as int)
    &&& decimal::price_ok(b.close as int)
    &&& decimal::money_ok(b.turnover as int)
}

pub open spec fn bars_ok(rows: Seq<BarRowView>) -> bool {
    forall|i: int| 0 <= i < rows.len() ==> bar_ok((#[trigger] rows[i]).bar)
}

/// The turnover of a stock on the last day by the average of the days before.
#[derive(Debug)]
pub struct VolumeRatio {
    pub thscode: String,
    pub ratio: Decimal,
}

pub open spec fn ratio_views(list: Seq<VolumeRatio>) -> Seq<(Seq<char>, int)> {
    Seq::new(list.len(), |i: int| (list[i].thscode@, list[i].ratio as int))
}

proof fn lemma_of_code_bars(rows: Seq<BarRowView>, code: Seq<char>, i: int)
    requires
        0 <= i < Table::<DailyBarRow>::of_code(rows, code).len(),
    ensures
        exists|j: int|
            0 <= j < rows.len() && Table::<DailyBarRow>::of_code(rows, code)[i]
                == #[trigger] rows[j],
        Table::<DailyBarRow>::of_code(rows, code)[i].thscode == code,
    decreases rows.len(),
{
    let short = rows.drop_last();
    let before = Table::<DailyBarRow>::of_code(short, code);
    if i < before.len() {
        lemma_of_code_bars(short, code, i);
        let j = choose|j: int| 0 <= j < short.len() && before[i] == #[trigger] short[j];
        assert(short[j] == rows[j]);
    } else {
        assert(rows[rows.len() - 1] == rows.last());
    }
}

proof fn lemma_of_code_holds(rows: Seq<BarRowView>, j: int)
    requires
        0 <= j < rows.len(),
    ensures
        Table::<DailyBarRow>::of_code(rows, rows[j].thscode).len() > 0,
    decreases rows.len(),
{
    if j < rows.len() - 1 {
        assert(rows.drop_last()[j] == rows[j]);
        lemma_of_code_holds(rows.drop_last(), j);
    }
}

proof fn lemma_of_code_in_range(rows: Seq<BarRowView>, code: Seq<char>)
    requires
        bars_ok(rows),
    ensures
        bars_ok(Table::<DailyBarRow>::of_code(rows, code)),
{
    let own = Table::<DailyBarRow>::of_code(rows, code);
    assert forall|i: int| 0 <= i < own.len() implies bar_ok((#[trigger] own[i]).bar) by {
        lemma_of_code_bars(rows, code, i);
        let j = choose|j: int| 0 <= j < rows.len() && own[i] == #[trigger] rows[j];
        assert(bar_ok(rows[j].bar));
    }
}

proof fn lemma_snapshot_in_range(snapshots: Seq<TimedSnapshotView>, code: Seq<char>)
    requires
        forall|i: int|
            0 <= i < snapshots.len() ==> snapshot_ok((#[trigger] snapshots[i]).row),
    ensures
        latest_row(snapshots, code) matches Some(s) ==> snapshot_ok(s),
    decreases snapshots.len(),
{
    if snapshots.len() > 0 {
        let short = snapshots.drop_last();
        assert forall|i: int| 0 <= i < short.len() implies snapshot_ok((#[trigger] short[i]).row) by {
            assert(short[i] == snapshots[i]);
        }
        lemma_snapshot_in_range(short, code);
        assert(snapshot_ok(snapshots[snapshots.len() - 1].row));
    }
}

type BarTable = Table<DailyBarRow>;

fn sum_closes(rows: &Vec<DailyBarRow>, from: usize) -> (r: i128)
    requires
        from <= rows@.len(),
        rows@.len() - from <= 100,
        bars_ok(BarTable::views(rows@)),
    ensures
        r == closes(BarTable::views(rows@).skip(from as int)),
        -(rows@.len() - from) * PRICE_MAX <= r <= (rows@.len() - from) * PRICE_MAX,
{
    let ghost views = BarTable::views(rows@);
    let ghost part = views.skip(from as int);
    let mut sum: i128 = 0;
    assert(part.take(0) =~= Seq::empty());
    for i in from..rows.len()
        invariant
            from <= rows@.len(),
            rows@.len() - from <= 100,
            views == BarTable::views(rows@),
            part == views.skip(from as int),
            bars_ok(views),
            sum == closes(part.take(i - from)),
            -(i - from) * PRICE_MAX <= sum <= (i - from) * PRICE_MAX,
    {
        proof {
            assert(part.take(i + 1 - from).drop_last() =~= part.take(i - from));
            assert(part.take(i + 1 - from).last() == views[i as int]);
            assert(bar_ok(views[i as int].bar));
        }
        sum = sum + rows[i].close;
    }
    assert(part.take(part.len() as int) =~= part);
    sum
}

/// The sum of the turnovers of up to five bars before the last one, and how many they are.
fn sum_before(rows: &Vec<DailyBarRow>) -> (r: (i128, usize))
    requires
        rows@.len() > 0,
        bars_ok(BarTable::views(rows@)),
    ensures
        r.0 == turnovers(five_before(BarTable::views(rows@))),
        r.1 == five_before(BarTable::views(rows@)).len(),
        r.1 <= 5,
        -5 * MONEY_MAX <= r.0 <= 5 * MONEY_MAX,
{
    let ghost views = BarTable::views(rows@);
    let n: usize = rows.len() - 1;
    let from: usize = if n > 5 {
        n - 5
    } else {
        0
    };
    let ghost part = five_before(views);
    assert(part =~= views.subrange(from as int, n as int));
    let mut sum: i128 = 0;
    assert(part.take(0) =~= Seq::empty());
    for i in from..n
        invariant
            from <= n < rows@.len(),
            n - from <= 5,
            views == BarTable::views(rows@),
            part == views.subrange(from as int, n as int),
            bars_ok(views),
            sum == turnovers(part.take(i - from)),
            -(i - from) * MONEY_MAX <= sum <= (i - from) * MONEY_MAX,
    {
        proof {
            assert(part.take(i + 1 - from).drop_last() =~= part.take(i - from));
            assert(part.take(i + 1 - from).last() == views[i as int]);
            assert(bar_ok(views[i as int].bar));
        }
        sum = sum + rows[i].turnover;
    }
    assert(part.take(part.len() as int) =~= part);
    (sum, n - from)
}

/// The lowest and the highest price of bars.
fn extremes(rows: &Vec<DailyBarRow>, from: usize) -> (r: (Decimal, Decimal))
    requires
        from < rows@.len(),
        bars_ok(BarTable::views(rows@)),
    ensures
        r.0 == lowest(BarTable::views(rows@).skip(from as int)),
        r.1 == highest(BarTable::views(rows@).skip(from as int)),
        decimal::price_ok(r.0 as int),
        decimal::price_ok(r.1 as int),
{
    let ghost views = BarTable::views(rows@);
    let ghost part = views.skip(from as int);
    let mut low = rows[from].low;
    let mut high = rows[from].high;
    proof {
        assert(part.take(1)[0] == views[from as int]);
        assert(bar_ok(views[from as int].bar));
    }
    for i in from + 1..rows.len()
        invariant
            from < rows@.len(),
            views == BarTable::views(rows@),
            part == views.skip(from as int),
            bars_ok(views),
            low == lowest(part.take(i - from)),
            high == highest(part.take(i - from)),
            decimal::price_ok(low as int),
            decimal::price_ok(high as int),
    {
        proof {
            assert(part.take(i + 1 - from).drop_last() =~= part.take(i - from));
            assert(part.take(i + 1 - from).last() == views[i as int]);
            assert(bar_ok(views[i as int].bar));
        }
        if rows[i].low < low {
            low = rows[i].low;
        }
        if rows[i].high > high {
            high = rows[i].high;
        }
    }
    assert(part.take(part.len() as int) =~= part);
    (low, high)
}

fn are_bars_ok(rows: &Vec<DailyBarRow>) -> (r: bool)
    ensures
        r == bars_ok(BarTable::views(rows@)),
{
    let ghost views = BarTable::views(rows@);
    for i in 0..rows.len()
        invariant
            views == BarTable::views(rows@),
            forall|j: int| 0 <= j < i ==> bar_ok((#[trigger] views[j]).bar),
    {
        let b = &rows[i];
        assert(views[i as int] == b@);
        if !is_price(b.open) || !is_price(b.high) || !is_price(b.low) || !is_price(b.close)
            || !is_money(b.turnover) {
            assert(!bar_ok(views[i as int].bar));
            return false;
        }
    }
    true
}

/// The last rows as bars.
pub open spec fn recent_of(rows: Seq<BarRowView>, n: int) -> Seq<RecentBar> {
    let own = last_rows(rows, n);
    Seq::new(own.len(), |i: int| recent_bar(own[i].bar))
}

fn last_bars(own: &Vec<DailyBarRow>, n: u32) -> (r: Vec<RecentBar>)
    ensures
        r@ == recent_of(BarTable::views(own@), n as int),
{
    let ghost views = BarTable::views(own@);
    assert(views.len() == own@.len());
    let len: usize = own.len();
    let from: usize = if len as u64 > n as u64 {
        len - n as usize
    } else {
        0
    };
    let ghost part = last_rows(views, n as int);
    let mut out: Vec<RecentBar> = Vec::new();
    for i in from..len
        invariant
            from <= len,
            len == own@.len(),
            views == BarTable::views(own@),
            part == views.skip(from as int),
            out@.len() == i - from,
            forall|j: int| 0 <= j < i - from ==> #[trigger] out@[j] == recent_bar(part[j].bar),
    {
        let b = &own[i];
        assert(part[i - from] == b@);
        out.push(
            RecentBar {
                date_ms: b.date_ms,
                open: b.open,
                high: b.high,
                low: b.low,
                close: b.close,
                volume: b.volume,
            },
        );
    }
    assert(out@ =~= Seq::new(part.len(), |i: int| recent_bar(part[i].bar)));
    out
}

fn screen_source(rows: &Vec<DailyBarRow>, snapshot: Option<TimedSnapshot>) -> (r: ScreenSource)
    requires
        rows@.len() >= 60,
        bars_ok(BarTable::views(rows@)),
        snapshot matches Some(s) ==> snapshot_ok(s@.row),
    ensures
        r@ == source_of(
            BarTable::views(rows@),
            match snapshot {
                Some(s) => Some(s@.row),
                None => None,
            },
        ),
        r@.ok(),
{
    let ghost views = BarTable::views(rows@);
    let n: usize = rows.len();
    let twenty = sum_closes(rows, n - 20);
    let sixty = sum_closes(rows, n - 60);
    let (low, high) = extremes(rows, n - 60);
    let (sum, _count) = sum_before(rows);
    proof {
        assert(bar_ok(views[n - 1].bar));
        assert(bar_ok(views[n - 6].bar));
        decimal::lemma_div_round_exact(PRICE_MAX as int, 20);
        decimal::lemma_div_round_exact(-PRICE_MAX as int, 20);
        decimal::lemma_div_round_monotone(twenty as int, PRICE_MAX * 20, 20);
        decimal::lemma_div_round_monotone(-PRICE_MAX * 20, twenty as int, 20);
        decimal::lemma_div_round_exact(PRICE_MAX as int, 60);
        decimal::lemma_div_round_exact(-PRICE_MAX as int, 60);
        decimal::lemma_div_round_monotone(sixty as int, PRICE_MAX * 60, 60);
        decimal::lemma_div_round_monotone(-PRICE_MAX * 60, sixty as int, 60);
        decimal::lemma_div_round_exact(MONEY_MAX as int, 5);
        decimal::lemma_div_round_exact(-MONEY_MAX as int, 5);
        decimal::lemma_div_round_monotone(sum as int, MONEY_MAX * 5, 5);
        decimal::lemma_div_round_monotone(-MONEY_MAX * 5, sum as int, 5);
    }
    let (price, pct, turnover) = match snapshot {
        Some(s) => (
            Some(s.row.last_price),
            Some(s.row.price_change_ratio_pct),
            Some(s.row.turnover),
        ),
        None => (None, None, None),
    };
    ScreenSource {
        thscode: rows[n - 1].thscode.clone(),
        last_close: Some(rows[n - 1].close),
        last_turnover: Some(rows[n - 1].turnover),
        ma20: Some(rounded_div(twenty, 20)),
        ma60: Some(rounded_div(sixty, 60)),
        min60: Some(low),
        max60: Some(high),
        close6: Some(rows[n - 6].close),
        avg5_turnover: Some(rounded_div(sum, 5)),
        price,
        pct,
        turnover,
    }
}

/// Snapshots that come a second time change nothing.
pub proof fn snapshots_are_stored_once(
    snapshots: Seq<TimedSnapshotView>,
    ts_ms: i64,
    rows: Seq<SnapshotRowView>,
)
    requires
        Table::<TimedSnapshot>::sorted(snapshots),
    ensures
        ({
            let once = Table::<TimedSnapshot>::all_added(snapshots, timed(ts_ms, rows));
            Table::<TimedSnapshot>::all_added(once, timed(ts_ms, rows)) == once
        }),
{
    Table::<TimedSnapshot>::adding_a_list_twice_is_adding_it_once(snapshots, timed(ts_ms, rows));
}

/// A setting that is written is read back, and no other changes.
pub proof fn market_settings_are_read_back(
    meta: Seq<MetaRowView>,
    key: Seq<char>,
    value: Seq<char>,
    other: Seq<char>,
)
    requires
        Table::<MetaRow>::sorted(meta),
    ensures
        ({
            let after = Table::<MetaRow>::written(meta, (MetaRowView { key, value }));
            &&& Table::<MetaRow>::found(after, Key { code: key, number: 0 }) == Some(
                MetaRowView { key, value },
            )
            &&& other != key ==> Table::<MetaRow>::found(after, Key { code: other, number: 0 })
                == Table::<MetaRow>::found(meta, Key { code: other, number: 0 })
        }),
{
    let v = MetaRowView { key, value };
    Table::<MetaRow>::written_rows_are_read_back(meta, v);
    if other != key {
        Table::<MetaRow>::other_rows_stay(meta, v, Key { code: other, number: 0 });
    }
}

/// Making the adjusted bars of a stock anew gives it exactly its adjusted bars, and leaves those
/// of the others.
pub proof fn rebuilding_replaces_one_stock(store: StoreView, code: Seq<char>, other: Seq<char>)
    requires
        Table::<DailyBarRow>::sorted(store.daily_bars),
        Table::<DailyBarRow>::sorted(store.adj_daily_bars),
        Table::<DailyBarRow>::of_code(store.daily_bars, code).len() > 0,
        other != code,
    ensures
        Table::<DailyBarRow>::of_code(store.rebuilt(code).adj_daily_bars, code) == adjusted_rows(
            store.daily_bars,
            store.adjustment_events,
            code,
        ),
        Table::<DailyBarRow>::of_code(store.rebuilt(code).adj_daily_bars, other)
            == Table::<DailyBarRow>::of_code(store.adj_daily_bars, other),
{
    let rows = adjusted_rows(store.daily_bars, store.adjustment_events, code);
    let own = Table::<DailyBarRow>::of_code(store.daily_bars, code);
    Table::<DailyBarRow>::rows_of_a_text_run(store.daily_bars, code);
    assert(Table::<DailyBarRow>::runs(rows, code)) by {
        assert forall|i: int, j: int| 0 <= i < j < rows.len() implies DailyBarRow::key_of(
            #[trigger] rows[i],
        ).number < DailyBarRow::key_of(#[trigger] rows[j]).number by {
            assert(DailyBarRow::key_of(own[i]).number < DailyBarRow::key_of(own[j]).number);
        }
    }
    Table::<DailyBarRow>::taking_out_a_text_leaves_the_others(
        store.adj_daily_bars,
        code,
        other,
    );
    Table::<DailyBarRow>::runs_are_written_as_they_are(
        Table::<DailyBarRow>::without_code(store.adj_daily_bars, code),
        rows,
        code,
        other,
    );
}

impl Db {
    pub open spec fn wf(self) -> bool {
        &&& self.meta.wf()
        &&& self.trading_days.wf()
        &&& self.tickers.wf()
        &&& self.daily_bars.wf()
        &&& self.adj_daily_bars.wf()
        &&& self.adjustment_events.wf()
        &&& self.snapshots.wf()
    }

    /// An empty store.
    pub fn new() -> (r: Self)
        ensures
            r.wf(),
            r@ == (StoreView {
                meta: Seq::empty(),
                trading_days: Seq::empty(),
                tickers: Seq::empty(),
                daily_bars: Seq::empty(),
                adj_daily_bars: Seq::empty(),
                adjustment_events: Seq::empty(),
                snapshots: Seq::empty(),
            }),
    {
        Db {
            meta: Table::new(),
            trading_days: Table::new(),
            tickers: Table::new(),
            daily_bars: Table::new(),
            adj_daily_bars: Table::new(),
            adjustment_events: Table::new(),
            snapshots: Table::new(),
        }
    }

    /// Writes securities: new ones, or in place of those with their codes. Gives how many.
    pub fn upsert_tickers(&mut self, rows: &Vec<TickerRow>) -> (r: usize)
        requires
            old(self).wf(),
        ensures
            final(self).wf(),
            r == rows@.len(),
            final(self)@ == (StoreView {
                tickers: Table::<TickerRow>::all_written(
                    old(self)@.tickers,
                    Table::<TickerRow>::views(rows@),
                ),
                ..old(self)@
            }),
    {
        self.tickers.write_all(rows);
        rows.len()
    }

    /// Writes trading days: new ones, or in place of those of their dates. Gives how many.
    pub fn upsert_trading_days(&mut self, rows: &Vec<TradingDayRow>) -> (r: usize)
        requires
            old(self).wf(),
        ensures
            final(self).wf(),
            r == rows@.len(),
            final(self)@ == (StoreView {
                trading_days: Table::<TradingDayRow>::all_written(
                    old(self)@.trading_days,
                    Table::<TradingDayRow>::views(rows@),
                ),
                ..old(self)@
            }),
    {
        self.trading_days.write_all(rows);
        rows.len()
    }

    /// Writes daily bars: new ones, or in place of those of their stock and day.
    pub fn insert_daily_bars(&mut self, rows: &Vec<DailyBarRow>) -> (r: usize)
        requires
            old(self).wf(),
        ensures
            final(self).wf(),
            r == rows@.len(),
            final(self)@ == (StoreView {
                daily_bars: Table::<DailyBarRow>::all_written(
                    old(self)@.daily_bars,
                    Table::<DailyBarRow>::views(rows@),
                ),
                ..old(self)@
            }),
    {
        self.daily_bars.write_all(rows);
        rows.len()
    }

    /// Writes corporate actions: new ones, or in place of those of their stock and day.
    pub fn import_adjustment_factors(&mut self, rows: &Vec<EventRow>) -> (r: usize)
        requires
            old(self).wf(),
        ensures
            final(self).wf(),
            r == rows@.len(),
            final(self)@ == (StoreView {
                adjustment_events: Table::<EventRow>::all_written(
                    old(self)@.adjustment_events,
                    Table::<EventRow>::views(rows@),
                ),
                ..old(self)@
            }),
    {
        self.adjustment_events.write_all(rows);
        rows.len()
    }

    /// Adds the snapshots of a time; those that are there already stay. Gives how many were
    /// added.
    pub fn insert_snapshots(&mut self, ts_ms: i64, rows: &Vec<SnapshotRow>) -> (r: usize)
        requires
            old(self).wf(),
        ensures
            final(self).wf(),
            r == final(self)@.snapshots.len() - old(self)@.snapshots.len(),
            final(self)@ == (StoreView {
                snapshots: Table::<TimedSnapshot>::all_added(
                    old(self)@.snapshots,
                    timed(ts_ms, snapshot_views(rows@)),
                ),
                ..old(self)@
            }),
    {
        let mut list: Vec<TimedSnapshot> = Vec::new();
        for i in 0..rows.len()
            invariant
                list@.len() == i,
                forall|j: int|
                    0 <= j < i ==> (#[trigger] list@[j])@ == (TimedSnapshotView {
                        ts_ms,
                        row: rows@[j]@,
                    }),
        {
            list.push(TimedSnapshot { ts_ms, row: rows[i].clone() });
        }
        assert(Table::<TimedSnapshot>::views(list@) =~= timed(ts_ms, snapshot_views(rows@)));
        self.snapshots.add_all(&list)
    }

    /// Reads a setting.
    pub fn meta_get(&self, key: &str) -> (r: Option<String>)
        ensures
            match Table::<MetaRow>::found(self@.meta, Key { code: key@, number: 0 }) {
                Some(row) => r matches Some(v) && v@ == row.value,
                None => r is None,
            },
    {
        match self.meta.get(key, 0) {
            Some(row) => Some(row.value.clone()),
            None => None,
        }
    }

    /// Writes a setting.
    pub fn meta_set(&mut self, key: &str, value: &str)
        requires
            old(self).wf(),
        ensures
            final(self).wf(),
            final(self)@ == (StoreView {
                meta: Table::<MetaRow>::written(
                    old(self)@.meta,
                    (MetaRowView { key: key@, value: value@ }),
                ),
                ..old(self)@
            }),
    {
        self.meta.write(MetaRow { key: key.to_owned(), value: value.to_owned() });
    }

    /// The date of the latest daily bar.
    pub fn last_bar_date(&self) -> (r: Option<String>)
        ensures
            (match r {
                Some(d) => Some(d@),
                None => None,
            }) == last_date(self@.daily_bars),
    {
        let ghost bars = self@.daily_bars;
        let n: usize = self.daily_bars.rows.len();
        if n == 0 {
            return None;
        }
        let mut best: usize = 0;
        assert(bars.take(1).drop_last() =~= Seq::empty());
        assert(last_date(bars.take(1).drop_last()) is None);
        assert(bars.take(1).last() == bars[0]);
        for i in 1..n
            invariant
                bars == self.daily_bars@,
                n == self.daily_bars.rows@.len(),
                best < n,
                last_date(bars.take(i as int)) == Some(bars[best as int].bar.date),
        {
            assert(bars.take(i + 1).drop_last() =~= bars.take(i as int));
            assert(bars.take(i + 1).last() == bars[i as int]);
            let rows = &self.daily_bars.rows;
            if is_less(rows[best].date.as_str(), rows[i].date.as_str()) {
                best = i;
            }
        }
        assert(bars.take(n as int) =~= bars);
        Some(self.daily_bars.rows[best].date.clone())
    }

    fn last_snapshot_time(&self) -> (r: Option<i64>)
        ensures
            r == last_time(self@.snapshots),
    {
        let ghost all = self@.snapshots;
        let mut best: Option<i64> = None;
        assert(all.take(0) =~= Seq::empty());
        for i in 0..self.snapshots.rows.len()
            invariant
                all == self.snapshots@,
                best == last_time(all.take(i as int)),
        {
            assert(all.take(i + 1).drop_last() =~= all.take(i as int));
            assert(all.take(i + 1).last() == all[i as int]);
            let t = self.snapshots.rows[i].ts_ms;
            best = match best {
                Some(b) => if b < t {
                    Some(t)
                } else {
                    Some(b)
                },
                None => Some(t),
            };
        }
        assert(all.take(all.len() as int) =~= all);
        best
    }

    /// How much the store holds.
    pub fn stats(&self) -> (r: Stats)
        requires
            self@.tickers.len() <= i64::MAX,
            self@.trading_days.len() <= i64::MAX,
            self@.daily_bars.len() <= i64::MAX,
            self@.adjustment_events.len() <= i64::MAX,
            self@.snapshots.len() <= i64::MAX,
        ensures
            r.tickers == self@.tickers.len(),
            r.trading_days == self@.trading_days.len(),
            r.daily_bars == self@.daily_bars.len(),
            r.adjustment_events == self@.adjustment_events.len(),
            r.snapshots == self@.snapshots.len(),
            (match r.last_bar_date {
                Some(d) => Some(d@),
                None => None,
            }) == last_date(self@.daily_bars),
            r.last_snapshot_ts == last_time(self@.snapshots),
    {
        Stats {
            tickers: self.tickers.rows.len() as i64,
            trading_days: self.trading_days.rows.len() as i64,
            daily_bars: self.daily_bars.rows.len() as i64,
            adjustment_events: self.adjustment_events.rows.len() as i64,
            snapshots: self.snapshots.rows.len() as i64,
            last_bar_date: self.last_bar_date(),
            last_snapshot_ts: self.last_snapshot_time(),
        }
    }

    /// Whether a date, `yyyyMMdd`, is a trading day.
    pub fn is_trading_day(&self, yyyymmdd: &str) -> (r: bool)
        ensures
            r == Table::<TradingDayRow>::holds(
                self@.trading_days,
                Key { code: yyyymmdd@, number: 0 },
            ),
    {
        match self.trading_days.get(yyyymmdd, 0) {
            Some(_) => true,
            None => false,
        }
    }

    /// The name of a security.
    pub fn ticker_name(&self, thscode: &str) -> (r: Option<String>)
        ensures
            match Table::<TickerRow>::found(self@.tickers, Key { code: thscode@, number: 0 }) {
                Some(row) => r matches Some(v) && v@ == row.name,
                None => r is None,
            },
    {
        match self.tickers.get(thscode, 0) {
            Some(row) => Some(row.name.clone()),
            None => None,
        }
    }

    /// The first securities, by code, whose code, name or ticker matches a search: code, name
    /// and ticker of each.
    pub fn search_tickers(&self, q: &str, limit: u32) -> (r: Vec<(String, String, String)>)
        ensures
            ({
                let m = matching(self@.tickers, q@);
                symbol_views(r@) == Seq::new(
                    decimal::min(m.len() as int, limit as int) as nat,
                    |i: int| (m[i].thscode, m[i].name, m[i].ticker),
                )
            }),
    {
        let ghost all = self@.tickers;
        let mut out: Vec<(String, String, String)> = Vec::new();
        assert(all.take(0) =~= Seq::empty());
        for i in 0..self.tickers.rows.len()
            invariant
                all == self.tickers@,
                out@.len() == decimal::min(
                    matching(all.take(i as int), q@).len() as int,
                    limit as int,
                ),
                forall|j: int|
                    0 <= j < out@.len() ==> (
                    #[trigger] symbol_views(out@)[j]) == {
                        let t = matching(all.take(i as int), q@)[j];
                        (t.thscode, t.name, t.ticker)
                    },
        {
            assert(all.take(i + 1).drop_last() =~= all.take(i as int));
            assert(all.take(i + 1).last() == all[i as int]);
            let t = &self.tickers.rows[i];
            let found = is_found(t.thscode.as_str(), q) || is_found(t.name.as_str(), q)
                || is_found(t.ticker.as_str(), q);
            let ghost before = symbol_views(out@);
            if found && (out.len() as u64) < (limit as u64) {
                out.push((t.thscode.clone(), t.name.clone(), t.ticker.clone()));
                assert(symbol_views(out@) =~= before.push(
                    (all[i as int].thscode, all[i as int].name, all[i as int].ticker),
                ));
            }
        }
        assert(all.take(all.len() as int) =~= all);
        assert(symbol_views(out@) =~= Seq::new(
            decimal::min(matching(all, q@).len() as int, limit as int) as nat,
            |i: int|
                (matching(all, q@)[i].thscode, matching(all, q@)[i].name, matching(all, q@)[i].ticker),
        ));
        out
    }

    fn latest_snapshot(&self, thscode: &str) -> (r: Option<TimedSnapshot>)
        ensures
            (match r {
                Some(s) => Some(s@),
                None => None,
            }) == latest_of(self@.snapshots, thscode@),
    {
        let mut own = self.snapshots.rows_of(thscode);
        let ghost views = Table::<TimedSnapshot>::views(own@);
        assert(views.len() == own@.len());
        let r = own.pop();
        assert(own@.len() <= views.len());
        r
    }

    /// The latest price of a stock.
    pub fn latest_snapshot_price(&self, thscode: &str) -> (r: Option<Decimal>)
        ensures
            r == match latest_of(self@.snapshots, thscode@) {
                Some(s) => Some(s.row.last_price),
                None => None,
            },
            r == self@.last_price(thscode@),
    {
        match self.latest_snapshot(thscode) {
            Some(s) => Some(s.row.last_price),
            None => None,
        }
    }

    /// Price, change, change in percent and time of the latest snapshot of a stock.
    pub fn latest_snapshot_full(&self, thscode: &str) -> (r: Option<
        (Decimal, Decimal, Decimal, i64),
    >)
        ensures
            r == match latest_of(self@.snapshots, thscode@) {
                Some(s) => Some(
                    (s.row.last_price, s.row.price_change, s.row.price_change_ratio_pct, s.ts_ms),
                ),
                None => None,
            },
    {
        match self.latest_snapshot(thscode) {
            Some(s) => Some(
                (s.row.last_price, s.row.price_change, s.row.price_change_ratio_pct, s.ts_ms),
            ),
            None => None,
        }
    }

    /// Price, open, high, low and volume of the latest snapshot of a stock since the start of
    /// the day.
    pub fn today_snapshot(&self, thscode: &str, day_start_ms: i64) -> (r: Option<
        (Decimal, Decimal, Decimal, Decimal, Decimal),
    >)
        ensures
            r == match latest_of(self@.snapshots, thscode@) {
                Some(s) => if s.ts_ms >= day_start_ms {
                    Some(
                        (
                            s.row.last_price,
                            s.row.open_price,
                            s.row.high_price,
                            s.row.low_price,
                            s.row.volume,
                        ),
                    )
                } else {
                    None
                },
                None => None,
            },
            r == match self@.snapshot_since(thscode@, day_start_ms) {
                Some(row) => Some(
                    (row.last_price, row.open_price, row.high_price, row.low_price, row.volume),
                ),
                None => None,
            },
    {
        match self.latest_snapshot(thscode) {
            Some(s) => if s.ts_ms >= day_start_ms {
                Some(
                    (
                        s.row.last_price,
                        s.row.open_price,
                        s.row.high_price,
                        s.row.low_price,
                        s.row.volume,
                    ),
                )
            } else {
                None
            },
            None => None,
        }
    }

    /// The close of the latest daily bar of a stock.
    pub fn prev_close(&self, thscode: &str) -> (r: Option<Decimal>)
        ensures
            ({
                let own = Table::<DailyBarRow>::of_code(self@.daily_bars, thscode@);
                r == if own.len() == 0 {
                    None
                } else {
                    Some(own.last().bar.close)
                }
            }),
            r == self@.last_close(thscode@),
    {
        let own = self.daily_bars.rows_of(thscode);
        let ghost views = Table::<DailyBarRow>::views(own@);
        assert(views.len() == own@.len());
        if own.len() == 0 {
            None
        } else {
            Some(own[own.len() - 1].close)
        }
    }

    fn analysis_rows(&self, thscode: &str) -> (r: Vec<DailyBarRow>)
        ensures
            Table::<DailyBarRow>::views(r@) == self@.analysis_rows(thscode@),
    {
        let raw = self.daily_bars.rows_of(thscode);
        let ghost views = Table::<DailyBarRow>::views(raw@);
        assert(views.len() == raw@.len());
        for i in 0..raw.len()
            invariant
                views == Table::<DailyBarRow>::views(raw@),
                views == Table::<DailyBarRow>::of_code(self@.daily_bars, thscode@),
                forall|j: int|
                    0 <= j < i ==> Table::<DailyBarRow>::holds(
                        self@.adj_daily_bars,
                        DailyBarRow::key_of(#[trigger] views[j]),
                    ),
        {
            let b = &raw[i];
            assert(views[i as int] == b@);
            if self.adj_daily_bars.get(b.thscode.as_str(), b.date_ms).is_none() {
                assert(!Table::<DailyBarRow>::holds(
                    self@.adj_daily_bars,
                    DailyBarRow::key_of(views[i as int]),
                ));
                return raw;
            }
        }
        self.adj_daily_bars.rows_of(thscode)
    }

    /// The last daily bars of a stock, by date, as they were traded.
    pub fn recent_bars(&self, thscode: &str, n: u32) -> (r: Vec<RecentBar>)
        ensures
            r@ == recent_of(
                Table::<DailyBarRow>::of_code(self@.daily_bars, thscode@),
                n as int,
            ),
    {
        let own = self.daily_bars.rows_of(thscode);
        last_bars(&own, n)
    }

    /// The last daily bars of a stock for analysis, by date: the adjusted ones, or the raw ones
    /// where adjusted ones are missing.
    pub fn analysis_bars(&self, thscode: &str, n: u32) -> (r: Vec<RecentBar>)
        ensures
            r@ == recent_of(self@.analysis_rows(thscode@), n as int),
    {
        let own = self.analysis_rows(thscode);
        last_bars(&own, n)
    }

    /// The latest snapshots of the stocks that have a price, by code.
    pub fn latest_snapshots(&self) -> (r: Vec<SnapshotView>)
        ensures
            r@.len() == latest_priced(self@.snapshots).len(),
            forall|i: int|
                0 <= i < r@.len() ==> shows(#[trigger] r@[i], latest_priced(self@.snapshots)[i]),
    {
        let ghost all = self@.snapshots;
        let ghost latest = Table::<TimedSnapshot>::latest(all);
        let places = self.snapshots.latest_places();
        let mut out: Vec<SnapshotView> = Vec::new();
        assert(latest.take(0) =~= Seq::empty());
        for i in 0..places.len()
            invariant
                all == self.snapshots@,
                places@.len() == latest.len(),
                forall|j: int|
                    0 <= j < places@.len() ==> #[trigger] places@[j] == latest[j] && places@[j]
                        < self.snapshots.rows@.len(),
                out@.len() == priced_at(all, latest.take(i as int)).len(),
                forall|j: int|
                    0 <= j < out@.len() ==> shows(
                        #[trigger] out@[j],
                        priced_at(all, latest.take(i as int))[j],
                    ),
        {
            assert(latest.take(i + 1).drop_last() =~= latest.take(i as int));
            assert(latest.take(i + 1).last() == places@[i as int]);
            let s = &self.snapshots.rows[places[i]];
            assert(s@ == all[places@[i as int] as int]);
            if s.row.last_price > 0 {
                out.push(
                    SnapshotView {
                        thscode: s.row.thscode.clone(),
                        last_price: s.row.last_price,
                        pct: s.row.price_change_ratio_pct,
                        prev_price: s.row.prev_price,
                        volume: s.row.volume,
                        turnover: s.row.turnover,
                    },
                );
            }
        }
        assert(latest.take(latest.len() as int) =~= latest);
        out
    }

    /// The latest quotes of the stocks that have a price, by code.
    pub fn latest_quotes(&self) -> (r: Vec<LatestQuote>)
        ensures
            r@ == quotes_of(latest_priced(self@.snapshots)),
    {
        let rows = self.latest_snapshots();
        let ghost priced = latest_priced(self@.snapshots);
        let mut out: Vec<LatestQuote> = Vec::new();
        for i in 0..rows.len()
            invariant
                rows@.len() == priced.len(),
                forall|j: int| 0 <= j < rows@.len() ==> shows(#[trigger] rows@[j], priced[j]),
                out@.len() == i,
                forall|j: int| 0 <= j < i ==> #[trigger] out@[j] == quotes_of(priced)[j],
        {
            assert(shows(rows@[i as int], priced[i as int]));
            out.push(LatestQuote { last_price: rows[i].last_price, pct: rows[i].pct });
        }
        assert(out@ =~= quotes_of(priced));
        out
    }

    /// How many stocks are up by their latest snapshots, and how many are quoted.
    pub fn market_breadth(&self) -> (r: (u32, u32))
        requires
            latest_priced(self@.snapshots).len() <= u32::MAX,
        ensures
            ({
                let quotes = quotes_of(latest_priced(self@.snapshots));
                &&& r.0 == market::count_where(quotes, |pct: Decimal| pct > 0)
                &&& r.1 == market::count_where(quotes, |pct: Decimal| true)
            }),
            (r.0 as int, r.1 as int) == market::breadth(quotes_of(latest_priced(self@.snapshots))),
    {
        market::market_breadth(&self.latest_quotes())
    }

    /// How the changes of the latest snapshots are distributed.
    pub fn market_distribution(&self) -> (r: Vec<(String, u32)>)
        requires
            latest_priced(self@.snapshots).len() <= u32::MAX,
        ensures
            market::bucket_views(r@) == market::buckets_to(
                quotes_of(latest_priced(self@.snapshots)),
                7,
            ),
    {
        market::market_distribution(&self.latest_quotes())
    }

    /// The factors of the stocks that have at least sixty bars, by code.
    pub fn market_screen_rows(&self) -> (r: Vec<ScreenRow>)
        requires
            self@.in_range(),
        ensures
            market::row_views(r@) == market::rows_of(self@.sources()),
            forall|i: int| 0 <= i < r@.len() ==> (#[trigger] r@[i])@.ok(),
    {
        let ghost latest = Table::<DailyBarRow>::latest(self@.daily_bars);
        let places = self.daily_bars.latest_places();
        let mut list: Vec<ScreenSource> = Vec::new();
        assert(latest.take(0) =~= Seq::empty());
        assert(market::source_views(list@) =~= Seq::empty());
        for i in 0..places.len()
            invariant
                self@.in_range(),
                places@.len() == latest.len(),
                forall|j: int|
                    0 <= j < places@.len() ==> #[trigger] places@[j] == latest[j] && places@[j]
                        < self.daily_bars.rows@.len(),
                market::source_views(list@) == self@.sources_at(latest.take(i as int)),
                forall|j: int| 0 <= j < list@.len() ==> (#[trigger] list@[j])@.ok(),
        {
            assert(latest.take(i + 1).drop_last() =~= latest.take(i as int));
            assert(latest.take(i + 1).last() == places@[i as int]);
            let code = self.daily_bars.rows[places[i]].thscode.as_str();
            assert(code@ == self@.daily_bars[places@[i as int] as int].thscode);
            let own = self.analysis_rows(code);
            let ghost views = Table::<DailyBarRow>::views(own@);
            assert(views.len() == own@.len());
            if own.len() >= 60 {
                let snapshot = self.latest_snapshot(code);
                proof {
                    lemma_of_code_in_range(self@.daily_bars, code@);
                    lemma_of_code_in_range(self@.adj_daily_bars, code@);
                    lemma_snapshot_in_range(self@.snapshots, code@);
                }
                let ghost before = market::source_views(list@);
                let source = screen_source(&own, snapshot);
                let ghost view = source@;
                list.push(source);
                assert(market::source_views(list@) =~= before.push(view));
            }
        }
        assert(latest.take(latest.len() as int) =~= latest);
        market::market_screen_rows(&list)
    }

    /// Whether prices, turnovers and changes are in range.
    pub fn is_in_range(&self) -> (r: bool)
        ensures
            r == self@.in_range(),
    {
        if !are_bars_ok(&self.daily_bars.rows) || !are_bars_ok(&self.adj_daily_bars.rows) {
            return false;
        }
        for i in 0..self.snapshots.rows.len()
            invariant
                forall|j: int| 0 <= j < i ==> snapshot_ok((#[trigger] self@.snapshots[j]).row),
        {
            let s = &self.snapshots.rows[i].row;
            assert(self@.snapshots[i as int].row == s@);
            if !is_price(s.last_price) || !is_price(s.price_change_ratio_pct) || !is_money(
                s.turnover,
            ) {
                assert(!snapshot_ok(self@.snapshots[i as int].row));
                return false;
            }
        }
        true
    }

    /// The turnovers of the last day by the average of the days before, by code.
    pub fn market_volume_ratios(&self) -> (r: Vec<VolumeRatio>)
        requires
            self@.in_range(),
        ensures
            ratio_views(r@) == self@.ratios_at(Table::<DailyBarRow>::latest(self@.daily_bars)),
    {
        let ghost latest = Table::<DailyBarRow>::latest(self@.daily_bars);
        let places = self.daily_bars.latest_places();
        let mut out: Vec<VolumeRatio> = Vec::new();
        assert(latest.take(0) =~= Seq::empty());
        assert(ratio_views(out@) =~= Seq::empty());
        for i in 0..places.len()
            invariant
                self@.in_range(),
                places@.len() == latest.len(),
                forall|j: int|
                    0 <= j < places@.len() ==> #[trigger] places@[j] == latest[j] && places@[j]
                        < self.daily_bars.rows@.len(),
                ratio_views(out@) == self@.ratios_at(latest.take(i as int)),
        {
            assert(latest.take(i + 1).drop_last() =~= latest.take(i as int));
            assert(latest.take(i + 1).last() == places@[i as int]);
            let code = self.daily_bars.rows[places[i]].thscode.as_str();
            assert(code@ == self@.daily_bars[places@[i as int] as int].thscode);
            let own = self.daily_bars.rows_of(code);
            let ghost views = Table::<DailyBarRow>::views(own@);
            assert(views.len() == own@.len());
            proof {
                lemma_of_code_holds(self@.daily_bars, places@[i as int] as int);
                lemma_of_code_in_range(self@.daily_bars, code@);
                assert(bar_ok(views[own@.len() - 1].bar));
            }
            let (sum, count) = sum_before(&own);
            if count > 0 && sum > 0 {
                let last = own[own.len() - 1].turnover;
                proof {
                    assert(-5 * MONEY_MAX <= last * count <= 5 * MONEY_MAX) by (nonlinear_arith)
                        requires
                            -MONEY_MAX <= last <= MONEY_MAX,
                            0 <= count <= 5,
                    ;
                }
                let ghost before = ratio_views(out@);
                let ratio = ratio_of(last * count as i128, sum);
                out.push(VolumeRatio { thscode: code.to_owned(), ratio });
                assert(ratio_views(out@) =~= before.push((code@, ratio as int)));
            }
        }
        assert(latest.take(latest.len() as int) =~= latest);
        out
    }

    /// The corporate actions of a stock, by date.
    pub fn events(&self, thscode: &str) -> (r: Vec<AdjustmentEvent>)
        ensures
            r@ == events_of(self@.adjustment_events, thscode@),
    {
        let own = self.adjustment_events.rows_of(thscode);
        let ghost views = Table::<EventRow>::views(own@);
        assert(views.len() == own@.len());
        let mut out: Vec<AdjustmentEvent> = Vec::new();
        for i in 0..own.len()
            invariant
                views == Table::<EventRow>::views(own@),
                out@.len() == i,
                forall|j: int| 0 <= j < i ==> #[trigger] out@[j] == views[j].event,
        {
            out.push(own[i].event);
        }
        assert(out@ =~= events_of(self@.adjustment_events, thscode@));
        out
    }

    /// Makes the adjusted bars of a stock anew. Gives how many.
    pub fn rebuild_adj_bars_for(&mut self, thscode: &str) -> (r: usize)
        requires
            old(self).wf(),
            old(self)@.can_adjust(thscode@),
        ensures
            final(self).wf(),
            final(self)@ == old(self)@.rebuilt(thscode@),
            r == Table::<DailyBarRow>::of_code(old(self)@.daily_bars, thscode@).len(),
    {
        let ghost store = self@;
        let own = self.daily_bars.rows_of(thscode);
        let ghost views = Table::<DailyBarRow>::views(own@);
        assert(views.len() == own@.len());
        if own.len() == 0 {
            return 0;
        }
        let events = self.events(thscode);
        let mut bars: Vec<DailyBar> = Vec::new();
        for i in 0..own.len()
            invariant
                views == Table::<DailyBarRow>::views(own@),
                bars@.len() == i,
                forall|j: int| 0 <= j < i ==> (#[trigger] bars@[j])@ == views[j].bar,
        {
            let b = &own[i];
            bars.push(
                DailyBar {
                    date_ms: b.date_ms,
                    date: b.date.clone(),
                    open: b.open,
                    high: b.high,
                    low: b.low,
                    close: b.close,
                    volume: b.volume,
                    turnover: b.turnover,
                },
            );
        }
        assert forall|i: int| 0 <= i < bars@.len() implies adjust::bar_fits(
            (#[trigger] bars@[i])@,
            events@,
        ) by {
            assert(adjust::bar_fits(views[i].bar, events@));
        }
        let adjusted = adjust::rebuild_adj_bars_for(&bars, &events);
        let ghost avs = adjust::bar_views(adjusted@);
        assert(avs.len() == adjusted@.len());
        let mut rows: Vec<DailyBarRow> = Vec::new();
        for i in 0..adjusted.len()
            invariant
                avs == adjust::bar_views(adjusted@),
                rows@.len() == i,
                forall|j: int|
                    0 <= j < i ==> (#[trigger] rows@[j])@ == (BarRowView {
                        thscode: thscode@,
                        bar: avs[j],
                    }),
        {
            let b = &adjusted[i];
            rows.push(
                DailyBarRow {
                    thscode: thscode.to_owned(),
                    date_ms: b.date_ms,
                    date: b.date.clone(),
                    open: b.open,
                    high: b.high,
                    low: b.low,
                    close: b.close,
                    volume: b.volume,
                    turnover: b.turnover,
                },
            );
        }
        proof {
            let wanted = adjusted_rows(store.daily_bars, store.adjustment_events, thscode@);
            assert forall|i: int| 0 <= i < wanted.len() implies Table::<DailyBarRow>::views(
                rows@,
            )[i] == wanted[i] by {
                assert(adjust::bar_views(bars@)[i] == views[i].bar);
            }
            assert(Table::<DailyBarRow>::views(rows@) =~= wanted);
        }
        self.adj_daily_bars.remove_code(thscode);
        self.adj_daily_bars.write_all(&rows);
        rows.len()
    }

    /// Updates the adjusted bars after a trading day: those of the stocks that have a corporate
    /// action on it are made anew, and the bars of the day of all others are added as they are.
    /// Gives how many bars were written.
    pub fn adj_bars_daily_update(&mut self, today_ms: i64) -> (r: u64)
        requires
            old(self).wf(),
            old(self)@.can_update(today_ms),
        ensures
            final(self).wf(),
            final(self)@ == old(self)@.updated(today_ms),
            r == old(self)@.updated_count(today_ms),
    {
        let ghost store = self@;
        let ghost all = store.adjustment_events.len();
        let mut total: u64 = 0;
        let n: usize = self.adjustment_events.rows.len();
        for i in 0..n
            invariant
                self.wf(),
                n == all,
                all == store.adjustment_events.len(),
                self@ == (StoreView { adj_daily_bars: self@.adj_daily_bars, ..store }),
                self@ == store.rebuilt_for(today_ms, i as nat),
                forall|j: int|
                    0 <= j < all && (
                    #[trigger] store.adjustment_events[j]).event.ex_date_ms == today_ms
                        ==> store.can_adjust(store.adjustment_events[j].thscode),
                total == store.rebuilt_count(today_ms, i as nat),
                store.rebuilt_count(today_ms, all) + store.daily_bars.len() <= u64::MAX,
        {
            proof {
                store.lemma_rebuilt_count(today_ms, (i + 1) as nat, all);
                assert(self@.adjustment_events[i as int] == self.adjustment_events.rows@[i as int]@);
            }
            if self.adjustment_events.rows[i].event.ex_date_ms == today_ms {
                let code = self.adjustment_events.rows[i].thscode.clone();
                assert(code@ == store.adjustment_events[i as int].thscode);
                let count = self.rebuild_adj_bars_for(code.as_str());
                total = total + count as u64;
            }
        }
        let ghost adj = self@.adj_daily_bars;
        let m: usize = self.daily_bars.rows.len();
        for i in 0..m
            invariant
                self.wf(),
                m == store.daily_bars.len(),
                all == store.adjustment_events.len(),
                self@ == (StoreView {
                    adj_daily_bars: store.copied(adj, today_ms, i as nat),
                    ..store
                }),
                total == store.rebuilt_count(today_ms, all) + store.copied_count(
                    adj,
                    today_ms,
                    i as nat,
                ),
                total <= store.rebuilt_count(today_ms, all) + i,
                store.rebuilt_count(today_ms, all) + store.daily_bars.len() <= u64::MAX,
        {
            let b = &self.daily_bars.rows[i];
            assert(b@ == store.daily_bars[i as int]);
            let acts = match self.adjustment_events.get(b.thscode.as_str(), today_ms) {
                Some(_) => true,
                None => false,
            };
            if b.date_ms == today_ms && !acts {
                let row = b.clone();
                if self.adj_daily_bars.add(row) {
                    total = total + 1;
                }
            }
        }
        total
    }

    /// Whether the bars and the corporate actions of a stock are in the range that is adjusted.
    pub fn is_adjustable(&self, thscode: &str) -> (r: bool)
        ensures
            r == self@.can_adjust(thscode@),
    {
        let events = self.events(thscode);
        if !adjust::events_in_range(&events) {
            return false;
        }
        let own = self.daily_bars.rows_of(thscode);
        let ghost views = Table::<DailyBarRow>::views(own@);
        assert(views.len() == own@.len());
        for i in 0..own.len()
            invariant
                adjust::events_fit(events@),
                events@ == events_of(self@.adjustment_events, thscode@),
                views == Table::<DailyBarRow>::views(own@),
                views == Table::<DailyBarRow>::of_code(self@.daily_bars, thscode@),
                forall|j: int| 0 <= j < i ==> adjust::bar_fits((#[trigger] views[j]).bar, events@),
        {
            let b = &own[i];
            assert(views[i as int] == b@);
            let prices = is_price(b.open) && is_price(b.high) && is_price(b.low) && is_price(b.close);
            if !prices || !adjust::volume_in_range(b.volume, b.date_ms, &events) {
                assert(!adjust::bar_fits(views[i as int].bar, events@));
                return false;
            }
        }
        true
    }

    /// Makes the adjusted bars of a stock anew, and gives how many there are; where its numbers
    /// are out of range, nothing is done.
    pub fn rebuild_any(&mut self, thscode: &str) -> (r: Option<usize>)
        requires
            old(self).wf(),
        ensures
            final(self).wf(),
            match r {
                Some(n) => {
                    &&& old(self)@.can_adjust(thscode@)
                    &&& final(self)@ == old(self)@.rebuilt(thscode@)
                    &&& n == Table::<DailyBarRow>::of_code(old(self)@.daily_bars, thscode@).len()
                },
                None => !old(self)@.can_adjust(thscode@) && final(self)@ == old(self)@,
            },
    {
        if self.is_adjustable(thscode) {
            Some(self.rebuild_adj_bars_for(thscode))
        } else {
            None
        }
    }

    /// Brings the adjusted bars up to date after a trading day, and gives how many were written;
    /// where numbers are out of range, nothing is done.
    pub fn update_any(&mut self, today_ms: i64) -> (r: Option<u64>)
        requires
            old(self).wf(),
        ensures
            final(self).wf(),
            match r {
                Some(n) => {
                    &&& old(self)@.can_update(today_ms)
                    &&& final(self)@ == old(self)@.updated(today_ms)
                    &&& n == old(self)@.updated_count(today_ms)
                },
                None => !old(self)@.can_update(today_ms) && final(self)@ == old(self)@,
            },
    {
        let ghost store = self@;
        let ghost all = store.adjustment_events.len();
        let n: usize = self.adjustment_events.rows.len();
        let mut total: u128 = 0;
        for i in 0..n
            invariant
                self.wf(),
                self@ == store,
                n == all,
                n == self.adjustment_events.rows@.len(),
                all == store.adjustment_events.len(),
                forall|j: int|
                    0 <= j < i && (
                    #[trigger] store.adjustment_events[j]).event.ex_date_ms == today_ms
                        ==> store.can_adjust(store.adjustment_events[j].thscode),
                total == store.rebuilt_count(today_ms, i as nat),
                total <= i * 0xffff_ffff_ffff_ffff,
                i <= 0xffff_ffff_ffff_ffff,
        {
            let e = &self.adjustment_events.rows[i];
            assert(e@ == store.adjustment_events[i as int]);
            if e.event.ex_date_ms == today_ms {
                if !self.is_adjustable(e.thscode.as_str()) {
                    return None;
                }
                let own = self.daily_bars.rows_of(e.thscode.as_str());
                assert(Table::<DailyBarRow>::views(own@).len() == own@.len());
                proof {
                    assert(i * 0xffff_ffff_ffff_ffff + 0xffff_ffff_ffff_ffff <= u128::MAX)
                        by (nonlinear_arith)
                        requires
                            i < 0xffff_ffff_ffff_ffff,
                    ;
                }
                total = total + own.len() as u128;
            }
            proof {
                assert((i + 1) * 0xffff_ffff_ffff_ffff == i * 0xffff_ffff_ffff_ffff
                    + 0xffff_ffff_ffff_ffff) by (nonlinear_arith);
            }
        }
        let bars: usize = self.daily_bars.rows.len();
        assert(bars == store.daily_bars.len());
        if total > u64::MAX as u128 || bars as u128 > u64::MAX as u128 - total {
            return None;
        }
        Some(self.adj_bars_daily_update(today_ms))
    }

    /// Whether there are no adjusted bars.
    pub fn adj_bars_empty(&self) -> (r: bool)
        ensures
            r == (self@.adj_daily_bars.len() == 0),
    {
        self.adj_daily_bars.rows.len() == 0
    }
}

} // verus!
