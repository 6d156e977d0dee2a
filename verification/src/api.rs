//! What the pages show: charts, accounts, positions and decisions.

use vstd::prelude::*;

use crate::account;
use crate::account::{
    AccountSnapshot, DecisionView, PositionView, RecentTrade, ReviewView, TradeView,
};
use crate::context::RecentBar;
use crate::dates;
use crate::dates::{fmt_date, CST_OFFSET_MS};
use crate::decimal;
use crate::decimal::{is_money, rounded_div, Decimal, PRICE_MAX};
use crate::ledger;
use crate::ledger::{AccountDb, LedgerView, DAY_MS};
use crate::market;
use crate::market::ratio_of;
use crate::order;
use crate::order::{stable_order, Fraction};
use crate::risk;
use crate::risk::{regime_max_total, MarketState, MarketView};
use crate::text;
use crate::text::text_eq;

verus! {

/// The largest magnitude of an amount that is shown.
pub const ASSET_MAX: Decimal = 10_000_000_000_000_000_000_000_000_000;

/// The largest initial capital that a benchmark is scaled to.
pub const BENCHMARK_MAX: Decimal = 10_000_000_000_000_000_000_000;

/// The most positions that are shown.
pub const SHOWN_MAX: usize = 1_000;

/// A security that a search found.
#[derive(Debug)]
pub struct SymbolItem {
    pub thscode: String,
    pub name: String,
    pub ticker: String,
}

/// What is searched for.
#[derive(Debug)]
pub struct SearchParams {
    pub q: Option<String>,
}

/// A day of a chart.
#[derive(Debug)]
pub struct KlinePoint {
    pub date: String,
    /// Open, close, low, high.
    pub ohlc: Vec<Decimal>,
    pub volume: Decimal,
    pub ma5: Decimal,
    pub ma10: Decimal,
    pub ma20: Decimal,
    pub ma60: Decimal,
}

#[verifier::ext_equal]
pub struct KlineView {
    pub date: Seq<char>,
    pub ohlc: Seq<Decimal>,
    pub volume: Decimal,
    pub ma5: Decimal,
    pub ma10: Decimal,
    pub ma20: Decimal,
    pub ma60: Decimal,
}

impl View for KlinePoint {
    type V = KlineView;

    open spec fn view(&self) -> KlineView {
        KlineView {
            date: self.date@,
            ohlc: self.ohlc@,
            volume: self.volume,
            ma5: self.ma5,
            ma10: self.ma10,
            ma20: self.ma20,
            ma60: self.ma60,
        }
    }
}

pub open spec fn kline_views(list: Seq<KlinePoint>) -> Seq<KlineView> {
    Seq::new(list.len(), |i: int| list[i]@)
}

/// The quote of a stock today.
#[derive(Debug, Clone, Copy, PartialEq, Eq, Structural)]
pub struct TodayQuote {
    pub price: Decimal,
    pub open: Decimal,
    pub high: Decimal,
    pub low: Decimal,
    pub volume: Decimal,
}

/// The sum of the closes `from..to`.
pub open spec fn closes_between(bars: Seq<RecentBar>, from: int, to: int) -> int
    decreases to - from,
{
    if to <= from {
        0
    } else {
        closes_between(bars, from, to - 1) + bars[to - 1].close
    }
}

/// The average of the last `n` closes up to day `i`; 0 where there are fewer.
pub open spec fn average_at(bars: Seq<RecentBar>, i: int, n: int) -> int {
    if i + 1 < n {
        0
    } else {
        decimal::div_round(closes_between(bars, i + 1 - n, i + 1), n)
    }
}

/// A day of a chart.
pub open spec fn point_at(bars: Seq<RecentBar>, i: int) -> KlineView {
    let b = bars[i];
    KlineView {
        date: dates::text_or_blank(
            dates::utc_text((b.date_ms + CST_OFFSET_MS) as i64, "%Y-%m-%d"@),
        ),
        ohlc: seq![b.open, b.close, b.low, b.high],
        volume: b.volume,
        ma5: average_at(bars, i, 5) as Decimal,
        ma10: average_at(bars, i, 10) as Decimal,
        ma20: average_at(bars, i, 20) as Decimal,
        ma60: average_at(bars, i, 60) as Decimal,
    }
}

/// A chart with the quote of today: in place of the last day where that is today, or else as
/// one more day. A chart without days stays empty.
pub open spec fn with_today(
    points: Seq<KlineView>,
    quote: Option<TodayQuote>,
    today: Seq<char>,
) -> Seq<KlineView> {
    match quote {
        None => points,
        Some(q) => if points.len() == 0 {
            points
        } else if points.last().date == today {
            points.update(
                points.len() - 1,
                KlineView {
                    ohlc: seq![q.open, q.price, q.low, q.high],
                    volume: q.volume,
                    ..points.last()
                },
            )
        } else {
            points.push(
                KlineView {
                    date: today,
                    ohlc: seq![q.open, q.price, q.low, q.high],
                    volume: q.volume,
                    ma5: 0,
                    ma10: 0,
                    ma20: 0,
                    ma60: 0,
                },
            )
        },
    }
}

fn average(bars: &Vec<RecentBar>, i: usize, n: usize) -> (r: Decimal)
    requires
        i < bars@.len(),
        0 < n <= 60,
        forall|j: int| 0 <= j < bars@.len() ==> (#[trigger] bars@[j]).ok(),
    ensures
        r == average_at(bars@, i as int, n as int),
{
    assert(i < bars.len());
    if i + 1 < n {
        return 0;
    }
    let from: usize = i + 1 - n;
    let mut sum: i128 = 0;
    for k in from..i + 1
        invariant
            i < bars@.len(),
            from + n == i + 1,
            n <= 60,
            forall|j: int| 0 <= j < bars@.len() ==> (#[trigger] bars@[j]).ok(),
            sum == closes_between(bars@, from as int, k as int),
            -(k - from) * PRICE_MAX <= sum <= (k - from) * PRICE_MAX,
    {
        assert(bars@[k as int].ok());
        sum = sum + bars[k].close;
    }
    rounded_div(sum, n as i128)
}

fn four(a: Decimal, b: Decimal, c: Decimal, d: Decimal) -> (r: Vec<Decimal>)
    ensures
        r@ == seq![a, b, c, d],
{
    let mut out: Vec<Decimal> = Vec::new();
    out.push(a);
    out.push(b);
    out.push(c);
    out.push(d);
    assert(out@ =~= seq![a, b, c, d]);
    out
}

/// The chart of a stock: its bars with averages, and the quote of today.
pub fn kline(bars: &Vec<RecentBar>, quote: Option<TodayQuote>, today: &str) -> (r: Vec<KlinePoint>)
    requires
        forall|j: int| 0 <= j < bars@.len() ==> (#[trigger] bars@[j]).ok(),
    ensures
        kline_views(r@) == with_today(
            Seq::new(bars@.len(), |i: int| point_at(bars@, i)),
            quote,
            today@,
        ),
{
    let mut points: Vec<KlinePoint> = Vec::new();
    for i in 0..bars.len()
        invariant
            forall|j: int| 0 <= j < bars@.len() ==> (#[trigger] bars@[j]).ok(),
            points@.len() == i,
            forall|j: int| 0 <= j < i ==> (#[trigger] points@[j])@ == point_at(bars@, j),
    {
        let b = &bars[i];
        assert(bars@[i as int].ok());
        let point = KlinePoint {
            date: fmt_date(b.date_ms),
            ohlc: four(b.open, b.close, b.low, b.high),
            volume: b.volume,
            ma5: average(bars, i, 5),
            ma10: average(bars, i, 10),
            ma20: average(bars, i, 20),
            ma60: average(bars, i, 60),
        };
        points.push(point);
    }
    let ghost all = Seq::new(bars@.len(), |i: int| point_at(bars@, i));
    assert(kline_views(points@) =~= all);
    if let Some(q) = quote {
        if points.len() > 0 {
            let k: usize = points.len() - 1;
            assert(all.last() == points@[k as int]@);
            if text_eq(points[k].date.as_str(), today) {
                let last = &points[k];
                let merged = KlinePoint {
                    date: last.date.clone(),
                    ohlc: four(q.open, q.price, q.low, q.high),
                    volume: q.volume,
                    ma5: last.ma5,
                    ma10: last.ma10,
                    ma20: last.ma20,
                    ma60: last.ma60,
                };
                points.set(k, merged);
            } else {
                points.push(
                    KlinePoint {
                        date: today.to_owned(),
                        ohlc: four(q.open, q.price, q.low, q.high),
                        volume: q.volume,
                        ma5: 0,
                        ma10: 0,
                        ma20: 0,
                        ma60: 0,
                    },
                );
            }
        }
    }
    assert(kline_views(points@) =~= with_today(all, quote, today@));
    points
}

/// The name to show: the one on record, or where it is blank or only the code, the one in the
/// table of securities, or else the code.
pub open spec fn shown_name(ticker: Option<Seq<char>>, code: Seq<char>, name: Seq<char>) -> Seq<char> {
    if name.len() == 0 || name == code {
        match ticker {
            Some(t) => t,
            None => code,
        }
    } else {
        name
    }
}

/// The name to show.
pub fn resolve_name(ticker: Option<&str>, thscode: &str, name: &str) -> (r: String)
    ensures
        r@ == shown_name(
            match ticker {
                Some(t) => Some(t@),
                None => None,
            },
            thscode@,
            name@,
        ),
{
    if name.unicode_len() == 0 || text_eq(name, thscode) {
        match ticker {
            Some(t) => t.to_owned(),
            None => thscode.to_owned(),
        }
    } else {
        name.to_owned()
    }
}

/// The name of a security.
#[derive(Debug)]
pub struct NameRow {
    pub thscode: String,
    pub name: String,
}

/// The name of a security in a table; the first one where there are several.
pub open spec fn name_of(list: Seq<NameRow>, code: Seq<char>) -> Option<Seq<char>>
    decreases list.len(),
{
    if list.len() == 0 {
        None
    } else if list[0].thscode@ == code {
        Some(list[0].name@)
    } else {
        name_of(list.drop_first(), code)
    }
}

fn look_up<'a>(list: &'a Vec<NameRow>, thscode: &str) -> (r: Option<&'a str>)
    ensures
        (match r {
            Some(t) => Some(t@),
            None => None,
        }) == name_of(list@, thscode@),
{
    assert(list@.skip(0) =~= list@);
    for i in 0..list.len()
        invariant
            name_of(list@, thscode@) == name_of(list@.skip(i as int), thscode@),
    {
        assert(list@.skip(i as int)[0] == list@[i as int]);
        assert(list@.skip(i as int).drop_first() =~= list@.skip(i + 1));
        if text_eq(list[i].thscode.as_str(), thscode) {
            return Some(list[i].name.as_str());
        }
    }
    None
}

/// A position as it is shown.
#[derive(Debug)]
pub struct PositionRow {
    pub thscode: String,
    pub name: String,
    pub quantity: u32,
    pub avg_cost: Decimal,
    pub price: Decimal,
    pub pnl: Decimal,
    pub pnl_pct: Decimal,
}

#[verifier::ext_equal]
pub struct PositionRowView {
    pub thscode: Seq<char>,
    pub name: Seq<char>,
    pub quantity: u32,
    pub avg_cost: Decimal,
    pub price: Decimal,
    pub pnl: Decimal,
    pub pnl_pct: Decimal,
}

impl View for PositionRow {
    type V = PositionRowView;

    open spec fn view(&self) -> PositionRowView {
        PositionRowView {
            thscode: self.thscode@,
            name: self.name@,
            quantity: self.quantity,
            avg_cost: self.avg_cost,
            price: self.price,
            pnl: self.pnl,
            pnl_pct: self.pnl_pct,
        }
    }
}

/// A position as it is shown: at the latest price, with its gain.
pub open spec fn position_row(p: PositionView, market: MarketView, names: Seq<NameRow>) -> PositionRowView {
    let price = market.value_price(p);
    PositionRowView {
        thscode: p.thscode,
        name: shown_name(name_of(names, p.thscode), p.thscode, p.name),
        quantity: p.quantity,
        avg_cost: p.avg_cost,
        price: price as Decimal,
        pnl: ((price - p.avg_cost) * p.quantity) as Decimal,
        pnl_pct: (if p.avg_cost > 0 {
            market::ratio((price - p.avg_cost) * 100, p.avg_cost as int)
        } else {
            0
        }) as Decimal,
    }
}

pub open spec fn position_row_views(list: Seq<PositionRow>) -> Seq<PositionRowView> {
    Seq::new(list.len(), |i: int| list[i]@)
}

/// The positions of an account as they are shown.
pub fn positions(acct: &AccountDb, market: &MarketState, names: &Vec<NameRow>) -> (r: Vec<
    PositionRow,
>)
    requires
        acct.wf(),
        market@.ok(),
    ensures
        position_row_views(r@) == Seq::new(
            acct@.positions.len(),
            |i: int| position_row(acct@.positions[i], market@, names@),
        ),
{
    let ghost ps = acct@.positions;
    let mut out: Vec<PositionRow> = Vec::new();
    for i in 0..acct.positions.len()
        invariant
            acct.wf(),
            market@.ok(),
            ps == acct@.positions,
            out@.len() == i,
            forall|j: int|
                0 <= j < i ==> (#[trigger] out@[j])@ == position_row(ps[j], market@, names@),
    {
        let p = &acct.positions[i];
        assert(ps[i as int] == p@);
        assert(decimal::price_ok(ps[i as int].avg_cost as int));
        let price = risk::price_of(p, market);
        proof {
            let d = price - p.avg_cost;
            assert(-2 * PRICE_MAX * u32::MAX <= d * p.quantity <= 2 * PRICE_MAX * u32::MAX)
                by (nonlinear_arith)
                requires
                    -2 * PRICE_MAX <= d <= 2 * PRICE_MAX,
                    0 <= p.quantity <= u32::MAX,
            ;
        }
        let pnl: i128 = (price - p.avg_cost) * p.quantity as i128;
        let pnl_pct = if p.avg_cost > 0 {
            ratio_of((price - p.avg_cost) * 100, p.avg_cost)
        } else {
            0
        };
        let name = resolve_name(
            look_up(names, p.thscode.as_str()),
            p.thscode.as_str(),
            p.name.as_str(),
        );
        out.push(
            PositionRow {
                thscode: p.thscode.clone(),
                name,
                quantity: p.quantity,
                avg_cost: p.avg_cost,
                price,
                pnl,
                pnl_pct,
            },
        );
    }
    assert(position_row_views(out@) =~= Seq::new(
        ps.len(),
        |i: int| position_row(ps[i], market@, names@),
    ));
    out
}

/// The value of an account as it is shown.
#[derive(Debug)]
pub struct AccountAsset {
    pub name: String,
    pub cash: Decimal,
    pub market_value: Decimal,
    pub total: Decimal,
    pub return_pct: Decimal,
    pub position_count: usize,
    /// What was gained since the last recorded value.
    pub today_pnl: Decimal,
    /// The last twenty recorded values.
    pub sparkline: Vec<Decimal>,
}

#[verifier::ext_equal]
pub struct AssetView {
    pub name: Seq<char>,
    pub cash: Decimal,
    pub market_value: Decimal,
    pub total: Decimal,
    pub return_pct: Decimal,
    pub position_count: int,
    pub today_pnl: Decimal,
    pub sparkline: Seq<Decimal>,
}

impl View for AccountAsset {
    type V = AssetView;

    open spec fn view(&self) -> AssetView {
        AssetView {
            name: self.name@,
            cash: self.cash,
            market_value: self.market_value,
            total: self.total,
            return_pct: self.return_pct,
            position_count: self.position_count as int,
            today_pnl: self.today_pnl,
            sparkline: self.sparkline@,
        }
    }
}

/// The recorded totals, by time.
pub open spec fn totals(snapshots: Seq<AccountSnapshot>) -> Seq<Decimal> {
    let sorted = ledger::snapshots_by_time(snapshots);
    Seq::new(sorted.len(), |i: int| sorted[i].total_asset)
}

/// The value of an open account as it is shown.
pub open spec fn asset_view(name: Seq<char>, books: LedgerView, market: MarketView) -> AssetView {
    let a = books.account->0;
    let value = risk::market_value(books.positions, market);
    let total = a.cash + value;
    let recorded = totals(books.snapshots);
    AssetView {
        name,
        cash: a.cash,
        market_value: value as Decimal,
        total: total as Decimal,
        return_pct: (if a.initial_capital > 0 {
            market::ratio((total - a.initial_capital) * 100, a.initial_capital as int)
        } else {
            0
        }) as Decimal,
        position_count: books.positions.len() as int,
        today_pnl: (if recorded.len() > 0 {
            total - recorded.last()
        } else {
            0
        }) as Decimal,
        sparkline: recorded.skip(decimal::max(recorded.len() - 20, 0)),
    }
}

/// What showing an account takes: amounts in range.
pub open spec fn can_show(books: LedgerView, market: MarketView) -> bool {
    &&& market.ok()
    &&& books.positions.len() <= SHOWN_MAX
    &&& books.account matches Some(a) ==> -ASSET_MAX <= a.cash <= ASSET_MAX && -ASSET_MAX
        <= a.initial_capital <= ASSET_MAX
    &&& forall|i: int|
        0 <= i < books.snapshots.len() ==> decimal::money_ok(
            (#[trigger] books.snapshots[i]).total_asset as int,
        )
}

/// The value of the positions that are shown is in range.
pub proof fn lemma_shown_value(positions: Seq<PositionView>, market: MarketView)
    requires
        positions.len() <= SHOWN_MAX,
        market.ok(),
        forall|i: int|
            0 <= i < positions.len() ==> decimal::price_ok(#[trigger] positions[i].avg_cost as int),
    ensures
        -ASSET_MAX <= risk::market_value(positions, market) <= ASSET_MAX,
{
    let n = positions.len() as int;
    assert(positions.take(n) =~= positions);
    risk::lemma_market_value(positions, market, n);
    assert(-ASSET_MAX <= -n * risk::value_max() && n * risk::value_max() <= ASSET_MAX)
        by (nonlinear_arith)
        requires
            0 <= n <= 1_000,
            risk::value_max() == 4_294_967_295_000_000_000_000_000,
            ASSET_MAX == 10_000_000_000_000_000_000_000_000_000,
    ;
}

proof fn lemma_totals(snapshots: Seq<AccountSnapshot>, i: int)
    requires
        0 <= i < totals(snapshots).len(),
        forall|j: int|
            0 <= j < snapshots.len() ==> decimal::money_ok(
                (#[trigger] snapshots[j]).total_asset as int,
            ),
    ensures
        decimal::money_ok(totals(snapshots)[i] as int),
{
    let keys = Seq::new(snapshots.len(), |j: int| Fraction::whole(snapshots[j].ts_ms as i128));
    order::lemma_arranged_in_range(keys, snapshots.len());
    let o = order::arranged(keys);
    assert(0 <= o[i] < snapshots.len());
    assert(decimal::money_ok(snapshots[o[i]].total_asset as int));
}

fn is_shown(d: Decimal) -> (r: bool)
    ensures
        r == (-ASSET_MAX <= d <= ASSET_MAX),
{
    -ASSET_MAX <= d && d <= ASSET_MAX
}

/// Whether the amounts of an account are in the range that is shown.
pub fn is_showable(acct: &AccountDb, market: &MarketState) -> (r: bool)
    ensures
        r == can_show(acct@, market@),
{
    let balance = match &acct.account {
        Some(a) => is_shown(a.cash) && is_shown(a.initial_capital),
        None => true,
    };
    assert(acct@.positions.len() == acct.positions@.len());
    if !balance || acct.positions.len() > SHOWN_MAX || !market.is_ok() {
        return false;
    }
    for i in 0..acct.snapshots.len()
        invariant
            forall|j: int|
                0 <= j < i ==> decimal::money_ok(
                    (#[trigger] acct@.snapshots[j]).total_asset as int,
                ),
    {
        if !is_money(acct.snapshots[i].total_asset) {
            assert(!decimal::money_ok(acct@.snapshots[i as int].total_asset as int));
            return false;
        }
    }
    true
}

/// The value of an account as it is shown; none, and nothing done, where an amount is out of
/// range.
pub fn accounts_any(
    name: &str,
    acct: &mut AccountDb,
    market: &MarketState,
    initial_capital: Decimal,
) -> (r: Option<AccountAsset>)
    requires
        old(acct).wf(),
    ensures
        final(acct).wf(),
        match r {
            Some(a) => {
                &&& can_show(old(acct)@, market@)
                &&& -ASSET_MAX <= initial_capital <= ASSET_MAX
                &&& final(acct)@ == old(acct)@.opened(initial_capital)
                &&& a@ == asset_view(name@, final(acct)@, market@)
            },
            None => {
                &&& !(can_show(old(acct)@, market@) && -ASSET_MAX <= initial_capital <= ASSET_MAX)
                &&& final(acct)@ == old(acct)@
            },
        },
{
    if is_shown(initial_capital) && is_showable(acct, market) {
        Some(accounts(name, acct, market, initial_capital))
    } else {
        None
    }
}

/// The value of an account as it is shown; the account is opened where it is not yet.
pub fn accounts(
    name: &str,
    acct: &mut AccountDb,
    market: &MarketState,
    initial_capital: Decimal,
) -> (r: AccountAsset)
    requires
        old(acct).wf(),
        -ASSET_MAX <= initial_capital <= ASSET_MAX,
        can_show(old(acct)@, market@),
    ensures
        final(acct).wf(),
        final(acct)@ == old(acct)@.opened(initial_capital),
        r@ == asset_view(name@, final(acct)@, market@),
{
    let a = acct.get_or_init_account(initial_capital);
    let ghost books = acct@;
    let snaps = acct.account_snapshots();
    let mut recorded: Vec<Decimal> = Vec::new();
    for i in 0..snaps.len()
        invariant
            recorded@.len() == i,
            forall|j: int| 0 <= j < i ==> #[trigger] recorded@[j] == snaps@[j].total_asset,
    {
        recorded.push(snaps[i].total_asset);
    }
    assert(recorded@ =~= totals(books.snapshots));
    let positions = acct.positions();
    proof {
        assert forall|i: int| 0 <= i < positions@.len() implies decimal::price_ok(
            #[trigger] positions@[i].avg_cost as int,
        ) by {
            assert(account::position_views(positions@)[i] == books.positions[i]);
            assert(decimal::price_ok(books.positions[i].avg_cost as int));
        }
        lemma_shown_value(books.positions, market@);
    }
    let value = risk::position_value(&positions, market);
    let total: i128 = a.cash + value;
    let return_pct = if a.initial_capital > 0 {
        ratio_of((total - a.initial_capital) * 100, a.initial_capital)
    } else {
        0
    };
    let n: usize = recorded.len();
    let today_pnl: i128 = if n > 0 {
        proof {
            lemma_totals(books.snapshots, n - 1);
        }
        total - recorded[n - 1]
    } else {
        0
    };
    let from: usize = if n > 20 {
        n - 20
    } else {
        0
    };
    let mut sparkline: Vec<Decimal> = Vec::new();
    for i in from..n
        invariant
            from <= n,
            n == recorded@.len(),
            sparkline@ == recorded@.subrange(from as int, i as int),
    {
        sparkline.push(recorded[i]);
        assert(recorded@.subrange(from as int, i + 1) =~= recorded@.subrange(
            from as int,
            i as int,
        ).push(recorded@[i as int]));
    }
    assert(sparkline@ =~= recorded@.skip(decimal::max(recorded@.len() - 20, 0)));
    AccountAsset {
        name: name.to_owned(),
        cash: a.cash,
        market_value: value,
        total,
        return_pct,
        position_count: positions.len(),
        today_pnl,
        sparkline,
    }
}

/// A position under risk control as it is shown.
#[derive(Debug)]
pub struct RiskRow {
    pub thscode: String,
    pub name: String,
    pub price: Decimal,
    pub avg_cost: Decimal,
    /// How far the price is above the stop at a loss of 5%, in percent.
    pub to_stop_pct: Decimal,
    /// How far the price is above the target at a gain of 15%, in percent.
    pub to_profit_pct: Decimal,
}

#[verifier::ext_equal]
pub struct RiskRowView {
    pub thscode: Seq<char>,
    pub name: Seq<char>,
    pub price: Decimal,
    pub avg_cost: Decimal,
    pub to_stop_pct: Decimal,
    pub to_profit_pct: Decimal,
}

impl View for RiskRow {
    type V = RiskRowView;

    open spec fn view(&self) -> RiskRowView {
        RiskRowView {
            thscode: self.thscode@,
            name: self.name@,
            price: self.price,
            avg_cost: self.avg_cost,
            to_stop_pct: self.to_stop_pct,
            to_profit_pct: self.to_profit_pct,
        }
    }
}

/// How far a price is above a share of the cost, in percent; the share is in percent too.
pub open spec fn distance(price: int, cost: int, percent: int) -> int {
    if cost > 0 {
        market::ratio((100 * price - percent * cost) * 100, percent * cost)
    } else {
        0
    }
}

pub open spec fn risk_row(p: PositionView, market: MarketView, names: Seq<NameRow>) -> RiskRowView {
    let price = market.value_price(p);
    RiskRowView {
        thscode: p.thscode,
        name: shown_name(name_of(names, p.thscode), p.thscode, p.name),
        price: price as Decimal,
        avg_cost: p.avg_cost,
        to_stop_pct: distance(price, p.avg_cost as int, 95) as Decimal,
        to_profit_pct: distance(price, p.avg_cost as int, 115) as Decimal,
    }
}

pub open spec fn risk_row_views(list: Seq<RiskRow>) -> Seq<RiskRowView> {
    Seq::new(list.len(), |i: int| list[i]@)
}

/// The risk of an account as it is shown.
#[derive(Debug)]
pub struct RiskStatus {
    pub fuse_active: bool,
    pub fuse_until_ms: i64,
    pub peak: Decimal,
    pub total: Decimal,
    pub drawdown_pct: Decimal,
    pub position_pct: Decimal,
    pub positions: Vec<RiskRow>,
}

fn distance_of(price: Decimal, cost: Decimal, percent: i128) -> (r: Decimal)
    requires
        decimal::price_ok(price as int),
        decimal::price_ok(cost as int),
        0 < percent <= 200,
    ensures
        r == distance(price as int, cost as int, percent as int),
{
    if cost > 0 {
        proof {
            assert(0 < percent * cost <= 200 * PRICE_MAX) by (nonlinear_arith)
                requires
                    0 < percent <= 200,
                    0 < cost <= PRICE_MAX,
            ;
        }
        ratio_of((100 * price - percent * cost) * 100, percent * cost)
    } else {
        0
    }
}

/// Whether a status is that of an open account: the fuse, the drawdown from the peak, how much
/// is invested, and how far each position is from its stop and its target.
pub open spec fn is_status_of(
    r: RiskStatus,
    books: LedgerView,
    market: MarketView,
    names: Seq<NameRow>,
    now_ms: i64,
) -> bool {
    &&& r.fuse_until_ms == risk::stored_fuse(books)
    &&& r.fuse_active == (r.fuse_until_ms > now_ms)
    &&& r.peak == risk::stored_peak(books)
    &&& r.total == risk::asset_of(books, market)
    &&& r.drawdown_pct == (if r.peak > 0 {
        market::ratio((r.peak - r.total) * 100, r.peak as int)
    } else {
        0
    })
    &&& r.position_pct == (if r.total > 0 {
        market::ratio(risk::market_value(books.positions, market) * 100, r.total as int)
    } else {
        0
    })
    &&& risk_row_views(r.positions@) == Seq::new(
        books.positions.len(),
        |i: int| risk_row(books.positions[i], market, names),
    )
}

/// What showing the risk of an account takes: amounts in range.
pub open spec fn can_show_risk(books: LedgerView, market: MarketView, initial_capital: Decimal) -> bool {
    &&& can_show(books, market)
    &&& -ASSET_MAX <= initial_capital <= ASSET_MAX
    &&& -ASSET_MAX <= risk::stored_peak(books) <= ASSET_MAX
}

/// The risk of an account as it is shown; none, and nothing done, where an amount is out of
/// range.
pub fn risk_status_any(
    acct: &mut AccountDb,
    market: &MarketState,
    names: &Vec<NameRow>,
    initial_capital: Decimal,
    now_ms: i64,
) -> (r: Option<RiskStatus>)
    requires
        old(acct).wf(),
    ensures
        final(acct).wf(),
        match r {
            Some(status) => {
                &&& can_show_risk(old(acct)@, market@, initial_capital)
                &&& final(acct)@ == old(acct)@.opened(initial_capital)
                &&& is_status_of(status, final(acct)@, market@, names@, now_ms)
            },
            None => {
                &&& !can_show_risk(old(acct)@, market@, initial_capital)
                &&& final(acct)@ == old(acct)@
            },
        },
{
    let peak: Decimal = match acct.meta_get("peak_asset") {
        Some(s) => match crate::number::parse_decimal(s.as_str()) {
            Some(d) => d,
            None => 0,
        },
        None => 0,
    };
    if is_shown(peak) && is_shown(initial_capital) && is_showable(acct, market) {
        Some(risk_status(acct, market, names, initial_capital, now_ms))
    } else {
        None
    }
}

/// The risk of an account as it is shown: the fuse, the drawdown from the peak, how much is
/// invested, and how far each position is from its stop and its target.
pub fn risk_status(
    acct: &mut AccountDb,
    market: &MarketState,
    names: &Vec<NameRow>,
    initial_capital: Decimal,
    now_ms: i64,
) -> (r: RiskStatus)
    requires
        old(acct).wf(),
        can_show_risk(old(acct)@, market@, initial_capital),
    ensures
        final(acct).wf(),
        final(acct)@ == old(acct)@.opened(initial_capital),
        is_status_of(r, final(acct)@, market@, names@, now_ms),
{
    let a = acct.get_or_init_account(initial_capital);
    let ghost books = acct@;
    let fuse_until_ms: i64 = match acct.meta_get("fuse_until_ms") {
        Some(s) => match crate::number::parse_i64(s.as_str()) {
            Some(t) => t,
            None => 0,
        },
        None => 0,
    };
    let peak: Decimal = match acct.meta_get("peak_asset") {
        Some(s) => match crate::number::parse_decimal(s.as_str()) {
            Some(d) => d,
            None => 0,
        },
        None => 0,
    };
    let positions = acct.positions();
    let ghost ps = books.positions;
    proof {
        assert forall|i: int| 0 <= i < positions@.len() implies decimal::price_ok(
            #[trigger] positions@[i].avg_cost as int,
        ) by {
            assert(account::position_views(positions@)[i] == ps[i]);
            assert(decimal::price_ok(ps[i].avg_cost as int));
        }
        lemma_shown_value(ps, market@);
    }
    let value = risk::position_value(&positions, market);
    let total: i128 = a.cash + value;
    let mut rows: Vec<RiskRow> = Vec::new();
    for i in 0..positions.len()
        invariant
            market@.ok(),
            account::position_views(positions@) == ps,
            forall|j: int|
                0 <= j < positions@.len() ==> decimal::price_ok(
                    #[trigger] positions@[j].avg_cost as int,
                ),
            rows@.len() == i,
            forall|j: int|
                0 <= j < i ==> (#[trigger] rows@[j])@ == risk_row(ps[j], market@, names@),
    {
        let p = &positions[i];
        assert(account::position_views(positions@)[i as int] == p@);
        assert(decimal::price_ok(positions@[i as int].avg_cost as int));
        let price = risk::price_of(p, market);
        let name = resolve_name(
            look_up(names, p.thscode.as_str()),
            p.thscode.as_str(),
            p.name.as_str(),
        );
        rows.push(
            RiskRow {
                thscode: p.thscode.clone(),
                name,
                price,
                avg_cost: p.avg_cost,
                to_stop_pct: distance_of(price, p.avg_cost, 95),
                to_profit_pct: distance_of(price, p.avg_cost, 115),
            },
        );
    }
    assert(risk_row_views(rows@) =~= Seq::new(
        ps.len(),
        |i: int| risk_row(ps[i], market@, names@),
    ));
    let drawdown_pct = if peak > 0 {
        ratio_of((peak - total) * 100, peak)
    } else {
        0
    };
    let position_pct = if total > 0 {
        ratio_of(value * 100, total)
    } else {
        0
    };
    RiskStatus {
        fuse_active: fuse_until_ms > now_ms,
        fuse_until_ms,
        peak,
        total,
        drawdown_pct,
        position_pct,
        positions: rows,
    }
}

/// A decision on the timeline of all accounts.
#[derive(Debug)]
pub struct DecisionFeedItem {
    pub account: String,
    pub ts_ms: i64,
    pub status: String,
    pub note: String,
}

#[verifier::ext_equal]
pub struct FeedView {
    pub account: Seq<char>,
    pub ts_ms: i64,
    pub status: Seq<char>,
    pub note: Seq<char>,
}

impl View for DecisionFeedItem {
    type V = FeedView;

    open spec fn view(&self) -> FeedView {
        FeedView {
            account: self.account@,
            ts_ms: self.ts_ms,
            status: self.status@,
            note: self.note@,
        }
    }
}

impl Clone for DecisionFeedItem {
    fn clone(&self) -> (r: Self)
        ensures
            r@ == self@,
    {
        DecisionFeedItem {
            account: self.account.clone(),
            ts_ms: self.ts_ms,
            status: self.status.clone(),
            note: self.note.clone(),
        }
    }
}

pub open spec fn feed_views(list: Seq<DecisionFeedItem>) -> Seq<FeedView> {
    Seq::new(list.len(), |i: int| list[i]@)
}

/// The ten latest decisions of an account as entries of the timeline.
pub open spec fn feed_entries(account_name: Seq<char>, books: LedgerView) -> Seq<FeedView> {
    let ds = ledger::latest_decisions(books.decisions, 10);
    Seq::new(
        ds.len(),
        |i: int|
            FeedView {
                account: account_name,
                ts_ms: ds[i].ts_ms,
                status: ds[i].status,
                note: ds[i].note,
            },
    )
}

/// The latest ten decisions of an account, for the timeline.
pub fn feed_of(account_name: &str, acct: &AccountDb) -> (r: Vec<DecisionFeedItem>)
    ensures
        ({
            let ds = ledger::latest_decisions(acct@.decisions, 10);
            feed_views(r@) == Seq::new(
                ds.len(),
                |i: int|
                    FeedView {
                        account: account_name@,
                        ts_ms: ds[i].ts_ms,
                        status: ds[i].status,
                        note: ds[i].note,
                    },
            )
        }),
        feed_views(r@) == feed_entries(account_name@, acct@),
{
    let logs = acct.recent_decision_logs(10);
    let ghost ds = ledger::latest_decisions(acct@.decisions, 10);
    let mut out: Vec<DecisionFeedItem> = Vec::new();
    for i in 0..logs.len()
        invariant
            account::decision_views(logs@) == ds,
            out@.len() == i,
            forall|j: int|
                0 <= j < i ==> (#[trigger] out@[j])@ == (FeedView {
                    account: account_name@,
                    ts_ms: ds[j].ts_ms,
                    status: ds[j].status,
                    note: ds[j].note,
                }),
    {
        assert(account::decision_views(logs@)[i as int] == logs@[i as int]@);
        out.push(
            DecisionFeedItem {
                account: account_name.to_owned(),
                ts_ms: logs[i].ts_ms,
                status: logs[i].status.clone(),
                note: logs[i].note.clone(),
            },
        );
    }
    assert(feed_views(out@) =~= Seq::new(
        ds.len(),
        |i: int|
            FeedView {
                account: account_name@,
                ts_ms: ds[i].ts_ms,
                status: ds[i].status,
                note: ds[i].note,
            },
    ));
    out
}

/// The twenty latest entries of a timeline, the last one first.
pub open spec fn latest_feed(list: Seq<FeedView>) -> Seq<FeedView> {
    order::picked(
        list,
        order::arranged(
            Seq::new(
                list.len(),
                |i: int| Fraction::whole((-(list[i].ts_ms as i128)) as i128),
            ),
        ),
        20,
    )
}

/// The twenty latest decisions of all accounts, the last one first.
pub fn recent_decisions(all: &Vec<DecisionFeedItem>) -> (r: Vec<DecisionFeedItem>)
    ensures
        feed_views(r@) == latest_feed(feed_views(all@)),
{
    let mut keys: Vec<Fraction> = Vec::new();
    for i in 0..all.len()
        invariant
            keys@.len() == i,
            forall|j: int|
                0 <= j < i ==> #[trigger] keys@[j] == Fraction::whole(
                    (-(all@[j].ts_ms as i128)) as i128,
                ),
    {
        keys.push(Fraction { num: -(all[i].ts_ms as i128), den: 1 });
    }
    let ghost views = feed_views(all@);
    assert(keys@ =~= Seq::new(
        views.len(),
        |j: int| Fraction::whole((-(views[j].ts_ms as i128)) as i128),
    ));
    let idx = stable_order(&keys);
    let n: usize = if idx.len() > 20 {
        20
    } else {
        idx.len()
    };
    let mut out: Vec<DecisionFeedItem> = Vec::new();
    for i in 0..n
        invariant
            n <= idx@.len(),
            idx@.len() == all@.len(),
            out@.len() == i,
            views == feed_views(all@),
            order::is_stable_order(keys@, order::ints(idx@), all@.len()),
            forall|j: int|
                0 <= j < i ==> feed_views(out@)[j] == views[#[trigger] order::ints(idx@)[j]],
    {
        assert(0 <= order::ints(idx@)[i as int] < all@.len());
        let ghost before = feed_views(out@);
        let item = all[idx[i]].clone();
        out.push(item);
        assert(feed_views(out@) =~= before.push(views[idx@[i as int] as int]));
    }
    assert(feed_views(out@) =~= latest_feed(views));
    out
}

/// A point of a curve.
#[derive(Debug, Clone, Copy, PartialEq, Eq, Structural)]
pub struct EquityPoint {
    pub ts: i64,
    pub total: Decimal,
}

/// The recorded values of an account as a curve.
pub fn equity_points(acct: &AccountDb) -> (r: Vec<EquityPoint>)
    ensures
        ({
            let s = ledger::snapshots_by_time(acct@.snapshots);
            r@ == Seq::new(
                s.len(),
                |i: int| EquityPoint { ts: s[i].ts_ms, total: s[i].total_asset },
            )
        }),
{
    let snaps = acct.account_snapshots();
    let mut out: Vec<EquityPoint> = Vec::new();
    for i in 0..snaps.len()
        invariant
            out@.len() == i,
            forall|j: int|
                0 <= j < i ==> #[trigger] out@[j] == (EquityPoint {
                    ts: snaps@[j].ts_ms,
                    total: snaps@[j].total_asset,
                }),
    {
        out.push(EquityPoint { ts: snaps[i].ts_ms, total: snaps[i].total_asset });
    }
    assert(out@ =~= Seq::new(
        snaps@.len(),
        |i: int| EquityPoint { ts: snaps@[i].ts_ms, total: snaps@[i].total_asset },
    ));
    out
}

/// The close that a benchmark starts from: that of the last bar that is not after a time, or
/// else of the first bar.
pub open spec fn base_close(bars: Seq<RecentBar>, first_ms: i64) -> Option<Decimal> {
    if bars.len() == 0 {
        None
    } else {
        let k = last_not_after(bars, first_ms, bars.len() as int);
        Some(
            if k >= 0 {
                bars[k].close
            } else {
                bars[0].close
            },
        )
    }
}

/// The last place among the first `n` whose bar is not after a time, -1 where there is none.
pub open spec fn last_not_after(bars: Seq<RecentBar>, first_ms: i64, n: int) -> int
    decreases n,
{
    if n <= 0 {
        -1
    } else if bars[n - 1].date_ms <= first_ms {
        n - 1
    } else {
        last_not_after(bars, first_ms, n - 1)
    }
}

/// The bars from a day before a time on, scaled so that the base stands for the capital.
pub open spec fn scaled_bars(
    bars: Seq<RecentBar>,
    first_ms: i64,
    base: int,
    initial: int,
) -> Seq<EquityPoint>
    decreases bars.len(),
{
    if bars.len() == 0 {
        Seq::empty()
    } else {
        let before = scaled_bars(bars.drop_last(), first_ms, base, initial);
        let b = bars.last();
        if b.date_ms >= first_ms - DAY_MS {
            before.push(
                EquityPoint {
                    ts: b.date_ms,
                    total: decimal::div_round(initial * b.close, base) as Decimal,
                },
            )
        } else {
            before
        }
    }
}

/// The benchmark of a curve that starts at a time.
pub open spec fn benchmark_of(bars: Seq<RecentBar>, first_ms: i64, initial: int) -> Seq<EquityPoint> {
    match base_close(bars, first_ms) {
        Some(base) => if base > 0 && initial > 0 {
            scaled_bars(bars, first_ms, base as int, initial)
        } else {
            Seq::empty()
        },
        None => Seq::empty(),
    }
}

/// The benchmark of a curve; none where a number is out of range.
pub fn benchmark_any(bars: &Vec<RecentBar>, first_ms: i64, initial: Decimal) -> (r: Option<
    Vec<EquityPoint>,
>)
    ensures
        match r {
            Some(points) => {
                &&& initial <= BENCHMARK_MAX
                &&& forall|j: int| 0 <= j < bars@.len() ==> (#[trigger] bars@[j]).ok()
                &&& points@ == benchmark_of(bars@, first_ms, initial as int)
            },
            None => initial > BENCHMARK_MAX || exists|j: int|
                0 <= j < bars@.len() && !(#[trigger] bars@[j]).ok(),
        },
{
    if initial > BENCHMARK_MAX {
        return None;
    }
    for i in 0..bars.len()
        invariant
            forall|j: int| 0 <= j < i ==> (#[trigger] bars@[j]).ok(),
    {
        if !bars[i].is_ok() {
            assert(!bars@[i as int].ok());
            return None;
        }
    }
    Some(benchmark(bars, first_ms, initial))
}

/// The benchmark of a curve: an index over the same time, scaled to the initial capital.
pub fn benchmark(bars: &Vec<RecentBar>, first_ms: i64, initial: Decimal) -> (r: Vec<EquityPoint>)
    requires
        initial <= BENCHMARK_MAX,
        forall|j: int| 0 <= j < bars@.len() ==> (#[trigger] bars@[j]).ok(),
    ensures
        r@ == benchmark_of(bars@, first_ms, initial as int),
{
    let mut out: Vec<EquityPoint> = Vec::new();
    if bars.len() == 0 || initial <= 0 {
        return out;
    }
    let mut n: usize = bars.len();
    while n > 0 && bars[n - 1].date_ms > first_ms
        invariant
            n <= bars@.len(),
            last_not_after(bars@, first_ms, bars@.len() as int) == last_not_after(
                bars@,
                first_ms,
                n as int,
            ),
        decreases n,
    {
        n = n - 1;
    }
    let base = if n > 0 {
        bars[n - 1].close
    } else {
        bars[0].close
    };
    if base <= 0 {
        return out;
    }
    proof {
        if n > 0 {
            assert(bars@[n - 1].ok());
        } else {
            assert(bars@[0].ok());
        }
        assert(bars@.take(0) =~= Seq::empty());
    }
    for i in 0..bars.len()
        invariant
            0 < initial <= BENCHMARK_MAX,
            0 < base <= PRICE_MAX,
            forall|j: int| 0 <= j < bars@.len() ==> (#[trigger] bars@[j]).ok(),
            out@ == scaled_bars(bars@.take(i as int), first_ms, base as int, initial as int),
    {
        let b = &bars[i];
        proof {
            assert(bars@.take(i + 1).drop_last() =~= bars@.take(i as int));
            assert(bars@.take(i + 1).last() == *b);
            assert(bars@[i as int].ok());
            assert(-BENCHMARK_MAX * PRICE_MAX <= initial * b.close <= BENCHMARK_MAX * PRICE_MAX)
                by (nonlinear_arith)
                requires
                    0 < initial <= BENCHMARK_MAX,
                    -PRICE_MAX <= b.close <= PRICE_MAX,
            ;
        }
        if b.date_ms as i128 >= first_ms as i128 - DAY_MS as i128 {
            let total = rounded_div(initial * b.close, base);
            out.push(EquityPoint { ts: b.date_ms, total });
        }
    }
    assert(bars@.take(bars@.len() as int) =~= bars@);
    out
}

/// The last bar that is not after a time is found.
pub proof fn lemma_last_not_after(bars: Seq<RecentBar>, first_ms: i64, n: int, k: int)
    requires
        0 <= k < n <= bars.len(),
        bars[k].date_ms <= first_ms,
        forall|j: int| k < j < n ==> (#[trigger] bars[j]).date_ms > first_ms,
    ensures
        last_not_after(bars, first_ms, n) == k,
    decreases n,
{
    if k < n - 1 {
        assert(bars[n - 1].date_ms > first_ms);
        lemma_last_not_after(bars, first_ms, n - 1, k);
    }
}

proof fn lemma_point_of_bar(bars: Seq<RecentBar>, first_ms: i64, base: int, initial: int, k: int)
    requires
        0 <= k < bars.len(),
        bars[k].date_ms >= first_ms - DAY_MS,
    ensures
        scaled_bars(bars, first_ms, base, initial).contains(
            EquityPoint {
                ts: bars[k].date_ms,
                total: decimal::div_round(initial * bars[k].close, base) as Decimal,
            },
        ),
    decreases bars.len(),
{
    let short = bars.drop_last();
    let before = scaled_bars(short, first_ms, base, initial);
    let all = scaled_bars(bars, first_ms, base, initial);
    let point = EquityPoint {
        ts: bars[k].date_ms,
        total: decimal::div_round(initial * bars[k].close, base) as Decimal,
    };
    if k == bars.len() - 1 {
        assert(all.last() == point);
    } else {
        assert(short[k] == bars[k]);
        lemma_point_of_bar(short, first_ms, base, initial, k);
        let i = choose|i: int| 0 <= i < before.len() && before[i] == point;
        assert(all[i] == point);
    }
}

/// A benchmark equals the initial capital on the day from which the curve starts: at the last
/// bar that is not after the start, where that bar is no more than a day older.
pub proof fn benchmarks_start_from_the_capital(
    bars: Seq<RecentBar>,
    first_ms: i64,
    initial: Decimal,
    k: int,
)
    requires
        0 <= k < bars.len(),
        first_ms - DAY_MS <= bars[k].date_ms <= first_ms,
        forall|j: int| k < j < bars.len() ==> (#[trigger] bars[j]).date_ms > first_ms,
        bars[k].close > 0,
        initial > 0,
    ensures
        benchmark_of(bars, first_ms, initial as int).contains(
            EquityPoint { ts: bars[k].date_ms, total: initial },
        ),
{
    lemma_last_not_after(bars, first_ms, bars.len() as int, k);
    lemma_point_of_bar(bars, first_ms, bars[k].close as int, initial as int, k);
    decimal::lemma_div_round_exact(initial as int, bars[k].close as int);
}

/// The recorded values of an account as returns on its capital, in percent.
pub open spec fn returns_of(snapshots: Seq<AccountSnapshot>, initial: int) -> Seq<EquityPoint> {
    let s = ledger::snapshots_by_time(snapshots);
    Seq::new(
        s.len(),
        |i: int|
            EquityPoint {
                ts: s[i].ts_ms,
                total: market::ratio((s[i].total_asset - initial) * 100, initial) as Decimal,
            },
    )
}

/// What showing the returns of an account takes: amounts in range.
pub open spec fn can_show_returns(snapshots: Seq<AccountSnapshot>, initial: Decimal) -> bool {
    -ASSET_MAX <= initial <= ASSET_MAX && forall|i: int|
        0 <= i < snapshots.len() ==> -ASSET_MAX <= (#[trigger] snapshots[i]).total_asset
            <= ASSET_MAX
}

/// The recorded values of an account as returns on its capital; `None` where an amount is out
/// of range.
pub fn equity_returns_any(acct: &AccountDb, initial: Decimal) -> (r: Option<Vec<EquityPoint>>)
    ensures
        match r {
            Some(points) => can_show_returns(acct@.snapshots, initial) && points@ == (if initial
                > 0 {
                returns_of(acct@.snapshots, initial as int)
            } else {
                Seq::empty()
            }),
            None => !can_show_returns(acct@.snapshots, initial),
        },
{
    if !is_shown(initial) {
        return None;
    }
    for i in 0..acct.snapshots.len()
        invariant
            forall|j: int|
                0 <= j < i ==> -ASSET_MAX <= (#[trigger] acct@.snapshots[j]).total_asset
                    <= ASSET_MAX,
    {
        if !is_shown(acct.snapshots[i].total_asset) {
            assert(!(-ASSET_MAX <= acct@.snapshots[i as int].total_asset <= ASSET_MAX));
            return None;
        }
    }
    Some(equity_returns(acct, initial))
}

/// The recorded values of an account as returns on its capital, in percent; none without
/// capital.
pub fn equity_returns(acct: &AccountDb, initial: Decimal) -> (r: Vec<EquityPoint>)
    requires
        can_show_returns(acct@.snapshots, initial),
    ensures
        r@ == (if initial > 0 {
            returns_of(acct@.snapshots, initial as int)
        } else {
            Seq::empty()
        }),
{
    let mut out: Vec<EquityPoint> = Vec::new();
    if initial <= 0 {
        return out;
    }
    let snaps = acct.account_snapshots();
    let ghost all = acct@.snapshots;
    let ghost keys = Seq::new(all.len(), |j: int| Fraction::whole(all[j].ts_ms as i128));
    let ghost o = order::arranged(keys);
    proof {
        order::lemma_arranged_in_range(keys, all.len());
    }
    for i in 0..snaps.len()
        invariant
            0 < initial <= ASSET_MAX,
            snaps@ == ledger::snapshots_by_time(all),
            keys == Seq::new(all.len(), |j: int| Fraction::whole(all[j].ts_ms as i128)),
            o == order::arranged(keys),
            o.len() == all.len(),
            forall|j: int| 0 <= j < all.len() ==> 0 <= #[trigger] o[j] < all.len(),
            forall|j: int|
                0 <= j < all.len() ==> -ASSET_MAX <= (#[trigger] all[j]).total_asset <= ASSET_MAX,
            out@.len() == i,
            forall|j: int|
                0 <= j < i ==> #[trigger] out@[j] == (EquityPoint {
                    ts: snaps@[j].ts_ms,
                    total: market::ratio(
                        (snaps@[j].total_asset - initial) * 100,
                        initial as int,
                    ) as Decimal,
                }),
    {
        assert(snaps@[i as int] == all[o[i as int]]);
        let total = ratio_of((snaps[i].total_asset - initial) * 100, initial);
        out.push(EquityPoint { ts: snaps[i].ts_ms, total });
    }
    assert(out@ =~= returns_of(all, initial as int));
    out
}

/// A trade as it is shown.
#[derive(Debug)]
pub struct TradeRow {
    pub ts_ms: i64,
    pub thscode: String,
    pub name: String,
    pub side: String,
    pub quantity: u32,
    pub price: Decimal,
    pub amount: Decimal,
    pub fee: Decimal,
    pub decision_id: Option<i64>,
}

/// Whether a row shows a trade under a name.
pub open spec fn shows_trade(row: TradeRow, t: TradeView, name: Seq<char>) -> bool {
    &&& row.ts_ms == t.ts_ms
    &&& row.thscode@ == t.thscode
    &&& row.name@ == name
    &&& row.side@ == t.side.text()
    &&& row.quantity == t.quantity
    &&& row.price == t.price
    &&& row.amount == t.amount
    &&& row.fee == t.fee
    &&& row.decision_id == t.decision_id
}

fn trade_row(t: &RecentTrade, name: String) -> (r: TradeRow)
    ensures
        shows_trade(r, t@, name@),
{
    TradeRow {
        ts_ms: t.ts_ms,
        thscode: t.thscode.clone(),
        name,
        side: t.side.as_str().to_owned(),
        quantity: t.quantity,
        price: t.price,
        amount: t.amount,
        fee: t.fee,
        decision_id: t.decision_id,
    }
}

/// The trades of an account that are shown: the fifty latest.
pub open spec fn shown_trades(books: LedgerView) -> Seq<TradeView> {
    ledger::latest_trades(books.trades, 50)
}

/// The latest fifty trades of an account as they are shown.
pub fn trades(acct: &AccountDb, names: &Vec<NameRow>) -> (r: Vec<TradeRow>)
    ensures
        ({
            let ts = ledger::latest_trades(acct@.trades, 50);
            &&& r@.len() == ts.len()
            &&& forall|i: int|
                0 <= i < r@.len() ==> shows_trade(
                    #[trigger] r@[i],
                    ts[i],
                    shown_name(name_of(names@, ts[i].thscode), ts[i].thscode, ts[i].name),
                )
        }),
        r@.len() == shown_trades(acct@).len(),
        forall|i: int|
            0 <= i < r@.len() ==> shows_trade(
                #[trigger] r@[i],
                shown_trades(acct@)[i],
                shown_name(
                    name_of(names@, shown_trades(acct@)[i].thscode),
                    shown_trades(acct@)[i].thscode,
                    shown_trades(acct@)[i].name,
                ),
            ),
{
    let rows = acct.recent_trades(50);
    let ghost ts = ledger::latest_trades(acct@.trades, 50);
    let mut out: Vec<TradeRow> = Vec::new();
    for i in 0..rows.len()
        invariant
            account::trade_views(rows@) == ts,
            out@.len() == i,
            forall|j: int|
                0 <= j < i ==> shows_trade(
                    #[trigger] out@[j],
                    ts[j],
                    shown_name(name_of(names@, ts[j].thscode), ts[j].thscode, ts[j].name),
                ),
    {
        let t = &rows[i];
        assert(account::trade_views(rows@)[i as int] == t@);
        let name = resolve_name(
            look_up(names, t.thscode.as_str()),
            t.thscode.as_str(),
            t.name.as_str(),
        );
        out.push(trade_row(t, name));
    }
    assert(account::trade_views(rows@).len() == rows@.len());
    out
}

/// The trades of a decision as they are shown, by time and under the names on record.
pub fn decision_trades(acct: &AccountDb, decision_id: i64) -> (r: Vec<TradeRow>)
    ensures
        ({
            let ts = ledger::earliest_trades(ledger::trades_of(acct@.trades, decision_id));
            &&& r@.len() == ts.len()
            &&& forall|i: int|
                0 <= i < r@.len() ==> shows_trade(#[trigger] r@[i], ts[i], ts[i].name)
        }),
{
    let rows = acct.trades_for_decision(decision_id);
    let ghost ts = ledger::earliest_trades(ledger::trades_of(acct@.trades, decision_id));
    let mut out: Vec<TradeRow> = Vec::new();
    for i in 0..rows.len()
        invariant
            account::trade_views(rows@) == ts,
            out@.len() == i,
            forall|j: int|
                0 <= j < i ==> shows_trade(#[trigger] out@[j], ts[j], ts[j].name),
    {
        let t = &rows[i];
        assert(account::trade_views(rows@)[i as int] == t@);
        out.push(trade_row(t, t.name.clone()));
    }
    assert(account::trade_views(rows@).len() == rows@.len());
    out
}

/// The result of a review as it is shown.
#[derive(Debug, Clone, Copy, PartialEq, Eq, Structural)]
pub struct ReviewBrief {
    pub days_after: u32,
    pub pnl: Decimal,
}

/// A decision as it is shown.
#[derive(Debug)]
pub struct DecisionRow {
    pub id: i64,
    pub ts_ms: i64,
    pub model: String,
    pub status: String,
    pub note: String,
    pub raw_response: String,
    pub actions: String,
    pub reviews: Vec<ReviewBrief>,
}

pub open spec fn briefs(reviews: Seq<ReviewView>) -> Seq<ReviewBrief> {
    Seq::new(
        reviews.len(),
        |i: int| ReviewBrief { days_after: reviews[i].days_after, pnl: reviews[i].pnl },
    )
}

/// Whether a row shows a decision and its reviews.
pub open spec fn shows_decision(row: DecisionRow, d: DecisionView, books: LedgerView) -> bool {
    &&& row.id == d.id
    &&& row.ts_ms == d.ts_ms
    &&& row.model@ == d.model
    &&& row.status@ == d.status
    &&& row.note@ == d.note
    &&& row.raw_response@ == d.raw_response
    &&& row.actions@ == d.actions
    &&& row.reviews@ == briefs(
        ledger::review_rows(ledger::reviews_by_days(ledger::reviews_of(books.reviews, d.id))),
    )
}

fn review_briefs(acct: &AccountDb, id: i64) -> (r: Vec<ReviewBrief>)
    ensures
        r@ == briefs(
            ledger::review_rows(ledger::reviews_by_days(ledger::reviews_of(acct@.reviews, id))),
        ),
{
    let rows = acct.reviews_for_decision(id);
    let mut out: Vec<ReviewBrief> = Vec::new();
    for i in 0..rows.len()
        invariant
            out@.len() == i,
            forall|j: int|
                0 <= j < i ==> #[trigger] out@[j] == (ReviewBrief {
                    days_after: rows@[j].days_after,
                    pnl: rows@[j].pnl,
                }),
    {
        out.push(ReviewBrief { days_after: rows[i].days_after, pnl: rows[i].pnl });
    }
    let ghost views = ledger::row_views(rows@);
    assert(out@ =~= briefs(views));
    out
}

/// The decisions of an account that are shown: the fifty latest.
pub open spec fn shown_decisions(books: LedgerView) -> Seq<DecisionView> {
    ledger::latest_decisions(books.decisions, 50)
}

/// The latest fifty decisions of an account as they are shown.
pub fn decisions(acct: &AccountDb) -> (r: Vec<DecisionRow>)
    ensures
        ({
            let ds = ledger::latest_decisions(acct@.decisions, 50);
            &&& r@.len() == ds.len()
            &&& forall|i: int|
                0 <= i < r@.len() ==> shows_decision(#[trigger] r@[i], ds[i], acct@)
        }),
        r@.len() == shown_decisions(acct@).len(),
        forall|i: int|
            0 <= i < r@.len() ==> shows_decision(#[trigger] r@[i], shown_decisions(acct@)[i], acct@),
{
    let rows = acct.recent_decision_logs(50);
    let ghost ds = ledger::latest_decisions(acct@.decisions, 50);
    let mut out: Vec<DecisionRow> = Vec::new();
    for i in 0..rows.len()
        invariant
            account::decision_views(rows@) == ds,
            out@.len() == i,
            forall|j: int| 0 <= j < i ==> shows_decision(#[trigger] out@[j], ds[j], acct@),
    {
        let d = &rows[i];
        assert(account::decision_views(rows@)[i as int] == d@);
        out.push(
            DecisionRow {
                id: d.id,
                ts_ms: d.ts_ms,
                model: d.model.clone(),
                status: d.status.clone(),
                note: d.note.clone(),
                raw_response: d.raw_response.clone(),
                actions: d.actions.clone(),
                reviews: review_briefs(acct, d.id),
            },
        );
    }
    assert(account::decision_views(rows@).len() == rows@.len());
    out
}

/// What the market data say of an index.
#[derive(Debug)]
pub struct IndexSource {
    pub thscode: String,
    pub name: String,
    /// Price, change in percent and time of the latest snapshot.
    pub snapshot: Option<(Decimal, Decimal, i64)>,
    /// The close of the latest bar.
    pub last_close: Option<Decimal>,
}

/// An index as it is shown.
#[derive(Debug)]
pub struct IndexQuote {
    pub thscode: String,
    pub name: String,
    pub price: Decimal,
    pub pct: Decimal,
}

#[verifier::ext_equal]
pub struct IndexView {
    pub thscode: Seq<char>,
    pub name: Seq<char>,
    pub price: Decimal,
    pub pct: Decimal,
}

impl View for IndexQuote {
    type V = IndexView;

    open spec fn view(&self) -> IndexView {
        IndexView { thscode: self.thscode@, name: self.name@, price: self.price, pct: self.pct }
    }
}

/// An index as it is shown: by its snapshot, or else by its last close; none without either.
pub open spec fn index_of(s: IndexSource) -> Option<IndexView> {
    match (s.snapshot, s.last_close) {
        (Some(q), _) => Some(
            IndexView { thscode: s.thscode@, name: s.name@, price: q.0, pct: q.1 },
        ),
        (None, Some(c)) => Some(
            IndexView { thscode: s.thscode@, name: s.name@, price: c, pct: 0 },
        ),
        (None, None) => None,
    }
}

pub open spec fn indexes_of(list: Seq<IndexSource>) -> Seq<IndexView>
    decreases list.len(),
{
    if list.len() == 0 {
        Seq::empty()
    } else {
        let before = indexes_of(list.drop_last());
        match index_of(list.last()) {
            Some(v) => before.push(v),
            None => before,
        }
    }
}

/// The time of the latest snapshot, 0 where there is none later.
pub open spec fn latest_time(list: Seq<IndexSource>) -> i64
    decreases list.len(),
{
    if list.len() == 0 {
        0
    } else {
        let before = latest_time(list.drop_last());
        match list.last().snapshot {
            Some(q) => if q.2 > before {
                q.2
            } else {
                before
            },
            None => before,
        }
    }
}

/// The market as it is shown on every page.
#[derive(Debug)]
pub struct MarketOverview {
    pub indexes: Vec<IndexQuote>,
    pub up: u32,
    pub total: u32,
    pub regime: String,
    pub ts_ms: i64,
}

pub open spec fn index_views(list: Seq<IndexQuote>) -> Seq<IndexView> {
    Seq::new(list.len(), |i: int| list[i]@)
}

/// The market as it is shown on every page: the indices, how many stocks are up, and the
/// state of the market.
pub fn market_overview(sources: &Vec<IndexSource>, up: u32, total: u32) -> (r: MarketOverview)
    ensures
        index_views(r.indexes@) == indexes_of(sources@),
        r.up == up,
        r.total == total,
        r.regime@ == risk::regime_of(
            if total > 0 {
                Fraction { num: up as i128, den: total as i128 }
            } else {
                Fraction { num: 1, den: 2 }
            },
        ).0,
        r.ts_ms == latest_time(sources@),
{
    let mut indexes: Vec<IndexQuote> = Vec::new();
    let mut ts_ms: i64 = 0;
    assert(sources@.take(0) =~= Seq::empty());
    assert(index_views(indexes@) =~= Seq::empty());
    for i in 0..sources.len()
        invariant
            index_views(indexes@) == indexes_of(sources@.take(i as int)),
            ts_ms == latest_time(sources@.take(i as int)),
    {
        let s = &sources[i];
        proof {
            assert(sources@.take(i + 1).drop_last() =~= sources@.take(i as int));
            assert(sources@.take(i + 1).last() == *s);
        }
        let ghost before = index_views(indexes@);
        match s.snapshot {
            Some((price, pct, ts)) => {
                if ts > ts_ms {
                    ts_ms = ts;
                }
                let q = IndexQuote {
                    thscode: s.thscode.clone(),
                    name: s.name.clone(),
                    price,
                    pct,
                };
                let ghost view = q@;
                indexes.push(q);
                assert(index_views(indexes@) =~= before.push(view));
            },
            None => {
                if let Some(close) = s.last_close {
                    let q = IndexQuote {
                        thscode: s.thscode.clone(),
                        name: s.name.clone(),
                        price: close,
                        pct: 0,
                    };
                    let ghost view = q@;
                    indexes.push(q);
                    assert(index_views(indexes@) =~= before.push(view));
                }
            },
        }
    }
    assert(sources@.take(sources@.len() as int) =~= sources@);
    let breadth = if total > 0 {
        Fraction { num: up as i128, den: total as i128 }
    } else {
        Fraction { num: 1, den: 2 }
    };
    let (regime, _limit) = regime_max_total(breadth);
    MarketOverview { indexes, up, total, regime: regime.to_owned(), ts_ms }
}

} // verus!
