//! Rows of market data, and what is computed from them.

use vstd::prelude::*;

use crate::decimal;
use crate::decimal::{rounded_div, Decimal, PRICE_MAX, UNIT};
use crate::screen::{ScreenRow, ScreenRowView};

verus! {

/// A row of the table of securities.
#[derive(Debug)]
pub struct TickerRow {
    pub thscode: String,
    pub ticker: String,
    pub name: String,
    pub exchange: Option<String>,
    pub asset_type: String,
    pub currency: String,
}

#[verifier::ext_equal]
pub struct TickerView {
    pub thscode: Seq<char>,
    pub ticker: Seq<char>,
    pub name: Seq<char>,
    pub exchange: Option<Seq<char>>,
    pub asset_type: Seq<char>,
    pub currency: Seq<char>,
}

impl View for TickerRow {
    type V = TickerView;

    open spec fn view(&self) -> TickerView {
        TickerView {
            thscode: self.thscode@,
            ticker: self.ticker@,
            name: self.name@,
            exchange: match self.exchange {
                Some(e) => Some(e@),
                None => None,
            },
            asset_type: self.asset_type@,
            currency: self.currency@,
        }
    }
}

impl Clone for TickerRow {
    fn clone(&self) -> (r: Self)
        ensures
            r@ == self@,
    {
        TickerRow {
            thscode: self.thscode.clone(),
            ticker: self.ticker.clone(),
            name: self.name.clone(),
            exchange: match &self.exchange {
                Some(e) => Some(e.clone()),
                None => None,
            },
            asset_type: self.asset_type.clone(),
            currency: self.currency.clone(),
        }
    }
}

/// A row of the trading calendar; the date is `yyyyMMdd`.
#[derive(Debug)]
pub struct TradingDayRow {
    pub date: String,
    pub date_ms: i64,
}

#[verifier::ext_equal]
pub struct TradingDayView {
    pub date: Seq<char>,
    pub date_ms: i64,
}

impl View for TradingDayRow {
    type V = TradingDayView;

    open spec fn view(&self) -> TradingDayView {
        TradingDayView { date: self.date@, date_ms: self.date_ms }
    }
}

impl Clone for TradingDayRow {
    fn clone(&self) -> (r: Self)
        ensures
            r@ == self@,
    {
        TradingDayRow { date: self.date.clone(), date_ms: self.date_ms }
    }
}

/// A snapshot of a stock.
#[derive(Debug)]
pub struct SnapshotRow {
    pub thscode: String,
    pub last_price: Decimal,
    pub price_change: Decimal,
    pub price_change_ratio_pct: Decimal,
    pub open_price: Decimal,
    pub high_price: Decimal,
    pub low_price: Decimal,
    pub prev_price: Decimal,
    pub volume: Decimal,
    pub turnover: Decimal,
}

#[verifier::ext_equal]
pub struct SnapshotRowView {
    pub thscode: Seq<char>,
    pub last_price: Decimal,
    pub price_change: Decimal,
    pub price_change_ratio_pct: Decimal,
    pub open_price: Decimal,
    pub high_price: Decimal,
    pub low_price: Decimal,
    pub prev_price: Decimal,
    pub volume: Decimal,
    pub turnover: Decimal,
}

impl View for SnapshotRow {
    type V = SnapshotRowView;

    open spec fn view(&self) -> SnapshotRowView {
        SnapshotRowView {
            thscode: self.thscode@,
            last_price: self.last_price,
            price_change: self.price_change,
            price_change_ratio_pct: self.price_change_ratio_pct,
            open_price: self.open_price,
            high_price: self.high_price,
            low_price: self.low_price,
            prev_price: self.prev_price,
            volume: self.volume,
            turnover: self.turnover,
        }
    }
}

impl Clone for SnapshotRow {
    fn clone(&self) -> (r: Self)
        ensures
            r@ == self@,
    {
        SnapshotRow {
            thscode: self.thscode.clone(),
            last_price: self.last_price,
            price_change: self.price_change,
            price_change_ratio_pct: self.price_change_ratio_pct,
            open_price: self.open_price,
            high_price: self.high_price,
            low_price: self.low_price,
            prev_price: self.prev_price,
            volume: self.volume,
            turnover: self.turnover,
        }
    }
}

/// How much the market data hold.
#[derive(Debug)]
pub struct Stats {
    pub tickers: i64,
    pub trading_days: i64,
    pub daily_bars: i64,
    pub adjustment_events: i64,
    pub snapshots: i64,
    /// The date of the latest daily bar, `yyyy-MM-dd`.
    pub last_bar_date: Option<String>,
    pub last_snapshot_ts: Option<i64>,
}

/// The latest price and change of a stock.
#[derive(Debug, Clone, Copy, PartialEq, Eq, Structural)]
pub struct LatestQuote {
    pub last_price: Decimal,
    /// Change of the day in percent.
    pub pct: Decimal,
}

/// How many of the quotes have a price and meet a condition.
pub open spec fn count_where(quotes: Seq<LatestQuote>, p: spec_fn(Decimal) -> bool) -> int
    decreases quotes.len(),
{
    if quotes.len() == 0 {
        0
    } else {
        let q = quotes.last();
        count_where(quotes.drop_last(), p) + if q.last_price > 0 && p(q.pct) {
            1int
        } else {
            0int
        }
    }
}

/// How many stocks with a price are up, and how many have a price.
pub open spec fn breadth(quotes: Seq<LatestQuote>) -> (int, int) {
    (
        count_where(quotes, |pct: Decimal| pct > 0),
        count_where(quotes, |pct: Decimal| true),
    )
}

/// How many stocks are up, and how many are quoted; stocks without a price are left out.
pub fn market_breadth(quotes: &Vec<LatestQuote>) -> (r: (u32, u32))
    requires
        quotes@.len() <= u32::MAX,
    ensures
        r.0 == count_where(quotes@, |pct: Decimal| pct > 0),
        r.1 == count_where(quotes@, |pct: Decimal| true),
        (r.0 as int, r.1 as int) == breadth(quotes@),
        r.0 <= r.1 <= quotes@.len(),
{
    let mut up: u32 = 0;
    let mut total: u32 = 0;
    let ghost rises = |pct: Decimal| pct > 0;
    let ghost any = |pct: Decimal| true;
    assert(quotes@.take(0) =~= Seq::empty());
    for i in 0..quotes.len()
        invariant
            quotes@.len() <= u32::MAX,
            rises == (|pct: Decimal| pct > 0),
            any == (|pct: Decimal| true),
            up == count_where(quotes@.take(i as int), rises),
            total == count_where(quotes@.take(i as int), any),
            up <= total <= i,
    {
        proof {
            assert(quotes@.take(i + 1).drop_last() =~= quotes@.take(i as int));
            assert(quotes@.take(i + 1).last() == quotes@[i as int]);
        }
        if quotes[i].last_price > 0 {
            total = total + 1;
            if quotes[i].pct > 0 {
                up = up + 1;
            }
        }
    }
    assert(quotes@.take(quotes@.len() as int) =~= quotes@);
    (up, total)
}

/// The bucket of a change in percent: 0 for limit-up to 6 for limit-down.
pub open spec fn bucket_of(pct: Decimal) -> int {
    if pct >= 9_800_000 {
        0
    } else if pct >= 5_000_000 {
        1
    } else if pct > 100_000 {
        2
    } else if pct >= -100_000 {
        3
    } else if pct > -5_000_000 {
        4
    } else if pct > -9_800_000 {
        5
    } else {
        6
    }
}

/// The name of a bucket.
pub open spec fn bucket_text(bucket: int) -> Seq<char> {
    if bucket == 0 {
        "涨停"@
    } else if bucket == 1 {
        ">5%"@
    } else if bucket == 2 {
        "0~5%"@
    } else if bucket == 3 {
        "平"@
    } else if bucket == 4 {
        "-5~0%"@
    } else if bucket == 5 {
        "<-5%"@
    } else {
        "跌停"@
    }
}

/// How many stocks that have a price are in a bucket.
pub open spec fn bucket_count(quotes: Seq<LatestQuote>, bucket: int) -> int {
    count_where(quotes, |pct: Decimal| bucket_of(pct) == bucket)
}

/// The buckets up to one that hold stocks, with how many they hold.
pub open spec fn buckets_to(quotes: Seq<LatestQuote>, n: nat) -> Seq<(Seq<char>, int)>
    decreases n,
{
    if n == 0 {
        Seq::empty()
    } else {
        let before = buckets_to(quotes, (n - 1) as nat);
        let c = bucket_count(quotes, n - 1);
        if c > 0 {
            before.push((bucket_text(n - 1), c))
        } else {
            before
        }
    }
}

pub open spec fn bucket_views(list: Seq<(String, u32)>) -> Seq<(Seq<char>, int)> {
    Seq::new(list.len(), |i: int| (list[i].0@, list[i].1 as int))
}

fn bucket_name(bucket: u8) -> (r: &'static str)
    ensures
        r@ == bucket_text(bucket as int),
{
    if bucket == 0 {
        "涨停"
    } else if bucket == 1 {
        ">5%"
    } else if bucket == 2 {
        "0~5%"
    } else if bucket == 3 {
        "平"
    } else if bucket == 4 {
        "-5~0%"
    } else if bucket == 5 {
        "<-5%"
    } else {
        "跌停"
    }
}

fn bucket(pct: Decimal) -> (r: u8)
    ensures
        r == bucket_of(pct),
        r < 7,
{
    if pct >= 9_800_000 {
        0
    } else if pct >= 5_000_000 {
        1
    } else if pct > 100_000 {
        2
    } else if pct >= -100_000 {
        3
    } else if pct > -5_000_000 {
        4
    } else if pct > -9_800_000 {
        5
    } else {
        6
    }
}

fn count_bucket(quotes: &Vec<LatestQuote>, wanted: u8) -> (r: u32)
    requires
        quotes@.len() <= u32::MAX,
    ensures
        r == bucket_count(quotes@, wanted as int),
{
    let ghost test = |pct: Decimal| bucket_of(pct) == wanted as int;
    let mut n: u32 = 0;
    assert(quotes@.take(0) =~= Seq::empty());
    for i in 0..quotes.len()
        invariant
            quotes@.len() <= u32::MAX,
            test == (|pct: Decimal| bucket_of(pct) == wanted as int),
            n == count_where(quotes@.take(i as int), test),
            n <= i,
    {
        proof {
            assert(quotes@.take(i + 1).drop_last() =~= quotes@.take(i as int));
            assert(quotes@.take(i + 1).last() == quotes@[i as int]);
        }
        if quotes[i].last_price > 0 && bucket(quotes[i].pct) == wanted {
            n = n + 1;
        }
    }
    assert(quotes@.take(quotes@.len() as int) =~= quotes@);
    n
}

/// How the changes of the day are distributed: the buckets that hold stocks, from limit-up to
/// limit-down.
pub fn market_distribution(quotes: &Vec<LatestQuote>) -> (r: Vec<(String, u32)>)
    requires
        quotes@.len() <= u32::MAX,
    ensures
        bucket_views(r@) == buckets_to(quotes@, 7),
{
    let mut out: Vec<(String, u32)> = Vec::new();
    assert(bucket_views(out@) =~= Seq::empty());
    for b in 0u8..7u8
        invariant
            quotes@.len() <= u32::MAX,
            bucket_views(out@) == buckets_to(quotes@, b as nat),
    {
        let n = count_bucket(quotes, b);
        if n > 0 {
            let ghost before = bucket_views(out@);
            out.push((bucket_name(b).to_owned(), n));
            assert(bucket_views(out@) =~= before.push((bucket_text(b as int), n as int)));
        }
    }
    out
}

/// Every stock that has a price is in one bucket: the buckets add up to all of them.
pub proof fn the_distribution_covers_the_market(quotes: Seq<LatestQuote>)
    ensures
        bucket_count(quotes, 0) + bucket_count(quotes, 1) + bucket_count(quotes, 2) + bucket_count(
            quotes,
            3,
        ) + bucket_count(quotes, 4) + bucket_count(quotes, 5) + bucket_count(quotes, 6)
            == count_where(quotes, |pct: Decimal| true),
    decreases quotes.len(),
{
    if quotes.len() > 0 {
        the_distribution_covers_the_market(quotes.drop_last());
    }
}

/// What the screening takes of a stock.
#[derive(Debug)]
pub struct ScreenSource {
    pub thscode: String,
    pub last_close: Option<Decimal>,
    pub last_turnover: Option<Decimal>,
    pub ma20: Option<Decimal>,
    pub ma60: Option<Decimal>,
    pub min60: Option<Decimal>,
    pub max60: Option<Decimal>,
    /// The close five trading days before the last one.
    pub close6: Option<Decimal>,
    pub avg5_turnover: Option<Decimal>,
    /// Price, change in percent and turnover of the latest snapshot.
    pub price: Option<Decimal>,
    pub pct: Option<Decimal>,
    pub turnover: Option<Decimal>,
}

#[verifier::ext_equal]
pub struct SourceView {
    pub thscode: Seq<char>,
    pub last_close: Option<Decimal>,
    pub last_turnover: Option<Decimal>,
    pub ma20: Option<Decimal>,
    pub ma60: Option<Decimal>,
    pub min60: Option<Decimal>,
    pub max60: Option<Decimal>,
    pub close6: Option<Decimal>,
    pub avg5_turnover: Option<Decimal>,
    pub price: Option<Decimal>,
    pub pct: Option<Decimal>,
    pub turnover: Option<Decimal>,
}

impl View for ScreenSource {
    type V = SourceView;

    open spec fn view(&self) -> SourceView {
        SourceView {
            thscode: self.thscode@,
            last_close: self.last_close,
            last_turnover: self.last_turnover,
            ma20: self.ma20,
            ma60: self.ma60,
            min60: self.min60,
            max60: self.max60,
            close6: self.close6,
            avg5_turnover: self.avg5_turnover,
            price: self.price,
            pct: self.pct,
            turnover: self.turnover,
        }
    }
}

pub open spec fn source_views(list: Seq<ScreenSource>) -> Seq<SourceView> {
    Seq::new(list.len(), |i: int| list[i]@)
}

/// A quotient in millionths, in the range of a price.
pub open spec fn ratio(num: int, den: int) -> int {
    if den == 0 {
        if num > 0 {
            PRICE_MAX as int
        } else if num < 0 {
            -PRICE_MAX
        } else {
            0
        }
    } else {
        let q = if den > 0 {
            decimal::div_round(num * UNIT, den)
        } else {
            decimal::div_round(-num * UNIT, -den)
        };
        decimal::max(decimal::min(q, PRICE_MAX as int), -PRICE_MAX)
    }
}

/// A quotient in millionths, in the range of a price.
pub fn ratio_of(num: i128, den: i128) -> (r: Decimal)
    requires
        -6_000_000_000_000_000_000_000_000_000_000 <= num <= 6_000_000_000_000_000_000_000_000_000_000,
        -decimal::DIV_MAX <= den <= decimal::DIV_MAX,
    ensures
        r == ratio(num as int, den as int),
        decimal::price_ok(r as int),
{
    if den == 0 {
        if num > 0 {
            PRICE_MAX
        } else if num < 0 {
            -PRICE_MAX
        } else {
            0
        }
    } else {
        let q = if den > 0 {
            rounded_div(num * UNIT, den)
        } else {
            rounded_div(-num * UNIT, -den)
        };
        if q > PRICE_MAX {
            PRICE_MAX
        } else if q < -PRICE_MAX {
            -PRICE_MAX
        } else {
            q
        }
    }
}

pub open spec fn or_zero(d: Option<Decimal>) -> Decimal {
    match d {
        Some(v) => v,
        None => 0,
    }
}

/// The price of the latest snapshot, and its turnover; those of the last bar where the snapshot
/// has no price.
pub open spec fn quote_of(s: SourceView, last: Decimal) -> (Decimal, Decimal) {
    match s.price {
        Some(p) => if p > 0 {
            (p, or_zero(s.turnover))
        } else {
            (last, or_zero(s.last_turnover))
        },
        None => (last, or_zero(s.last_turnover)),
    }
}

/// The factors of a stock; none without a close. Price and turnover are those of the latest
/// snapshot, all else goes by the bars.
pub open spec fn factors_of(s: SourceView) -> Option<ScreenRowView> {
    match s.last_close {
        None => None,
        Some(last) => Some(
            ScreenRowView {
                thscode: s.thscode,
                price: quote_of(s, last).0,
                pct: or_zero(s.pct),
                turnover: quote_of(s, last).1,
                ma20: or_zero(s.ma20),
                ma60: or_zero(s.ma60),
                chg5: match s.close6 {
                    Some(c) => ratio((last - c) * 100, c as int) as Decimal,
                    None => 0,
                },
                volume_ratio: match (s.avg5_turnover, s.last_turnover) {
                    (Some(a), Some(l)) => if a > 0 {
                        Some(ratio(l as int, a as int) as Decimal)
                    } else {
                        None
                    },
                    _ => None,
                },
                position: match (s.min60, s.max60) {
                    (Some(lo), Some(hi)) => if hi > lo {
                        Some(ratio(last - lo, hi - lo) as Decimal)
                    } else {
                        None
                    },
                    _ => None,
                },
                adj_close: last,
            },
        ),
    }
}

pub open spec fn price_or_none(d: Option<Decimal>) -> bool {
    d matches Some(v) ==> decimal::price_ok(v as int)
}

pub open spec fn money_or_none(d: Option<Decimal>) -> bool {
    d matches Some(v) ==> decimal::money_ok(v as int)
}

impl SourceView {
    pub open spec fn ok(self) -> bool {
        &&& price_or_none(self.last_close)
        &&& money_or_none(self.last_turnover)
        &&& price_or_none(self.ma20)
        &&& price_or_none(self.ma60)
        &&& price_or_none(self.min60)
        &&& price_or_none(self.max60)
        &&& price_or_none(self.close6)
        &&& money_or_none(self.avg5_turnover)
        &&& price_or_none(self.price)
        &&& price_or_none(self.pct)
        &&& money_or_none(self.turnover)
    }
}

fn value_or_zero(d: Option<Decimal>) -> (r: Decimal)
    ensures
        r == or_zero(d),
{
    match d {
        Some(v) => v,
        None => 0,
    }
}

/// The factors of a stock.
pub fn screen_row(s: &ScreenSource) -> (r: Option<ScreenRow>)
    requires
        s@.ok(),
    ensures
        match r {
            Some(row) => factors_of(s@) == Some(row@) && row@.ok(),
            None => factors_of(s@) is None,
        },
{
    let last = match s.last_close {
        Some(v) => v,
        None => return None,
    };
    let chg5 = match s.close6 {
        Some(c) => ratio_of((last - c) * 100, c),
        None => 0,
    };
    let volume_ratio = match (s.avg5_turnover, s.last_turnover) {
        (Some(a), Some(l)) => if a > 0 {
            Some(ratio_of(l, a))
        } else {
            None
        },
        _ => None,
    };
    let position = match (s.min60, s.max60) {
        (Some(lo), Some(hi)) => if hi > lo {
            Some(ratio_of(last - lo, hi - lo))
        } else {
            None
        },
        _ => None,
    };
    let quoted = match s.price {
        Some(p) => if p > 0 {
            Some(p)
        } else {
            None
        },
        None => None,
    };
    let (price, turnover) = match quoted {
        Some(p) => (p, value_or_zero(s.turnover)),
        None => (last, value_or_zero(s.last_turnover)),
    };
    Some(
        ScreenRow {
            thscode: s.thscode.clone(),
            price,
            pct: value_or_zero(s.pct),
            turnover,
            ma20: value_or_zero(s.ma20),
            ma60: value_or_zero(s.ma60),
            chg5,
            volume_ratio,
            position,
            adj_close: last,
        },
    )
}

/// The factors of the stocks of a market, without those that have no close.
pub open spec fn rows_of(list: Seq<SourceView>) -> Seq<ScreenRowView>
    decreases list.len(),
{
    if list.len() == 0 {
        Seq::empty()
    } else {
        let before = rows_of(list.drop_last());
        match factors_of(list.last()) {
            Some(row) => before.push(row),
            None => before,
        }
    }
}

pub open spec fn row_views(list: Seq<ScreenRow>) -> Seq<ScreenRowView> {
    Seq::new(list.len(), |i: int| list[i]@)
}

/// The factors of the stocks of a market, without those that have no close.
pub fn market_screen_rows(list: &Vec<ScreenSource>) -> (r: Vec<ScreenRow>)
    requires
        forall|i: int| 0 <= i < list@.len() ==> (#[trigger] list@[i])@.ok(),
    ensures
        row_views(r@) == rows_of(source_views(list@)),
        forall|i: int| 0 <= i < r@.len() ==> (#[trigger] r@[i])@.ok(),
{
    let mut out: Vec<ScreenRow> = Vec::new();
    let ghost views = source_views(list@);
    assert(views.take(0) =~= Seq::empty());
    assert(row_views(out@) =~= Seq::empty());
    for i in 0..list.len()
        invariant
            forall|j: int| 0 <= j < list@.len() ==> (#[trigger] list@[j])@.ok(),
            row_views(out@) == rows_of(views.take(i as int)),
            views == source_views(list@),
            forall|j: int| 0 <= j < out@.len() ==> (#[trigger] out@[j])@.ok(),
    {
        proof {
            assert(views.take(i + 1).drop_last() =~= views.take(i as int));
            assert(views.take(i + 1).last() == list@[i as int]@);
        }
        if let Some(row) = screen_row(&list[i]) {
            let ghost before = row_views(out@);
            let ghost view = row@;
            out.push(row);
            assert(row_views(out@) =~= before.push(view));
        }
    }
    assert(views.take(views.len() as int) =~= views);
    out
}

} // verus!
