//! Collecting market data: pages, rows, and how much has to be fetched.

use vstd::prelude::*;

use crate::calendar;
use crate::calendar::{missed_trading_days, TradingDaysData};
use crate::decimal::Decimal;
use crate::market::{SnapshotRow, TickerRow, TradingDayRow};
use crate::sdk::TickerItem;
use crate::text;

verus! {

/// Trading days that the short file of daily bars makes up for.
pub const DAILY_K_INCREMENT_WINDOW: usize = 7;

/// Rows of a page of snapshots.
pub const SNAPSHOT_PAGE_LIMIT: u32 = 1_000;

/// Rows of a page of securities.
pub const TICKER_PAGE_LIMIT: u32 = 10_000;

/// Which daily bars are fetched.
#[derive(Debug, Clone, Copy, PartialEq, Eq, Structural)]
pub enum BarSync {
    /// All of them.
    Full,
    /// Those of the last ten trading days.
    Increment,
}

/// All daily bars are fetched where there are none, or where more trading days are missing
/// than the short file makes up for.
pub open spec fn sync_of(last: Option<Seq<char>>, dates: Seq<Seq<char>>) -> BarSync {
    match last {
        None => BarSync::Full,
        Some(d) => if calendar::count_after(dates, text::replaced(d, '-', ""@))
            > DAILY_K_INCREMENT_WINDOW {
            BarSync::Full
        } else {
            BarSync::Increment
        },
    }
}

/// Which daily bars are fetched, by the date of the latest one.
pub fn sync_daily_bars(last: Option<&str>, days: &TradingDaysData) -> (r: BarSync)
    ensures
        r == sync_of(
            match last {
                Some(d) => Some(d@),
                None => None,
            },
            calendar::dates_of(days.item@),
        ),
{
    match last {
        None => BarSync::Full,
        Some(d) => if missed_trading_days(d, days) > DAILY_K_INCREMENT_WINDOW {
            BarSync::Full
        } else {
            BarSync::Increment
        },
    }
}

/// Where the next page starts; none after a page that is not full.
pub fn next_page(rows: usize, limit: u32, offset: u32) -> (r: Option<u32>)
    requires
        offset + limit <= u32::MAX,
    ensures
        match r {
            Some(next) => rows >= limit && next == offset + limit,
            None => rows < limit,
        },
{
    if (rows as u64) < (limit as u64) {
        None
    } else {
        Some(offset + limit)
    }
}

/// A quote of the data service; what a stock that is not traded lacks is missing.
#[derive(Debug)]
pub struct PriceSnapshotItem {
    pub thscode: String,
    pub ticker: String,
    pub last_price: Option<Decimal>,
    pub price_change: Option<Decimal>,
    pub price_change_ratio_pct: Option<Decimal>,
    pub open_price: Option<Decimal>,
    pub high_price: Option<Decimal>,
    pub low_price: Option<Decimal>,
    pub prev_price: Option<Decimal>,
    pub volume: Option<Decimal>,
    pub turnover: Option<Decimal>,
}

pub open spec fn or_zero(d: Option<Decimal>) -> Decimal {
    match d {
        Some(v) => v,
        None => 0,
    }
}

/// Whether a row holds what a quote says, with 0 for what is missing.
pub open spec fn is_row_of(row: SnapshotRow, s: PriceSnapshotItem) -> bool {
    &&& row.thscode@ == s.thscode@
    &&& row.last_price == or_zero(s.last_price)
    &&& row.price_change == or_zero(s.price_change)
    &&& row.price_change_ratio_pct == or_zero(s.price_change_ratio_pct)
    &&& row.open_price == or_zero(s.open_price)
    &&& row.high_price == or_zero(s.high_price)
    &&& row.low_price == or_zero(s.low_price)
    &&& row.prev_price == or_zero(s.prev_price)
    &&& row.volume == or_zero(s.volume)
    &&& row.turnover == or_zero(s.turnover)
}

fn value(d: Option<Decimal>) -> (r: Decimal)
    ensures
        r == or_zero(d),
{
    match d {
        Some(v) => v,
        None => 0,
    }
}

/// The rows of a page of quotes.
pub fn snapshot_rows(items: &Vec<PriceSnapshotItem>) -> (r: Vec<SnapshotRow>)
    ensures
        r@.len() == items@.len(),
        forall|i: int| 0 <= i < r@.len() ==> is_row_of(#[trigger] r@[i], items@[i]),
{
    let mut out: Vec<SnapshotRow> = Vec::new();
    for i in 0..items.len()
        invariant
            out@.len() == i,
            forall|j: int| 0 <= j < i ==> is_row_of(#[trigger] out@[j], items@[j]),
    {
        let s = &items[i];
        let row = SnapshotRow {
            thscode: s.thscode.clone(),
            last_price: value(s.last_price),
            price_change: value(s.price_change),
            price_change_ratio_pct: value(s.price_change_ratio_pct),
            open_price: value(s.open_price),
            high_price: value(s.high_price),
            low_price: value(s.low_price),
            prev_price: value(s.prev_price),
            volume: value(s.volume),
            turnover: value(s.turnover),
        };
        out.push(row);
    }
    out
}

/// The time of a collection: that of the first page, or else now.
pub fn snapshot_time(known: Option<i64>, page: Option<i64>, now_ms: i64) -> (r: i64)
    ensures
        r == (match known {
            Some(t) => t,
            None => match page {
                Some(t) => t,
                None => now_ms,
            },
        }),
{
    match known {
        Some(t) => t,
        None => match page {
            Some(t) => t,
            None => now_ms,
        },
    }
}

/// The rows of a calendar.
pub fn trading_day_rows(data: &TradingDaysData) -> (r: Vec<TradingDayRow>)
    ensures
        r@.len() == data.item@.len(),
        forall|i: int|
            0 <= i < r@.len() ==> (#[trigger] r@[i]).date@ == data.item@[i].date@ && r@[i].date_ms
                == data.item@[i].date_ms,
{
    let mut out: Vec<TradingDayRow> = Vec::new();
    for i in 0..data.item.len()
        invariant
            out@.len() == i,
            forall|j: int|
                0 <= j < i ==> (#[trigger] out@[j]).date@ == data.item@[j].date@ && out@[j].date_ms
                    == data.item@[j].date_ms,
    {
        out.push(
            TradingDayRow { date: data.item[i].date.clone(), date_ms: data.item[i].date_ms },
        );
    }
    out
}

pub open spec fn same_text(a: Option<String>, b: Option<String>) -> bool {
    match (a, b) {
        (Some(x), Some(y)) => x@ == y@,
        (None, None) => true,
        _ => false,
    }
}

/// Whether a row holds what the data service says of a security.
pub open spec fn is_ticker_row(row: TickerRow, t: TickerItem) -> bool {
    &&& row.thscode@ == t.thscode@
    &&& row.ticker@ == t.ticker@
    &&& row.name@ == t.name@
    &&& same_text(row.exchange, t.exchange)
    &&& row.asset_type@ == t.asset_type@
    &&& row.currency@ == t.currency@
}

/// The rows of a page of securities.
pub fn ticker_rows(items: &Vec<TickerItem>) -> (r: Vec<TickerRow>)
    ensures
        r@.len() == items@.len(),
        forall|i: int| 0 <= i < r@.len() ==> is_ticker_row(#[trigger] r@[i], items@[i]),
{
    let mut out: Vec<TickerRow> = Vec::new();
    for i in 0..items.len()
        invariant
            out@.len() == i,
            forall|j: int| 0 <= j < i ==> is_ticker_row(#[trigger] out@[j], items@[j]),
    {
        let t = &items[i];
        let exchange = match &t.exchange {
            Some(s) => Some(s.clone()),
            None => None,
        };
        let row = TickerRow {
            thscode: t.thscode.clone(),
            ticker: t.ticker.clone(),
            name: t.name.clone(),
            exchange,
            asset_type: t.asset_type.clone(),
            currency: t.currency.clone(),
        };
        out.push(row);
    }
    out
}

} // verus!
