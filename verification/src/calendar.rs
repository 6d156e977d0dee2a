//! The trading calendar.

use vstd::prelude::*;

use crate::text;
use crate::text::{is_less, text_eq};

verus! {

/// A trading day.
#[derive(Debug)]
pub struct TradingDay {
    /// Midnight in China, in milliseconds.
    pub date_ms: i64,
    /// The date as `yyyyMMdd`.
    pub date: String,
}

/// The trading days of a year, in ascending order.
#[derive(Debug)]
pub struct TradingDaysData {
    pub timestamp: i64,
    pub item: Vec<TradingDay>,
}

/// The dates of a calendar.
pub open spec fn dates_of(item: Seq<TradingDay>) -> Seq<Seq<char>> {
    Seq::new(item.len(), |i: int| item[i].date@)
}

/// The last place among the first `n` whose date is not after a date, -1 where there is none.
pub open spec fn last_not_after(dates: Seq<Seq<char>>, date: Seq<char>, n: int) -> int
    decreases n,
{
    if n <= 0 {
        -1
    } else if !text::text_less(date, dates[n - 1]) {
        n - 1
    } else {
        last_not_after(dates, date, n - 1)
    }
}

impl TradingDaysData {
    /// Whether a date is a trading day.
    pub fn contains_date(&self, yyyymmdd: &str) -> (r: bool)
        ensures
            r == dates_of(self.item@).contains(yyyymmdd@),
    {
        for i in 0..self.item.len()
            invariant
                forall|j: int| 0 <= j < i ==> (#[trigger] dates_of(self.item@)[j]) != yyyymmdd@,
        {
            if text_eq(self.item[i].date.as_str(), yyyymmdd) {
                assert(dates_of(self.item@)[i as int] == yyyymmdd@);
                return true;
            }
        }
        false
    }

    /// The last trading day that is not after a date.
    pub fn latest_on_or_before(&self, yyyymmdd: &str) -> (r: Option<&TradingDay>)
        ensures
            ({
                let k = last_not_after(
                    dates_of(self.item@),
                    yyyymmdd@,
                    self.item@.len() as int,
                );
                match r {
                    Some(d) => 0 <= k < self.item@.len() && *d == self.item@[k],
                    None => k == -1,
                }
            }),
    {
        let n: usize = self.item.len();
        let mut i: usize = n;
        while i > 0
            invariant
                n == self.item@.len(),
                i <= n,
                last_not_after(dates_of(self.item@), yyyymmdd@, n as int) == last_not_after(
                    dates_of(self.item@),
                    yyyymmdd@,
                    i as int,
                ),
            decreases i,
        {
            if !is_less(yyyymmdd, self.item[i - 1].date.as_str()) {
                return Some(&self.item[i - 1]);
            }
            i = i - 1;
        }
        None
    }
}

/// In a calendar in ascending order the latest day on or before a date is on or before it,
/// and every later day of the calendar is after the date.
pub proof fn the_latest_day_is_the_latest(dates: Seq<Seq<char>>, date: Seq<char>, n: int)
    requires
        0 <= n <= dates.len(),
    ensures
        ({
            let k = last_not_after(dates, date, n);
            &&& -1 <= k < n
            &&& k >= 0 ==> !text::text_less(date, dates[k])
            &&& forall|j: int| k < j < n ==> text::text_less(date, #[trigger] dates[j])
            &&& forall|i: int|
                0 <= i < n && #[trigger] dates[i] == date ==> k >= i
        }),
    decreases n,
{
    text::text_order_is_total(date, date);
    if n > 0 && text::text_less(date, dates[n - 1]) {
        the_latest_day_is_the_latest(dates, date, n - 1);
    }
}

/// How many of the dates are after a date.
pub open spec fn count_after(dates: Seq<Seq<char>>, date: Seq<char>) -> int
    decreases dates.len(),
{
    if dates.len() == 0 {
        0
    } else {
        count_after(dates.drop_last(), date) + if text::text_less(date, dates.last()) {
            1int
        } else {
            0int
        }
    }
}

/// How many trading days have passed since the latest daily bar, whose date is given as
/// `yyyy-MM-dd`.
pub fn missed_trading_days(last_bar_date: &str, calendar: &TradingDaysData) -> (r: usize)
    ensures
        r == count_after(
            dates_of(calendar.item@),
            text::replaced(last_bar_date@, '-', ""@),
        ),
        r <= calendar.item@.len(),
{
    let last = text::replace_char(last_bar_date, '-', "");
    let ghost dates = dates_of(calendar.item@);
    let mut n: usize = 0;
    assert(dates.take(0) =~= Seq::empty());
    for i in 0..calendar.item.len()
        invariant
            dates == dates_of(calendar.item@),
            n == count_after(dates.take(i as int), last@),
            n <= i,
    {
        proof {
            assert(dates.take(i + 1).drop_last() =~= dates.take(i as int));
            assert(dates.take(i + 1).last() == calendar.item@[i as int].date@);
        }
        if is_less(last.as_str(), calendar.item[i].date.as_str()) {
            n = n + 1;
        }
    }
    assert(dates.take(dates.len() as int) =~= dates);
    n
}

} // verus!
