//! Dates of time stamps.

use vstd::prelude::*;

use chrono::DateTime;

verus! {

/// Eight hours in milliseconds: China Standard Time is UTC+8.
pub const CST_OFFSET_MS: i64 = 28_800_000;

/// The last millisecond of the year 9999.
pub const YEAR_9999_END_MS: i64 = 253_402_300_799_999;

/// What `chrono` writes for the UTC time of a stamp under a pattern; none where the stamp is
/// out of its range.
pub uninterp spec fn utc_text(ms: i64, pattern: Seq<char>) -> Option<Seq<char>>;

/// `chrono::DateTime::from_timestamp_millis`, and `DateTime::format` of its result written to
/// a string. The text is what [`utc_text`] names. There is one for every stamp of the years
/// 1970 to 9999, and then a month and day take five characters and a full date takes ten.
#[verifier::external_body]
fn utc_format(ms: i64, pattern: &str) -> (r: Option<String>)
    requires
        pattern@ == "%m-%d"@ || pattern@ == "%Y-%m-%d"@,
    ensures
        r matches Some(s) ==> utc_text(ms, pattern@) == Some(s@),
        r is None ==> utc_text(ms, pattern@) is None,
        r is Some || ms < 0 || ms > YEAR_9999_END_MS,
        r matches Some(s) ==> 0 <= ms <= YEAR_9999_END_MS ==> pattern@ == "%m-%d"@ ==> s@.len()
            == 5,
        r matches Some(s) ==> 0 <= ms <= YEAR_9999_END_MS ==> pattern@ == "%Y-%m-%d"@ ==> s@.len()
            == 10,
{
    match DateTime::from_timestamp_millis(ms) {
        Some(t) => Some(t.format(pattern).to_string()),
        None => None,
    }
}

/// The text of an optional date, blank where there is none.
pub open spec fn text_or_blank(t: Option<Seq<char>>) -> Seq<char> {
    match t {
        Some(s) => s,
        None => Seq::empty(),
    }
}

/// Month and day of a stamp in China, such as `09-21`; blank where the stamp is out of range.
pub fn fmt_bar_date(ms: i64) -> (r: String)
    requires
        ms <= i64::MAX - CST_OFFSET_MS,
    ensures
        r@ == text_or_blank(utc_text((ms + CST_OFFSET_MS) as i64, "%m-%d"@)),
        0 <= ms <= YEAR_9999_END_MS - CST_OFFSET_MS ==> r@.len() == 5,
{
    match utc_format(ms + CST_OFFSET_MS, "%m-%d") {
        Some(s) => s,
        None => String::new(),
    }
}

/// The date of a stamp in China, such as `2026-09-21`; blank where the stamp is out of range.
pub fn fmt_date(ms: i64) -> (r: String)
    requires
        ms <= i64::MAX - CST_OFFSET_MS,
    ensures
        r@ == text_or_blank(utc_text((ms + CST_OFFSET_MS) as i64, "%Y-%m-%d"@)),
        0 <= ms <= YEAR_9999_END_MS - CST_OFFSET_MS ==> r@.len() == 10,
{
    match utc_format(ms + CST_OFFSET_MS, "%Y-%m-%d") {
        Some(s) => s,
        None => String::new(),
    }
}

} // verus!
