//! Instants are milliseconds since the Unix epoch (UTC). Calendar work and
//! text forms of instants are left to `chrono`; the clock and the local time
//! zone are read through it too.

use chrono::{Datelike, Offset, TimeZone, Timelike};
use vstd::prelude::*;

verus! {

/// Milliseconds in one second, minute, hour and day.
pub const SECOND_MS: i64 = 1000;

pub const MINUTE_MS: i64 = 60_000;

pub const HOUR_MS: i64 = 3_600_000;

pub const DAY_MS: i64 = 86_400_000;

/// The earliest and the latest instant that `chrono::DateTime<Utc>` can hold.
pub const MIN_MS: i64 = -8_334_601_315_200_000;

pub const MAX_MS: i64 = 8_210_266_876_799_999;

pub open spec fn in_range(t: int) -> bool {
    MIN_MS <= t <= MAX_MS
}

/// The UTC day (days since the epoch) that holds instant `t` once shifted by `offset`.
pub open spec fn day_index(t: int, offset: int) -> int {
    (t + offset) / (DAY_MS as int)
}

/// Weekday of a day index, 0 = Monday .. 6 = Sunday (1970-01-01 was a Thursday).
pub open spec fn weekday_from_monday(day: int) -> int {
    (day + 3) % 7
}

/// `chrono::Utc::now()` in milliseconds.
#[verifier::external_body]
pub(crate) fn now_ms() -> (r: i64)
    ensures
        in_range(r as int),
{
    chrono::Utc::now().timestamp_millis()
}

/// Offset of the machine's local time zone from UTC at instant `t`, in seconds,
/// through `chrono::Local`. chrono keeps every offset strictly within one day.
#[verifier::external_body]
pub(crate) fn local_offset_secs(t: i64) -> (r: i32)
    ensures
        -86_400 < r < 86_400,
{
    match chrono::DateTime::from_timestamp_millis(t) {
        Some(dt) => chrono::Local.offset_from_utc_datetime(&dt.naive_utc()).fix().local_minus_utc(),
        None => 0,
    }
}

/// Today's local date as `chrono` writes it (`YYYY-MM-DD`), from the clock and the
/// machine's time zone.
#[verifier::external_body]
pub(crate) fn local_today() -> (r: String) {
    chrono::Local::now().date_naive().to_string()
}

/// What `DateTime::<Utc>::to_rfc3339` writes for the instant `t`.
pub uninterp spec fn rfc3339_text(t: int) -> Seq<char>;

/// Calls `DateTime::<Utc>::to_rfc3339`; its text is named by `rfc3339_text` (an empty
/// text for an instant chrono cannot hold).
#[verifier::external_body]
pub(crate) fn rfc3339(t: i64) -> (r: String)
    ensures
        r@ == rfc3339_text(t as int),
{
    chrono::DateTime::from_timestamp_millis(t).map(|d| d.to_rfc3339()).unwrap_or_default()
}

/// What `DateTime::parse_from_rfc3339` reads from a text, as UTC milliseconds.
pub uninterp spec fn rfc3339_value(s: Seq<char>) -> Option<int>;

/// Calls `DateTime::parse_from_rfc3339`; its result is named by `rfc3339_value`.
#[verifier::external_body]
pub(crate) fn parse_rfc3339(s: &str) -> (r: Option<i64>)
    ensures
        r matches Some(v) ==> in_range(v as int),
        r matches Some(v) ==> rfc3339_value(s@) == Some(v as int),
        r is None ==> rfc3339_value(s@) is None,
{
    chrono::DateTime::parse_from_rfc3339(s).ok().map(|d| d.timestamp_millis())
}

/// What `NaiveDateTime::parse_from_str` reads from a text with a format, as the
/// UTC instant of that date and time.
pub uninterp spec fn naive_datetime_value(s: Seq<char>, fmt: Seq<char>) -> Option<int>;

/// Calls `NaiveDateTime::parse_from_str` and takes the result as UTC; its result is
/// named by `naive_datetime_value`. The formats it is given read minutes but no
/// seconds (so no leap second), and every such date and time chrono holds is within
/// `in_range`.
#[verifier::external_body]
pub(crate) fn parse_naive_datetime(s: &str, fmt: &str) -> (r: Option<i64>)
    requires
        fmt@ == crate::csv::date_format(0) || fmt@ == crate::csv::date_format(1)
            || fmt@ == crate::csv::date_format(2) || fmt@ == crate::csv::date_format(3),
    ensures
        r matches Some(v) ==> in_range(v as int),
        r matches Some(v) ==> naive_datetime_value(s@, fmt@) == Some(v as int),
        r is None ==> naive_datetime_value(s@, fmt@) is None,
{
    chrono::NaiveDateTime::parse_from_str(s, fmt).ok().map(
        |n| chrono::DateTime::<chrono::Utc>::from_naive_utc_and_offset(n, chrono::Utc).timestamp_millis(),
    )
}

/// What `NaiveDate::parse_from_str` reads from a text with a format, as the UTC
/// instant of that date's midnight.
pub uninterp spec fn naive_date_value(s: Seq<char>, fmt: Seq<char>) -> Option<int>;

/// Calls `NaiveDate::parse_from_str` and takes midnight of that date as UTC; its
/// result is named by `naive_date_value`.
#[verifier::external_body]
pub(crate) fn parse_naive_date(s: &str, fmt: &str) -> (r: Option<i64>)
    ensures
        r matches Some(v) ==> in_range(v as int),
        r matches Some(v) ==> naive_date_value(s@, fmt@) == Some(v as int),
        r is None ==> naive_date_value(s@, fmt@) is None,
{
    chrono::NaiveDate::parse_from_str(s, fmt).ok().and_then(|d| d.and_hms_opt(0, 0, 0)).map(
        |n| chrono::DateTime::<chrono::Utc>::from_naive_utc_and_offset(n, chrono::Utc).timestamp_millis(),
    )
}

/// The UTC calendar fields (year, month, day, hour, minute, second) of instant `t`.
pub uninterp spec fn utc_fields(t: int) -> (i32, u32, u32, u32, u32, u32);

/// Reads the calendar fields of `t` through `chrono` (`year`, `month`, `day`, `hour`,
/// `minute`, `second` of the UTC date-time); they are named by `utc_fields`. The
/// ranges are those chrono documents for these accessors and for its dates.
#[verifier::external_body]
pub(crate) fn fields_of(t: i64) -> (r: (i32, u32, u32, u32, u32, u32))
    requires
        in_range(t as int),
    ensures
        r == utc_fields(t as int),
        -262_144 <= r.0 <= 262_143,
        1 <= r.1 <= 12,
        1 <= r.2 <= 31,
        r.3 < 24,
        r.4 < 60,
        r.5 < 60,
{
    match chrono::DateTime::from_timestamp_millis(t) {
        Some(d) => (d.year(), d.month(), d.day(), d.hour(), d.minute(), d.second()),
        None => (1970, 1, 1, 0, 0, 0),
    }
}

/// The instant of a UTC calendar date and time, or `None` where the date does not exist.
pub uninterp spec fn utc_instant(y: i32, mo: u32, d: u32, h: u32, mi: u32, s: u32) -> Option<
    int,
>;

/// Calls `Utc.with_ymd_and_hms(..).single()`; its result is named by `utc_instant`.
#[verifier::external_body]
pub(crate) fn instant_of(y: i32, mo: u32, d: u32, h: u32, mi: u32, s: u32) -> (r: Option<i64>)
    ensures
        r matches Some(v) ==> in_range(v as int),
        r matches Some(v) ==> utc_instant(y, mo, d, h, mi, s) == Some(v as int),
        r is None ==> utc_instant(y, mo, d, h, mi, s) is None,
{
    chrono::Utc.with_ymd_and_hms(y, mo, d, h, mi, s).single().map(|d| d.timestamp_millis())
}

} // verus!

verus! {

/// `day_index(t, off)` for instants and offsets that the clock can produce.
pub fn day_index_exec(t: i64, off: i64) -> (r: i64)
    requires
        in_range(t as int),
        -DAY_MS < off < DAY_MS,
    ensures
        r == day_index(t as int, off as int),
        -100_000_000 < r < 100_000_000,
{
    let a: i128 = t as i128 + off as i128;
    let b: i128 = a + 8_640_000_000_000_000_000;
    let q: i128 = b / 86_400_000;
    proof {
        assert(b >= 0);
        assert((a as int + 100_000_000_000 * 86_400_000) / 86_400_000 == a as int / 86_400_000
            + 100_000_000_000) by (nonlinear_arith);
        assert(-100_000_000 < a as int / 86_400_000 < 100_000_000) by (nonlinear_arith)
            requires
                -8_500_000_000_000_000 < a < 8_500_000_000_000_000,
        ;
    }
    (q - 100_000_000_000) as i64
}

pub fn in_range_exec(t: i128) -> (r: bool)
    ensures
        r == in_range(t as int),
{
    MIN_MS as i128 <= t && t <= MAX_MS as i128
}

} // verus!

verus! {

/// The UTC day that holds instant `t`, for any `i64` instant. Two instants have the
/// same UTC date (`DateTime::date_naive`) exactly when these days are equal.
pub fn utc_day(t: i64) -> (r: i64)
    ensures
        r == day_index(t as int, 0),
{
    let b: i128 = t as i128 + 9_244_800_000_000_000_000;
    let q: i128 = b / 86_400_000;
    proof {
        assert(b >= 0);
        assert((t as int + 107_000_000_000 * 86_400_000) / 86_400_000 == t as int / 86_400_000
            + 107_000_000_000) by (nonlinear_arith);
        assert(-107_000_000_000 <= t as int / 86_400_000 < 107_000_000_000) by (nonlinear_arith)
            requires
                -9_223_372_036_854_775_808 <= t <= 9_223_372_036_854_775_807,
        ;
    }
    (q - 107_000_000_000) as i64
}

} // verus!
