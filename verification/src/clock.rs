//! Local calendar readings of UTC timestamps in named time zones.
//!
//! A point in time is kept as a UNIX timestamp in seconds together with
//! the name of the IANA time zone it is read in; every reading and every
//! calendar shift is done by `chrono` and `chrono-tz` and given a name
//! here. A reading is `None` where the zone name does not parse or the
//! timestamp lies outside `chrono`'s range.

use chrono::{Datelike, TimeDelta, TimeZone, Timelike};
use std::fmt::Write;
use chrono_tz::Tz;
use vstd::prelude::*;

verus! {

/// Whether `chrono_tz::Tz` parses from this name.
pub uninterp spec fn is_tz_name(name: Seq<char>) -> bool;

/// Whether `chrono::DateTime::from_timestamp(ts, 0)` gives a date-time.
pub uninterp spec fn in_chrono_range(ts: int) -> bool;

/// `chrono::DateTime::checked_add_signed` on the instant `ts`, by its timestamp.
pub uninterp spec fn utc_add_seconds(ts: int, secs: int) -> Option<int>;

/// `Timelike::hour` of the instant `ts` read in zone `tz`.
pub uninterp spec fn local_hour(tz: Seq<char>, ts: int) -> Option<int>;

/// `Weekday::number_from_monday` of the weekday of `ts` read in zone `tz`.
pub uninterp spec fn local_weekday(tz: Seq<char>, ts: int) -> Option<int>;

/// `Datelike::day0` of `ts` read in zone `tz`.
pub uninterp spec fn local_day0(tz: Seq<char>, ts: int) -> Option<int>;

/// `Datelike::month0` of `ts` read in zone `tz`.
pub uninterp spec fn local_month0(tz: Seq<char>, ts: int) -> Option<int>;

/// `Datelike::month` of `ts` read in zone `tz`.
pub uninterp spec fn local_month(tz: Seq<char>, ts: int) -> Option<int>;

/// `Datelike::year` of `ts` read in zone `tz`.
pub uninterp spec fn local_year(tz: Seq<char>, ts: int) -> Option<int>;

/// The timestamp of `Datelike::with_month(month)` applied to `ts` in zone `tz`.
pub uninterp spec fn local_with_month(tz: Seq<char>, ts: int, month: int) -> Option<int>;

/// The timestamp of `Datelike::with_year(year)` applied to `ts` in zone `tz`.
pub uninterp spec fn local_with_year(tz: Seq<char>, ts: int, year: int) -> Option<int>;

/// The text `format!("{:?}{}", local, dt.offset().fix())` of the
/// date-time `ts` in zone `tz`, where `local` is its local date and time;
/// `None` where the zone does not parse, `ts` is out of range, or the local
/// date and time lie outside `chrono`'s range.
pub uninterp spec fn local_label(tz: Seq<char>, ts: int) -> Option<Seq<char>>;

/// The text that `DateTime::<Utc>::format(fmt)` writes for the instant
/// `ts`; `None` where `ts` is out of `chrono`'s range or the format string
/// holds an item that cannot be written.
pub uninterp spec fn utc_formatted(ts: int, fmt: Seq<char>) -> Option<Seq<char>>;

/// Wraps `<chrono_tz::Tz as FromStr>::from_str`: whether the zone name parses.
#[verifier::external_body]
pub(crate) fn tz_name_is_valid(name: &str) -> (res: bool)
    ensures
        res == is_tz_name(name@),
{
    name.parse::<Tz>().is_ok()
}

/// Wraps `chrono::DateTime::from_timestamp`: whether `ts` seconds after the
/// epoch is a date-time `chrono` can represent.
#[verifier::external_body]
pub(crate) fn timestamp_in_range(ts: i64) -> (res: bool)
    ensures
        res == in_chrono_range(ts as int),
{
    chrono::DateTime::from_timestamp(ts, 0).is_some()
}

/// Wraps `DateTime::checked_add_signed` with a whole number of seconds.
/// The source adds the delta to the UTC date-time, so a result is the
/// timestamp plus `secs`. Its documentation says that it fails only where
/// the result is out of range, so where both ends are date-times `chrono`
/// can represent the sum is given. `TimeDelta::seconds` panics beyond
/// `i64::MAX` milliseconds, which `requires` leaves out.
#[verifier::external_body]
pub(crate) fn add_seconds(ts: i64, secs: i64) -> (res: Option<i64>)
    requires
        -9_223_372_036_854_775 <= secs <= 9_223_372_036_854_775,
    ensures
        res is Some <==> utc_add_seconds(ts as int, secs as int) is Some,
        res matches Some(r) ==> utc_add_seconds(ts as int, secs as int) == Some(r as int),
        res matches Some(r) ==> r == ts + secs,
        in_chrono_range(ts as int) && in_chrono_range(ts + secs) ==> res is Some,
{
    let dt = chrono::DateTime::from_timestamp(ts, 0)?;
    Some(dt.checked_add_signed(TimeDelta::seconds(secs))?.timestamp())
}

/// Wraps `Timelike::hour` of `ts` in zone `tz` (documented range 0 to 23).
#[verifier::external_body]
pub(crate) fn hour_in(tz: &str, ts: i64) -> (res: Option<u32>)
    ensures
        res is Some <==> local_hour(tz@, ts as int) is Some,
        res matches Some(r) ==> local_hour(tz@, ts as int) == Some(r as int),
        res matches Some(r) ==> r < 24,
{
    let zone: Tz = tz.parse().ok()?;
    Some(zone.timestamp_opt(ts, 0).single()?.hour())
}

/// Wraps `Weekday::number_from_monday` of the weekday of `ts` in zone
/// `tz` (documented: Monday is 1, Sunday is 7).
#[verifier::external_body]
pub(crate) fn weekday_in(tz: &str, ts: i64) -> (res: Option<u32>)
    ensures
        res is Some <==> local_weekday(tz@, ts as int) is Some,
        res matches Some(r) ==> local_weekday(tz@, ts as int) == Some(r as int),
        res matches Some(r) ==> 1 <= r <= 7,
{
    let zone: Tz = tz.parse().ok()?;
    Some(zone.timestamp_opt(ts, 0).single()?.weekday().number_from_monday())
}

/// Wraps `Datelike::day0` of `ts` in zone `tz` (documented range 0 to 30).
#[verifier::external_body]
pub(crate) fn day0_in(tz: &str, ts: i64) -> (res: Option<u32>)
    ensures
        res is Some <==> local_day0(tz@, ts as int) is Some,
        res matches Some(r) ==> local_day0(tz@, ts as int) == Some(r as int),
        res matches Some(r) ==> r <= 30,
{
    let zone: Tz = tz.parse().ok()?;
    Some(zone.timestamp_opt(ts, 0).single()?.day0())
}

/// Wraps `Datelike::month0` of `ts` in zone `tz` (documented range 0 to 11).
#[verifier::external_body]
pub(crate) fn month0_in(tz: &str, ts: i64) -> (res: Option<u32>)
    ensures
        res is Some <==> local_month0(tz@, ts as int) is Some,
        res matches Some(r) ==> local_month0(tz@, ts as int) == Some(r as int),
        res matches Some(r) ==> r <= 11,
{
    let zone: Tz = tz.parse().ok()?;
    Some(zone.timestamp_opt(ts, 0).single()?.month0())
}

/// Wraps `Datelike::month` of `ts` in zone `tz` (documented range 1 to 12).
#[verifier::external_body]
pub(crate) fn month_in(tz: &str, ts: i64) -> (res: Option<u32>)
    ensures
        res is Some <==> local_month(tz@, ts as int) is Some,
        res matches Some(r) ==> local_month(tz@, ts as int) == Some(r as int),
        res matches Some(r) ==> 1 <= r <= 12,
{
    let zone: Tz = tz.parse().ok()?;
    Some(zone.timestamp_opt(ts, 0).single()?.month())
}

/// Wraps `Datelike::year` of `ts` in zone `tz`. The source keeps years
/// within `i32::MAX >> 13`, far below `i32::MAX`.
#[verifier::external_body]
pub(crate) fn year_in(tz: &str, ts: i64) -> (res: Option<i32>)
    ensures
        res is Some <==> local_year(tz@, ts as int) is Some,
        res matches Some(r) ==> local_year(tz@, ts as int) == Some(r as int),
        res matches Some(r) ==> r < i32::MAX,
{
    let zone: Tz = tz.parse().ok()?;
    Some(zone.timestamp_opt(ts, 0).single()?.year())
}

/// Wraps `Datelike::with_month` on `ts` in zone `tz`: the same local date
/// and time in another month, `None` where it does not exist or is
/// ambiguous there. The source changes the month of the local date-time
/// and keeps its year, so the result, read in the zone, is in the given
/// month of the same year.
#[verifier::external_body]
pub(crate) fn with_month_in(tz: &str, ts: i64, month: u32) -> (res: Option<i64>)
    ensures
        res is Some <==> local_with_month(tz@, ts as int, month as int) is Some,
        res matches Some(r) ==> local_with_month(tz@, ts as int, month as int) == Some(r as int),
        res matches Some(r) ==> local_month(tz@, r as int) == Some(month as int),
        res matches Some(r) ==> local_year(tz@, r as int) == local_year(tz@, ts as int),
{
    let zone: Tz = tz.parse().ok()?;
    Some(zone.timestamp_opt(ts, 0).single()?.with_month(month)?.timestamp())
}

/// Wraps `Datelike::with_year` on `ts` in zone `tz`: the same local date
/// and time in another year, `None` where it does not exist or is
/// ambiguous there. The source changes the year of the local date-time
/// and keeps its month, so the result, read in the zone, is in the same
/// month of the given year.
#[verifier::external_body]
pub(crate) fn with_year_in(tz: &str, ts: i64, year: i32) -> (res: Option<i64>)
    ensures
        res is Some <==> local_with_year(tz@, ts as int, year as int) is Some,
        res matches Some(r) ==> local_with_year(tz@, ts as int, year as int) == Some(r as int),
        res matches Some(r) ==> local_year(tz@, r as int) == Some(year as int),
        res matches Some(r) ==> local_month(tz@, r as int) == local_month(tz@, ts as int),
{
    let zone: Tz = tz.parse().ok()?;
    Some(zone.timestamp_opt(ts, 0).single()?.with_year(year)?.timestamp())
}

/// Wraps the `Debug` text of the local date and time followed by the
/// `Display` text of `offset().fix()` for `ts` in zone `tz`, such as
/// `2021-03-01T00:00:00+02:00`. The local date and time are taken with
/// `NaiveDateTime::checked_add_offset`, the step `naive_local` makes
/// before it panics where the local time leaves `chrono`'s range; that
/// case gives `None` here.
#[verifier::external_body]
pub(crate) fn label_in(tz: &str, ts: i64) -> (res: Option<String>)
    ensures
        res matches Some(s) ==> local_label(tz@, ts as int) == Some(s@),
        res is None ==> local_label(tz@, ts as int) is None,
{
    let zone: Tz = tz.parse().ok()?;
    let dt = zone.timestamp_opt(ts, 0).single()?;
    let offset = chrono::Offset::fix(dt.offset());
    let local = dt.naive_utc().checked_add_offset(offset)?;
    Some(format!("{:?}{}", local, offset))
}

/// Wraps `DateTime::<Utc>::format` for the instant `ts`, written into a
/// string; a write error (a format item that cannot be written) gives
/// `None` rather than the panic of `to_string`.
#[verifier::external_body]
pub(crate) fn format_utc(ts: i64, fmt: &str) -> (res: Option<String>)
    ensures
        res matches Some(s) ==> utc_formatted(ts as int, fmt@) == Some(s@),
        res is None ==> utc_formatted(ts as int, fmt@) is None,
        !in_chrono_range(ts as int) ==> res is None,
{
    let dt = chrono::DateTime::from_timestamp(ts, 0)?;
    let mut out = String::new();
    write!(out, "{}", dt.format(fmt)).ok()?;
    Some(out)
}

/// The labels of the two ends of a period read in zone `tz`, such as
/// `2021-03-01T00:00:00+02:00`: the local date and time followed by the
/// zone's offset. `None` where either end cannot be read there.
pub fn period_labels(tz: &str, start: i64, end: i64) -> (res: Option<(String, String)>)
    ensures
        match res {
            Some((a, b)) => local_label(tz@, start as int) == Some(a@) && local_label(tz@, end as int)
                == Some(b@),
            None => local_label(tz@, start as int) is None || local_label(tz@, end as int) is None,
        },
{
    let a = match label_in(tz, start) {
        Some(a) => a,
        None => return None,
    };
    let b = match label_in(tz, end) {
        Some(b) => b,
        None => return None,
    };
    Some((a, b))
}

} // verus!
