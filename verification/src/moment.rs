//! Points in time, in UTC.
use chrono::{DateTime, Months, TimeZone, Utc};
use std::str::FromStr;
use vstd::prelude::*;

use crate::convert;
use crate::convert::wrap_i64;

verus! {

/// A point in time: seconds since the start of 1970, and nanoseconds, of which
/// a leap second has a thousand million more than another second.
#[derive(Debug, Clone, Copy, PartialEq, Eq, Structural)]
pub struct Moment {
    pub secs: i64,
    pub nanos: u32,
}

/// The first second that the calendar holds, early in the year -262143.
pub const FIRST_SECOND: i64 = -8_334_601_228_800;

/// The last second that the calendar holds, late in the year 262142.
pub const LAST_SECOND: i64 = 8_210_266_876_799;

/// Whether the calendar holds the second `secs`.
pub open spec fn in_calendar(secs: int) -> bool {
    FIRST_SECOND <= secs <= LAST_SECOND
}

/// Whether the calendar holds the second `secs`.
pub fn calendar_holds(secs: i64) -> (r: bool)
    ensures
        r == in_calendar(secs as int),
{
    FIRST_SECOND <= secs && secs <= LAST_SECOND
}

/// Whether `a` is earlier than `b`.
pub open spec fn earlier(a: Moment, b: Moment) -> bool {
    a.secs < b.secs || (a.secs == b.secs && a.nanos < b.nanos)
}

/// Whether `a` is earlier than `b`.
pub fn is_earlier(a: Moment, b: Moment) -> (r: bool)
    ensures
        r == earlier(a, b),
{
    a.secs < b.secs || (a.secs == b.secs && a.nanos < b.nanos)
}

/// The time that `text` writes under `format`: what
/// `chrono::DateTime::parse_from_str` reads, as seconds and nanoseconds.
pub uninterp spec fn time_by_format(text: Seq<char>, format: Seq<char>) -> Option<(i64, u32)>;

/// The time that `text` writes in RFC 3339 notation: what
/// `chrono::DateTime::parse_from_rfc3339` reads, as seconds and nanoseconds.
pub uninterp spec fn time_by_rfc3339(text: Seq<char>) -> Option<(i64, u32)>;

/// How `chrono` writes a time by a format; there is no such text for seconds
/// outside the calendar.
pub uninterp spec fn time_text(secs: i64, nanos: u32, format: Seq<char>) -> Option<Seq<char>>;

/// A time as it is read, with a space between the day and the hour.
pub open spec fn plain_text(secs: i64, nanos: u32) -> Option<Seq<char>> {
    time_text(secs, nanos, "%Y-%m-%d %H:%M:%S"@)
}

/// The time `months` months after the given one by
/// `chrono::DateTime::checked_add_months`.
pub uninterp spec fn months_later(secs: i64, nanos: u32, months: u32) -> Option<(i64, u32)>;

/// When the schedule `scheduler` of the `cron` crate runs first after the
/// second `after`.
pub uninterp spec fn next_run(scheduler: Seq<char>, after: u64) -> Option<u64>;

/// Calls `chrono::DateTime::parse_from_str`. Every time that it reads is one
/// that can be written.
#[verifier::external_body]
fn chrono_parse(text: &str, format: &str) -> (r: Option<(i64, u32)>)
    ensures
        r == time_by_format(text@, format@),
        r matches Some(t) ==> plain_text(t.0, t.1) is Some,
{
    DateTime::parse_from_str(text, format).ok().map(|t| (t.timestamp(), t.timestamp_subsec_nanos()))
}

/// Calls `chrono::DateTime::parse_from_rfc3339`.
#[verifier::external_body]
fn chrono_parse_rfc3339(text: &str) -> (r: Option<(i64, u32)>)
    ensures
        r == time_by_rfc3339(text@),
{
    DateTime::parse_from_rfc3339(text).ok().map(|t| (t.timestamp(), t.timestamp_subsec_nanos()))
}

/// Calls `chrono::DateTime::format`. Both formats hold only what every time of
/// the calendar has.
#[verifier::external_body]
fn chrono_format(secs: i64, nanos: u32, format: &str) -> (r: Option<String>)
    requires
        format@ == "%Y-%m-%d %H:%M:%S"@ || format@ == "%Y-%m-%dT%H:%M:%SZ"@,
    ensures
        r.is_some() == time_text(secs, nanos, format@).is_some(),
        r matches Some(s) ==> s@ == time_text(secs, nanos, format@)->0,
{
    DateTime::from_timestamp(secs, nanos).map(|t| t.format(format).to_string())
}

/// Calls `chrono::DateTime::checked_add_months`. One month or more leads to a
/// later time.
#[verifier::external_body]
fn chrono_add_months(secs: i64, nanos: u32, months: u32) -> (r: Option<(i64, u32)>)
    ensures
        r == months_later(secs, nanos, months),
        months > 0 ==> (r matches Some(t) ==> earlier(
            (Moment { secs, nanos }),
            (Moment { secs: t.0, nanos: t.1 }),
        )),
{
    let time = DateTime::from_timestamp(secs, nanos)?.checked_add_months(Months::new(months))?;
    Some((time.timestamp(), time.timestamp_subsec_nanos()))
}

/// Calls `cron::Schedule::from_str` and asks the schedule for its first run
/// after the second `after_unix`. There is none where the text is no schedule,
/// where the calendar does not hold that second, or where the schedule has
/// ended. The last second of the calendar is left out: the schedule would look
/// one second further.
#[verifier::external_body]
pub(crate) fn next_after(scheduler: &str, after_unix: u64) -> (r: Option<u64>)
    requires
        after_unix != LAST_SECOND,
    ensures
        r == next_run(scheduler@, after_unix),
{
    let schedule = cron::Schedule::from_str(scheduler).ok()?;
    let after = Utc.timestamp_opt(after_unix as i64, 0).single()?;
    schedule.after(&after).next().map(|time| time.timestamp() as u64)
}

/// The time that `text` writes under `format`.
pub fn parse_time(text: &str, format: &str) -> (r: Option<Moment>)
    ensures
        r == match time_by_format(text@, format@) {
            Some(t) => Some(Moment { secs: t.0, nanos: t.1 }),
            None => None,
        },
        r matches Some(m) ==> plain_text(m.secs, m.nanos) is Some,
{
    match chrono_parse(text, format) {
        Some(t) => Some(Moment { secs: t.0, nanos: t.1 }),
        None => None,
    }
}

/// The time that `text` writes in RFC 3339 notation.
pub fn parse_rfc3339(text: &str) -> (r: Option<Moment>)
    ensures
        r == match time_by_rfc3339(text@) {
            Some(t) => Some(Moment { secs: t.0, nanos: t.1 }),
            None => None,
        },
{
    match chrono_parse_rfc3339(text) {
        Some(t) => Some(Moment { secs: t.0, nanos: t.1 }),
        None => None,
    }
}

/// The time `m` as `%Y-%m-%d %H:%M:%S`, where the calendar holds it.
pub fn show_time(m: Moment) -> (r: Option<String>)
    ensures
        r.is_some() == plain_text(m.secs, m.nanos).is_some(),
        r matches Some(s) ==> s@ == plain_text(m.secs, m.nanos)->0,
{
    chrono_format(m.secs, m.nanos, "%Y-%m-%d %H:%M:%S")
}

/// A second as records tell of it. The second that nothing happened in, and one
/// that the calendar does not hold, are told as the first day.
pub open spec fn told_second(unix: u64) -> Seq<char> {
    match time_text(convert::wrapped(unix) as i64, 0, "%Y-%m-%dT%H:%M:%SZ"@) {
        Some(s) if unix != 0 => s,
        _ => "0001-01-01T00:00:00Z"@,
    }
}

/// The second `unix` as records tell of it.
pub fn unix_as_rfc3339(unix: u64) -> (r: String)
    ensures
        r@ == told_second(unix),
{
    if unix == 0 {
        return "0001-01-01T00:00:00Z".to_owned();
    }
    match chrono_format(wrap_i64(unix), 0, "%Y-%m-%dT%H:%M:%SZ") {
        Some(s) => s,
        None => "0001-01-01T00:00:00Z".to_owned(),
    }
}

/// The second of a record that may have none.
pub fn unix_opt_as_rfc3339(unix: Option<u64>) -> (r: String)
    ensures
        r@ == match unix {
            Some(t) => told_second(t),
            None => "0001-01-01T00:00:00Z"@,
        },
{
    match unix {
        Some(t) => unix_as_rfc3339(t),
        None => "0001-01-01T00:00:00Z".to_owned(),
    }
}

/// The time `months` months after `m`, where the calendar holds it.
pub open spec fn after_months(m: Moment, months: u32) -> Option<Moment> {
    match months_later(m.secs, m.nanos, months) {
        Some(t) => Some(Moment { secs: t.0, nanos: t.1 }),
        None => None,
    }
}

/// The time `months` months after `m`.
pub fn add_months(m: Moment, months: u32) -> (r: Option<Moment>)
    ensures
        r == after_months(m, months),
        months > 0 ==> (r matches Some(t) ==> earlier(m, t)),
{
    match chrono_add_months(m.secs, m.nanos, months) {
        Some(t) => Some(Moment { secs: t.0, nanos: t.1 }),
        None => None,
    }
}

/// The time `delta` seconds after `m`, where the calendar holds it. Going on
/// from inside a leap second counts it as the second before.
pub open spec fn after_seconds(m: Moment, delta: int) -> Option<Moment> {
    if delta == 0 {
        Some(m)
    } else if in_calendar(m.secs + delta) {
        Some(
            Moment {
                secs: (m.secs + delta) as i64,
                nanos: if m.nanos >= 1_000_000_000 {
                    (m.nanos - 1_000_000_000) as u32
                } else {
                    m.nanos
                },
            },
        )
    } else {
        None
    }
}

/// The time `delta` seconds after `m`, where the calendar holds it.
pub fn add_seconds(m: Moment, delta: u64) -> (r: Option<Moment>)
    ensures
        r == after_seconds(m, delta as int),
        delta > 0 ==> (r matches Some(t) ==> earlier(m, t)),
{
    if delta == 0 {
        return Some(m);
    }
    let sum: i128 = m.secs as i128 + delta as i128;
    if sum < FIRST_SECOND as i128 || sum > LAST_SECOND as i128 {
        return None;
    }
    let nanos: u32 = if m.nanos >= 1_000_000_000 {
        m.nanos - 1_000_000_000
    } else {
        m.nanos
    };
    Some(Moment { secs: sum as i64, nanos })
}

/// Going on by one span and then by another leads where both together lead, as long as
/// the calendar holds all of it.
pub proof fn spans_add_up(m: Moment, a: int, b: int)
    requires
        m.nanos < 1_000_000_000,
        in_calendar(m.secs + a),
        in_calendar(m.secs + a + b),
    ensures
        after_seconds(m, a) matches Some(t) && after_seconds(t, b) == after_seconds(m, a + b),
        after_seconds(m, a) matches Some(t) && t.secs - m.secs == a && t.nanos == m.nanos,
        after_seconds(m, 0) == Some(m),
{
}

/// Of two different times one is earlier, and never both; the one with fewer seconds
/// is.
pub proof fn times_are_in_order(a: Moment, b: Moment)
    ensures
        a != b ==> (earlier(a, b) <==> !earlier(b, a)),
        !earlier(a, a),
        a.secs < b.secs ==> earlier(a, b),
        a.secs == b.secs ==> (earlier(a, b) <==> a.nanos < b.nanos),
{
}

/// A second that something happened in is told by its date; the second 0 and one
/// outside the calendar as the first day.
pub proof fn seconds_are_told_by_their_date(unix: u64, text: Seq<char>)
    requires
        0 < unix <= i64::MAX,
    ensures
        time_text(unix as i64, 0, "%Y-%m-%dT%H:%M:%SZ"@) == Some(text) ==> told_second(unix)
            == text,
        time_text(unix as i64, 0, "%Y-%m-%dT%H:%M:%SZ"@) is None ==> told_second(unix)
            == told_second(0),
        told_second(0) == "0001-01-01T00:00:00Z"@,
{
}

} // verus!
