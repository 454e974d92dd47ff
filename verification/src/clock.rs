//! The clock of the machine.
use vstd::prelude::*;

use crate::convert::wrap_i64;

verus! {

/// Reads `std::time::SystemTime::now` in seconds since the start of 1970.
/// Nothing is claimed of what it reads.
#[verifier::external_body]
fn system_seconds() -> u64 {
    std::time::SystemTime::now().duration_since(std::time::UNIX_EPOCH).unwrap_or_default().as_secs()
}

/// Reads `std::time::SystemTime::now` in milliseconds since the start of 1970.
/// Nothing is claimed of what it reads.
#[verifier::external_body]
fn system_millis() -> u64 {
    std::time::SystemTime::now().duration_since(std::time::UNIX_EPOCH).unwrap_or_default().as_millis() as u64
}

/// The seconds since the start of 1970.
pub fn unix_now() -> u64 {
    system_seconds()
}

/// The milliseconds since the start of 1970.
pub fn unix_now_millis() -> u64 {
    system_millis()
}

/// The seconds since the start of 1970, as a signed number.
pub fn unix_timestamp() -> i64 {
    wrap_i64(system_seconds())
}

/// The time of a second and its nanoseconds by RFC 3339, in universal time, by the
/// crate `chrono`.
pub uninterp spec fn rfc3339_text(secs: i64, nanos: u32) -> Option<Seq<char>>;

/// Calls `chrono::DateTime::from_timestamp` and `to_rfc3339`: the text of a time,
/// where the calendar holds it.
#[verifier::external_body]
fn chrono_rfc3339(secs: i64, nanos: u32) -> (r: Option<String>)
    ensures
        r is Some <==> rfc3339_text(secs, nanos) is Some,
        r matches Some(s) ==> rfc3339_text(secs, nanos) == Some(s@),
{
    chrono::DateTime::from_timestamp(secs, nanos).map(|time| time.to_rfc3339())
}

/// Reads `chrono::Utc::now`: its second and its nanoseconds. The calendar holds
/// what is read; no more is claimed of it.
#[verifier::external_body]
fn utc_now() -> (r: (i64, u32))
    ensures
        rfc3339_text(r.0, r.1) is Some,
{
    let now = chrono::Utc::now();
    (now.timestamp(), now.timestamp_subsec_nanos())
}

/// Whether a text is that of some time.
pub open spec fn is_time_text(s: Seq<char>) -> bool {
    exists|secs: i64, nanos: u32| #[trigger] rfc3339_text(secs, nanos) == Some(s)
}

/// The text of the time that the clock reads.
pub fn utc_now_text() -> (r: String)
    ensures
        is_time_text(r@),
{
    let (secs, nanos): (i64, u32) = utc_now();
    chrono_rfc3339(secs, nanos).unwrap()
}

} // verus!
