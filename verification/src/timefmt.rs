//! Points in time as milliseconds since the Unix epoch, with trusted
//! bridges to the calendar formatting and parsing of the `chrono` crate.

use chrono::TimeZone;
use vstd::prelude::*;

verus! {

/// The largest count of milliseconds the library will format as a date:
/// the last instant of the year 9999.
pub const TS_MAX_MILLIS: i64 = 253402300799999;

/// The RFC 3339 text that `chrono` renders for a point in time, taken in
/// UTC; it depends on the count of milliseconds alone.
pub uninterp spec fn rfc3339_text(ms: int) -> Seq<char>;

/// The point in time an RFC 3339 text denotes, in milliseconds since the
/// epoch, or `None` where the text is not a valid RFC 3339 date-and-time;
/// it depends on the text alone.
pub uninterp spec fn rfc3339_parse(s: Seq<char>) -> Option<i64>;

/// Relies on `std::time::SystemTime::now` and `duration_since`: the wall
/// clock, read without panicking — a clock before the epoch counts as
/// zero, one beyond `i64` as `i64::MAX`. Nothing is promised of the
/// value; callers state what holds of every outcome.
#[verifier::external_body]
pub(crate) fn now_epoch_millis() -> i64 {
    match std::time::SystemTime::now().duration_since(std::time::UNIX_EPOCH) {
        Ok(d) => i64::try_from(d.as_millis()).unwrap_or(i64::MAX),
        Err(_) => 0,
    }
}

/// Relies on `chrono::TimeZone::timestamp_millis_opt`, documented to give
/// a single value for every in-range count of milliseconds, and on
/// `chrono::DateTime::to_rfc3339`; with the zone fixed to UTC the text
/// depends on the count alone.
#[verifier::external_body]
pub(crate) fn rfc3339_of_millis(ms: i64) -> (r: String)
    requires
        0 <= ms <= TS_MAX_MILLIS,
    ensures
        r@ == rfc3339_text(ms as int),
{
    chrono::Utc.timestamp_millis_opt(ms).unwrap().to_rfc3339()
}

/// Relies on `chrono::DateTime::parse_from_rfc3339` and
/// `chrono::DateTime::timestamp_millis`, both functions of the text alone.
#[verifier::external_body]
pub(crate) fn rfc3339_to_millis(s: &str) -> (r: Option<i64>)
    ensures
        r == rfc3339_parse(s@),
{
    match chrono::DateTime::parse_from_rfc3339(s) {
        Ok(dt) => Some(dt.timestamp_millis()),
        Err(_) => None,
    }
}

} // verus!
