//! Trusted interface to timestamp parsing and the system clock.
use vstd::prelude::*;

verus! {

/// The timestamp, in microseconds since the Unix epoch, that an RFC 3339
/// string denotes; `None` when the string is not a valid RFC 3339 timestamp.
pub uninterp spec fn rfc3339_micros(s: Seq<char>) -> Option<i64>;

/// Relies on chrono::DateTime::parse_from_rfc3339 and
/// chrono::DateTime::timestamp_micros: the parse of an RFC 3339 string, and
/// the timestamp of the parsed value, depend on the string alone.
#[verifier::external_body]
pub fn parse_rfc3339_micros(s: &str) -> (r: Option<i64>)
    ensures
        r == rfc3339_micros(s@),
{
    match chrono::DateTime::parse_from_rfc3339(s) {
        Ok(dt) => Some(dt.timestamp_micros()),
        Err(_) => None,
    }
}

/// Relies on std::time::SystemTime::now, Duration::as_micros and
/// SystemTime::duration_since against the Unix epoch. Nothing is promised
/// of the clock: a clock before the epoch reads as zero.
#[verifier::external_body]
pub fn system_now_micros() -> i64 {
    match std::time::SystemTime::now().duration_since(std::time::UNIX_EPOCH) {
        Ok(d) => d.as_micros() as i64,
        Err(_) => 0,
    }
}

} // verus!
