//! Timestamps: RFC 3339 strings and the epoch second they denote.
//!
//! The store keeps timestamps as RFC 3339 strings with an explicit offset.
//! Parsing such a string is delegated to chrono; the result is named by the
//! uninterpreted function [`epoch_seconds_of`], and everything downstream
//! (duration labels, history ordering) is verified in terms of that name.

use vstd::prelude::*;

verus! {

/// The UTC epoch second denoted by an RFC 3339 date-and-time string,
/// or `None` when the string is not a valid RFC 3339 timestamp.
///
/// The value is fixed by chrono's `DateTime::parse_from_rfc3339` composed
/// with `DateTime::timestamp`; both depend on the characters of the string
/// alone, so the composition may be given a name.
pub uninterp spec fn epoch_seconds_of(s: Seq<char>) -> Option<i64>;

/// The key that history listings are ordered by: the epoch second of the
/// timestamp, with unparsable strings sorting as zero.
pub open spec fn ts_key(s: Seq<char>) -> i64 {
    match epoch_seconds_of(s) {
        Some(t) => t,
        None => 0,
    }
}

/// Relies on chrono's `DateTime::parse_from_rfc3339` (parses exactly the
/// RFC 3339 date-and-time strings, which carry an explicit offset) and
/// `DateTime::timestamp` (the UTC epoch second of the parsed instant).
/// Both are pure functions of the input string.
#[verifier::external_body]
pub(crate) fn parse_timestamp(s: &str) -> (r: Option<i64>)
    ensures
        r == epoch_seconds_of(s@),
{
    match chrono::DateTime::parse_from_rfc3339(s) {
        Ok(d) => Some(d.timestamp()),
        Err(_) => None,
    }
}

/// Relies on chrono's `Utc::now` and `DateTime::to_rfc3339` for a current
/// timestamp.  Nothing is promised of a clock reading: callers validate
/// the string like any caller-supplied timestamp.  (For a clock set
/// outside the years 0 to 9999 the rendering would not even parse back,
/// and `Utc::now` itself panics on a clock set before the Unix epoch;
/// that panic is inherited here, as an outside call may panic.)
#[verifier::external_body]
pub(crate) fn now_rfc3339() -> (r: String)
{
    chrono::Utc::now().to_rfc3339()
}

/// The ordering key of a timestamp string, as executable code.
pub(crate) fn timestamp_key(s: &str) -> (r: i64)
    ensures
        r == ts_key(s@),
{
    match parse_timestamp(s) {
        Some(t) => t,
        None => 0,
    }
}

} // verus!
