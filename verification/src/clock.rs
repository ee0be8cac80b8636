//! The wall clock, behind trusted wrappers. Every decision the library makes
//! from the current time takes the reading as an argument, so the verified
//! logic holds for every value the clock can produce.

use vstd::prelude::*;

verus! {

/// Relies on chrono's `Utc::now` and `DateTime::timestamp_millis`: the wall
/// clock as milliseconds since the Unix epoch. Nothing is promised of the
/// value; the clock is outside the program.
#[verifier::external_body]
pub(crate) fn now_millis() -> i64 {
    chrono::Utc::now().timestamp_millis()
}

/// Relies on chrono's `Utc::now` and `DateTime::timestamp`: the wall clock
/// as whole seconds since the Unix epoch. Nothing is promised of the value.
#[verifier::external_body]
pub(crate) fn now_seconds() -> i64 {
    chrono::Utc::now().timestamp()
}

/// Relies on chrono's `Utc::now` and its `Display` rendering: the current
/// wall-clock time as text. Nothing is promised of the value.
#[verifier::external_body]
pub(crate) fn now_string() -> String {
    chrono::Utc::now().to_string()
}

/// What parsing an RFC 3339 timestamp yields, in epoch milliseconds: a
/// function of the text alone, so it carries a name rather than a
/// transcription of the format.
pub uninterp spec fn rfc3339_millis_of(s: Seq<char>) -> Option<i64>;

/// Relies on bson's `DateTime::parse_rfc3339_str`, whose result depends on
/// the text alone, and `DateTime::timestamp_millis`, which renders the
/// parsed instant as milliseconds since the Unix epoch.
#[verifier::external_body]
pub(crate) fn parse_rfc3339_millis(s: &str) -> (r: Option<i64>)
    ensures
        r == rfc3339_millis_of(s@),
{
    match bson::DateTime::parse_rfc3339_str(s) {
        Ok(d) => Some(d.timestamp_millis()),
        Err(_) => None,
    }
}

} // verus!
