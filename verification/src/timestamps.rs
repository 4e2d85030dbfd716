//! Times stored as RFC 3339 text, read back as instants: seconds since the
//! Unix epoch and nanoseconds into the second.

use vstd::prelude::*;

verus! {

/// The instant an RFC 3339 date-time text names, when it names one.
pub uninterp spec fn rfc3339_instant(text: Seq<char>) -> Option<(i64, u32)>;

/// Calls `chrono::DateTime::parse_from_rfc3339`, then `timestamp` and
/// `timestamp_subsec_nanos` on the parsed value. Claimed: the result is a
/// function of the text alone; which texts parse is left to the crate.
#[verifier::external_body]
fn parse_rfc3339(text: &str) -> (r: Option<(i64, u32)>)
    ensures
        r == rfc3339_instant(text@),
{
    chrono::DateTime::parse_from_rfc3339(text).ok().map(|dt| (dt.timestamp(), dt.timestamp_subsec_nanos()))
}

/// The parsed instant, or `now` when the text did not parse.
pub fn instant_or(parsed: Option<(i64, u32)>, now: (i64, u32)) -> (r: (i64, u32))
    ensures
        r == match parsed {
            Some(t) => t,
            None => now,
        },
{
    match parsed {
        Some(t) => t,
        None => now,
    }
}

/// A stored time read back: the instant its text names, or `now` when the
/// text names none.
pub fn stored_instant(text: &str, now: (i64, u32)) -> (r: (i64, u32))
    ensures
        r == match rfc3339_instant(text@) {
            Some(t) => t,
            None => now,
        },
{
    instant_or(parse_rfc3339(text), now)
}

/// The RFC 3339 text, in UTC, of the instant `secs` seconds and `nanos`
/// nanoseconds after the Unix epoch; absent when chrono cannot represent it.
pub uninterp spec fn rfc3339_text(secs: i64, nanos: u32) -> Option<Seq<char>>;

/// Calls `chrono::DateTime::<Utc>::from_timestamp`, then `to_rfc3339` on
/// the instant. Claimed: the result is a function of the two numbers alone,
/// absent exactly when `from_timestamp` gives none.
#[verifier::external_body]
fn format_rfc3339(secs: i64, nanos: u32) -> (r: Option<String>)
    ensures
        match r {
            Some(t) => rfc3339_text(secs, nanos) == Some(t@),
            None => rfc3339_text(secs, nanos) is None,
        },
{
    chrono::DateTime::<chrono::Utc>::from_timestamp(secs, nanos).map(|dt| dt.to_rfc3339())
}

/// The text a time is stored as: RFC 3339 in UTC.
pub fn stored_time_text(secs: i64, nanos: u32) -> (r: Option<String>)
    ensures
        match r {
            Some(t) => rfc3339_text(secs, nanos) == Some(t@),
            None => rfc3339_text(secs, nanos) is None,
        },
{
    format_rfc3339(secs, nanos)
}

} // verus!
