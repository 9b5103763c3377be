//! Instants and their RFC 3339 texts (the `chrono` crate).

use vstd::prelude::*;

use crate::validate::opt_view;

verus! {

/// An instant: Unix seconds and the nanoseconds past them (at least 10^9 inside a leap
/// second, as `chrono` counts it).
#[derive(Debug, Clone, Copy, PartialEq, Eq, Structural)]
pub struct Timestamp {
    pub secs: i64,
    pub nanos: u32,
}

/// `a` is not later than `b`.
pub open spec fn not_after(a: Timestamp, b: Timestamp) -> bool {
    a.secs < b.secs || (a.secs == b.secs && a.nanos <= b.nanos)
}

/// What `DateTime::parse_from_rfc3339` gives for a text: the instant's Unix seconds and
/// nanoseconds and `to_rfc3339()` of the parsed time, or the text of the error.
pub uninterp spec fn rfc3339_parsed(s: Seq<char>) -> Result<(i64, u32, Seq<char>), Seq<char>>;

/// `DateTime::parse_from_rfc3339`, then `timestamp()`, `timestamp_subsec_nanos()` and
/// `to_rfc3339()` of the result, or `to_string()` of the error. Trusted: the result is named
/// `rfc3339_parsed` of the text.
#[verifier::external_body]
pub(crate) fn parse_rfc3339(s: &str) -> (r: Result<(Timestamp, String), String>)
    ensures
        match r {
            Ok(p) => rfc3339_parsed(s@) == Ok::<(i64, u32, Seq<char>), Seq<char>>(
                (p.0.secs, p.0.nanos, p.1@),
            ),
            Err(e) => rfc3339_parsed(s@) == Err::<(i64, u32, Seq<char>), Seq<char>>(e@),
        },
{
    match chrono::DateTime::parse_from_rfc3339(s) {
        Ok(t) => Ok((Timestamp { secs: t.timestamp(), nanos: t.timestamp_subsec_nanos() }, t.to_rfc3339())),
        Err(e) => Err(e.to_string()),
    }
}

/// What `DateTime::<Utc>::from_timestamp(secs, nanos)` and then
/// `to_rfc3339_opts(SecondsFormat::Secs, true)` give (`2026-10-01T12:00:00Z`); `None` for an
/// instant out of `chrono`'s range.
pub uninterp spec fn utc_seconds_text(secs: i64, nanos: u32) -> Option<Seq<char>>;

/// The stored form of an instant: RFC 3339 in UTC, to the second. Trusted: the result is
/// named `utc_seconds_text` of the instant.
#[verifier::external_body]
pub fn ts(t: Timestamp) -> (r: Option<String>)
    ensures
        opt_view(r) == utc_seconds_text(t.secs, t.nanos),
{
    chrono::DateTime::<chrono::Utc>::from_timestamp(t.secs, t.nanos)
        .map(|d| d.to_rfc3339_opts(chrono::SecondsFormat::Secs, true))
}

} // verus!
