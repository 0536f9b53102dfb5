//! Instants: reading and writing RFC 3339 text, and the clock, through
//! `chrono`.
use vstd::prelude::*;

verus! {

/// An instant as Unix seconds and the nanoseconds past that second (more
/// than a second's worth only within a leap second).
#[derive(Clone, Copy, Debug, PartialEq, Eq, Structural)]
pub struct Timestamp {
    pub secs: i64,
    pub nanos: u32,
}

/// The instant that `chrono::DateTime::parse_from_rfc3339` reads from a
/// text, as (`timestamp()`, `timestamp_subsec_nanos()`); `None` where it
/// refuses the text.
pub uninterp spec fn rfc3339_instant(s: Seq<char>) -> Option<(i64, u32)>;

/// The Unix seconds of an RFC 3339 text.
pub open spec fn rfc3339_seconds(s: Seq<char>) -> Option<i64> {
    match rfc3339_instant(s) {
        Some((secs, _)) => Some(secs),
        None => None,
    }
}

/// Calls `chrono::DateTime::parse_from_rfc3339` and takes the instant it
/// parsed; the result is named `rfc3339_instant`.
#[verifier::external_body]
pub(crate) fn parse_rfc3339(s: &str) -> (r: Option<Timestamp>)
    ensures
        match r {
            Some(t) => rfc3339_instant(s@) == Some((t.secs, t.nanos)),
            None => rfc3339_instant(s@) is None,
        },
{
    match chrono::DateTime::parse_from_rfc3339(s) {
        Ok(dt) => Some(Timestamp { secs: dt.timestamp(), nanos: dt.timestamp_subsec_nanos() }),
        Err(_) => None,
    }
}

/// The Unix seconds of an RFC 3339 text.
pub fn parse_rfc3339_seconds(s: &str) -> (r: Option<i64>)
    ensures
        r == rfc3339_seconds(s@),
{
    match parse_rfc3339(s) {
        Some(t) => Some(t.secs),
        None => None,
    }
}

/// Whether the text is an RFC 3339 timestamp.
pub fn is_rfc3339(s: &str) -> (r: bool)
    ensures
        r == rfc3339_seconds(s@) is Some,
{
    parse_rfc3339(s).is_some()
}

/// The text `chrono` writes for a UTC instant when it serializes a
/// `DateTime<Utc>` (`to_rfc3339_opts(SecondsFormat::AutoSi, true)`); `None`
/// where `DateTime::from_timestamp` has no such instant.
pub uninterp spec fn rfc3339_text(secs: i64, nanos: u32) -> Option<Seq<char>>;

/// Calls `chrono::DateTime::<Utc>::from_timestamp` and writes the instant
/// with `to_rfc3339_opts(SecondsFormat::AutoSi, true)`; the text is named
/// `rfc3339_text`.
#[verifier::external_body]
pub(crate) fn format_rfc3339(t: Timestamp) -> (r: Option<String>)
    ensures
        match r {
            Some(s) => rfc3339_text(t.secs, t.nanos) == Some(s@),
            None => rfc3339_text(t.secs, t.nanos) is None,
        },
{
    match chrono::DateTime::<chrono::Utc>::from_timestamp(t.secs, t.nanos) {
        Some(dt) => Some(dt.to_rfc3339_opts(chrono::SecondsFormat::AutoSi, true)),
        None => None,
    }
}

/// The text `chrono` writes with `DateTime::<Utc>::to_rfc3339` for the
/// instant `secs` seconds after the epoch (the offset written `+00:00`);
/// `None` where `DateTime::from_timestamp` has no such instant.
pub uninterp spec fn rfc3339_offset_text(secs: i64) -> Option<Seq<char>>;

/// Calls `chrono::DateTime::<Utc>::from_timestamp` with no nanoseconds and
/// writes the instant with `to_rfc3339`; the text is named
/// `rfc3339_offset_text`.
#[verifier::external_body]
pub(crate) fn format_rfc3339_offset(secs: i64) -> (r: Option<String>)
    ensures
        match r {
            Some(s) => rfc3339_offset_text(secs) == Some(s@),
            None => rfc3339_offset_text(secs) is None,
        },
{
    match chrono::DateTime::<chrono::Utc>::from_timestamp(secs, 0) {
        Some(dt) => Some(dt.to_rfc3339()),
        None => None,
    }
}

/// Calls `chrono::Utc::now`: the current instant. It depends on the clock,
/// so nothing is promised of it but that its nanoseconds stay below two
/// seconds' worth, as `timestamp_subsec_nanos` documents, and that the
/// instant can be written: `Utc::now` itself builds it with
/// `DateTime::from_timestamp` on these very seconds and nanoseconds (which
/// round-trip, as that function's documentation shows), so the call that
/// `rfc3339_text` names succeeds on them.
#[verifier::external_body]
pub(crate) fn utc_now() -> (r: Timestamp)
    ensures
        r.nanos < 2_000_000_000,
        rfc3339_text(r.secs, r.nanos) is Some,
{
    let now = chrono::Utc::now();
    Timestamp { secs: now.timestamp(), nanos: now.timestamp_subsec_nanos() }
}

} // verus!
