//! Points in time: the wall clock, RFC 3339 timestamps, and the age of one
//! instant seen from another.

use vstd::prelude::*;
use chrono::{DateTime, Utc};

verus! {

/// A point in time: whole seconds since the Unix epoch and the nanoseconds
/// into that second.
#[derive(Clone, Copy, Debug)]
pub struct Instant {
    pub secs: i64,
    pub nanos: u32,
}

/// What a timestamp text denotes when read as a date and time with a UTC
/// offset: its seconds since the Unix epoch and the nanoseconds into that
/// second, or nothing when the text is no such timestamp.
pub uninterp spec fn rfc3339_instant(text: Seq<char>) -> Option<(i64, u32)>;

/// The instant that a timestamp text denotes, if any.
pub open spec fn instant_of(text: Seq<char>) -> Option<Instant> {
    match rfc3339_instant(text) {
        Some((secs, nanos)) => Some(Instant { secs, nanos }),
        None => None,
    }
}

/// Parses a timestamp with `chrono`'s `FromStr` for `DateTime<Utc>`, which
/// accepts a relaxed form of RFC 3339 and is a pure function of the text. Its
/// result is named `rfc3339_instant`; the instant is read off the parsed value
/// with `timestamp` and `timestamp_subsec_nanos`.
#[verifier::external_body]
fn parse_rfc3339(text: &str) -> (parsed: Option<(i64, u32)>)
    ensures
        parsed == rfc3339_instant(text@),
{
    match text.parse::<DateTime<Utc>>() {
        Ok(t) => Some((t.timestamp(), t.timestamp_subsec_nanos())),
        Err(_) => None,
    }
}

/// Reads a timestamp text.
pub fn parse_instant(text: &str) -> (parsed: Option<Instant>)
    ensures
        parsed == instant_of(text@),
{
    match parse_rfc3339(text) {
        Some((secs, nanos)) => Some(Instant { secs, nanos }),
        None => None,
    }
}

/// Reads the wall clock with `chrono::Utc::now`. Nothing is claimed of the
/// instant that comes back. The call panics on a machine whose clock stands
/// before the Unix epoch.
#[verifier::external_body]
pub(crate) fn current_instant() -> Instant {
    let t = Utc::now();
    Instant { secs: t.timestamp(), nanos: t.timestamp_subsec_nanos() }
}

/// Reads the wall clock with `chrono::Utc::now` and writes the instant as an
/// RFC 3339 timestamp with `DateTime::to_rfc3339`. Nothing is claimed of the
/// text that comes back. The call panics on a machine whose clock stands
/// before the Unix epoch.
#[verifier::external_body]
pub(crate) fn current_timestamp() -> String {
    Utc::now().to_rfc3339()
}

/// Nanoseconds in a second.
pub open spec fn nanos_per_second() -> int {
    1_000_000_000
}

/// Nanoseconds from `then` to `now`; negative when `then` lies after `now`.
pub open spec fn nanos_between(now: Instant, then: Instant) -> int {
    (now.secs - then.secs) * nanos_per_second() + (now.nanos - then.nanos)
}

/// Whole seconds from `then` to `now`, rounded toward zero; negative when
/// `then` lies a second or more after `now`.
pub open spec fn seconds_between(now: Instant, then: Instant) -> int {
    let nanos = nanos_between(now, then);
    if nanos >= 0 {
        nanos / nanos_per_second()
    } else {
        -((-nanos) / nanos_per_second())
    }
}

/// Computes `seconds_between`.
pub fn elapsed_seconds(now: Instant, then: Instant) -> (elapsed: i128)
    ensures
        elapsed == seconds_between(now, then),
        -0x1_0000_0000_0000_0004 <= elapsed <= 0x1_0000_0000_0000_0004,
{
    let secs: i128 = now.secs as i128 - then.secs as i128;
    let nanos: i128 = now.nanos as i128 - then.nanos as i128;
    assert(-0x1_0000_0000_0000_0000 * 1_000_000_000 < secs * 1_000_000_000 < 0x1_0000_0000_0000_0000
        * 1_000_000_000) by (nonlinear_arith)
        requires
            -0x1_0000_0000_0000_0000 < secs < 0x1_0000_0000_0000_0000,
    ;
    let total: i128 = secs * 1_000_000_000 + nanos;
    if total >= 0 {
        total / 1_000_000_000
    } else {
        let back: i128 = -total;
        -(back / 1_000_000_000)
    }
}

} // verus!
