//! Instants on the UTC time line, as chrono gives them: whole seconds since
//! the Unix epoch and the nanoseconds past that second.

use vstd::prelude::*;
use chrono::{DateTime, TimeDelta, Utc};
use std::time::UNIX_EPOCH;

verus! {

/// An instant: `secs` whole seconds after 1970-01-01 00:00:00 UTC and `nanos` nanoseconds more.
#[derive(Clone, Copy, PartialEq, Eq, Debug)]
pub struct Timestamp {
    pub secs: i64,
    pub nanos: u32,
}

/// The last second that chrono represents: 262142-12-31 23:59:59 UTC.
pub const LATEST_SECS: i64 = 8_210_266_876_799;

/// The first second that chrono represents: -262143-01-01 00:00:00 UTC.
pub const EARLIEST_SECS: i64 = -8_334_601_228_800;

/// Largest number of seconds that a duration may hold.
pub const MAX_DELTA_SECS: i64 = 9_223_372_036_854_775;

/// `a` is not later than `b`.
pub open spec fn not_later(a: Timestamp, b: Timestamp) -> bool {
    a.secs < b.secs || (a.secs == b.secs && a.nanos <= b.nanos)
}

/// Instants are ordered as points on the time line. Any instant in an earlier second is not
/// later than one in a later second, whatever their nanoseconds; the order is total; and for
/// instants outside any leap second it is the order of their distance from the epoch in
/// nanoseconds.
pub proof fn lemma_not_later_is_chronological(a: Timestamp, b: Timestamp)
    ensures
        a.secs < b.secs ==> not_later(a, b),
        b.secs < a.secs ==> !not_later(a, b),
        not_later(a, b) || not_later(b, a),
        not_later(a, b) && not_later(b, a) ==> a == b,
        a.nanos < 1_000_000_000 && b.nanos < 1_000_000_000 ==> not_later(a, b) == (a.secs * 1_000_000_000
            + a.nanos <= b.secs * 1_000_000_000 + b.nanos),
{
}

/// `t` plus `secs` whole seconds.
pub open spec fn plus_seconds(t: Timestamp, secs: int) -> Timestamp {
    Timestamp { secs: (t.secs + secs) as i64, nanos: t.nanos }
}

/// An instant that the clock can read: not before the epoch, not past the last second
/// that chrono represents, and not inside a leap second.
pub open spec fn in_range(t: Timestamp) -> bool {
    0 <= t.secs <= LATEST_SECS && t.nanos < 1_000_000_000
}

impl Timestamp {
    /// Whether `self` is not later than `other`.
    pub fn not_later_than(&self, other: &Timestamp) -> (r: bool)
        ensures
            r == not_later(*self, *other),
    {
        self.secs < other.secs || (self.secs == other.secs && self.nanos <= other.nanos)
    }
}

/// `std::time::SystemTime::elapsed` of `UNIX_EPOCH`: the time the system clock reads since
/// the epoch, as whole seconds and the nanoseconds past them (fewer than a billion, as
/// `Duration::subsec_nanos` documents), or none where the clock reads before the epoch.
/// Which instant it reads is not stated: that is the clock's.
#[verifier::external_body]
fn since_epoch() -> (r: Option<(u64, u32)>)
    ensures
        r matches Some(d) ==> d.1 < 1_000_000_000,
{
    UNIX_EPOCH.elapsed().ok().map(|d| (d.as_secs(), d.subsec_nanos()))
}

/// `DateTime::<Utc>::from_timestamp` for an instant outside any leap second: the instant
/// `secs` seconds and `nanos` nanoseconds after the epoch, which chrono represents exactly
/// when `secs` lies between `EARLIEST_SECS` and `LATEST_SECS`.
#[verifier::external_body]
fn utc_instant(secs: i64, nanos: u32) -> (r: Option<Timestamp>)
    requires
        nanos < 1_000_000_000,
    ensures
        (r is Some) == (EARLIEST_SECS <= secs && secs <= LATEST_SECS),
        r matches Some(t) ==> t.secs == secs && t.nanos == nanos,
{
    DateTime::<Utc>::from_timestamp(secs, nanos).map(|d| Timestamp { secs: d.timestamp(), nanos: d.timestamp_subsec_nanos() })
}

/// The current instant, read as `chrono::Utc::now` (and so `chrono::Local::now`) reads it:
/// the system clock's time since the epoch, made a chrono instant. None where the clock
/// reads before the epoch or past the last instant chrono represents (where `Utc::now`
/// would panic).
pub(crate) fn clock_now() -> (r: Option<Timestamp>)
    ensures
        r matches Some(t) ==> in_range(t),
{
    let (secs, nanos) = match since_epoch() {
        Some(d) => d,
        None => {
            return None;
        },
    };
    if secs > 0x7fff_ffff_ffff_ffff {
        return None;
    }
    utc_instant(secs as i64, nanos)
}

/// `DateTime::checked_add_signed` with a duration of `secs` seconds (`TimeDelta::seconds`,
/// which panics past `MAX_DELTA_SECS`), for an instant outside any leap second: the instant
/// `secs` seconds after `t`, which chrono represents exactly when both lie between
/// `EARLIEST_SECS` and `LATEST_SECS`.
#[verifier::external_body]
pub(crate) fn checked_add_seconds(t: Timestamp, secs: i64) -> (r: Option<Timestamp>)
    requires
        0 <= secs <= MAX_DELTA_SECS,
        t.nanos < 1_000_000_000,
    ensures
        r matches Some(v) ==> v == plus_seconds(t, secs as int),
        (r is Some) == (EARLIEST_SECS <= t.secs && t.secs + secs <= LATEST_SECS),
{
    let start: DateTime<Utc> = DateTime::from_timestamp(t.secs, t.nanos)?;
    let end = start.checked_add_signed(TimeDelta::seconds(secs))?;
    Some(Timestamp { secs: end.timestamp(), nanos: end.timestamp_subsec_nanos() })
}

} // verus!
