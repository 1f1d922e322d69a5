//! Spans of time, and the wall clock.
use std::time::SystemTime;
use vstd::prelude::*;

verus! {

/// The number of nanoseconds in a second.
pub const NANOS_PER_SEC: u128 = 1_000_000_000;

/// The number of nanoseconds in a millisecond.
pub const NANOS_PER_MILLI: u128 = 1_000_000;

/// A span of time, counted in nanoseconds.
#[derive(Debug, Clone, Copy, PartialEq, Eq, Structural)]
pub struct TimeSpan {
    pub nanos: u128,
}

impl TimeSpan {
    /// The span of `secs` seconds.
    pub fn from_secs(secs: u64) -> (span: TimeSpan)
        ensures
            span.nanos == secs * NANOS_PER_SEC,
    {
        TimeSpan { nanos: secs as u128 * NANOS_PER_SEC }
    }

    /// The span of `millis` milliseconds.
    pub fn from_millis(millis: u64) -> (span: TimeSpan)
        ensures
            span.nanos == millis * NANOS_PER_MILLI,
    {
        TimeSpan { nanos: millis as u128 * NANOS_PER_MILLI }
    }

    /// The span of `secs` seconds and `subsec_nanos` nanoseconds.
    pub fn from_parts(secs: u64, subsec_nanos: u32) -> (span: TimeSpan)
        ensures
            span.nanos == secs * NANOS_PER_SEC + subsec_nanos,
    {
        TimeSpan { nanos: secs as u128 * NANOS_PER_SEC + subsec_nanos as u128 }
    }

    /// What is left of `self` once `other` has passed, or `None` when `other`
    /// is the longer of the two.
    pub fn checked_sub(self, other: TimeSpan) -> (left: Option<TimeSpan>)
        ensures
            left == spec_checked_sub(self, other),
    {
        if self.nanos >= other.nanos {
            Some(TimeSpan { nanos: self.nanos - other.nanos })
        } else {
            None
        }
    }
}

/// What [`TimeSpan::checked_sub`] returns.
pub open spec fn spec_checked_sub(span: TimeSpan, other: TimeSpan) -> Option<TimeSpan> {
    if span.nanos >= other.nanos {
        Some(TimeSpan { nanos: (span.nanos - other.nanos) as u128 })
    } else {
        None
    }
}

/// `std::time::SystemTime`, a reading of the wall clock. Nothing is known of
/// what is inside.
#[verifier::external_type_specification]
#[verifier::external_body]
pub struct ExSystemTime(std::time::SystemTime);

/// `SystemTime::now` reads the wall clock. Nothing is known of the reading.
#[verifier::external_body]
fn system_now() -> SystemTime {
    SystemTime::now()
}

/// `SystemTime::duration_since` with `UNIX_EPOCH`: the whole seconds and the
/// nanoseconds of the second begun that lie between the epoch and `time`, or
/// `None` when `time` is earlier than the epoch. Nothing is known of them: they
/// are what the clock showed.
#[verifier::external_body]
fn since_epoch(time: &SystemTime) -> Option<(u64, u32)> {
    time.duration_since(std::time::UNIX_EPOCH).ok().map(|d| (d.as_secs(), d.subsec_nanos()))
}

/// The time that has passed since the Unix epoch, by the wall clock. A clock
/// that is set before the epoch counts as standing at the epoch.
pub fn unix_time() -> (span: TimeSpan)
    ensures
        exists|reading: Option<(u64, u32)>| span == #[trigger] spec_elapsed(reading),
{
    let now = system_now();
    elapsed(since_epoch(&now))
}

/// The span that a reading of the clock stands for: the whole seconds and the
/// nanoseconds of the second begun that have passed since the epoch, taken
/// together; and no time at all for `None`, the reading of a clock that is set
/// before the epoch.
pub open spec fn spec_elapsed(reading: Option<(u64, u32)>) -> TimeSpan {
    match reading {
        Some((secs, subsec_nanos)) => TimeSpan {
            nanos: (secs * NANOS_PER_SEC + subsec_nanos) as u128,
        },
        None => TimeSpan { nanos: 0 },
    }
}

/// The span that the reading `reading` of the clock stands for.
pub fn elapsed(reading: Option<(u64, u32)>) -> (span: TimeSpan)
    ensures
        span == spec_elapsed(reading),
{
    match reading {
        Some((secs, subsec_nanos)) => TimeSpan::from_parts(secs, subsec_nanos),
        None => TimeSpan::from_secs(0),
    }
}

} // verus!
