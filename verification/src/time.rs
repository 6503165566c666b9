//! Spans of time in nanoseconds, and the clocks that the library reads.

use vstd::prelude::*;

verus! {

/// The longest span, in nanoseconds: `u64::MAX` seconds and 999,999,999
/// nanoseconds, as for `std::time::Duration`.
pub const MAX_SPAN_NANOS: u128 = 18_446_744_073_709_551_615_999_999_999;

/// A span of time, held as a whole number of nanoseconds.
#[derive(Debug, Clone, Copy, PartialEq, Eq, Hash, Structural)]
pub struct TimeSpan {
    nanos: u128,
}

impl View for TimeSpan {
    type V = nat;

    /// Length of the span in nanoseconds.
    closed spec fn view(&self) -> nat {
        self.nanos as nat
    }
}

impl TimeSpan {
    /// No span is longer than `MAX_SPAN_NANOS`.
    #[verifier::type_invariant]
    spec fn within_range(self) -> bool {
        self.nanos <= MAX_SPAN_NANOS
    }

    /// A span of `secs` seconds.
    pub fn from_secs(secs: u64) -> (t: TimeSpan)
        ensures
            t@ == secs * 1_000_000_000,
    {
        TimeSpan { nanos: (secs as u128) * 1_000_000_000 }
    }

    /// A span of `millis` milliseconds.
    pub fn from_millis(millis: u64) -> (t: TimeSpan)
        ensures
            t@ == millis * 1_000_000,
    {
        TimeSpan { nanos: (millis as u128) * 1_000_000 }
    }

    /// A span of `nanos` nanoseconds.
    pub fn from_nanos(nanos: u64) -> (t: TimeSpan)
        ensures
            t@ == nanos,
    {
        TimeSpan { nanos: nanos as u128 }
    }

    /// A span of `nanos` nanoseconds, at most the longest span.
    pub fn from_total_nanos(nanos: u128) -> (t: TimeSpan)
        requires
            nanos <= MAX_SPAN_NANOS,
        ensures
            t@ == nanos,
    {
        TimeSpan { nanos }
    }

    /// The empty span.
    pub fn zero() -> (t: TimeSpan)
        ensures
            t@ == 0,
    {
        TimeSpan { nanos: 0 }
    }

    /// Length in nanoseconds.
    pub fn as_nanos(&self) -> (n: u128)
        ensures
            n == self@,
            n <= MAX_SPAN_NANOS,
    {
        proof {
            use_type_invariant(self);
        }
        self.nanos
    }

    /// Whole seconds in the span.
    pub fn as_secs(&self) -> (s: u64)
        ensures
            s == self@ / 1_000_000_000,
    {
        proof {
            use_type_invariant(self);
        }
        (self.nanos / 1_000_000_000) as u64
    }

    /// Whole milliseconds in the span.
    pub fn as_millis(&self) -> (s: u128)
        ensures
            s == self@ / 1_000_000,
    {
        self.nanos / 1_000_000
    }
}

/// A point of the monotonic clock, carried opaquely.
#[verifier::external_type_specification]
#[verifier::external_body]
pub struct ExInstant(std::time::Instant);

/// A point of the wall clock, carried opaquely.
#[verifier::external_type_specification]
#[verifier::external_body]
pub struct ExSystemTime(std::time::SystemTime);

/// `std::time::Instant::now`: the current point of the monotonic clock.
/// Nothing is stated of it: it depends on when it is called.
#[verifier::external_body]
fn instant_now() -> std::time::Instant {
    std::time::Instant::now()
}

/// `std::time::Instant::elapsed`: the time passed since `since`. Nothing is
/// stated of it: it depends on when it is called.
#[verifier::external_body]
fn instant_elapsed(since: &std::time::Instant) -> std::time::Duration {
    since.elapsed()
}

/// `std::time::Duration::as_nanos`: the whole nanoseconds in `d`. Nothing is
/// stated of it: a `Duration` is opaque here.
#[verifier::external_body]
fn duration_nanos(d: &std::time::Duration) -> u128 {
    d.as_nanos()
}

/// `std::time::SystemTime::now`: the current wall-clock time.
/// Nothing is stated of it: it depends on when it is called.
#[verifier::external_body]
pub(crate) fn system_time_now() -> std::time::SystemTime {
    std::time::SystemTime::now()
}

/// `std::time::SystemTime::duration_since(UNIX_EPOCH)`: how long after the
/// Unix epoch `t` lies, or `None` when `t` lies before it. Nothing is stated of
/// the value: `t` is an opaque reading of the wall clock.
#[verifier::external_body]
fn since_unix_epoch(t: &std::time::SystemTime) -> Option<std::time::Duration> {
    match t.duration_since(std::time::UNIX_EPOCH) {
        Ok(d) => Some(d),
        Err(_) => None,
    }
}

/// The current wall-clock time in nanoseconds since the Unix epoch, or `None`
/// when the system clock lies before the epoch (or beyond `i128::MAX`
/// nanoseconds after it).
pub fn unix_now_nanos() -> (r: Option<i128>)
    ensures
        r matches Some(t) ==> t >= 0,
{
    let t = system_time_now();
    match since_unix_epoch(&t) {
        Some(d) => {
            let n = duration_nanos(&d);
            if n <= i128::MAX as u128 {
                Some(n as i128)
            } else {
                None
            }
        },
        None => None,
    }
}

/// A monotonic clock that counts nanoseconds from its own creation.
pub struct MonotonicClock {
    start: std::time::Instant,
}

impl MonotonicClock {
    /// A clock whose reading starts at zero now.
    pub fn new() -> MonotonicClock {
        MonotonicClock { start: instant_now() }
    }

    /// Nanoseconds since the clock was created (saturating at `u64::MAX`).
    pub fn now(&self) -> u64 {
        let n = duration_nanos(&instant_elapsed(&self.start));
        if n > u64::MAX as u128 {
            u64::MAX
        } else {
            n as u64
        }
    }
}

} // verus!
