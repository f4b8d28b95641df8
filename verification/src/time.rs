//! Time values and the clock.

use std::time::Instant;

use vstd::prelude::*;

use crate::calendar::FOUR_DIGIT_DAYS;

verus! {

/// Number of seconds in one calendar day.
pub const SECS_PER_DAY: u64 = 86_400;

/// Number of nanoseconds in one second.
pub const NANOS_PER_SEC: u32 = 1_000_000_000;

/// First second after the four-digit years.
pub const TIMESTAMP_END: u64 = 253_402_300_800;

/// A span of time.
#[derive(Clone, Copy, Debug, PartialEq, Eq, PartialOrd, Ord)]
pub struct Duration {
    secs: u64,
    nanos: u32,
}

impl Duration {
    #[verifier::type_invariant]
    spec fn inv(self) -> bool {
        self.nanos < NANOS_PER_SEC
    }

    /// The whole seconds of the span.
    pub closed spec fn secs(self) -> u64 {
        self.secs
    }

    /// The nanoseconds of the span past its last whole second.
    pub closed spec fn nanos(self) -> u32 {
        self.nanos
    }

    /// The length of the span in nanoseconds.
    pub open spec fn total_nanos(self) -> int {
        self.secs() * 1_000_000_000 + self.nanos()
    }

    /// A span of whole seconds.
    pub fn from_secs(secs: u64) -> (r: Self)
        ensures
            r.secs() == secs,
            r.nanos() == 0,
    {
        Duration { secs, nanos: 0 }
    }

    /// A span of seconds and nanoseconds, if the nanoseconds make less than a
    /// second.
    pub fn new(secs: u64, nanos: u32) -> (r: Option<Self>)
        ensures
            match r {
                Some(d) => nanos < NANOS_PER_SEC && d.secs() == secs && d.nanos() == nanos,
                None => nanos >= NANOS_PER_SEC,
            },
    {
        if nanos < NANOS_PER_SEC {
            Some(Duration { secs, nanos })
        } else {
            None
        }
    }

    /// Gets the whole seconds of the span.
    pub fn as_secs(&self) -> (r: u64)
        ensures
            r == self.secs(),
    {
        self.secs
    }

    /// Gets the nanoseconds past the last whole second.
    pub fn subsec_nanos(&self) -> (r: u32)
        ensures
            r == self.nanos(),
            r < NANOS_PER_SEC,
    {
        proof {
            use_type_invariant(self);
        }
        self.nanos
    }

    /// Tests whether this span is strictly longer than `other`.
    pub fn is_longer_than(&self, other: &Duration) -> (r: bool)
        ensures
            r == (self.total_nanos() > other.total_nanos()),
    {
        proof {
            use_type_invariant(self);
            use_type_invariant(other);
        }
        self.secs > other.secs || (self.secs == other.secs && self.nanos > other.nanos)
    }
}

/// A point in UTC from 1970 up to the end of year 9999: the times that an HTTP
/// date can write.
#[derive(Clone, Copy, Debug, PartialEq, Eq, PartialOrd, Ord)]
pub struct Timestamp {
    secs: u64,
    nanos: u32,
}

impl Timestamp {
    #[verifier::type_invariant]
    spec fn inv(self) -> bool {
        self.secs < TIMESTAMP_END && self.nanos < NANOS_PER_SEC
    }

    /// Whole seconds since 1970-01-01.
    pub closed spec fn secs(self) -> u64 {
        self.secs
    }

    /// Nanoseconds past the last whole second.
    pub closed spec fn nanos(self) -> u32 {
        self.nanos
    }

    /// A point in time from the seconds and nanoseconds since 1970-01-01, if
    /// it is in range.
    pub fn new(secs: u64, nanos: u32) -> (r: Option<Self>)
        ensures
            match r {
                Some(t) => secs < TIMESTAMP_END && nanos < NANOS_PER_SEC && t.secs() == secs
                    && t.nanos() == nanos,
                None => secs >= TIMESTAMP_END || nanos >= NANOS_PER_SEC,
            },
    {
        if secs < TIMESTAMP_END && nanos < NANOS_PER_SEC {
            Some(Timestamp { secs, nanos })
        } else {
            None
        }
    }

    /// Gets the whole seconds since 1970-01-01.
    pub fn as_secs(&self) -> (r: u64)
        ensures
            r == self.secs(),
            r < TIMESTAMP_END,
    {
        proof {
            use_type_invariant(self);
        }
        self.secs
    }

    /// Gets the nanoseconds past the last whole second.
    pub fn subsec_nanos(&self) -> (r: u32)
        ensures
            r == self.nanos(),
            r < NANOS_PER_SEC,
    {
        proof {
            use_type_invariant(self);
        }
        self.nanos
    }
}

/// The range of `Timestamp` ends with the four-digit years.
pub proof fn timestamps_end_with_year_9999()
    ensures
        TIMESTAMP_END == FOUR_DIGIT_DAYS * SECS_PER_DAY,
{
}

/// A reading of the standard library's monotonic clock.
#[verifier::external_type_specification]
#[verifier::external_body]
pub struct ExInstant(Instant);

/// Calls `Instant::now`. Nothing is claimed of the reading.
#[verifier::external_body]
pub(crate) fn instant_now() -> Instant {
    Instant::now()
}

/// Calls `Instant::elapsed`: the time since `at`, as whole seconds and the
/// nanoseconds past the last of them. Only that the nanoseconds make less than
/// a second is claimed; the rest depends on the clock.
#[verifier::external_body]
fn instant_elapsed(at: &Instant) -> (r: (u64, u32))
    ensures
        r.1 < NANOS_PER_SEC,
{
    let span = at.elapsed();
    (span.as_secs(), span.subsec_nanos())
}

/// The time that has passed since `at`, as a span whose nanoseconds make less
/// than a second. How long it is depends on the clock.
pub(crate) fn elapsed_since(at: &Instant) -> (r: Duration)
    ensures
        r.nanos() < NANOS_PER_SEC,
        elapsed_reads(*at, r),
{
    let (secs, nanos) = instant_elapsed(at);
    Duration { secs, nanos }
}

/// The whole seconds since 1970-01-01 on the system clock, or `None` when the
/// clock stands before that.
///
/// Calls `SystemTime::elapsed` on `UNIX_EPOCH`. Nothing is claimed of the
/// reading.
#[verifier::external_body]
pub(crate) fn unix_now() -> Option<u64> {
    match std::time::UNIX_EPOCH.elapsed() {
        Ok(span) => Some(span.as_secs()),
        Err(_) => None,
    }
}

// Readings.
//
// What a clock shows is known only by reading it. The three predicates below
// hold of what came out of a reading, and of nothing else that can be shown:
// a contract that asks for one of them asks that the clock was read, and that
// the value was used as it came.

/// A reading of the system clock gave `secs`.
pub closed spec fn clock_reads(secs: Option<u64>) -> bool {
    call_ensures(unix_now, (), secs)
}

/// A reading of the monotonic clock gave `now`.
pub closed spec fn instant_reads(now: Instant) -> bool {
    call_ensures(instant_now, (), now)
}

/// A reading of the time since `at` gave `elapsed`.
pub closed spec fn elapsed_reads(at: Instant, elapsed: Duration) -> bool {
    call_ensures(instant_elapsed, (&at,), (elapsed.secs, elapsed.nanos))
}

/// Reads the seconds since 1970-01-01 off the system clock; `None` when it
/// stands before that.
pub(crate) fn read_clock() -> (r: Option<u64>)
    ensures
        clock_reads(r),
{
    unix_now()
}

/// Reads the monotonic clock.
pub(crate) fn read_instant() -> (r: Instant)
    ensures
        instant_reads(r),
{
    instant_now()
}

/// A reading is what the clock gave, second for second: what `clock_reads`,
/// `instant_reads` and `elapsed_reads` say of a value, the clock functions
/// returned.
proof fn readings_are_taken_as_they_come(
    secs: Option<u64>,
    now: Instant,
    at: Instant,
    elapsed: Duration,
)
    ensures
        clock_reads(secs) ==> call_ensures(unix_now, (), secs),
        instant_reads(now) ==> call_ensures(instant_now, (), now),
        elapsed_reads(at, elapsed) ==> call_ensures(
            instant_elapsed,
            (&at,),
            (elapsed.secs(), elapsed.nanos()),
        ),
{
}

} // verus!
