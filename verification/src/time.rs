//! Points in time, spans of time, and the wrapping timestamps that packets carry.
use vstd::prelude::*;

verus! {

/// How many timestamps there are: they count microseconds in 32 bits.
pub const TIMESTAMP_MODULUS: u64 = 0x1_0000_0000;

/// Half of the circle of timestamps.
pub const TIMESTAMP_HALF: u32 = 0x8000_0000;

pub const NANOS_PER_MICRO: u128 = 1_000;

pub const NANOS_PER_MILLI: u128 = 1_000_000;

pub const NANOS_PER_SECOND: u128 = 1_000_000_000;

/// The longest span of time: 2^64 - 1 seconds and 999 999 999 nanoseconds.
pub const MAX_DURATION_NANOS: u128 = 18_446_744_073_709_551_615_999_999_999;

/// A reading of a monotonic clock: nanoseconds since the clock's origin.
#[derive(Debug, Clone, Copy, PartialEq, Eq, Structural)]
pub struct Instant {
    pub nanos: u128,
}

/// A span of time.
#[derive(Debug, Clone, Copy, PartialEq, Eq, Structural)]
pub struct Duration {
    pub nanos: u128,
}

impl Duration {
    pub fn from_millis(millis: u64) -> (r: Duration)
        ensures
            r.nanos == millis * 1_000_000,
    {
        Duration { nanos: millis as u128 * NANOS_PER_MILLI }
    }

    pub fn from_secs(secs: u64) -> (r: Duration)
        ensures
            r.nanos == secs * 1_000_000_000,
    {
        Duration { nanos: secs as u128 * NANOS_PER_SECOND }
    }
}

/// Whether more than `timeout` has passed from `since` to `now`.
pub open spec fn timed_out(since: Instant, timeout: Duration, now: Instant) -> bool {
    since.nanos + timeout.nanos < now.nanos
}

impl Instant {
    /// Whether more than `timeout` has passed from this instant to `now`.
    pub fn timed_out(self, timeout: Duration, now: Instant) -> (r: bool)
        ensures
            r == timed_out(self, timeout, now),
    {
        self.nanos < now.nanos && timeout.nanos < now.nanos - self.nanos
    }
}

/// The whole microseconds that lead from `start` to `at`; negative when `at` is earlier.
pub open spec fn micros_between(start: Instant, at: Instant) -> int {
    if start.nanos <= at.nanos {
        (at.nanos - start.nanos) / (NANOS_PER_MICRO as int)
    } else {
        -((start.nanos - at.nanos) / (NANOS_PER_MICRO as int))
    }
}

/// The timestamp that `micros` microseconds lead to from `timestamp`.
pub open spec fn timestamp_plus(timestamp: int, micros: int) -> int {
    (timestamp + micros) % (TIMESTAMP_MODULUS as int)
}

/// `a` comes before `b`: at least one and at most half of the circle's steps lead from
/// `a` up to `b`.
pub open spec fn timestamp_before(a: int, b: int) -> bool {
    0 < (b - a) % (TIMESTAMP_MODULUS as int) <= TIMESTAMP_HALF
}

/// A packet timestamp: microseconds since the connection's start, wrapping after 2^32 - 1.
#[derive(Debug, Clone, Copy, PartialEq, Eq, Hash, Structural)]
pub struct TimeStamp {
    pub micros: u32,
}

impl View for TimeStamp {
    type V = int;

    open spec fn view(&self) -> int {
        self.micros as int
    }
}

/// `nanos` in whole microseconds, without what does not fit in 32 bits.
fn wrapped_micros(nanos: u128) -> (r: u32)
    ensures
        r == (nanos as int / NANOS_PER_MICRO as int) % TIMESTAMP_MODULUS as int,
{
    ((nanos / NANOS_PER_MICRO) % (TIMESTAMP_MODULUS as u128)) as u32
}

impl TimeStamp {
    /// The timestamp of the instant `at` on a connection that started at `start`.
    pub fn of_instant(start: Instant, at: Instant) -> (r: TimeStamp)
        ensures
            r@ == timestamp_plus(0, micros_between(start, at)),
    {
        if start.nanos <= at.nanos {
            TimeStamp { micros: wrapped_micros(at.nanos - start.nanos) }
        } else {
            let behind: u32 = wrapped_micros(start.nanos - at.nanos);
            let micros: u64 = (TIMESTAMP_MODULUS - behind as u64) % TIMESTAMP_MODULUS;
            TimeStamp { micros: micros as u32 }
        }
    }

    /// The timestamp that comes `span` later.
    pub fn plus(self, span: Duration) -> (r: TimeStamp)
        ensures
            r@ == timestamp_plus(self@, span.nanos as int / NANOS_PER_MICRO as int),
    {
        let ahead: u32 = wrapped_micros(span.nanos);
        let micros: u64 = (self.micros as u64 + ahead as u64) % TIMESTAMP_MODULUS;
        TimeStamp { micros: micros as u32 }
    }

    /// Whether this timestamp comes before `other`.
    pub fn is_before(self, other: TimeStamp) -> (r: bool)
        ensures
            r == timestamp_before(self@, other@),
    {
        let micros: u64 = (other.micros as u64 + (TIMESTAMP_MODULUS - self.micros as u64))
            % TIMESTAMP_MODULUS;
        0 < micros && micros <= TIMESTAMP_HALF as u64
    }
}

/// A timeout is over from the first nanosecond on after it has passed.
pub proof fn timeout_ends_after_its_time(since: Instant, timeout: Duration, now: Instant)
    ensures
        now.nanos <= since.nanos + timeout.nanos ==> !timed_out(since, timeout, now),
        now.nanos > since.nanos + timeout.nanos ==> timed_out(since, timeout, now),
{
}

/// Timestamps count the whole microseconds since the start, without those that are multiples
/// of 2^32.
pub proof fn timestamps_count_microseconds(start: Instant, at: Instant)
    ensures
        start.nanos <= at.nanos ==> timestamp_plus(0, micros_between(start, at)) == ((at.nanos
            - start.nanos) / 1_000) % 0x1_0000_0000,
        start.nanos > at.nanos ==> (timestamp_plus(0, micros_between(start, at)) + (start.nanos
            - at.nanos) / 1_000) % 0x1_0000_0000 == 0,
        0 <= timestamp_plus(0, micros_between(start, at)) < 0x1_0000_0000,
{
}

/// Adding to a timestamp goes around the circle of 2^32 microseconds, and a timestamp comes
/// before those that up to 2^31 microseconds lead to.
pub proof fn timestamps_go_around(timestamp: int, m: int, n: int)
    requires
        0 <= timestamp < 0x1_0000_0000,
        0 <= n < 0x1_0000_0000,
    ensures
        timestamp_plus(timestamp, 0) == timestamp,
        timestamp_plus(timestamp, 1) == if timestamp == 0xffff_ffff {
            0
        } else {
            timestamp + 1
        },
        timestamp_plus(timestamp_plus(timestamp, m), n) == timestamp_plus(timestamp, m + n),
        timestamp_before(timestamp, timestamp_plus(timestamp, n)) <==> 1 <= n <= 0x8000_0000,
{
}

} // verus!
