//! Spans of time, and a clock that measures from the moment it was started.

use vstd::prelude::*;

verus! {

/// A span of time: whole seconds and nanoseconds on top.
#[derive(Clone, Copy, Debug)]
pub struct Duration {
    pub secs: u64,
    pub nanos: u32,
}

impl Duration {
    /// The span in nanoseconds.
    pub open spec fn nanos(self) -> nat {
        (self.secs * 1_000_000_000 + self.nanos) as nat
    }

    pub fn from_secs(secs: u64) -> (res: Self)
        ensures
            res.nanos() == secs * 1_000_000_000,
    {
        Duration { secs, nanos: 0 }
    }

    pub fn from_millis(millis: u64) -> (res: Self)
        ensures
            res.nanos() == millis * 1_000_000,
    {
        Duration { secs: millis / 1000, nanos: ((millis % 1000) as u32) * 1_000_000 }
    }

    pub fn as_nanos(&self) -> (res: u128)
        ensures
            res == self.nanos(),
    {
        (self.secs as u128) * 1_000_000_000 + (self.nanos as u128)
    }

    /// Whole milliseconds, rounded down.
    pub fn as_millis(&self) -> (res: u128)
        ensures
            res == self.nanos() / 1_000_000,
    {
        self.as_nanos() / 1_000_000
    }

    /// The nanoseconds as 64 signed bits hold them.
    pub fn wrapped_nanos(&self) -> (res: i64)
        ensures
            res == low_i64(self.nanos() as int),
    {
        let low: u64 = (self.as_nanos() % 0x1_0000_0000_0000_0000) as u64;
        if low >= 0x8000_0000_0000_0000 {
            ((low as i128) - 0x1_0000_0000_0000_0000) as i64
        } else {
            low as i64
        }
    }
}

/// The lowest 64 bits of a number, read as a signed one.
pub open spec fn low_i64(n: int) -> int {
    let m = n % 0x1_0000_0000_0000_0000;
    if m >= 0x8000_0000_0000_0000 {
        m - 0x1_0000_0000_0000_0000
    } else {
        m
    }
}

#[verifier::external_type_specification]
#[verifier::external_body]
pub struct ExInstant(std::time::Instant);

/// Reads the machine's monotonic clock, `std::time::Instant::now`. Nothing is
/// claimed of the reading.
#[verifier::external_body]
fn read_monotonic_clock() -> std::time::Instant {
    std::time::Instant::now()
}

/// The time since an earlier reading, `std::time::Instant::elapsed`. Nothing is
/// claimed of its length; the nanoseconds on top of the seconds are fewer than a second
/// has.
#[verifier::external_body]
fn elapsed_since(start: &std::time::Instant) -> (res: Duration)
    ensures
        res.nanos < 1_000_000_000,
{
    let e = start.elapsed();
    Duration { secs: e.as_secs(), nanos: e.subsec_nanos() }
}

/// A clock whose readings count from the moment it was made.
pub struct Clock {
    start: std::time::Instant,
}

impl Clock {
    /// The start of the clock is a reading of the machine's monotonic clock.
    pub closed spec fn is_started(&self) -> bool {
        call_ensures(read_monotonic_clock, (), self.start)
    }

    /// `span` is a length that the machine may measure from the start of this clock.
    pub closed spec fn may_read(&self, span: Duration) -> bool {
        call_ensures(elapsed_since, (&self.start,), span)
    }

    /// A clock that starts now.
    pub fn new() -> (res: Self)
        ensures
            res.is_started(),
    {
        Clock { start: read_monotonic_clock() }
    }

    /// The time that has passed since the clock was made, as the machine measures it. Its
    /// length may be anything: what depends on it is proved for every value.
    pub fn now(&self) -> (res: Duration)
        ensures
            self.may_read(res),
            res.nanos < 1_000_000_000,
    {
        elapsed_since(&self.start)
    }
}

/// A number that 64 signed bits hold stays as it is. Any other is moved by a multiple of
/// two to the power of 64 to one that they do.
pub proof fn law_low_bits(n: int)
    ensures
        -0x8000_0000_0000_0000 <= low_i64(n) < 0x8000_0000_0000_0000,
        -0x8000_0000_0000_0000 <= n < 0x8000_0000_0000_0000 ==> low_i64(n) == n,
        (n - low_i64(n)) % 0x1_0000_0000_0000_0000 == 0,
{
}

} // verus!
