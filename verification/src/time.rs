//! Monotonic time as plain values.
use vstd::prelude::*;

verus! {

/// A span of time, in nanoseconds.
#[derive(Clone, Copy, Debug, PartialEq, Eq, Structural)]
pub struct Duration {
    pub nanos: u64,
}

/// A reading of the relay's monotonic clock, in nanoseconds since the clock's origin.
#[derive(Clone, Copy, Debug, PartialEq, Eq, Structural)]
pub struct Instant {
    pub nanos: u64,
}

impl View for Duration {
    type V = Duration;

    open spec fn view(&self) -> Duration {
        *self
    }
}

impl View for Instant {
    type V = Instant;

    open spec fn view(&self) -> Instant {
        *self
    }
}

impl Duration {
    pub open spec fn spec_as_micros(self) -> int {
        self.nanos as int / 1000
    }

    /// A span of `secs` seconds, saturating at the longest span a `Duration` holds.
    pub fn from_secs(secs: u64) -> (r: Duration)
        ensures
            r.nanos == if secs * 1_000_000_000 <= u64::MAX { secs * 1_000_000_000 } else { u64::MAX as int },
    {
        let wide: u128 = secs as u128 * 1_000_000_000;
        if wide <= u64::MAX as u128 { Duration { nanos: wide as u64 } } else { Duration { nanos: u64::MAX } }
    }

    /// A span of `millis` milliseconds, saturating at the longest span a `Duration` holds.
    pub fn from_millis(millis: u64) -> (r: Duration)
        ensures
            r.nanos == if millis * 1_000_000 <= u64::MAX { millis * 1_000_000 } else { u64::MAX as int },
    {
        let wide: u128 = millis as u128 * 1_000_000;
        if wide <= u64::MAX as u128 { Duration { nanos: wide as u64 } } else { Duration { nanos: u64::MAX } }
    }

    /// A span of `micros` microseconds, saturating at the longest span a `Duration` holds.
    pub fn from_micros(micros: u64) -> (r: Duration)
        ensures
            r.nanos == if micros * 1_000 <= u64::MAX { micros * 1_000 } else { u64::MAX as int },
    {
        let wide: u128 = micros as u128 * 1_000;
        if wide <= u64::MAX as u128 { Duration { nanos: wide as u64 } } else { Duration { nanos: u64::MAX } }
    }

    /// The whole microseconds in the span.
    pub fn as_micros(self) -> (r: u64)
        ensures
            r == self.spec_as_micros(),
    {
        self.nanos / 1000
    }
}

impl Instant {
    pub open spec fn spec_since(self, earlier: Instant) -> Duration {
        Duration { nanos: if self.nanos >= earlier.nanos { (self.nanos - earlier.nanos) as u64 } else { 0 } }
    }

    pub open spec fn spec_plus(self, d: Duration) -> Instant {
        Instant { nanos: if self.nanos + d.nanos <= u64::MAX { (self.nanos + d.nanos) as u64 } else { u64::MAX } }
    }

    /// The span from `earlier` to this reading; zero where `earlier` is the later one.
    pub fn since(self, earlier: Instant) -> (r: Duration)
        ensures
            r == self.spec_since(earlier),
    {
        Duration { nanos: self.nanos.saturating_sub(earlier.nanos) }
    }

    /// The reading `d` after this one, saturating at the last reading the clock can give.
    pub fn plus(self, d: Duration) -> (r: Instant)
        ensures
            r == self.spec_plus(d),
    {
        Instant { nanos: self.nanos.saturating_add(d.nanos) }
    }
}

} // verus!
