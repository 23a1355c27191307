//! Spans of time.

use vstd::prelude::*;

verus! {

/// A span of time: whole seconds and the nanoseconds beyond them.
#[derive(Copy, Clone, Debug, Eq, PartialEq, Structural)]
pub struct Duration {
    pub secs: u64,
    pub nanos: u32,
}

impl View for Duration {
    type V = int;

    /// The span in nanoseconds.
    open spec fn view(&self) -> int {
        self.secs * 1_000_000_000 + self.nanos
    }
}

impl Duration {
    /// There is less than a second beyond the whole seconds.
    pub open spec fn wf(&self) -> bool {
        self.nanos < 1_000_000_000
    }

    /// The empty span.
    pub fn zero() -> (r: Self)
        ensures
            r.wf(),
            r@ == 0,
            r == (Duration { secs: 0, nanos: 0 }),
    {
        Duration { secs: 0, nanos: 0 }
    }

    /// A span of `millis` milliseconds.
    pub fn from_millis(millis: u64) -> (r: Self)
        ensures
            r.wf(),
            r@ == millis * 1_000_000,
    {
        Duration { secs: millis / 1_000, nanos: ((millis % 1_000) * 1_000_000) as u32 }
    }

    /// The span of `micros` microseconds.
    pub open spec fn spec_from_micros(micros: u64) -> Duration {
        Duration { secs: micros / 1_000_000, nanos: ((micros % 1_000_000) * 1_000) as u32 }
    }

    /// A span of `micros` microseconds.
    pub fn from_micros(micros: u64) -> (r: Self)
        ensures
            r.wf(),
            r@ == micros * 1_000,
            r == Duration::spec_from_micros(micros),
    {
        Duration { secs: micros / 1_000_000, nanos: ((micros % 1_000_000) * 1_000) as u32 }
    }

    /// The span in microseconds, rounded down.
    pub fn as_micros(&self) -> (r: u128)
        requires
            self.wf(),
        ensures
            r == self@ / 1_000,
    {
        (self.secs as u128) * 1_000_000 + (self.nanos as u128) / 1_000
    }

    /// The span by which this one is longer than `other`, or the empty span.
    pub fn saturating_sub(&self, other: &Duration) -> (r: Self)
        requires
            self.wf(),
            other.wf(),
        ensures
            r.wf(),
            r@ == (if self@ >= other@ {
                self@ - other@
            } else {
                0
            }),
    {
        if self.secs < other.secs || (self.secs == other.secs && self.nanos < other.nanos) {
            return Duration::zero();
        }
        if self.nanos >= other.nanos {
            Duration { secs: self.secs - other.secs, nanos: self.nanos - other.nanos }
        } else {
            Duration {
                secs: self.secs - other.secs - 1,
                nanos: 1_000_000_000 - (other.nanos - self.nanos),
            }
        }
    }

    /// Whether this span is shorter than `other`.
    pub fn shorter_than(&self, other: &Duration) -> (r: bool)
        requires
            self.wf(),
            other.wf(),
        ensures
            r == (self@ < other@),
    {
        self.secs < other.secs || (self.secs == other.secs && self.nanos < other.nanos)
    }
}

} // verus!
