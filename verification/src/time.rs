//! Spans of time as plain integers.

use vstd::prelude::*;

verus! {

/// Nanoseconds in one second.
pub const NANOS_PER_SEC: u128 = 1_000_000_000;

/// Nanoseconds in one millisecond.
pub const NANOS_PER_MILLI: u128 = 1_000_000;

/// The longest span the standard library can hold, in nanoseconds.
pub const MAX_DURATION_NANOS: u128 = 18_446_744_073_709_551_615_999_999_999;

/// A span of time at nanosecond resolution.
#[derive(Debug, Clone, Copy, PartialEq, Eq, Structural)]
pub struct Duration {
    pub nanos: u128,
}

impl View for Duration {
    type V = nat;

    open spec fn view(&self) -> nat {
        self.nanos as nat
    }
}

impl Duration {
    /// The empty span.
    pub fn zero() -> (d: Self)
        ensures
            d@ == 0,
    {
        Duration { nanos: 0 }
    }

    pub fn from_secs(secs: u64) -> (d: Self)
        ensures
            d@ == secs * NANOS_PER_SEC,
    {
        Duration { nanos: secs as u128 * NANOS_PER_SEC }
    }

    pub fn from_millis(millis: u64) -> (d: Self)
        ensures
            d@ == millis * NANOS_PER_MILLI,
    {
        Duration { nanos: millis as u128 * NANOS_PER_MILLI }
    }

    /// The distance from `other` up to `self`, or zero where `other` is later.
    pub fn saturating_sub(self, other: Self) -> (d: Self)
        ensures
            d@ == if self@ >= other@ {
                (self@ - other@) as nat
            } else {
                0
            },
    {
        if self.nanos >= other.nanos {
            Duration { nanos: self.nanos - other.nanos }
        } else {
            Duration { nanos: 0 }
        }
    }
}

} // verus!
