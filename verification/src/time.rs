//! Spans of time as whole nanoseconds.

use vstd::prelude::*;

verus! {

/// A span of time in nanoseconds.
#[derive(Clone, Copy, Debug, PartialEq, Eq, Structural)]
pub struct TimeSpan {
    pub nanos: u128,
}

impl TimeSpan {
    pub fn from_nanos(nanos: u128) -> (span: Self)
        ensures
            span.nanos == nanos,
    {
        TimeSpan { nanos }
    }

    pub fn from_micros(micros: u64) -> (span: Self)
        ensures
            span.nanos == micros * 1_000,
    {
        TimeSpan { nanos: micros as u128 * 1_000 }
    }

    pub fn from_millis(millis: u64) -> (span: Self)
        ensures
            span.nanos == millis * 1_000_000,
    {
        TimeSpan { nanos: millis as u128 * 1_000_000 }
    }

    pub fn from_secs(secs: u64) -> (span: Self)
        ensures
            span.nanos == secs * 1_000_000_000,
    {
        TimeSpan { nanos: secs as u128 * 1_000_000_000 }
    }
}

/// A thousand of one unit are one of the next.
pub proof fn law_units_are_thousands(
    count: u64,
    nanos: TimeSpan,
    micros: TimeSpan,
    millis: TimeSpan,
    secs: TimeSpan,
)
    requires
        call_ensures(TimeSpan::from_nanos, (count as u128,), nanos),
        call_ensures(TimeSpan::from_micros, (count,), micros),
        call_ensures(TimeSpan::from_millis, (count,), millis),
        call_ensures(TimeSpan::from_secs, (count,), secs),
    ensures
        nanos.nanos == count,
        micros.nanos == 1000 * nanos.nanos,
        millis.nanos == 1000 * micros.nanos,
        secs.nanos == 1000 * millis.nanos,
{
}

} // verus!
