//! Points in time and the spans between them.
use vstd::prelude::*;
use crate::outside::clock_nanos;

verus! {

/// A point in time: nanoseconds since the Unix epoch, in UTC.
#[derive(Debug, Clone, Copy, PartialEq, Eq, PartialOrd, Ord, Hash, Default, Structural)]
pub struct Timestamp {
    pub nanos: i64,
}

impl Timestamp {
    /// The Unix epoch.
    pub fn epoch() -> (r: Self)
        ensures
            r.nanos == 0,
    {
        Timestamp { nanos: 0 }
    }

    /// The time by the clock of the machine; the epoch where the clock is out of range.
    pub fn now() -> (r: Self)
        ensures
            r.nanos >= 0,
    {
        Timestamp::of_clock(clock_nanos())
    }

    /// The time that the reading of a clock stands for: nanoseconds since the Unix epoch, or
    /// nothing where they are out of range, which is taken for the epoch.
    pub fn of_clock(reading: Option<i64>) -> (r: Self)
        ensures
            match reading {
                Some(nanos) => r.nanos == nanos,
                None => r.nanos == 0,
            },
    {
        match reading {
            Some(nanos) => Timestamp { nanos },
            None => Timestamp::epoch(),
        }
    }
}

/// The whole seconds of a span of nanoseconds, rounded towards zero.
pub open spec fn whole_seconds(nanos: int) -> int {
    if nanos >= 0 {
        nanos / 1_000_000_000
    } else {
        -((-nanos) / 1_000_000_000)
    }
}

/// The nanoseconds from `from` to `to`.
pub fn nanos_between(from: Timestamp, to: Timestamp) -> (r: i128)
    ensures
        r == to.nanos - from.nanos,
{
    to.nanos as i128 - from.nanos as i128
}

/// The whole seconds from `from` to `to`, rounded towards zero.
pub fn seconds_between(from: Timestamp, to: Timestamp) -> (r: i64)
    ensures
        r == whole_seconds(to.nanos - from.nanos),
{
    let d: i128 = to.nanos as i128 - from.nanos as i128;
    if d >= 0 {
        (d / 1_000_000_000) as i64
    } else {
        -(((-d) / 1_000_000_000) as i64)
    }
}

} // verus!
