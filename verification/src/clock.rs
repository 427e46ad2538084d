//! Points in time. What time it is comes from outside, as a value.

use vstd::prelude::*;

verus! {

/// A point in time: seconds since 1970-01-01 00:00:00 UTC and the nanoseconds
/// past them.
#[derive(Debug, Clone, Copy, PartialEq, Eq, Structural)]
pub struct Timestamp {
    pub seconds: i64,
    pub nanos: u32,
}

impl Timestamp {
    /// Whether this point lies before another.
    pub open spec fn before(self, other: Timestamp) -> bool {
        self.seconds < other.seconds || (self.seconds == other.seconds && self.nanos < other.nanos)
    }

    /// Whether this point lies before another.
    pub fn is_before(self, other: Timestamp) -> (r: bool)
        ensures
            r == self.before(other),
    {
        self.seconds < other.seconds || (self.seconds == other.seconds && self.nanos < other.nanos)
    }
}

/// A point in time in nanoseconds.
pub open spec fn nanoseconds(t: Timestamp) -> int {
    t.seconds * 1_000_000_000 + t.nanos
}

/// How many whole times a unit goes into a length of time; negative where that is.
pub open spec fn whole(length: int, unit: int) -> int {
    if length >= 0 {
        length / unit
    } else {
        -((-length) / unit)
    }
}

/// The whole milliseconds between two points in time.
pub open spec fn milliseconds(from: Timestamp, to: Timestamp) -> int {
    whole(nanoseconds(to) - nanoseconds(from), 1_000_000)
}

/// The whole seconds between two points in time.
pub open spec fn seconds(from: Timestamp, to: Timestamp) -> int {
    whole(nanoseconds(to) - nanoseconds(from), 1_000_000_000)
}

fn nanoseconds_between(from: Timestamp, to: Timestamp) -> (r: i128)
    ensures
        r == nanoseconds(to) - nanoseconds(from),
        -0x1_0000_0000_0000_0000_0000_0000 < r < 0x1_0000_0000_0000_0000_0000_0000,
{
    let start: i128 = from.seconds as i128 * 1_000_000_000 + from.nanos as i128;
    let end: i128 = to.seconds as i128 * 1_000_000_000 + to.nanos as i128;
    end - start
}

/// The whole milliseconds between two points in time, negative where the later
/// one comes first.
pub fn elapsed_ms(from: Timestamp, to: Timestamp) -> (r: i128)
    ensures
        r == milliseconds(from, to),
{
    let between: i128 = nanoseconds_between(from, to);
    if between >= 0 {
        between / 1_000_000
    } else {
        -((-between) / 1_000_000)
    }
}

/// The whole seconds between two points in time, negative where the later one
/// comes first.
pub fn elapsed_seconds(from: Timestamp, to: Timestamp) -> (r: i128)
    ensures
        r == seconds(from, to),
{
    let between: i128 = nanoseconds_between(from, to);
    if between >= 0 {
        between / 1_000_000_000
    } else {
        -((-between) / 1_000_000_000)
    }
}

/// The time between two points is counted in whole units: what is left over is less
/// than one, and time that runs backwards is counted as negative.
pub proof fn law_time_is_counted_in_whole_units(from: Timestamp, to: Timestamp)
    ensures
        ({
            let d = (to.seconds - from.seconds) * 1_000_000_000 + (to.nanos - from.nanos);
            &&& d >= 0 ==> 0 <= d - milliseconds(from, to) * 1_000_000 < 1_000_000
            &&& d >= 0 ==> 0 <= d - seconds(from, to) * 1_000_000_000 < 1_000_000_000
            &&& d >= 0 ==> milliseconds(from, to) >= 0 && seconds(from, to) >= 0
            &&& milliseconds(to, from) == -milliseconds(from, to)
            &&& seconds(to, from) == -seconds(from, to)
        }),
{
}

/// A point lies before another if, and only if, fewer nanoseconds have passed up to it,
/// where the nanoseconds of both are less than a second.
pub proof fn law_earlier_is_before(a: Timestamp, b: Timestamp)
    requires
        a.nanos < 1_000_000_000,
        b.nanos < 1_000_000_000,
    ensures
        a.before(b) <==> a.seconds * 1_000_000_000 + a.nanos < b.seconds * 1_000_000_000 + b.nanos,
        !a.before(a),
        a.before(b) ==> !b.before(a),
{
}

} // verus!
