//! Millisecond-precision time values.
//!
//! Deadlines and the shared monotonic tick are plain signed millisecond
//! counts, so every comparison and every piece of deadline arithmetic in the
//! core is ordinary integer arithmetic. The driver outside the core samples
//! the wall clock and hands the tick in as a value of these types.

use vstd::prelude::*;

verus! {

/// A span of time in milliseconds; may be negative.
#[derive(Clone, Copy, Debug, PartialEq, Eq, Structural)]
pub struct MyDuration(pub i64);

impl MyDuration {
    /// The span of the given number of milliseconds.
    pub fn milliseconds(mills: i64) -> (r: MyDuration)
        ensures
            r.0 == mills,
    {
        MyDuration(mills)
    }

    /// The span as a non-negative millisecond count; negative spans clamp
    /// to zero.
    pub fn as_std(&self) -> (r: u64)
        ensures
            self.0 >= 0 ==> r == self.0,
            self.0 < 0 ==> r == 0,
    {
        if self.0 >= 0 {
            self.0 as u64
        } else {
            0
        }
    }
}

/// A point on the shared monotonic timeline, in milliseconds.
#[derive(Clone, Copy, Debug, PartialEq, Eq, Structural)]
pub struct MyInstant(pub i64);

/// Signed addition clamped to the representable range.
pub open spec fn sat_add_i64_spec(a: i64, b: i64) -> i64 {
    if a + b > i64::MAX {
        i64::MAX
    } else if a + b < i64::MIN {
        i64::MIN
    } else {
        (a + b) as i64
    }
}

impl MyInstant {
    /// The instant a span later, saturating at the ends of the timeline.
    pub fn checked_add(self, dur: MyDuration) -> (r: MyInstant)
        ensures
            r.0 == sat_add_i64_spec(self.0, dur.0),
    {
        MyInstant(saturating_add_i64(self.0, dur.0))
    }
}

/// Saturating signed addition.
pub fn saturating_add_i64(a: i64, b: i64) -> (r: i64)
    ensures
        r == sat_add_i64_spec(a, b),
{
    if b >= 0 {
        if a <= i64::MAX - b {
            a + b
        } else {
            i64::MAX
        }
    } else {
        if a >= i64::MIN - b {
            a + b
        } else {
            i64::MIN
        }
    }
}

/// Milliseconds still to run from `tick` until `deadline`; zero once the
/// deadline has passed.
pub fn get_time_left(deadline: MyInstant, tick: MyInstant) -> (r: i64)
    ensures
        deadline.0 <= tick.0 ==> r == 0,
        deadline.0 > tick.0 ==> r == deadline.0 - tick.0 || (deadline.0 - tick.0 > i64::MAX
            && r == i64::MAX),
{
    if deadline.0 <= tick.0 {
        0
    } else {
        if tick.0 >= 0 || deadline.0 <= i64::MAX + tick.0 {
            deadline.0 - tick.0
        } else {
            i64::MAX
        }
    }
}

} // verus!
