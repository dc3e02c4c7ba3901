//! The three controls of the effect and their ranges.

use crate::fixed::ONE;
use vstd::prelude::*;

verus! {

/// The shortest delay time: 1 millisecond, in Q16 milliseconds.
pub const TIME_MIN: u32 = 0x1_0000;

/// The longest delay time: 2000 milliseconds, in Q16 milliseconds.
pub const TIME_MAX: u32 = 0x7d0_0000;

/// The delay time a fresh set of controls starts with: 300 milliseconds.
pub const TIME_DEFAULT: u32 = 0x12c_0000;

/// The feedback a fresh set of controls starts with: one half.
pub const FEEDBACK_DEFAULT: u32 = 0x8000;

/// The gain of both paths at the centre of an equal-power crossfade: the square
/// root of one half, rounded to the nearest Q16 number.
pub const CENTRE_GAIN: u32 = 46341;

/// `value` moved to the nearest point of `[low, high]`.
pub open spec fn clamped(value: u32, low: u32, high: u32) -> u32 {
    if value < low {
        low
    } else if value > high {
        high
    } else {
        value
    }
}

/// One snapshot of the controls, as the per-frame step reads them.
///
/// `time` is the delay time in Q16 milliseconds. `feedback` is the Q16 share of
/// the delayed signal that is written back into the history. `dry_gain` and
/// `wet_gain` are the Q16 weights of the crossfade between the input and the
/// delayed signal; for a mix `m` between 0 and 1 the equal-power crossfade sets
/// them to the cosine and the sine of `m` quarter turns.
#[derive(Clone, Copy, Debug, PartialEq, Eq)]
pub struct Params {
    pub time: u32,
    pub feedback: u32,
    pub dry_gain: u32,
    pub wet_gain: u32,
}

impl Params {
    /// Whether every control lies in its declared range: the time between 1 and
    /// 2000 milliseconds, the feedback and both gains between 0 and 1.
    pub open spec fn in_range(self) -> bool {
        &&& TIME_MIN <= self.time <= TIME_MAX
        &&& self.feedback <= ONE
        &&& self.dry_gain <= ONE
        &&& self.wet_gain <= ONE
    }

    /// The controls nearest to the given values that lie in their ranges.
    pub fn new(time: u32, feedback: u32, dry_gain: u32, wet_gain: u32) -> (params: Params)
        ensures
            params.in_range(),
            params.time == clamped(time, TIME_MIN, TIME_MAX),
            params.feedback == clamped(feedback, 0, ONE),
            params.dry_gain == clamped(dry_gain, 0, ONE),
            params.wet_gain == clamped(wet_gain, 0, ONE),
    {
        Params {
            time: clamp(time, TIME_MIN, TIME_MAX),
            feedback: clamp(feedback, 0, ONE),
            dry_gain: clamp(dry_gain, 0, ONE),
            wet_gain: clamp(wet_gain, 0, ONE),
        }
    }
}

impl Default for Params {
    /// A delay of 300 milliseconds, half feedback, and the crossfade at its centre.
    fn default() -> (params: Params)
        ensures
            params.in_range(),
            params.time == TIME_DEFAULT,
            params.feedback == FEEDBACK_DEFAULT,
            params.dry_gain == CENTRE_GAIN,
            params.wet_gain == CENTRE_GAIN,
    {
        Params {
            time: TIME_DEFAULT,
            feedback: FEEDBACK_DEFAULT,
            dry_gain: CENTRE_GAIN,
            wet_gain: CENTRE_GAIN,
        }
    }
}

/// Moves `value` to the nearest point of `[low, high]`.
pub fn clamp(value: u32, low: u32, high: u32) -> (r: u32)
    ensures
        r == clamped(value, low, high),
{
    if value < low {
        low
    } else if value > high {
        high
    } else {
        value
    }
}

} // verus!
