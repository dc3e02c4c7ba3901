//! Fractional delay: reading the history between two stored samples.

use crate::fixed::{blend, blend_samples, ONE};
use crate::history::{tap, HistoryBuffer};
use vstd::prelude::*;

verus! {

/// The delay, in Q16 samples, that a time of `time` Q16 milliseconds spans at
/// `sample_rate` samples per second: `time * 0.001 * sample_rate`, rounded down.
pub open spec fn delay_length(time: u32, sample_rate: u32) -> u64 {
    ((time * sample_rate) / 1000) as u64
}

/// The history read `delay` Q16 samples back. With `whole` the integer part of the
/// delay and `frac` its fraction, this is
/// `tap(whole) * (1 - frac) + tap(whole + 1) * frac`: the straight line between
/// the two stored samples that enclose the delay.
pub open spec fn interpolated(history: Seq<i32>, delay: u64) -> i32 {
    blend(
        tap(history, delay as int / 0x1_0000),
        (0x1_0000 - delay as int % 0x1_0000) as u32,
        tap(history, delay as int / 0x1_0000 + 1),
        (delay as int % 0x1_0000) as u32,
    )
}

/// Converts a delay time to a delay length in samples.
pub fn delay_in_samples(time: u32, sample_rate: u32) -> (delay: u64)
    ensures
        delay == delay_length(time, sample_rate),
{
    assert(0 <= time * sample_rate <= 0xffff_ffff * 0xffff_ffff) by (nonlinear_arith)
        requires
            0 <= time <= 0xffff_ffff,
            0 <= sample_rate <= 0xffff_ffff,
    ;
    (time as u64) * (sample_rate as u64) / 1000
}

impl HistoryBuffer {
    /// Reads the history `delay` Q16 samples back, by linear interpolation between
    /// the two nearest stored samples. A neighbour that the buffer does not hold
    /// contributes silence.
    pub fn interpolate(&self, delay: u64) -> (delayed: i32)
        ensures
            delayed == interpolated(self@, delay),
    {
        let whole: u64 = delay / 0x1_0000;
        let frac: u32 = (delay % 0x1_0000) as u32;
        let near: i32 = self.lookup_wide(whole);
        let far: i32 = self.lookup_wide(whole + 1);
        blend_samples(near, ONE - frac, far, frac)
    }

    fn lookup_wide(&self, relative_index: u64) -> (sample: i32)
        ensures
            sample == tap(self@, relative_index as int),
    {
        let stored: usize = self.len();
        if relative_index < stored as u64 {
            self.lookup(relative_index as usize)
        } else {
            0
        }
    }
}

} // verus!
