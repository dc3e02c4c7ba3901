//! The delay line processor: lifecycle and the per-frame step.

use crate::fixed::{blend, blend_samples, ONE};
use crate::history::{fit_capacity, fitted, max_capacity, pushed, tap, HistoryBuffer};
use crate::params::Params;
use crate::fractional::{delay_in_samples, delay_length, interpolated};
use vstd::prelude::*;

verus! {

/// The two states of a processor's life.
#[derive(Clone, Copy, Debug, PartialEq, Eq, Structural)]
pub enum Lifecycle {
    /// No stream has started: the history has its placeholder capacity.
    Uninitialized,
    /// A stream has started: the history is sized for its sample rate.
    Active,
}

/// One frame as the per-frame step sees it: the dry input sample and the
/// controls read for that frame.
#[derive(Clone, Copy, Debug, PartialEq, Eq)]
pub struct Frame {
    pub dry: i32,
    pub params: Params,
}

/// The number of samples the history holds for a stream of `sample_rate` samples
/// per second: two seconds of audio, fitted to what a buffer can have, so at
/// least one sample.
pub open spec fn window(sample_rate: u32) -> nat {
    if sample_rate == 0 {
        1
    } else if 2 * sample_rate > max_capacity() {
        max_capacity()
    } else {
        (2 * sample_rate) as nat
    }
}

/// The delayed sample of a frame: the history read back by the delay that the
/// controls' time spans at the stream's sample rate.
pub open spec fn delayed_sample(history: Seq<i32>, sample_rate: u32, params: Params) -> i32 {
    interpolated(history, delay_length(params.time, sample_rate))
}

/// The sample a frame adds to the history: `dry + delayed * feedback`.
pub open spec fn stored_sample(
    history: Seq<i32>,
    sample_rate: u32,
    dry: i32,
    params: Params,
) -> i32 {
    blend(dry, ONE, delayed_sample(history, sample_rate, params), params.feedback)
}

/// The sample a frame sends out: `dry * dry_gain + delayed * wet_gain`.
pub open spec fn output_sample(
    history: Seq<i32>,
    sample_rate: u32,
    dry: i32,
    params: Params,
) -> i32 {
    blend(dry, params.dry_gain, delayed_sample(history, sample_rate, params), params.wet_gain)
}

/// The history once the first `count` of `frames` have been processed in order,
/// starting from `history`.
pub open spec fn history_after(
    history: Seq<i32>,
    capacity: nat,
    sample_rate: u32,
    frames: Seq<Frame>,
    count: nat,
) -> Seq<i32>
    decreases count,
{
    if count == 0 {
        history
    } else {
        let before = history_after(history, capacity, sample_rate, frames, (count - 1) as nat);
        let frame = frames[count - 1];
        pushed(before, capacity, stored_sample(before, sample_rate, frame.dry, frame.params))
    }
}

/// The output of frame `index` when `frames` are processed in order, starting
/// from `history`.
pub open spec fn output_at(
    history: Seq<i32>,
    capacity: nat,
    sample_rate: u32,
    frames: Seq<Frame>,
    index: int,
) -> i32 {
    output_sample(
        history_after(history, capacity, sample_rate, frames, index as nat),
        sample_rate,
        frames[index].dry,
        frames[index].params,
    )
}

/// The frames of a block of `count` frames whose primary channel is `primary`
/// and whose controls are `params` throughout. A frame that the primary channel
/// does not reach has silence for its input.
pub open spec fn block_frames(primary: Seq<i32>, count: nat, params: Params) -> Seq<Frame> {
    Seq::new(count, |i: int| Frame { dry: tap(primary, i), params })
}

/// The number of frames in a block with the given channels: the length of the
/// longer one.
pub open spec fn block_length(left: Seq<i32>, right: Seq<i32>) -> nat {
    if left.len() >= right.len() {
        left.len()
    } else {
        right.len()
    }
}

/// What a processor is, to its callers.
pub struct LineView {
    /// The stored samples, newest first.
    pub history: Seq<i32>,
    /// The capacity of the history.
    pub capacity: nat,
    /// The sample rate of the running stream, 0 before the first.
    pub sample_rate: u32,
    /// Whether a stream has started.
    pub lifecycle: Lifecycle,
}

/// A feedback delay line with wet/dry mixing.
pub struct DelayLine {
    history: HistoryBuffer,
    sample_rate: u32,
    lifecycle: Lifecycle,
}

impl View for DelayLine {
    type V = LineView;

    closed spec fn view(&self) -> LineView {
        LineView {
            history: self.history@,
            capacity: self.history.spec_capacity(),
            sample_rate: self.sample_rate,
            lifecycle: self.lifecycle,
        }
    }
}

impl DelayLine {
    /// Well-formedness: the capacity is at least 1 and bounds the history.
    pub open spec fn wf(&self) -> bool {
        1 <= self@.capacity && self@.history.len() <= self@.capacity
    }

    /// A processor before its first stream: an empty history of capacity 1.
    pub fn new() -> (line: Self)
        ensures
            line.wf(),
            line@ == (LineView {
                history: Seq::<i32>::empty(),
                capacity: 1,
                sample_rate: 0,
                lifecycle: Lifecycle::Uninitialized,
            }),
    {
        DelayLine {
            history: HistoryBuffer::new(),
            sample_rate: 0,
            lifecycle: Lifecycle::Uninitialized,
        }
    }

    /// Starts, or restarts, a stream of `sample_rate` samples per second: the
    /// history is emptied and sized for two seconds of audio.
    pub fn on_stream_start(&mut self, sample_rate: u32)
        ensures
            final(self).wf(),
            final(self)@ == (LineView {
                history: Seq::<i32>::empty(),
                capacity: window(sample_rate),
                sample_rate,
                lifecycle: Lifecycle::Active,
            }),
    {
        self.history.resize_and_clear(window_of(sample_rate));
        self.sample_rate = sample_rate;
        self.lifecycle = Lifecycle::Active;
    }

    /// Ends the stream. Nothing is owed but the release of what the processor
    /// owns, which happens when it is dropped: the processor is left as it is.
    pub fn on_stream_stop(&mut self)
        ensures
            *final(self) == *old(self),
    {
    }

    /// Processes one frame: reads the delayed sample from the history, then
    /// stores `dry + delayed * feedback` as the newest sample, and returns the
    /// crossfade of the dry input and the delayed sample.
    pub fn process_frame(&mut self, dry: i32, params: &Params) -> (output: i32)
        requires
            old(self).wf(),
        ensures
            final(self).wf(),
            output == output_sample(old(self)@.history, old(self)@.sample_rate, dry, *params),
            final(self)@ == (LineView {
                history: pushed(
                    old(self)@.history,
                    old(self)@.capacity,
                    stored_sample(old(self)@.history, old(self)@.sample_rate, dry, *params),
                ),
                ..old(self)@
            }),
    {
        let delay: u64 = delay_in_samples(params.time, self.sample_rate);
        let delayed: i32 = self.history.interpolate(delay);
        let stored: i32 = blend_samples(dry, ONE, delayed, params.feedback);
        self.history.push(stored);
        blend_samples(dry, params.dry_gain, delayed, params.wet_gain)
    }

    /// Processes a block of frames in order, in place, with one snapshot of the
    /// controls. `left` is the primary channel: each frame takes its input from
    /// it, and the frame's output replaces the sample in both channels. The block
    /// has as many frames as the longer channel; where a channel has no sample
    /// for a frame, the input reads as silence and nothing is written.
    pub fn process(&mut self, left: &mut Vec<i32>, right: &mut Vec<i32>, params: &Params)
        requires
            old(self).wf(),
        ensures
            final(self).wf(),
            final(left)@.len() == old(left)@.len(),
            final(right)@.len() == old(right)@.len(),
            final(self)@ == (LineView {
                history: history_after(
                    old(self)@.history,
                    old(self)@.capacity,
                    old(self)@.sample_rate,
                    block_frames(old(left)@, block_length(old(left)@, old(right)@), *params),
                    block_length(old(left)@, old(right)@),
                ),
                ..old(self)@
            }),
            forall|k: int|
                0 <= k < old(left)@.len() ==> #[trigger] final(left)@[k] == output_at(
                    old(self)@.history,
                    old(self)@.capacity,
                    old(self)@.sample_rate,
                    block_frames(old(left)@, block_length(old(left)@, old(right)@), *params),
                    k,
                ),
            forall|k: int|
                0 <= k < old(right)@.len() ==> #[trigger] final(right)@[k] == output_at(
                    old(self)@.history,
                    old(self)@.capacity,
                    old(self)@.sample_rate,
                    block_frames(old(left)@, block_length(old(left)@, old(right)@), *params),
                    k,
                ),
    {
        let ghost start = self@;
        let ghost primary = left@;
        let ghost secondary = right@;
        let count: usize = if left.len() >= right.len() {
            left.len()
        } else {
            right.len()
        };
        let ghost frames = block_frames(primary, count as nat, *params);
        let mut index: usize = 0;
        while index < count
            invariant
                index <= count,
                count == block_length(primary, secondary),
                frames == block_frames(primary, count as nat, *params),
                self.wf(),
                left@.len() == primary.len(),
                right@.len() == secondary.len(),
                self@ == (LineView {
                    history: history_after(
                        start.history,
                        start.capacity,
                        start.sample_rate,
                        frames,
                        index as nat,
                    ),
                    ..start
                }),
                forall|k: int|
                    0 <= k < index && k < left@.len() ==> #[trigger] left@[k] == output_at(
                        start.history,
                        start.capacity,
                        start.sample_rate,
                        frames,
                        k,
                    ),
                forall|k: int| index <= k < left@.len() ==> #[trigger] left@[k] == primary[k],
                forall|k: int|
                    0 <= k < index && k < right@.len() ==> #[trigger] right@[k] == output_at(
                        start.history,
                        start.capacity,
                        start.sample_rate,
                        frames,
                        k,
                    ),
            decreases count - index,
        {
            let dry: i32 = if index < left.len() {
                left[index]
            } else {
                0
            };
            assert(frames[index as int] == Frame { dry, params: *params });
            let output: i32 = self.process_frame(dry, params);
            if index < left.len() {
                left.set(index, output);
            }
            if index < right.len() {
                right.set(index, output);
            }
            index = index + 1;
        }
    }

    /// The sample rate of the running stream, 0 before the first.
    pub fn sample_rate(&self) -> (rate: u32)
        ensures
            rate == self@.sample_rate,
    {
        self.sample_rate
    }

    /// Whether a stream has started.
    pub fn lifecycle(&self) -> (state: Lifecycle)
        ensures
            state == self@.lifecycle,
    {
        self.lifecycle
    }

    /// The history, for reading.
    pub fn history(&self) -> (history: &HistoryBuffer)
        ensures
            history@ == self@.history,
            history.spec_capacity() == self@.capacity,
    {
        &self.history
    }
}

impl Default for DelayLine {
    /// A processor before its first stream, as [`DelayLine::new`] makes it.
    fn default() -> (line: Self)
        ensures
            line.wf(),
            line@ == (LineView {
                history: Seq::<i32>::empty(),
                capacity: 1,
                sample_rate: 0,
                lifecycle: Lifecycle::Uninitialized,
            }),
    {
        DelayLine::new()
    }
}

/// Computes [`window`].
pub fn window_of(sample_rate: u32) -> (capacity: usize)
    ensures
        capacity == window(sample_rate),
        capacity == fitted(capacity),
{
    let most: usize = fit_capacity(usize::MAX);
    if sample_rate as u64 * 2 > most as u64 {
        most
    } else {
        fit_capacity((sample_rate as u64 * 2) as usize)
    }
}

} // verus!
