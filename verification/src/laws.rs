//! What holds of the delay line as a whole, proved from the contracts of its parts.

use crate::fixed::{
    descale, lemma_blend_between, lemma_blend_first, lemma_blend_scales, lemma_blend_second,
    lemma_blend_silence, lemma_descale_bounds, lemma_descale_lipschitz, magnitude, ONE,
};
use crate::history::{max_capacity, pushed, pushed_all, silent, tap};
use crate::line::{
    delayed_sample, history_after, output_at, output_sample, stored_sample, window, Frame,
};
use crate::params::{Params, TIME_MAX};
use crate::fractional::{delay_length, interpolated};
use vstd::prelude::*;

verus! {

/// Pushing into a buffer that starts empty keeps the newest samples, newest
/// first: position `i` holds the sample pushed `i` pushes before the last, for as
/// many positions as samples were pushed, up to the capacity.
pub proof fn lemma_pushed_all_newest_first(capacity: nat, samples: Seq<i32>)
    requires
        capacity >= 1,
    ensures
        pushed_all(Seq::empty(), capacity, samples).len() == if samples.len() <= capacity {
            samples.len()
        } else {
            capacity
        },
        forall|i: int|
            0 <= i < samples.len() && i < capacity ==> #[trigger] pushed_all(
                Seq::empty(),
                capacity,
                samples,
            )[i] == samples[samples.len() - 1 - i],
    decreases samples.len(),
{
    if samples.len() > 0 {
        let earlier = samples.drop_last();
        lemma_pushed_all_newest_first(capacity, earlier);
        let before = pushed_all(Seq::empty(), capacity, earlier);
        let after = pushed_all(Seq::empty(), capacity, samples);
        assert(after == pushed(before, capacity, samples.last()));
        assert forall|i: int| 0 <= i < samples.len() && i < capacity implies #[trigger] after[i]
            == samples[samples.len() - 1 - i] by {
            if i > 0 {
                assert(after[i] == before[i - 1]);
                assert(before[i - 1] == earlier[earlier.len() - 1 - (i - 1)]);
            }
        }
    }
}

/// Eviction: once `capacity + 1` samples have been pushed into an empty buffer,
/// the oldest position holds the second sample pushed, the first one being gone,
/// and every position from `capacity` on reads as silence.
pub proof fn lemma_eviction(capacity: nat, samples: Seq<i32>)
    requires
        capacity >= 1,
        samples.len() == capacity + 1,
    ensures
        tap(pushed_all(Seq::empty(), capacity, samples), capacity - 1) == samples[1],
        forall|i: int| i >= capacity ==> tap(pushed_all(Seq::empty(), capacity, samples), i) == 0,
{
    lemma_pushed_all_newest_first(capacity, samples);
}

/// Reading between two stored samples never leaves the range they span, and a
/// delay of a whole number of samples reads the stored sample itself.
pub proof fn lemma_interpolation_between(history: Seq<i32>, delay: u64)
    ensures
        ({
            let near = tap(history, delay as int / 0x1_0000);
            let far = tap(history, delay as int / 0x1_0000 + 1);
            let delayed = interpolated(history, delay);
            &&& near <= far ==> near <= delayed <= far
            &&& far <= near ==> far <= delayed <= near
            &&& delay as int % 0x1_0000 == 0 ==> delayed == near
        }),
{
    let near = tap(history, delay as int / 0x1_0000);
    let far = tap(history, delay as int / 0x1_0000 + 1);
    let frac = delay as int % 0x1_0000;
    lemma_blend_between(near, (0x1_0000 - frac) as u32, far, frac as u32);
    if frac == 0 {
        lemma_blend_first(near, far);
    }
}

/// Continuity of the fractional delay: lengthening the delay by the smallest
/// step, one 65536th of a sample, moves the delayed sample by no more than one
/// 65536th of the difference between the two stored samples around it, plus one
/// unit of rounding. This holds across whole-sample boundaries as within them.
pub proof fn lemma_delay_continuity(history: Seq<i32>, delay: u64)
    requires
        delay < u64::MAX,
    ensures
        ({
            let near = tap(history, delay as int / 0x1_0000);
            let far = tap(history, delay as int / 0x1_0000 + 1);
            let here = interpolated(history, delay);
            let next = interpolated(history, (delay + 1) as u64);
            magnitude(next - here) <= magnitude(far - near) / 0x1_0000 + 1
        }),
{
    let whole = delay as int / 0x1_0000;
    let frac = delay as int % 0x1_0000;
    let near = tap(history, whole) as int;
    let far = tap(history, whole + 1) as int;
    let sum_here = near * (0x1_0000 - frac) + far * frac;
    lemma_blend_between(
        tap(history, whole),
        (0x1_0000 - frac) as u32,
        tap(history, whole + 1),
        frac as u32,
    );
    let after = (delay + 1) as u64;
    let whole_next = after as int / 0x1_0000;
    let frac_next = after as int % 0x1_0000;
    let near_next = tap(history, whole_next) as int;
    let far_next = tap(history, whole_next + 1) as int;
    let sum_next = near_next * (0x1_0000 - frac_next) + far_next * frac_next;
    lemma_blend_between(
        tap(history, whole_next),
        (0x1_0000 - frac_next) as u32,
        tap(history, whole_next + 1),
        frac_next as u32,
    );
    if frac == 0xffff {
        assert(whole_next == whole + 1 && frac_next == 0);
        assert(near_next == far);
        assert(sum_next == sum_here + (far - near)) by (nonlinear_arith)
            requires
                sum_here == near * (0x1_0000 - frac) + far * frac,
                sum_next == near_next * (0x1_0000 - frac_next) + far_next * frac_next,
                frac == 0xffff,
                frac_next == 0,
                near_next == far,
        ;
    } else {
        assert(whole_next == whole && frac_next == frac + 1);
        assert(sum_next == sum_here + (far - near)) by (nonlinear_arith)
            requires
                sum_here == near * (0x1_0000 - frac) + far * frac,
                sum_next == near_next * (0x1_0000 - frac_next) + far_next * frac_next,
                frac_next == frac + 1,
                near_next == near,
                far_next == far,
        ;
    }
    lemma_descale_lipschitz(sum_here, sum_next);
}

/// The crossfade at its two ends: with the dry gain at 1 and the wet gain at 0
/// the output is the dry input, untouched; with the dry gain at 0 and the wet
/// gain at 1 it is the delayed sample alone.
pub proof fn lemma_mix_extremes(history: Seq<i32>, sample_rate: u32, dry: i32, params: Params)
    ensures
        params.dry_gain == ONE && params.wet_gain == 0 ==> output_sample(
            history,
            sample_rate,
            dry,
            params,
        ) == dry,
        params.dry_gain == 0 && params.wet_gain == ONE ==> output_sample(
            history,
            sample_rate,
            dry,
            params,
        ) == delayed_sample(history, sample_rate, params),
{
    let delayed = delayed_sample(history, sample_rate, params);
    lemma_blend_first(dry, delayed);
    lemma_blend_second(dry, delayed);
}

/// One frame of silence on a silent history: the delayed sample, the stored
/// sample and the output are all silence, whatever the controls.
pub proof fn lemma_silent_frame(history: Seq<i32>, sample_rate: u32, params: Params)
    requires
        silent(history),
    ensures
        delayed_sample(history, sample_rate, params) == 0,
        stored_sample(history, sample_rate, 0, params) == 0,
        output_sample(history, sample_rate, 0, params) == 0,
{
    let delay = delay_length(params.time, sample_rate);
    let frac = delay as int % 0x1_0000;
    lemma_blend_silence((0x1_0000 - frac) as u32, frac as u32);
    lemma_blend_silence(ONE, params.feedback);
    lemma_blend_silence(params.dry_gain, params.wet_gain);
}

/// Silence in, silence out: on a history that starts silent (an empty one is),
/// frames whose input is silence leave the history silent and put out silence,
/// whatever the controls of each frame.
pub proof fn lemma_silence_in_silence_out(
    history: Seq<i32>,
    capacity: nat,
    sample_rate: u32,
    frames: Seq<Frame>,
    index: int,
)
    requires
        capacity >= 1,
        silent(history),
        0 <= index < frames.len(),
        forall|i: int| 0 <= i < frames.len() ==> (#[trigger] frames[i]).dry == 0,
    ensures
        silent(history_after(history, capacity, sample_rate, frames, index as nat)),
        output_at(history, capacity, sample_rate, frames, index) == 0,
        silent(history_after(history, capacity, sample_rate, frames, (index + 1) as nat)),
    decreases index,
{
    if index > 0 {
        lemma_silence_in_silence_out(history, capacity, sample_rate, frames, index - 1);
    }
    let before = history_after(history, capacity, sample_rate, frames, index as nat);
    lemma_silent_frame(before, sample_rate, frames[index].params);
    assert(frames[index].dry == 0);
}

/// Whether no sample of `history` is larger in magnitude than `bound`.
pub open spec fn bounded_by(history: Seq<i32>, bound: int) -> bool {
    forall|i: int| 0 <= i < history.len() ==> magnitude((#[trigger] history[i]) as int) <= bound
}

/// One frame of silence on a history bounded by `bound`, with a feedback of at
/// most 1: the delayed sample is within the bound, and what the frame stores is
/// no larger than the delayed sample scaled by the feedback, so the history
/// stays within the bound.
pub proof fn lemma_feedback_contracts(
    history: Seq<i32>,
    capacity: nat,
    sample_rate: u32,
    params: Params,
    bound: int,
)
    requires
        capacity >= 1,
        bounded_by(history, bound),
        0 <= bound,
        params.feedback <= ONE,
    ensures
        magnitude(delayed_sample(history, sample_rate, params) as int) <= bound,
        magnitude(stored_sample(history, sample_rate, 0, params) as int) * 0x1_0000 <= magnitude(
            delayed_sample(history, sample_rate, params) as int,
        ) * params.feedback,
        magnitude(stored_sample(history, sample_rate, 0, params) as int) <= bound,
        bounded_by(
            pushed(history, capacity, stored_sample(history, sample_rate, 0, params)),
            bound,
        ),
{
    let delay = delay_length(params.time, sample_rate);
    lemma_interpolation_between(history, delay);
    let delayed = delayed_sample(history, sample_rate, params);
    lemma_blend_scales(ONE, delayed, params.feedback);
    let stored = stored_sample(history, sample_rate, 0, params);
    let after = pushed(history, capacity, stored);
    assert forall|i: int| 0 <= i < after.len() implies magnitude((#[trigger] after[i]) as int)
        <= bound by {
        if i > 0 {
            assert(after[i] == history[i - 1]);
        }
    }
}

/// No echo ever grows: while the input is silent and the feedback is at most 1,
/// whatever the delay times, no sample that enters the history is larger than
/// the largest one that was in it when the silence began.
pub proof fn lemma_echoes_never_grow(
    history: Seq<i32>,
    capacity: nat,
    sample_rate: u32,
    frames: Seq<Frame>,
    bound: int,
    count: nat,
)
    requires
        capacity >= 1,
        bounded_by(history, bound),
        0 <= bound,
        count <= frames.len(),
        forall|i: int|
            0 <= i < frames.len() ==> (#[trigger] frames[i]).dry == 0 && frames[i].params.feedback
                <= ONE,
    ensures
        bounded_by(history_after(history, capacity, sample_rate, frames, count), bound),
    decreases count,
{
    if count > 0 {
        let earlier = (count - 1) as nat;
        lemma_echoes_never_grow(history, capacity, sample_rate, frames, bound, earlier);
        let before = history_after(history, capacity, sample_rate, frames, earlier);
        assert(frames[earlier as int].dry == 0);
        lemma_feedback_contracts(before, capacity, sample_rate, frames[earlier as int].params, bound);
    }
}

/// Headroom: when the input is no larger than `input_bound`, the history no
/// larger than `bound`, and `bound` leaves room for the input on top of the share
/// that the feedback returns, the stored sample is the exact sum
/// `dry + delayed * feedback`, rounded toward zero and never saturated, and the
/// history stays within `bound`.
pub proof fn lemma_headroom(
    history: Seq<i32>,
    capacity: nat,
    sample_rate: u32,
    dry: i32,
    params: Params,
    input_bound: int,
    bound: int,
)
    requires
        capacity >= 1,
        bounded_by(history, bound),
        0 <= bound <= i32::MAX,
        magnitude(dry as int) <= input_bound,
        input_bound * 0x1_0000 + bound * params.feedback <= bound * 0x1_0000,
    ensures
        stored_sample(history, sample_rate, dry, params) == descale(
            dry * 0x1_0000 + delayed_sample(history, sample_rate, params) * params.feedback,
        ),
        magnitude(stored_sample(history, sample_rate, dry, params) as int) <= bound,
        bounded_by(
            pushed(history, capacity, stored_sample(history, sample_rate, dry, params)),
            bound,
        ),
{
    let delay = delay_length(params.time, sample_rate);
    lemma_interpolation_between(history, delay);
    let delayed = delayed_sample(history, sample_rate, params);
    assert(magnitude(delayed as int) <= bound);
    let returned = delayed * params.feedback;
    let sum = dry * 0x1_0000 + returned;
    assert(-(bound * 0x1_0000) <= sum <= bound * 0x1_0000) by (nonlinear_arith)
        requires
            sum == dry * 0x1_0000 + delayed * params.feedback,
            -bound <= delayed <= bound,
            -input_bound <= dry <= input_bound,
            0 <= params.feedback,
            input_bound * 0x1_0000 + bound * params.feedback <= bound * 0x1_0000,
    ;
    lemma_descale_bounds(sum);
    let stored = stored_sample(history, sample_rate, dry, params);
    assert(stored == descale(sum));
    let after = pushed(history, capacity, stored);
    assert forall|i: int| 0 <= i < after.len() implies magnitude((#[trigger] after[i]) as int)
        <= bound by {
        if i > 0 {
            assert(after[i] == history[i - 1]);
        }
    }
}

/// The window fits the controls: at any sample rate whose two-second window a
/// buffer can have, every delay time below the longest reads a position inside
/// the window, and the longest reads the first position past it.
pub proof fn lemma_delay_fits_window(time: u32, sample_rate: u32)
    requires
        sample_rate >= 1,
        2 * sample_rate <= max_capacity(),
        time <= TIME_MAX,
    ensures
        delay_length(time, sample_rate) as int / 0x1_0000 <= window(sample_rate),
        time < TIME_MAX <==> delay_length(time, sample_rate) as int / 0x1_0000 < window(
            sample_rate,
        ),
{
    let product = time * sample_rate;
    let full = TIME_MAX * sample_rate;
    assert(0 <= product <= full && (time < TIME_MAX ==> product + sample_rate <= full))
        by (nonlinear_arith)
        requires
            product == time * sample_rate,
            full == TIME_MAX * sample_rate,
            0 <= time <= TIME_MAX,
            1 <= sample_rate,
    ;
    assert(full == 2 * sample_rate * 65_536_000) by (nonlinear_arith)
        requires
            full == TIME_MAX * sample_rate,
            TIME_MAX == 0x7d0_0000,
    ;
    assert(product <= 0xffff_ffff * 0xffff_ffff) by (nonlinear_arith)
        requires
            product == time * sample_rate,
            0 <= time <= 0xffff_ffff,
            0 <= sample_rate <= 0xffff_ffff,
    ;
}

/// The history after `count` frames depends on the first `count` frames only.
pub proof fn lemma_history_reads_a_prefix(
    history: Seq<i32>,
    capacity: nat,
    sample_rate: u32,
    frames: Seq<Frame>,
    others: Seq<Frame>,
    count: nat,
)
    requires
        forall|i: int| 0 <= i < count ==> frames[i] == others[i],
    ensures
        history_after(history, capacity, sample_rate, frames, count) == history_after(
            history,
            capacity,
            sample_rate,
            others,
            count,
        ),
    decreases count,
{
    if count > 0 {
        lemma_history_reads_a_prefix(
            history,
            capacity,
            sample_rate,
            frames,
            others,
            (count - 1) as nat,
        );
    }
}

/// Blocks compose: processing `first` and then `second` is processing the two
/// in one run. Frame `index` of `second` finds the history that the whole of
/// `first` and the frames of `second` before it have left, and puts out what it
/// would in the single run.
pub proof fn lemma_blocks_compose(
    history: Seq<i32>,
    capacity: nat,
    sample_rate: u32,
    first: Seq<Frame>,
    second: Seq<Frame>,
    index: nat,
)
    requires
        index <= second.len(),
    ensures
        history_after(history, capacity, sample_rate, first + second, first.len() + index)
            == history_after(
            history_after(history, capacity, sample_rate, first, first.len()),
            capacity,
            sample_rate,
            second,
            index,
        ),
        index < second.len() ==> output_at(
            history,
            capacity,
            sample_rate,
            first + second,
            (first.len() + index) as int,
        ) == output_at(
            history_after(history, capacity, sample_rate, first, first.len()),
            capacity,
            sample_rate,
            second,
            index as int,
        ),
    decreases index,
{
    let whole = first + second;
    if index == 0 {
        lemma_history_reads_a_prefix(history, capacity, sample_rate, whole, first, first.len());
    } else {
        lemma_blocks_compose(history, capacity, sample_rate, first, second, (index - 1) as nat);
        assert(whole[first.len() + index - 1] == second[index - 1]);
    }
    if index < second.len() {
        assert(whole[(first.len() + index) as int] == second[index as int]);
    }
}

} // verus!
