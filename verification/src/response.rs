//! How the delay line answers a single impulse.

use crate::fixed::{
    blend, descale, lemma_blend_between, lemma_blend_commutes, lemma_blend_first,
    lemma_blend_scales, lemma_blend_silence, lemma_descale_multiple, magnitude, ONE,
};
use crate::history::{pushed, tap};
use crate::laws::lemma_interpolation_between;
use crate::line::{delayed_sample, history_after, output_at, stored_sample, Frame};
use crate::fractional::delay_length;
use vstd::arithmetic::div_mod::{
    lemma_basic_div, lemma_div_minus_one, lemma_div_pos_is_pos, lemma_mod_sub_multiples_vanish,
    lemma_small_mod,
};
use vstd::arithmetic::mul::lemma_mul_is_commutative;
use vstd::arithmetic::power::{lemma_pow_positive, pow};
use vstd::prelude::*;

verus! {

/// Whether the inputs of `frames` are a single impulse: `amplitude` in the first
/// frame and silence in every later one.
pub open spec fn is_impulse(frames: Seq<Frame>, amplitude: i32) -> bool {
    &&& frames.len() > 0
    &&& frames[0].dry == amplitude
    &&& forall|i: int| 1 <= i < frames.len() ==> (#[trigger] frames[i]).dry == 0
}

/// The sample that frame `index` stores when `frames` are processed in order on
/// a history that starts empty.
pub open spec fn stored_at(capacity: nat, sample_rate: u32, frames: Seq<Frame>, index: int) -> i32 {
    stored_sample(
        history_after(Seq::empty(), capacity, sample_rate, frames, index as nat),
        sample_rate,
        frames[index].dry,
        frames[index].params,
    )
}

/// The `round`-th echo of an impulse of `amplitude`: the impulse itself, scaled
/// by `feedback` once for every round.
pub open spec fn echo(amplitude: i32, feedback: u32, round: nat) -> i32
    decreases round,
{
    if round == 0 {
        amplitude
    } else {
        blend(0, ONE, echo(amplitude, feedback, (round - 1) as nat), feedback)
    }
}

/// On a history that starts empty, the history after `count` frames lists what
/// those frames stored, newest first, as far as the capacity reaches.
pub proof fn lemma_history_newest_first(
    capacity: nat,
    sample_rate: u32,
    frames: Seq<Frame>,
    count: nat,
)
    requires
        capacity >= 1,
    ensures
        history_after(Seq::empty(), capacity, sample_rate, frames, count).len() == if count
            <= capacity {
            count
        } else {
            capacity
        },
        forall|i: int|
            0 <= i < count && i < capacity ==> #[trigger] history_after(
                Seq::empty(),
                capacity,
                sample_rate,
                frames,
                count,
            )[i] == stored_at(capacity, sample_rate, frames, count - 1 - i),
    decreases count,
{
    if count > 0 {
        let earlier = (count - 1) as nat;
        lemma_history_newest_first(capacity, sample_rate, frames, earlier);
        let before = history_after(Seq::empty(), capacity, sample_rate, frames, earlier);
        let after = history_after(Seq::empty(), capacity, sample_rate, frames, count);
        let newest = stored_at(capacity, sample_rate, frames, count - 1);
        assert(after == pushed(before, capacity, newest));
        assert forall|i: int| 0 <= i < count && i < capacity implies #[trigger] after[i]
            == stored_at(capacity, sample_rate, frames, count - 1 - i) by {
            if i > 0 {
                assert(after[i] == before[i - 1]);
            }
        }
    }
}

/// A delay of a whole number of samples reads what an earlier frame stored: with
/// a delay of `whole` samples, frame `index` reads the sample that frame
/// `index - 1 - whole` stored, and silence while no such frame exists or where
/// the history does not reach that far back.
pub proof fn lemma_whole_delay_reads_stored(
    capacity: nat,
    sample_rate: u32,
    frames: Seq<Frame>,
    index: int,
)
    requires
        capacity >= 1,
        0 <= index,
        delay_length(frames[index].params.time, sample_rate) as int % 0x1_0000 == 0,
    ensures
        ({
            let whole = delay_length(frames[index].params.time, sample_rate) as int / 0x1_0000;
            let delayed = delayed_sample(
                history_after(Seq::empty(), capacity, sample_rate, frames, index as nat),
                sample_rate,
                frames[index].params,
            );
            delayed == if whole < index && whole < capacity {
                stored_at(capacity, sample_rate, frames, index - 1 - whole)
            } else {
                0
            }
        }),
{
    let delay = delay_length(frames[index].params.time, sample_rate);
    let history = history_after(Seq::empty(), capacity, sample_rate, frames, index as nat);
    lemma_interpolation_between(history, delay);
    lemma_history_newest_first(capacity, sample_rate, frames, index as nat);
}

/// With no feedback, a frame stores its input unchanged.
pub proof fn lemma_zero_feedback_stores_input(
    capacity: nat,
    sample_rate: u32,
    frames: Seq<Frame>,
    index: int,
)
    requires
        frames[index].params.feedback == 0,
    ensures
        stored_at(capacity, sample_rate, frames, index) == frames[index].dry,
{
    let history = history_after(Seq::empty(), capacity, sample_rate, frames, index as nat);
    lemma_blend_first(frames[index].dry, delayed_sample(history, sample_rate, frames[index].params));
}

/// The impulse response without feedback. An impulse of `amplitude` comes back
/// exactly once, spread over the two frames that enclose the delay: with `whole`
/// the integer part of the delay read in frame `index` and `frac` its fraction,
/// the delayed sample is the impulse weighted by `1 - frac` in frame
/// `whole + 1`, the impulse weighted by `frac` in frame `whole + 2`, and silence
/// in every other frame.
pub proof fn lemma_zero_feedback_impulse(
    capacity: nat,
    sample_rate: u32,
    frames: Seq<Frame>,
    amplitude: i32,
    index: int,
)
    requires
        capacity >= 1,
        is_impulse(frames, amplitude),
        forall|i: int| 0 <= i < frames.len() ==> (#[trigger] frames[i]).params.feedback == 0,
        0 <= index < frames.len(),
        delay_length(frames[index].params.time, sample_rate) as int / 0x1_0000 + 1 < capacity,
    ensures
        ({
            let delay = delay_length(frames[index].params.time, sample_rate) as int;
            let whole = delay / 0x1_0000;
            let frac = delay % 0x1_0000;
            let delayed = delayed_sample(
                history_after(Seq::empty(), capacity, sample_rate, frames, index as nat),
                sample_rate,
                frames[index].params,
            );
            delayed == if index == whole + 1 {
                descale(amplitude * (0x1_0000 - frac))
            } else if index == whole + 2 {
                descale(amplitude * frac)
            } else {
                0
            }
        }),
{
    let delay = delay_length(frames[index].params.time, sample_rate);
    let whole = delay as int / 0x1_0000;
    let frac = delay as int % 0x1_0000;
    let history = history_after(Seq::empty(), capacity, sample_rate, frames, index as nat);
    let near = tap(history, whole);
    let far = tap(history, whole + 1);
    lemma_history_newest_first(capacity, sample_rate, frames, index as nat);
    if whole < index {
        lemma_zero_feedback_stores_input(capacity, sample_rate, frames, index - 1 - whole);
        assert(near == frames[index - 1 - whole].dry);
    }
    if whole + 1 < index {
        lemma_zero_feedback_stores_input(capacity, sample_rate, frames, index - 2 - whole);
        assert(far == frames[index - 2 - whole].dry);
    }
    assert(near == if index == whole + 1 { amplitude } else { 0i32 });
    assert(far == if index == whole + 2 { amplitude } else { 0i32 });
    lemma_blend_between(near, (0x1_0000 - frac) as u32, far, frac as u32);
    assert(0 * (0x1_0000 - frac) == 0);
    assert(0 * frac == 0);
}

/// The dry path of an impulse: in the first frame, when the history is still
/// empty, the output is the impulse scaled by the dry gain.
pub proof fn lemma_impulse_dry_path(
    capacity: nat,
    sample_rate: u32,
    frames: Seq<Frame>,
    amplitude: i32,
)
    requires
        is_impulse(frames, amplitude),
        frames[0].params.dry_gain <= ONE,
    ensures
        output_at(Seq::empty(), capacity, sample_rate, frames, 0) == descale(
            amplitude * frames[0].params.dry_gain,
        ),
{
    let params = frames[0].params;
    let delay = delay_length(params.time, sample_rate);
    let frac = delay as int % 0x1_0000;
    lemma_blend_silence((0x1_0000 - frac) as u32, frac as u32);
    assert(delayed_sample(Seq::empty(), sample_rate, params) == 0);
    lemma_blend_commutes(amplitude, params.dry_gain, 0, params.wet_gain);
    lemma_blend_scales(params.wet_gain, amplitude, params.dry_gain);
}

/// Every echo is the one before it scaled by the feedback and rounded toward
/// zero. So it is never larger than the one before, it is strictly smaller while
/// the feedback is below 1 and the echo has not died out, and it has the same
/// sign or is silence.
pub proof fn lemma_echo_decays(amplitude: i32, feedback: u32, round: nat)
    requires
        feedback <= ONE,
    ensures
        echo(amplitude, feedback, round + 1) == descale(
            echo(amplitude, feedback, round) * feedback,
        ),
        magnitude(echo(amplitude, feedback, round + 1) as int) * 0x1_0000 <= magnitude(
            echo(amplitude, feedback, round) as int,
        ) * feedback,
        magnitude(echo(amplitude, feedback, round + 1) as int) <= magnitude(
            echo(amplitude, feedback, round) as int,
        ),
        feedback < ONE && echo(amplitude, feedback, round) != 0 ==> magnitude(
            echo(amplitude, feedback, round + 1) as int,
        ) < magnitude(echo(amplitude, feedback, round) as int),
{
    lemma_blend_scales(ONE, echo(amplitude, feedback, round), feedback);
}

/// Geometric decay: the `round`-th echo is no larger than the impulse times the
/// `round`-th power of the feedback.
pub proof fn lemma_echo_geometric(amplitude: i32, feedback: u32, round: nat)
    requires
        feedback <= ONE,
    ensures
        magnitude(echo(amplitude, feedback, round) as int) * pow(0x1_0000, round) <= magnitude(
            amplitude as int,
        ) * pow(feedback as int, round),
    decreases round,
{
    reveal(pow);
    if round > 0 {
        let earlier = (round - 1) as nat;
        lemma_echo_geometric(amplitude, feedback, earlier);
        lemma_echo_decays(amplitude, feedback, earlier);
        let now = magnitude(echo(amplitude, feedback, round) as int);
        let before = magnitude(echo(amplitude, feedback, earlier) as int);
        let first = magnitude(amplitude as int);
        let unit = pow(0x1_0000, earlier);
        let gain = pow(feedback as int, earlier);
        lemma_pow_positive(0x1_0000, earlier);
        assert(now * (0x1_0000 * unit) <= first * (feedback * gain)) by (nonlinear_arith)
            requires
                now * 0x1_0000 <= before * feedback,
                before * unit <= first * gain,
                0 <= now,
                0 <= before,
                0 <= feedback,
                0 < unit,
        ;
    }
}

/// The echo train. On a history that starts empty, with a delay of a whole
/// number of samples that the history can hold and the same delay time and
/// feedback in every frame, an impulse is stored again once per period of
/// `whole + 1` frames, each time as the next echo, and silence is stored in every
/// frame between.
pub proof fn lemma_echo_train(
    capacity: nat,
    sample_rate: u32,
    frames: Seq<Frame>,
    amplitude: i32,
    time: u32,
    feedback: u32,
    index: int,
)
    requires
        capacity >= 1,
        is_impulse(frames, amplitude),
        forall|i: int|
            0 <= i < frames.len() ==> (#[trigger] frames[i]).params.time == time
                && frames[i].params.feedback == feedback,
        feedback <= ONE,
        delay_length(time, sample_rate) as int % 0x1_0000 == 0,
        delay_length(time, sample_rate) as int / 0x1_0000 < capacity,
        0 <= index < frames.len(),
    ensures
        ({
            let period = delay_length(time, sample_rate) as int / 0x1_0000 + 1;
            stored_at(capacity, sample_rate, frames, index) == if index % period == 0 {
                echo(amplitude, feedback, (index / period) as nat)
            } else {
                0
            }
        }),
    decreases index,
{
    let period = delay_length(time, sample_rate) as int / 0x1_0000 + 1;
    let history = history_after(Seq::empty(), capacity, sample_rate, frames, index as nat);
    let delayed = delayed_sample(history, sample_rate, frames[index].params);
    assert(frames[index].params.time == time && frames[index].params.feedback == feedback);
    lemma_whole_delay_reads_stored(capacity, sample_rate, frames, index);
    if index == 0 {
        lemma_small_mod(0, period as nat);
        lemma_basic_div(0, period);
        lemma_blend_commutes(amplitude, ONE, 0, feedback);
        lemma_blend_scales(feedback, amplitude, ONE);
        lemma_mul_is_commutative(amplitude as int, 0x1_0000);
        lemma_descale_multiple(amplitude as int);
    } else if index < period {
        assert(frames[index].dry == 0);
        lemma_small_mod(index as nat, period as nat);
        lemma_blend_silence(ONE, feedback);
    } else {
        assert(frames[index].dry == 0);
        lemma_echo_train(capacity, sample_rate, frames, amplitude, time, feedback, index - period);
        lemma_mod_sub_multiples_vanish(index, period);
        lemma_div_minus_one(index, period);
        lemma_div_pos_is_pos(index - period, period);
        assert(-period + index == index - period);
        if index % period == 0 {
            let round = (index / period) as nat;
            assert(round >= 1);
            assert(delayed == echo(amplitude, feedback, (round - 1) as nat));
        } else {
            lemma_blend_silence(ONE, feedback);
        }
    }
}

} // verus!
