use feedback_delay::fixed::ONE;
use feedback_delay::line::{window_of, DelayLine, Lifecycle};
use feedback_delay::params::{Params, CENTRE_GAIN};

fn wet_only(time: u32, feedback: u32) -> Params {
    Params { time, feedback, dry_gain: 0, wet_gain: ONE }
}

fn run(line: &mut DelayLine, input: &[i32], params: &Params) -> Vec<i32> {
    input.iter().map(|dry| line.process_frame(*dry, params)).collect()
}

#[test]
fn a_new_processor_is_uninitialized() {
    let line = DelayLine::new();
    assert_eq!(line.lifecycle(), Lifecycle::Uninitialized);
    assert_eq!(line.sample_rate(), 0);
    assert_eq!(line.history().capacity(), 1);
    assert_eq!(line.history().len(), 0);
}

#[test]
fn stream_start_sizes_the_history_for_two_seconds() {
    let mut line = DelayLine::new();
    line.on_stream_start(44100);
    assert_eq!(line.lifecycle(), Lifecycle::Active);
    assert_eq!(line.sample_rate(), 44100);
    assert_eq!(line.history().capacity(), 88200);
    assert_eq!(line.history().len(), 0);
    line.on_stream_start(48000);
    assert_eq!(line.lifecycle(), Lifecycle::Active);
    assert_eq!(line.history().capacity(), 96000);
}

#[test]
fn window_is_twice_the_rate_and_at_least_one() {
    assert_eq!(window_of(0), 1);
    assert_eq!(window_of(1), 2);
    assert_eq!(window_of(44100), 88200);
    assert_eq!(window_of(192000), 384000);
    let most = isize::MAX as u64 / 4;
    assert_eq!(window_of(u32::MAX) as u64, most.min(2 * u32::MAX as u64));
}

#[test]
fn a_stream_without_a_rate_gets_the_smallest_history() {
    let mut line = DelayLine::new();
    line.on_stream_start(0);
    assert_eq!(line.lifecycle(), Lifecycle::Active);
    assert_eq!(line.history().capacity(), 1);
}

#[test]
fn restarting_the_stream_clears_the_history() {
    let mut line = DelayLine::new();
    line.on_stream_start(1000);
    let params = Params::new(ONE, ONE / 2, CENTRE_GAIN, CENTRE_GAIN);
    run(&mut line, &[1_000_000, 5, -7, 9], &params);
    assert_eq!(line.history().len(), 4);
    line.on_stream_start(1000);
    assert_eq!(line.history().len(), 0);
    assert_eq!(line.history().lookup(0), 0);
    let output = run(&mut line, &[0, 0, 0, 0, 0, 0], &wet_only(ONE, ONE));
    assert_eq!(output, vec![0, 0, 0, 0, 0, 0]);
}

#[test]
fn stream_stop_leaves_the_processor_as_it_is() {
    let mut line = DelayLine::new();
    line.on_stream_start(1000);
    line.process_frame(42, &Params::default());
    line.on_stream_stop();
    assert_eq!(line.lifecycle(), Lifecycle::Active);
    assert_eq!(line.sample_rate(), 1000);
    assert_eq!(line.history().capacity(), 2000);
    assert_eq!(line.history().lookup(0), 42);
}

#[test]
fn silence_in_gives_silence_out() {
    let settings = [
        Params::default(),
        Params::new(u32::MAX, ONE, ONE, ONE),
        Params::new(0, 0, 0, 0),
        Params { time: 12345678, feedback: u32::MAX, dry_gain: u32::MAX, wet_gain: u32::MAX },
    ];
    for params in settings {
        let mut line = DelayLine::new();
        line.on_stream_start(48000);
        for _ in 0..5000 {
            assert_eq!(line.process_frame(0, &params), 0);
        }
        assert_eq!(line.history().len(), 5000);
        assert_eq!(line.history().lookup(0), 0);
        assert_eq!(line.history().lookup(4999), 0);
    }
}

#[test]
fn impulse_without_feedback_returns_once_after_the_delay() {
    let mut line = DelayLine::new();
    line.on_stream_start(1000);
    let mut input = vec![0; 12];
    input[0] = 1_000_000;
    let output = run(&mut line, &input, &wet_only(3 * ONE, 0));
    assert_eq!(output, vec![0, 0, 0, 0, 1_000_000, 0, 0, 0, 0, 0, 0, 0]);
}

#[test]
fn impulse_at_a_fractional_delay_is_shared_by_two_frames() {
    let mut line = DelayLine::new();
    line.on_stream_start(1000);
    let mut input = vec![0; 8];
    input[0] = 1_000_000;
    let output = run(&mut line, &input, &wet_only(2 * ONE + ONE / 2, 0));
    assert_eq!(output, vec![0, 0, 0, 500_000, 500_000, 0, 0, 0]);
    line.on_stream_start(1000);
    let output = run(&mut line, &input, &wet_only(2 * ONE + ONE / 4, 0));
    assert_eq!(output, vec![0, 0, 0, 750_000, 250_000, 0, 0, 0]);
}

#[test]
fn dry_path_passes_through_with_the_dry_gain() {
    let mut line = DelayLine::new();
    line.on_stream_start(1000);
    let params = Params::new(3 * ONE, 0, CENTRE_GAIN, CENTRE_GAIN);
    let mut input = vec![0; 6];
    input[0] = 1_000_000;
    let output = run(&mut line, &input, &params);
    assert_eq!(output, vec![707_107, 0, 0, 0, 707_107, 0]);
}

#[test]
fn mix_at_zero_is_the_dry_signal() {
    let mut line = DelayLine::new();
    line.on_stream_start(1000);
    let params = Params::new(ONE, ONE / 2, ONE, 0);
    let input = [5, -1_000, 77_777, i32::MAX, i32::MIN, 0, 3];
    assert_eq!(run(&mut line, &input, &params), input.to_vec());
}

#[test]
fn mix_at_one_is_the_delayed_signal() {
    let mut line = DelayLine::new();
    line.on_stream_start(1000);
    let input = [5, -1_000, 77_777, 12, -13, 0, 3];
    let output = run(&mut line, &input, &wet_only(ONE, 0));
    assert_eq!(output, vec![0, 0, 5, -1_000, 77_777, 12, -13]);
}

#[test]
fn echoes_decay_by_the_feedback_each_period() {
    let mut line = DelayLine::new();
    line.on_stream_start(1000);
    let mut input = vec![0; 11];
    input[0] = 1_000_000;
    let output = run(&mut line, &input, &wet_only(ONE, ONE / 2));
    assert_eq!(output, vec![0, 0, 1_000_000, 0, 500_000, 0, 250_000, 0, 125_000, 0, 62_500]);
}

#[test]
fn echoes_of_a_negative_impulse_die_out_completely() {
    let mut line = DelayLine::new();
    line.on_stream_start(1000);
    let mut input = vec![0; 16];
    input[0] = -5;
    let output = run(&mut line, &input, &wet_only(ONE, ONE / 2));
    assert_eq!(output, vec![0, 0, -5, 0, -2, 0, -1, 0, 0, 0, 0, 0, 0, 0, 0, 0]);
}

#[test]
fn echoes_never_grow_below_full_feedback() {
    let mut line = DelayLine::new();
    line.on_stream_start(1000);
    let params = wet_only(2 * ONE + 12345, ONE - 1);
    let mut peak = line.process_frame(i32::MIN, &params).unsigned_abs();
    peak = peak.max(i32::MIN.unsigned_abs());
    let mut previous_peak = peak;
    for round in 0..50 {
        let mut round_peak = 0;
        for _ in 0..4 {
            round_peak = round_peak.max(line.process_frame(0, &params).unsigned_abs());
        }
        assert!(round_peak <= previous_peak, "round {round}");
        previous_peak = previous_peak.max(round_peak);
    }
}

#[test]
fn full_feedback_repeats_without_loss() {
    let mut line = DelayLine::new();
    line.on_stream_start(1000);
    let mut input = vec![0; 9];
    input[0] = 999;
    let output = run(&mut line, &input, &wet_only(ONE, ONE));
    assert_eq!(output, vec![0, 0, 999, 0, 999, 0, 999, 0, 999]);
}

#[test]
fn a_frame_never_hears_its_own_sample() {
    let mut line = DelayLine::new();
    line.on_stream_start(1);
    let params = Params { time: 0, feedback: ONE, dry_gain: 0, wet_gain: ONE };
    assert_eq!(line.process_frame(1234, &params), 0);
    assert_eq!(line.process_frame(0, &params), 1234);
}

#[test]
fn stored_samples_saturate_instead_of_wrapping() {
    let mut line = DelayLine::new();
    line.on_stream_start(1);
    let params = Params { time: 0, feedback: ONE, dry_gain: 0, wet_gain: ONE };
    line.process_frame(i32::MAX, &params);
    assert_eq!(line.process_frame(i32::MAX, &params), i32::MAX);
    assert_eq!(line.history().lookup(0), i32::MAX);
    line.on_stream_start(1);
    line.process_frame(i32::MIN, &params);
    line.process_frame(i32::MIN, &params);
    assert_eq!(line.history().lookup(0), i32::MIN);
}

#[test]
fn a_delay_just_below_the_longest_still_reads_the_history() {
    let mut line = DelayLine::new();
    line.on_stream_start(10);
    let params = wet_only(2000 * ONE - 1, 0);
    let mut output = Vec::new();
    for frame in 0..25 {
        let dry = if frame == 0 { 65_536_000 } else { 0 };
        output.push(line.process_frame(dry, &params));
    }
    let heard: Vec<(usize, i32)> =
        output.iter().copied().enumerate().filter(|(_, sample)| *sample != 0).collect();
    assert_eq!(heard, vec![(20, 1_000)]);
}

#[test]
fn headroom_keeps_the_history_from_saturating() {
    let mut line = DelayLine::new();
    line.on_stream_start(1000);
    let params = wet_only(ONE, ONE / 2);
    let input_bound = 16_777_216;
    let bound = 2 * input_bound;
    for frame in 0..10_000 {
        let dry = if frame % 3 == 0 { input_bound } else { -input_bound };
        line.process_frame(dry, &params);
        assert!(line.history().lookup(0).abs() <= bound);
    }
    for frame in 0..10_000 {
        line.process_frame(input_bound, &params);
        assert!(line.history().lookup(0) <= bound, "frame {frame}");
    }
    assert_eq!(line.history().lookup(0), bound - 1);
}

#[test]
fn a_delay_longer_than_the_history_reads_silence() {
    let mut line = DelayLine::new();
    line.on_stream_start(10);
    let params = wet_only(2000 * ONE, ONE);
    let mut heard = 0;
    for frame in 0..100 {
        let dry = if frame == 0 { 1_000 } else { 0 };
        heard += line.process_frame(dry, &params).abs();
    }
    assert_eq!(line.history().capacity(), 20);
    assert_eq!(heard, 0);
}

#[test]
fn processing_before_any_stream_uses_the_placeholder_history() {
    let mut line = DelayLine::new();
    let params = wet_only(ONE, ONE);
    assert_eq!(line.process_frame(10, &params), 0);
    assert_eq!(line.process_frame(20, &params), 10);
    assert_eq!(line.process_frame(0, &params), 30);
    assert_eq!(line.lifecycle(), Lifecycle::Uninitialized);
    assert_eq!(line.history().len(), 1);
}

#[test]
fn process_writes_the_same_output_to_both_channels() {
    let params = Params::new(2 * ONE, ONE / 4, CENTRE_GAIN, CENTRE_GAIN);
    let input = vec![1_000_000, -250_000, 0, 31, 0, 0, 500, 0, 0, 0];
    let mut reference = DelayLine::new();
    reference.on_stream_start(1000);
    let expected = run(&mut reference, &input, &params);

    let mut line = DelayLine::new();
    line.on_stream_start(1000);
    let mut left = input.clone();
    let mut right = vec![-1; input.len()];
    line.process(&mut left, &mut right, &params);
    assert_eq!(left, expected);
    assert_eq!(right, expected);
    assert_eq!(line.history().len(), input.len());
    for index in 0..input.len() {
        assert_eq!(line.history().lookup(index), reference.history().lookup(index));
    }
}

#[test]
fn process_takes_its_input_from_the_left_channel_only() {
    let params = wet_only(ONE, 0);
    let mut line = DelayLine::new();
    line.on_stream_start(1000);
    let mut left = vec![10, 20, 30, 40];
    let mut right = vec![-1, -2, -3, -4];
    line.process(&mut left, &mut right, &params);
    assert_eq!(left, vec![0, 0, 10, 20]);
    assert_eq!(right, vec![0, 0, 10, 20]);
}

#[test]
fn process_treats_a_missing_sample_as_silence() {
    let params = wet_only(ONE, 0);
    let mut line = DelayLine::new();
    line.on_stream_start(1000);
    let mut left = vec![10, 20];
    let mut right = vec![-1; 5];
    line.process(&mut left, &mut right, &params);
    assert_eq!(left, vec![0, 0]);
    assert_eq!(right, vec![0, 0, 10, 20, 0]);
    assert_eq!(line.history().len(), 5);

    let mut line = DelayLine::new();
    line.on_stream_start(1000);
    let mut left = vec![10, 20, 30];
    let mut right = Vec::new();
    line.process(&mut left, &mut right, &params);
    assert_eq!(left, vec![0, 0, 10]);
    assert!(right.is_empty());
    assert_eq!(line.history().len(), 3);

    let mut line = DelayLine::new();
    line.on_stream_start(1000);
    let mut left = Vec::new();
    let mut right = vec![7, 7, 7];
    line.process(&mut left, &mut right, &Params::new(ONE, 0, ONE, 0));
    assert!(left.is_empty());
    assert_eq!(right, vec![0, 0, 0]);
}

#[test]
fn process_of_an_empty_block_changes_nothing() {
    let mut line = DelayLine::new();
    line.on_stream_start(1000);
    line.process_frame(5, &Params::default());
    let mut left = Vec::new();
    let mut right = Vec::new();
    line.process(&mut left, &mut right, &Params::default());
    assert_eq!(line.history().len(), 1);
    assert_eq!(line.history().lookup(0), 5);
}

#[test]
fn blocks_continue_where_the_last_one_stopped() {
    let params = Params::new(3 * ONE + 1000, ONE / 3, 40_000, 50_000);
    let input: Vec<i32> = (0..40).map(|i| (i * 7919 % 1000 - 500) * 1000).collect();
    let mut whole = DelayLine::new();
    whole.on_stream_start(1000);
    let mut left = input.clone();
    let mut right = input.clone();
    whole.process(&mut left, &mut right, &params);

    let mut parts = DelayLine::new();
    parts.on_stream_start(1000);
    let mut first = input[..13].to_vec();
    let mut second = input[13..].to_vec();
    let mut spare = Vec::new();
    parts.process(&mut first, &mut spare, &params);
    parts.process(&mut second, &mut spare, &params);
    first.extend(second);
    assert_eq!(first, left);
}
