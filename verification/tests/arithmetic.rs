use feedback_delay::fixed::{blend_samples, ONE};
use feedback_delay::history::HistoryBuffer;
use feedback_delay::params::{
    clamp, Params, CENTRE_GAIN, FEEDBACK_DEFAULT, TIME_DEFAULT, TIME_MAX, TIME_MIN,
};
use feedback_delay::fractional::delay_in_samples;

#[test]
fn one_is_two_to_the_sixteenth() {
    assert_eq!(ONE, 65536);
}

#[test]
fn blend_of_equal_weights_is_the_mean() {
    assert_eq!(blend_samples(100, ONE / 2, 300, ONE / 2), 200);
}

#[test]
fn blend_rounds_toward_zero_on_both_sides() {
    assert_eq!(blend_samples(3, ONE / 2, 0, 0), 1);
    assert_eq!(blend_samples(-3, ONE / 2, 0, 0), -1);
    assert_eq!(blend_samples(1, ONE - 1, 0, 0), 0);
    assert_eq!(blend_samples(-1, ONE - 1, 0, 0), 0);
}

#[test]
fn blend_with_full_and_no_weight_picks_one_sample() {
    assert_eq!(blend_samples(1234, ONE, -999, 0), 1234);
    assert_eq!(blend_samples(1234, 0, -999, ONE), -999);
    assert_eq!(blend_samples(i32::MIN, ONE, i32::MAX, 0), i32::MIN);
    assert_eq!(blend_samples(i32::MIN, 0, i32::MAX, ONE), i32::MAX);
}

#[test]
fn blend_saturates_at_the_sample_range() {
    assert_eq!(blend_samples(i32::MAX, ONE, i32::MAX, ONE), i32::MAX);
    assert_eq!(blend_samples(i32::MIN, ONE, i32::MIN, ONE), i32::MIN);
    assert_eq!(blend_samples(i32::MAX, ONE, 1, ONE), i32::MAX);
    assert_eq!(blend_samples(i32::MIN, ONE, -1, ONE), i32::MIN);
    assert_eq!(blend_samples(i32::MAX, u32::MAX, i32::MAX, u32::MAX), i32::MAX);
    assert_eq!(blend_samples(i32::MIN, u32::MAX, i32::MIN, u32::MAX), i32::MIN);
    assert_eq!(blend_samples(i32::MAX, u32::MAX, i32::MIN, u32::MAX), -65535);
}

#[test]
fn blend_with_weights_above_one_amplifies() {
    assert_eq!(blend_samples(10, 3 * ONE, 0, 0), 30);
    assert_eq!(blend_samples(-10, 3 * ONE, 5, 2 * ONE), -20);
}

#[test]
fn delay_length_is_time_times_rate() {
    assert_eq!(delay_in_samples(300 * ONE, 44100), 13230 * 65536);
    assert_eq!(delay_in_samples(TIME_MIN, 48000), 48 * 65536);
    assert_eq!(delay_in_samples(TIME_MAX, 48000), 96000 * 65536);
    assert_eq!(delay_in_samples(TIME_DEFAULT, 44100), 13230 * 65536);
}

#[test]
fn delay_length_keeps_the_fraction_of_a_sample() {
    assert_eq!(delay_in_samples(ONE, 44100), 2890137);
    assert_eq!(2890137 / 65536, 44);
    assert_eq!(2890137 % 65536, 6553);
    assert_eq!(delay_in_samples(ONE + ONE / 2, 1000), 98304);
}

#[test]
fn delay_length_of_the_largest_arguments_does_not_overflow() {
    assert_eq!(delay_in_samples(u32::MAX, u32::MAX), 18446744065119617);
    assert_eq!(delay_in_samples(0, 48000), 0);
    assert_eq!(delay_in_samples(ONE, 0), 0);
}

#[test]
fn interpolation_at_whole_delays_reads_the_stored_sample() {
    let mut buffer = HistoryBuffer::with_capacity(8);
    buffer.push(300);
    buffer.push(200);
    buffer.push(100);
    assert_eq!(buffer.interpolate(0), 100);
    assert_eq!(buffer.interpolate(65536), 200);
    assert_eq!(buffer.interpolate(2 * 65536), 300);
    assert_eq!(buffer.interpolate(3 * 65536), 0);
}

#[test]
fn interpolation_between_samples_follows_the_line() {
    let mut buffer = HistoryBuffer::with_capacity(8);
    buffer.push(300);
    buffer.push(200);
    buffer.push(100);
    assert_eq!(buffer.interpolate(32768), 150);
    assert_eq!(buffer.interpolate(16384), 125);
    assert_eq!(buffer.interpolate(65536 + 49152), 275);
    assert_eq!(buffer.interpolate(1), 100);
    assert_eq!(buffer.interpolate(65535), 199);
}

#[test]
fn interpolation_past_the_stored_samples_fades_into_silence() {
    let mut buffer = HistoryBuffer::with_capacity(8);
    buffer.push(300);
    buffer.push(200);
    buffer.push(100);
    assert_eq!(buffer.interpolate(2 * 65536 + 32768), 150);
    assert_eq!(buffer.interpolate(3 * 65536 + 32768), 0);
    assert_eq!(buffer.interpolate(u64::MAX), 0);
    assert_eq!(buffer.interpolate(u64::MAX - 65535), 0);
}

#[test]
fn interpolation_of_negative_samples_rounds_toward_zero() {
    let mut buffer = HistoryBuffer::with_capacity(4);
    buffer.push(-2);
    buffer.push(-1);
    assert_eq!(buffer.interpolate(32768), -1);
    assert_eq!(buffer.interpolate(65536 + 32768), -1);
    assert_eq!(buffer.interpolate(65536 + 32769), 0);
}

#[test]
fn interpolation_changes_by_small_steps_across_sample_boundaries() {
    let mut buffer = HistoryBuffer::with_capacity(8);
    for sample in [1_000_000, -2_000_000, 1_500_000, 7, -900_000] {
        buffer.push(sample);
    }
    let mut delay: u64 = 0;
    while delay < 6 * 65536 {
        let whole = (delay / 65536) as usize;
        let near = buffer.lookup(whole) as i64;
        let far = buffer.lookup(whole + 1) as i64;
        let here = buffer.interpolate(delay) as i64;
        let next = buffer.interpolate(delay + 1) as i64;
        assert!((next - here).abs() <= (far - near).abs() / 65536 + 1);
        assert!(here >= near.min(far) && here <= near.max(far));
        delay += 1;
    }
}

#[test]
fn clamp_moves_values_into_the_range() {
    assert_eq!(clamp(5, 10, 20), 10);
    assert_eq!(clamp(25, 10, 20), 20);
    assert_eq!(clamp(15, 10, 20), 15);
    assert_eq!(clamp(10, 10, 20), 10);
    assert_eq!(clamp(20, 10, 20), 20);
}

#[test]
fn params_are_clamped_to_their_ranges() {
    let params = Params::new(0, u32::MAX, ONE + 1, 70000);
    assert_eq!(params.time, TIME_MIN);
    assert_eq!(params.feedback, ONE);
    assert_eq!(params.dry_gain, ONE);
    assert_eq!(params.wet_gain, ONE);
    let params = Params::new(u32::MAX, 0, 0, 0);
    assert_eq!(params.time, TIME_MAX);
    assert_eq!(params.feedback, 0);
    let params = Params::new(500 * ONE, 1000, 2000, 3000);
    assert_eq!(params, Params { time: 500 * ONE, feedback: 1000, dry_gain: 2000, wet_gain: 3000 });
}

#[test]
fn time_range_is_one_to_two_thousand_milliseconds() {
    assert_eq!(TIME_MIN, 1 * 65536);
    assert_eq!(TIME_MAX, 2000 * 65536);
}

#[test]
fn default_params_are_the_documented_ones() {
    let params = Params::default();
    assert_eq!(params.time, 300 * 65536);
    assert_eq!(params.time, TIME_DEFAULT);
    assert_eq!(params.feedback, 32768);
    assert_eq!(params.feedback, FEEDBACK_DEFAULT);
    assert_eq!(params.dry_gain, 46341);
    assert_eq!(params.wet_gain, CENTRE_GAIN);
    let power = (params.dry_gain as f64 / 65536.0).powi(2) + (params.wet_gain as f64 / 65536.0).powi(2);
    assert!((power - 1.0).abs() < 1e-4);
}
