use compressor::detector::{Detector, PeakEnvelopeDetector, RmsEnvelopeDetector};
use compressor::even_gain_fn::{Average, EvenGainFunction, Minimum};
use compressor::fixed::{clip_to_i32, coefficient_of_us, div_trunc_i128, frames_of_us, isqrt, UNIT};
use compressor::gain::{apply_gain, calc_slope, channel_gain};
use compressor::{AvgCompressor, Compressor, MinCompressor};

const HALF: i64 = 32768;

fn attack_of<E: EvenGainFunction>(c: &Compressor<E>) -> u64 {
    match &c.envelope_detector {
        Detector::Peak(d) => d.attack,
        Detector::Rms(d) => d.smoothing.attack,
    }
}

fn release_of<E: EvenGainFunction>(c: &Compressor<E>) -> u64 {
    match &c.envelope_detector {
        Detector::Peak(d) => d.release,
        Detector::Rms(d) => d.smoothing.release,
    }
}

fn envelopes_of<E: EvenGainFunction>(c: &Compressor<E>) -> Vec<u64> {
    match &c.envelope_detector {
        Detector::Peak(d) => d.envelopes.clone(),
        Detector::Rms(d) => d.smoothing.envelopes.clone(),
    }
}

#[test]
fn slope_from_ratio() {
    assert_eq!(calc_slope(UNIT as u32), 0);
    assert_eq!(calc_slope(2 * UNIT as u32), 32768);
    assert_eq!(calc_slope(4 * UNIT as u32), 49152);
    assert_eq!(calc_slope(u32::MAX), UNIT - 1);
    assert_eq!(calc_slope(UNIT as u32 / 2), -UNIT);
}

#[test]
fn gain_is_unity_at_threshold() {
    let slope = calc_slope(4 * UNIT as u32);
    assert_eq!(channel_gain(20000, 20000, slope), UNIT);
    assert_eq!(channel_gain(10000, 20000, slope), UNIT);
    assert_eq!(channel_gain(0, 0, slope), UNIT);
}

#[test]
fn gain_above_threshold_follows_slope() {
    // delta of 0.5 at a slope of 0.75 takes 0.375 off unity
    let slope = calc_slope(4 * UNIT as u32);
    assert_eq!(channel_gain(HALF as u64, 0, slope), UNIT - 24576);
    // an envelope above unity is taken as unity
    assert_eq!(channel_gain(3 * UNIT as u64, HALF as i32, slope), UNIT - 24576);
    // a rounding step: 13107 * 0.5 = 6553.5 rounds toward zero
    assert_eq!(channel_gain(13107, 0, HALF), 58983);
}

#[test]
fn unity_ratio_never_compresses() {
    let slope = calc_slope(UNIT as u32);
    for env in [0u64, 1, 1000, 65536, 1 << 31] {
        assert_eq!(channel_gain(env, 0, slope), UNIT);
        assert_eq!(channel_gain(env, -30000, slope), UNIT);
    }
}

#[test]
fn huge_ratio_nearly_limits() {
    let slope = calc_slope(u32::MAX);
    let delta: i64 = 40000;
    let g = channel_gain((10000 + delta) as u64, 10000, slope);
    assert_eq!(g, UNIT - delta + 1);
}

#[test]
fn extreme_settings_can_give_negative_gain() {
    let slope = calc_slope(u32::MAX);
    let g = channel_gain(UNIT as u64, -2 * UNIT as i32, slope);
    assert!(g < 0);
    assert_eq!(g, UNIT - (3 * UNIT - 3));
}

#[test]
fn minimum_and_average_differ() {
    let gains = vec![32768i64, 58982];
    assert_eq!(Minimum::minimum_gain(&gains), 32768);
    assert_eq!(Average::average_gain(&gains), 45875);
    assert_eq!(<Minimum as EvenGainFunction>::next_gain(&gains), 32768);
    assert_eq!(<Average as EvenGainFunction>::next_gain(&gains), 45875);
}

#[test]
fn minimum_of_no_channels_is_unity() {
    assert_eq!(Minimum::minimum_gain(&Vec::new()), UNIT);
}

#[test]
fn minimum_above_unity_is_smallest_gain() {
    assert_eq!(Minimum::minimum_gain(&vec![2 * UNIT, 3 * UNIT]), 2 * UNIT);
    assert_eq!(Minimum::minimum_gain(&vec![UNIT + 1, UNIT + 2]), UNIT + 1);
    assert_eq!(<Minimum as EvenGainFunction>::next_gain(&Vec::new()), UNIT);
    assert_eq!(Average::average_gain(&vec![2 * UNIT, 3 * UNIT]), 2 * UNIT + HALF);
}

#[test]
fn average_rounds_toward_zero() {
    assert_eq!(Average::average_gain(&vec![-3, -4]), -3);
    assert_eq!(Average::average_gain(&vec![3, 4]), 3);
}

fn instant_peak_min() -> MinCompressor {
    // zero attack and release: the envelope is the sample's magnitude
    MinCompressor::peak_min(0, 0, 44100, 2, 0, 2 * UNIT as u32)
}

fn instant_peak_avg() -> AvgCompressor {
    AvgCompressor::peak_avg(0, 0, 44100, 2, 0, 2 * UNIT as u32)
}

#[test]
fn even_minimum_scales_both_channels_by_smallest_gain() {
    let mut c = instant_peak_min();
    // channel gains: 0.5 and 58983 (about 0.9)
    assert_eq!(c.next_gain_per_channel(&vec![UNIT as i32, 13107]), vec![32768, 58983]);
    let mut c = instant_peak_min();
    assert_eq!(c.next_gain(&vec![UNIT as i32, 13107]), 32768);
    let mut c = instant_peak_min();
    assert_eq!(c.next_frame(&vec![UNIT as i32, 13107]), vec![32768, 6553]);
}

#[test]
fn even_average_scales_both_channels_by_mean_gain() {
    let mut c = instant_peak_avg();
    assert_eq!(c.next_gain(&vec![UNIT as i32, 13107]), 45875);
    let mut c = instant_peak_avg();
    assert_eq!(c.next_frame(&vec![UNIT as i32, 13107]), vec![45875, 9174]);
}

#[test]
fn per_channel_gains_are_independent() {
    let mut c = instant_peak_min();
    assert_eq!(c.next_frame_per_channel(&vec![UNIT as i32, 13107]), vec![32768, 11796]);
    // channel 0 loud or silent: channel 1 comes out the same
    let mut quiet = instant_peak_min();
    assert_eq!(quiet.next_frame_per_channel(&vec![0, 13107]), vec![0, 11796]);
    let mut neg = instant_peak_min();
    assert_eq!(neg.next_frame_per_channel(&vec![-(UNIT as i32), 13107]), vec![-32768, 11796]);
}

#[test]
fn set_attack_twice_matches_once() {
    let mut once = MinCompressor::peak_min(10_000, 100_000, 44100, 2, 0, 4 * UNIT as u32);
    let mut twice = MinCompressor::peak_min(10_000, 100_000, 44100, 2, 0, 4 * UNIT as u32);
    once.set_attack_ms(25_000, 48000);
    twice.set_attack_ms(25_000, 48000);
    twice.set_attack_ms(25_000, 48000);
    assert_eq!(attack_of(&once), attack_of(&twice));
    assert_eq!(attack_of(&once), coefficient_of_us(25000, 48000));
    assert_eq!(once.attack_us, 25_000);
    once.set_release_ms(7_000, 48000);
    twice.set_release_ms(7_000, 48000);
    twice.set_release_ms(7_000, 48000);
    assert_eq!(release_of(&once), release_of(&twice));
    assert_eq!(release_of(&once), coefficient_of_us(7000, 48000));
}

#[test]
fn update_to_sample_rate_rederives_coefficients() {
    let mut c = AvgCompressor::peak_avg(10_000, 20_000, 44100, 1, 0, 4 * UNIT as u32);
    assert_eq!(attack_of(&c), coefficient_of_us(10000, 44100));
    c.update_attack_to_sample_hz(1000);
    c.update_release_to_sample_hz(1000);
    assert_eq!(attack_of(&c), coefficient_of_us(10000, 1000));
    assert_eq!(release_of(&c), coefficient_of_us(20000, 1000));
}

#[test]
fn coefficient_values() {
    assert_eq!(coefficient_of_us(0, 44100), 0);
    assert_eq!(coefficient_of_us(1000, 1000), 21845);
    assert_eq!(coefficient_of_us(1000000, 1000), 65470);
    assert_eq!(coefficient_of_us(10000, 44100), 65387);
    assert_eq!(frames_of_us(1000000, 44100), 44100);
    assert_eq!(frames_of_us(1000, 44100), 44);
}

#[test]
fn attack_rises_monotonically_to_step() {
    let mut d = PeakEnvelopeDetector::new(1, coefficient_of_us(5000, 1000), 0);
    let expected = [5455u64, 9918, 13570, 16558, 19003, 21003, 22639, 23978];
    let mut last = 0u64;
    for want in expected {
        let e = d.next_sample(0, 30000);
        assert_eq!(e, want);
        assert!(e >= last && e <= 30000);
        last = e;
    }
    for _ in 0..200 {
        let e = d.next_sample(0, -30000);
        assert!(e >= last && e <= 30000);
        last = e;
    }
    assert_eq!(last, 30000);
}

#[test]
fn release_falls_monotonically_to_zero() {
    let mut d = PeakEnvelopeDetector::new(1, 0, coefficient_of_us(5000, 1000));
    assert_eq!(d.next_sample(0, 30000), 30000);
    let first = d.next_sample(0, 0);
    assert_eq!(first, 30000 - 5455);
    let mut last = first;
    for _ in 0..200 {
        let e = d.next_sample(0, 0);
        assert!(e <= last);
        last = e;
    }
    assert_eq!(last, 0);
}

#[test]
fn rms_converges_to_constant_amplitude() {
    // a window of 4 samples, no smoothing
    let mut d = RmsEnvelopeDetector::new(1, frames_of_us(1000, 4000) as usize, 1000, 0, 0);
    assert_eq!(d.window, 4);
    let a = 20000i32;
    assert_eq!(d.next(&vec![a]), vec![10000]);
    assert_eq!(d.next(&vec![-a]), vec![14142]);
    d.next(&vec![a]);
    assert_eq!(d.next(&vec![a]), vec![20000]);
    assert_eq!(d.next(&vec![a]), vec![20000]);
}

#[test]
fn rms_compressor_window_follows_sample_rate() {
    let mut c = Compressor::<Minimum>::rms(1_000, 0, 0, 4000, 2, 0, 2 * UNIT as u32);
    match &c.envelope_detector {
        Detector::Rms(d) => assert_eq!(d.window, 4),
        Detector::Peak(_) => panic!("expected an RMS detector"),
    }
    c.set_window_ms(2_000, 4000);
    match &c.envelope_detector {
        Detector::Rms(d) => {
            assert_eq!(d.window, 8);
            assert_eq!(d.window_us, 2_000);
        }
        Detector::Peak(_) => panic!("expected an RMS detector"),
    }
    c.update_window_to_sample_hz(1000);
    match &c.envelope_detector {
        Detector::Rms(d) => assert_eq!(d.window, 2),
        Detector::Peak(_) => panic!("expected an RMS detector"),
    }
    // under one sample the window keeps one slot
    c.update_window_to_sample_hz(100);
    match &c.envelope_detector {
        Detector::Rms(d) => assert_eq!(d.window, 1),
        Detector::Peak(_) => panic!("expected an RMS detector"),
    }
}

#[test]
fn rms_compressor_settles_on_constant_input() {
    let mut c = Compressor::<Average>::rms_avg(1_000, 0, 0, 4000, 1, 0, 2 * UNIT as u32);
    let frame = vec![HALF as i32];
    for _ in 0..4 {
        c.next_frame(&frame);
    }
    assert_eq!(envelopes_of(&c), vec![HALF as u64]);
    // gain 1 - 0.5 * 0.5 = 0.75
    assert_eq!(c.next_gain(&frame), 49152);
}

#[test]
fn compress_slice_processes_each_frame() {
    let mut c = instant_peak_min();
    let mut buf = vec![UNIT as i32, 13107, 0, 0];
    c.compress_slice(&mut buf);
    assert_eq!(buf, vec![32768, 6553, 0, 0]);

    let mut by_frame = instant_peak_min();
    let a = by_frame.next_frame(&vec![UNIT as i32, 13107]);
    let b = by_frame.next_frame(&vec![0, 0]);
    assert_eq!(a, vec![32768, 6553]);
    assert_eq!(b, vec![0, 0]);
    assert_eq!(envelopes_of(&c), envelopes_of(&by_frame));
}

#[test]
fn audio_requested_rederives_then_compresses() {
    let mut c = MinCompressor::peak_min(5_000, 5_000, 44100, 1, 0, 2 * UNIT as u32);
    let mut buf = vec![UNIT as i32];
    c.audio_requested(&mut buf, 1000);
    assert_eq!(attack_of(&c), coefficient_of_us(5000, 1000));
    assert_eq!(envelopes_of(&c), vec![11916]);
    assert_eq!(buf, vec![59578]);
}

#[test]
fn apply_gain_scales_and_saturates() {
    assert_eq!(apply_gain(1000, HALF), 500);
    assert_eq!(apply_gain(-1001, HALF), -500);
    assert_eq!(apply_gain(i32::MAX, 2 * UNIT), i32::MAX);
    assert_eq!(apply_gain(i32::MIN, 2 * UNIT), i32::MIN);
    assert_eq!(apply_gain(1000, -UNIT), -1000);
}

#[test]
fn fixed_point_helpers() {
    assert_eq!(div_trunc_i128(-7, 2), -3);
    assert_eq!(div_trunc_i128(7, 2), 3);
    assert_eq!(clip_to_i32(1 << 40), i32::MAX);
    assert_eq!(clip_to_i32(-(1 << 40)), i32::MIN);
    assert_eq!(isqrt(0), 0);
    assert_eq!(isqrt(15), 3);
    assert_eq!(isqrt(16), 4);
    assert_eq!(isqrt(1 << 62), 1 << 31);
}

#[test]
fn set_channels_keeps_and_grows() {
    let mut c = instant_peak_min();
    c.next_frame(&vec![1000, 2000]);
    assert_eq!(envelopes_of(&c), vec![1000, 2000]);
    c.set_channels(3);
    assert_eq!(envelopes_of(&c), vec![1000, 2000, 0]);
    c.set_channels(1);
    assert_eq!(envelopes_of(&c), vec![1000]);
    assert_eq!(c.next_frame(&vec![UNIT as i32]), vec![32768]);
}

#[test]
fn rms_set_channels_empties_windows() {
    let mut c = Compressor::<Minimum>::rms_min(1_000, 0, 0, 4000, 1, 0, 2 * UNIT as u32);
    c.next_frame(&vec![20000]);
    c.set_channels(2);
    match &c.envelope_detector {
        Detector::Rms(d) => {
            assert_eq!(d.squares, vec![0u64; 8]);
            assert_eq!(d.sums, vec![0u128; 2]);
            assert_eq!(d.smoothing.envelopes, vec![10000, 0]);
        }
        Detector::Peak(_) => panic!("expected an RMS detector"),
    }
}

#[test]
fn sub_millisecond_durations() {
    // a 2.5 ms window at 1000 Hz holds two samples
    let c = MinCompressor::rms_min(2_500, 10_000, 20_000, 1000, 1, HALF as i32 / 5, 4 * UNIT as u32);
    match &c.envelope_detector {
        Detector::Rms(d) => {
            assert_eq!(d.window, 2);
            assert_eq!(d.window_us, 2_500);
        }
        Detector::Peak(_) => panic!("expected an RMS detector"),
    }
    assert_eq!(c.slope, 49152);
    assert_eq!(c.window_duration(), 2_500);
    assert_eq!(c.channel_count(), 1);
    // a 0.5 ms attack at 44.1 kHz is about 22 samples
    assert_eq!(frames_of_us(500, 44100), 22);
    assert_eq!(coefficient_of_us(500, 44100), 62629);
}

#[test]
fn window_fits_bounds_memory() {
    assert!(compressor::compressor::window_fits(2, 1_000_000, 44100));
    assert!(!compressor::compressor::window_fits(usize::MAX, 1_000_000, 44100));
    assert!(compressor::compressor::window_fits(usize::MAX, 0, 44100));
}
