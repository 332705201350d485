//! The compressor: envelope detection, the gain law and the reduction of
//! channel gains, frame by frame.
use vstd::prelude::*;
use core::marker::PhantomData;
use crate::fixed::{decay_coefficient, us_to_frames, coefficient_of_us, frames_of_us};
use crate::gain::{gain_law, scaled_sample, slope_of_ratio, slope_in_range, gain_in_range, calc_slope,
    channel_gain, apply_gain};
use crate::detector::{Detector, DetectorModel, PeakEnvelopeDetector, RmsEnvelopeDetector, step, with_window,
    with_channels};
use crate::even_gain_fn::{EvenGainFunction, Average, Minimum, gains_in_range};

verus! {

/// The number of window slots that `window_us` microseconds take at
/// `sample_hz`: at least one.
pub open spec fn window_slots(window_us: int, sample_hz: int) -> int {
    let f = us_to_frames(window_us, sample_hz);
    if f == 0 { 1 } else { f }
}

/// The detector with the attack coefficient derived from `us` at `sample_hz`.
pub open spec fn with_attack(m: DetectorModel, us: u32, sample_hz: u32) -> DetectorModel {
    DetectorModel { attack: decay_coefficient(us as int, sample_hz as int) as u64, ..m }
}

/// The detector with the release coefficient derived from `us` at `sample_hz`.
pub open spec fn with_release(m: DetectorModel, us: u32, sample_hz: u32) -> DetectorModel {
    DetectorModel { release: decay_coefficient(us as int, sample_hz as int) as u64, ..m }
}

/// Whether windows of `window_us` at `sample_hz` for `channels` channels fit
/// in memory that `usize` can index.
pub fn window_fits(channels: usize, window_us: u32, sample_hz: u32) -> (r: bool)
    ensures
        r == (channels * window_slots(window_us as int, sample_hz as int) <= usize::MAX),
{
    let frames = frames_of_us(window_us, sample_hz);
    let slots: u128 = if frames == 0 { 1 } else { frames as u128 };
    proof {
        vstd::arithmetic::mul::lemma_mul_upper_bound(window_us as int, u32::MAX as int, sample_hz as int,
            u32::MAX as int);
        vstd::arithmetic::div_mod::lemma_div_is_ordered(window_us * sample_hz, 0x1_0000_0000_0000_0000, 1_000_000);
        assert(slots <= 0x1_0000_0000_0000);
        assert(channels * slots <= 0x1_0000_0000_0000_0000 * 0x1_0000_0000_0000) by (nonlinear_arith)
            requires channels <= 0x1_0000_0000_0000_0000, slots <= 0x1_0000_0000_0000, slots >= 0;
    }
    (channels as u128) * slots <= usize::MAX as u128
}

/// The gain of each channel for the given envelopes.
pub open spec fn channel_gains(envelopes: Seq<u64>, threshold: i32, slope: i64) -> Seq<i64> {
    Seq::new(envelopes.len(), |i: int| gain_law(envelopes[i] as int, threshold as int, slope as int) as i64)
}

/// A frame with one gain applied to every sample.
pub open spec fn scaled_frame(frame: Seq<i32>, gain: int) -> Seq<i32> {
    Seq::new(frame.len(), |i: int| scaled_sample(frame[i] as int, gain) as i32)
}

/// A frame with each sample scaled by its own channel's gain.
pub open spec fn scaled_frame_per_channel(frame: Seq<i32>, gains: Seq<i64>) -> Seq<i32> {
    Seq::new(frame.len(), |i: int| scaled_sample(frame[i] as int, gains[i] as int) as i32)
}

/// The detector after the frames of `samples`, one frame of as many samples
/// as it has channels at a time; a tail shorter than a frame is left out.
pub open spec fn detector_after(m: DetectorModel, samples: Seq<i32>) -> DetectorModel
    decreases samples.len(),
{
    let n = m.envelopes.len();
    if n == 0 || samples.len() < n {
        m
    } else {
        detector_after(step(m, samples.take(n as int)), samples.skip(n as int))
    }
}

/// The frames of `samples` compressed one after another, each scaled by the
/// even gain that `EGF` makes of its channel gains.
pub open spec fn compressed<EGF: EvenGainFunction>(m: DetectorModel, samples: Seq<i32>, threshold: i32, slope: i64)
    -> Seq<i32>
    decreases samples.len(),
{
    let n = m.envelopes.len();
    if n == 0 || samples.len() < n {
        Seq::empty()
    } else {
        let frame = samples.take(n as int);
        let next = step(m, frame);
        scaled_frame(frame, EGF::even_gain(channel_gains(next.envelopes, threshold, slope)))
            + compressed::<EGF>(next, samples.skip(n as int), threshold, slope)
    }
}

/// A multiple of a positive `n` that is positive is at least `n`.
proof fn lemma_multiple_at_least(x: int, n: int)
    requires
        x > 0,
        n > 0,
        x % n == 0,
    ensures
        x >= n,
        (x - n) % n == 0,
{
    vstd::arithmetic::div_mod::lemma_fundamental_div_mod(x, n);
    let q = x / n;
    assert(x == n * q);
    assert(q >= 1) by (nonlinear_arith)
        requires x == n * q, x > 0, n > 0;
    assert(n * q >= n) by (nonlinear_arith)
        requires q >= 1, n > 0;
    assert(x - n == n * (q - 1)) by (nonlinear_arith)
        requires x == n * q;
    vstd::arithmetic::div_mod::lemma_mod_multiples_basic(q - 1, n);
    assert((q - 1) * n == n * (q - 1)) by (nonlinear_arith);
}

/// A compressor that attenuates the parts of a signal whose envelope exceeds
/// `threshold`, by a slope derived from its ratio.
///
/// `EGF` reduces the gains of a frame's channels to the one gain that the
/// whole frame is scaled by.
#[derive(Debug)]
pub struct Compressor<EGF> {
    /// The detector that yields the "loudness" envelope.
    pub envelope_detector: Detector,
    /// The envelope attack duration in microseconds.
    pub attack_us: u32,
    /// The envelope release duration in microseconds.
    pub release_us: u32,
    /// When the detected envelope exceeds this threshold, the signal is compressed.
    pub threshold: i32,
    /// `1 - 1 / ratio`, in fixed point: a ratio of 4:1 gives a slope of 0.75.
    pub slope: i64,
    /// The reduction of channel gains.
    pub even_gain_fn: PhantomData<EGF>,
}

/// A compressor that uses the average across channels.
pub type AvgCompressor = Compressor<Average>;
/// A compressor that uses the minimum across channels.
pub type MinCompressor = Compressor<Minimum>;

impl<EGF: EvenGainFunction> Compressor<EGF> {
    /// A well-formed detector with one channel at least, and a slope that a ratio yields.
    pub open spec fn wf(&self) -> bool {
        &&& self.envelope_detector.wf()
        &&& self.envelope_detector.channels() >= 1
        &&& slope_in_range(self.slope as int)
    }

    /// What the detector holds.
    pub open spec fn detector(&self) -> DetectorModel {
        self.envelope_detector@
    }

    /// The number of channels.
    pub open spec fn channels(&self) -> nat {
        self.envelope_detector.channels()
    }

    /// The duration of an RMS detector's window in microseconds, zero for a peak one.
    pub open spec fn window_us(&self) -> u32 {
        self.envelope_detector@.window_us
    }

    /// The number of channels.
    pub fn channel_count(&self) -> (r: usize)
        ensures
            r == self.channels(),
    {
        self.envelope_detector.channels_exec()
    }

    /// The duration of an RMS detector's window in microseconds, zero for a peak one.
    pub fn window_duration(&self) -> (r: u32)
        ensures
            r == self.window_us(),
    {
        match &self.envelope_detector {
            Detector::Peak(_) => 0,
            Detector::Rms(d) => d.window_us,
        }
    }

    /// The settings other than the detector's state are those of `other`.
    pub open spec fn same_settings(&self, other: &Self) -> bool {
        &&& self.attack_us == other.attack_us
        &&& self.release_us == other.release_us
        &&& self.threshold == other.threshold
        &&& self.slope == other.slope
    }

    fn new(detector: Detector, attack_us: u32, release_us: u32, threshold: i32, ratio: u32) -> (r: Self)
        requires
            detector.wf(),
            detector.channels() >= 1,
            ratio > 0,
        ensures
            r.wf(),
            r.envelope_detector == detector,
            r.attack_us == attack_us,
            r.release_us == release_us,
            r.threshold == threshold,
            r.slope == slope_of_ratio(ratio as int),
    {
        let slope = calc_slope(ratio);
        Compressor {
            envelope_detector: detector,
            attack_us,
            release_us,
            threshold,
            slope,
            even_gain_fn: PhantomData,
        }
    }

    /// A compressor with a peak detector for `channels` channels, silent at first.
    ///
    /// `threshold` is a linear amplitude and `ratio` a linear ratio, both in
    /// fixed point (`UNIT` is 1.0, so a ratio of `4 * UNIT` is 4:1). A ratio
    /// of zero would need an infinite slope, which fixed point cannot hold, so
    /// the ratio must be positive. Durations are in microseconds.
    pub fn peak(attack_us: u32, release_us: u32, sample_hz: u32, channels: usize, threshold: i32, ratio: u32)
        -> (r: Self)
        requires
            channels >= 1,
            ratio > 0,
        ensures
            r.wf(),
            r.detector() == (DetectorModel {
                envelopes: Seq::new(channels as nat, |i: int| 0u64),
                attack: decay_coefficient(attack_us as int, sample_hz as int) as u64,
                release: decay_coefficient(release_us as int, sample_hz as int) as u64,
                rms: false,
                squares: Seq::empty(),
                window: 1,
                position: 0,
                window_us: 0,
            }),
            r.attack_us == attack_us,
            r.release_us == release_us,
            r.threshold == threshold,
            r.slope == slope_of_ratio(ratio as int),
    {
        let attack = coefficient_of_us(attack_us, sample_hz);
        let release = coefficient_of_us(release_us, sample_hz);
        let d = PeakEnvelopeDetector::new(channels, attack, release);
        Self::new(Detector::Peak(d), attack_us, release_us, threshold, ratio)
    }

    /// A compressor with an RMS detector for `channels` channels, whose window
    /// lasts `window_us`; silent at first. Durations are in microseconds, and
    /// the ratio must be positive, as for `peak`.
    pub fn rms(window_us: u32, attack_us: u32, release_us: u32, sample_hz: u32, channels: usize,
        threshold: i32, ratio: u32) -> (r: Self)
        requires
            channels >= 1,
            ratio > 0,
            channels * window_slots(window_us as int, sample_hz as int) <= usize::MAX,
        ensures
            r.wf(),
            r.detector() == (DetectorModel {
                envelopes: Seq::new(channels as nat, |i: int| 0u64),
                attack: decay_coefficient(attack_us as int, sample_hz as int) as u64,
                release: decay_coefficient(release_us as int, sample_hz as int) as u64,
                rms: true,
                squares: Seq::new((channels * window_slots(window_us as int, sample_hz as int)) as nat,
                    |k: int| 0u64),
                window: window_slots(window_us as int, sample_hz as int) as nat,
                position: 0,
                window_us,
            }),
            r.attack_us == attack_us,
            r.release_us == release_us,
            r.threshold == threshold,
            r.slope == slope_of_ratio(ratio as int),
    {
        let attack = coefficient_of_us(attack_us, sample_hz);
        let release = coefficient_of_us(release_us, sample_hz);
        let frames = frames_of_us(window_us, sample_hz);
        proof {
            assert(channels * (if frames == 0 { 1 } else { frames as int }) >= frames) by (nonlinear_arith)
                requires channels >= 1;
        }
        let d = RmsEnvelopeDetector::new(channels, frames as usize, window_us, attack, release);
        let ghost m = Detector::Rms(d)@;
        proof {
            assert(m.squares =~= Seq::new((channels * window_slots(window_us as int, sample_hz as int)) as nat,
                |k: int| 0u64));
        }
        Self::new(Detector::Rms(d), attack_us, release_us, threshold, ratio)
    }

    /// Re-derives the attack coefficient from `attack_us` at `sample_hz`.
    pub fn update_attack_to_sample_hz(&mut self, sample_hz: u32)
        requires
            old(self).wf(),
        ensures
            final(self).wf(),
            final(self).same_settings(old(self)),
            final(self).detector() == with_attack(old(self).detector(), old(self).attack_us, sample_hz),
    {
        let c = coefficient_of_us(self.attack_us, sample_hz);
        self.envelope_detector.set_attack(c);
    }

    /// Re-derives the release coefficient from `release_us` at `sample_hz`.
    pub fn update_release_to_sample_hz(&mut self, sample_hz: u32)
        requires
            old(self).wf(),
        ensures
            final(self).wf(),
            final(self).same_settings(old(self)),
            final(self).detector() == with_release(old(self).detector(), old(self).release_us, sample_hz),
    {
        let c = coefficient_of_us(self.release_us, sample_hz);
        self.envelope_detector.set_release(c);
    }

    /// Sets the duration of the envelope's attack, `us` microseconds, and re-derives its coefficient.
    pub fn set_attack_ms(&mut self, us: u32, sample_hz: u32)
        requires
            old(self).wf(),
        ensures
            final(self).wf(),
            final(self).attack_us == us,
            final(self).release_us == old(self).release_us,
            final(self).threshold == old(self).threshold,
            final(self).slope == old(self).slope,
            final(self).detector() == with_attack(old(self).detector(), us, sample_hz),
    {
        self.attack_us = us;
        self.update_attack_to_sample_hz(sample_hz);
    }

    /// Sets the duration of the envelope's release, `us` microseconds, and re-derives its coefficient.
    pub fn set_release_ms(&mut self, us: u32, sample_hz: u32)
        requires
            old(self).wf(),
        ensures
            final(self).wf(),
            final(self).release_us == us,
            final(self).attack_us == old(self).attack_us,
            final(self).threshold == old(self).threshold,
            final(self).slope == old(self).slope,
            final(self).detector() == with_release(old(self).detector(), us, sample_hz),
    {
        self.release_us = us;
        self.update_release_to_sample_hz(sample_hz);
    }

    /// Re-derives an RMS detector's window size from its duration at
    /// `sample_hz`. A window whose size changes starts empty; a peak detector
    /// is left as it is.
    pub fn update_window_to_sample_hz(&mut self, sample_hz: u32)
        requires
            old(self).wf(),
            old(self).channels() * window_slots(old(self).window_us() as int, sample_hz as int) <= usize::MAX,
        ensures
            final(self).wf(),
            final(self).same_settings(old(self)),
            final(self).detector() == with_window(old(self).detector(),
                us_to_frames(old(self).window_us() as int, sample_hz as int), old(self).window_us()),
    {
        let us: u32 = match &self.envelope_detector {
            Detector::Peak(_) => 0,
            Detector::Rms(d) => d.window_us,
        };
        self.set_window_frames(us, sample_hz);
    }

    /// Sets the duration of an RMS detector's window, `us` microseconds, and re-derives its size
    /// (see `update_window_to_sample_hz`); a peak detector is left as it is.
    pub fn set_window_ms(&mut self, us: u32, sample_hz: u32)
        requires
            old(self).wf(),
            old(self).channels() * window_slots(us as int, sample_hz as int) <= usize::MAX,
        ensures
            final(self).wf(),
            final(self).same_settings(old(self)),
            final(self).detector() == with_window(old(self).detector(),
                us_to_frames(us as int, sample_hz as int), us),
    {
        self.set_window_frames(us, sample_hz);
    }

    fn set_window_frames(&mut self, us: u32, sample_hz: u32)
        requires
            old(self).wf(),
            old(self).channels() * window_slots(us as int, sample_hz as int) <= usize::MAX,
        ensures
            final(self).wf(),
            final(self).same_settings(old(self)),
            final(self).detector() == with_window(old(self).detector(),
                us_to_frames(us as int, sample_hz as int), us),
    {
        let frames = frames_of_us(us, sample_hz);
        proof {
            let n = self.channels() as int;
            assert(n * (if frames == 0 { 1 } else { frames as int }) >= frames) by (nonlinear_arith)
                requires n >= 1;
        }
        self.envelope_detector.set_window(frames as usize, us);
    }

    /// Changes the number of channels: see `with_channels`.
    pub fn set_channels(&mut self, channels: usize)
        requires
            old(self).wf(),
            channels >= 1,
            channels * old(self).detector().window <= usize::MAX,
        ensures
            final(self).wf(),
            final(self).same_settings(old(self)),
            final(self).detector() == with_channels(old(self).detector(), channels as nat),
    {
        self.envelope_detector.set_channels(channels);
    }

    /// Steps the detector forward by `frame` and returns the gain of each channel.
    pub fn next_gain_per_channel(&mut self, frame: &Vec<i32>) -> (r: Vec<i64>)
        requires
            old(self).wf(),
            frame@.len() == old(self).channels(),
        ensures
            final(self).wf(),
            final(self).same_settings(old(self)),
            final(self).detector() == step(old(self).detector(), frame@),
            r@ == channel_gains(final(self).detector().envelopes, old(self).threshold, old(self).slope),
            gains_in_range(r@),
    {
        let envelopes = self.envelope_detector.next(frame);
        let n = envelopes.len();
        let mut gains: Vec<i64> = Vec::with_capacity(n);
        let mut i: usize = 0;
        while i < n
            invariant
                n == envelopes@.len(),
                i <= n,
                self.wf(),
                gains@.len() == i,
                forall|j: int| 0 <= j < i ==> #[trigger] gains@[j] as int
                    == gain_law(envelopes@[j] as int, self.threshold as int, self.slope as int),
                gains_in_range(gains@),
            decreases n - i,
        {
            let g = channel_gain(envelopes[i], self.threshold, self.slope);
            gains.push(g);
            i = i + 1;
        }
        proof {
            assert(gains@ =~= channel_gains(envelopes@, self.threshold, self.slope));
        }
        gains
    }

    /// Steps the detector forward by `frame` and returns the gain to apply
    /// evenly across all channels.
    pub fn next_gain(&mut self, frame: &Vec<i32>) -> (r: i64)
        requires
            old(self).wf(),
            frame@.len() == old(self).channels(),
        ensures
            final(self).wf(),
            final(self).same_settings(old(self)),
            final(self).detector() == step(old(self).detector(), frame@),
            r as int == EGF::even_gain(
                channel_gains(final(self).detector().envelopes, old(self).threshold, old(self).slope)),
            gain_in_range(r as int),
    {
        let gains = self.next_gain_per_channel(frame);
        proof {
            EGF::lemma_admits_nonempty(gains@);
        }
        EGF::next_gain(&gains)
    }

    /// Steps the compressor forward by `frame` and returns the frame scaled
    /// by the even gain.
    pub fn next_frame(&mut self, frame: &Vec<i32>) -> (r: Vec<i32>)
        requires
            old(self).wf(),
            frame@.len() == old(self).channels(),
        ensures
            final(self).wf(),
            final(self).same_settings(old(self)),
            final(self).detector() == step(old(self).detector(), frame@),
            r@ == scaled_frame(frame@, EGF::even_gain(
                channel_gains(final(self).detector().envelopes, old(self).threshold, old(self).slope))),
    {
        let g = self.next_gain(frame);
        let n = frame.len();
        let mut out: Vec<i32> = Vec::with_capacity(n);
        let mut i: usize = 0;
        while i < n
            invariant
                n == frame@.len(),
                i <= n,
                gain_in_range(g as int),
                out@.len() == i,
                forall|j: int| 0 <= j < i ==> #[trigger] out@[j] == scaled_sample(frame@[j] as int, g as int) as i32,
            decreases n - i,
        {
            out.push(apply_gain(frame[i], g));
            i = i + 1;
        }
        proof {
            assert(out@ =~= scaled_frame(frame@, g as int));
        }
        out
    }

    /// Steps the compressor forward by `frame` and returns the frame with
    /// each channel scaled by its own gain.
    pub fn next_frame_per_channel(&mut self, frame: &Vec<i32>) -> (r: Vec<i32>)
        requires
            old(self).wf(),
            frame@.len() == old(self).channels(),
        ensures
            final(self).wf(),
            final(self).same_settings(old(self)),
            final(self).detector() == step(old(self).detector(), frame@),
            r@ == scaled_frame_per_channel(frame@,
                channel_gains(final(self).detector().envelopes, old(self).threshold, old(self).slope)),
    {
        let gains = self.next_gain_per_channel(frame);
        let n = frame.len();
        let mut out: Vec<i32> = Vec::with_capacity(n);
        let mut i: usize = 0;
        while i < n
            invariant
                n == frame@.len(),
                gains@.len() == n,
                gains_in_range(gains@),
                i <= n,
                out@.len() == i,
                forall|j: int| 0 <= j < i ==> #[trigger] out@[j]
                    == scaled_sample(frame@[j] as int, gains@[j] as int) as i32,
            decreases n - i,
        {
            out.push(apply_gain(frame[i], gains[i]));
            i = i + 1;
        }
        proof {
            assert(out@ =~= scaled_frame_per_channel(frame@, gains@));
        }
        out
    }

    /// Compresses a buffer of interleaved frames in place, frame by frame,
    /// each frame scaled by its even gain.
    pub fn compress_slice(&mut self, samples: &mut Vec<i32>)
        requires
            old(self).wf(),
            old(samples)@.len() % old(self).channels() == 0,
        ensures
            final(self).wf(),
            final(self).same_settings(old(self)),
            final(self).detector() == detector_after(old(self).detector(), old(samples)@),
            final(samples)@ == compressed::<EGF>(old(self).detector(), old(samples)@,
                old(self).threshold, old(self).slope),
    {
        let ghost orig = samples@;
        let ghost m0 = self.detector();
        let len = samples.len();
        let n = self.envelope_detector.channels_exec();
        let mut i: usize = 0;
        proof {
            assert(orig.skip(0) =~= orig);
            assert(samples@.take(0) + compressed::<EGF>(m0, orig, self.threshold, self.slope)
                =~= compressed::<EGF>(m0, orig, self.threshold, self.slope));
        }
        while i < len
            invariant
                self.wf(),
                self.same_settings(old(self)),
                n == self.channels(),
                len == orig.len(),
                samples@.len() == len,
                i <= len,
                (len - i) % (n as int) == 0,
                forall|k: int| i <= k < len ==> #[trigger] samples@[k] == orig[k],
                detector_after(self.detector(), orig.skip(i as int)) == detector_after(m0, orig),
                samples@.take(i as int) + compressed::<EGF>(self.detector(), orig.skip(i as int),
                    self.threshold, self.slope) == compressed::<EGF>(m0, orig, old(self).threshold, old(self).slope),
            decreases len - i,
        {
            proof {
                lemma_multiple_at_least((len - i) as int, n as int);
            }
            let mut frame: Vec<i32> = Vec::with_capacity(n);
            let mut j: usize = 0;
            while j < n
                invariant
                    i + n <= len,
                    samples@.len() == len,
                    j <= n,
                    frame@.len() == j,
                    forall|k: int| 0 <= k < j ==> #[trigger] frame@[k] == samples@[i + k],
                decreases n - j,
            {
                frame.push(samples[i + j]);
                j = j + 1;
            }
            let ghost rest = orig.skip(i as int);
            proof {
                assert(frame@ =~= rest.take(n as int));
                assert(rest.skip(n as int) =~= orig.skip(i + n));
            }
            let out = self.next_frame(&frame);
            let ghost before = samples@;
            let mut j: usize = 0;
            while j < n
                invariant
                    i + n <= len,
                    out@.len() == n,
                    samples@.len() == len,
                    j <= n,
                    forall|k: int| 0 <= k < len && !(i <= k < i + j) ==> #[trigger] samples@[k] == before[k],
                    forall|k: int| i <= k < i + j ==> #[trigger] samples@[k] == out@[k - i],
                decreases n - j,
            {
                samples.set(i + j, out[j]);
                j = j + 1;
            }
            proof {
                assert(samples@.take(i + n) =~= before.take(i as int) + out@);
                let tail = compressed::<EGF>(self.detector(), orig.skip(i + n), self.threshold, self.slope);
                assert(before.take(i as int) + (out@ + tail) =~= (before.take(i as int) + out@) + tail);
            }
            i = i + n;
        }
        proof {
            assert(orig.skip(len as int) =~= Seq::<i32>::empty());
            assert(samples@.take(len as int) =~= samples@);
            assert(samples@ + Seq::<i32>::empty() =~= samples@);
        }
    }

    /// Re-derives the coefficients and the window for `sample_hz`, then
    /// compresses a buffer of interleaved frames in place.
    pub fn audio_requested(&mut self, samples: &mut Vec<i32>, sample_hz: u32)
        requires
            old(self).wf(),
            old(samples)@.len() % old(self).channels() == 0,
            old(self).channels() * window_slots(old(self).window_us() as int, sample_hz as int) <= usize::MAX,
        ensures
            final(self).wf(),
            final(self).same_settings(old(self)),
            final(self).detector() == detector_after(old(self).retuned(sample_hz), old(samples)@),
            final(samples)@ == compressed::<EGF>(old(self).retuned(sample_hz), old(samples)@,
                old(self).threshold, old(self).slope),
    {
        self.update_attack_to_sample_hz(sample_hz);
        self.update_release_to_sample_hz(sample_hz);
        self.update_window_to_sample_hz(sample_hz);
        self.compress_slice(samples);
    }

    /// The detector with its coefficients and window derived anew for `sample_hz`.
    pub open spec fn retuned(&self, sample_hz: u32) -> DetectorModel {
        with_window(
            with_release(with_attack(self.detector(), self.attack_us, sample_hz), self.release_us, sample_hz),
            us_to_frames(self.window_us() as int, sample_hz as int),
            self.window_us(),
        )
    }
}

impl Compressor<Average> {
    /// A compressor that applies the average of the channel gains of a peak
    /// detector evenly across the channels: see `peak`.
    pub fn peak_avg(attack_us: u32, release_us: u32, sample_hz: u32, channels: usize, threshold: i32, ratio: u32)
        -> (r: Self)
        requires
            channels >= 1,
            ratio > 0,
        ensures
            r.wf(),
            r.detector() == (DetectorModel {
                envelopes: Seq::new(channels as nat, |i: int| 0u64),
                attack: decay_coefficient(attack_us as int, sample_hz as int) as u64,
                release: decay_coefficient(release_us as int, sample_hz as int) as u64,
                rms: false,
                squares: Seq::empty(),
                window: 1,
                position: 0,
                window_us: 0,
            }),
            r.attack_us == attack_us,
            r.release_us == release_us,
            r.threshold == threshold,
            r.slope == slope_of_ratio(ratio as int),
    {
        Self::peak(attack_us, release_us, sample_hz, channels, threshold, ratio)
    }

    /// A compressor that applies the average of the channel gains of an RMS
    /// detector evenly across the channels: see `rms`.
    pub fn rms_avg(window_us: u32, attack_us: u32, release_us: u32, sample_hz: u32, channels: usize,
        threshold: i32, ratio: u32) -> (r: Self)
        requires
            channels >= 1,
            ratio > 0,
            channels * window_slots(window_us as int, sample_hz as int) <= usize::MAX,
        ensures
            r.wf(),
            r.detector() == (DetectorModel {
                envelopes: Seq::new(channels as nat, |i: int| 0u64),
                attack: decay_coefficient(attack_us as int, sample_hz as int) as u64,
                release: decay_coefficient(release_us as int, sample_hz as int) as u64,
                rms: true,
                squares: Seq::new((channels * window_slots(window_us as int, sample_hz as int)) as nat,
                    |k: int| 0u64),
                window: window_slots(window_us as int, sample_hz as int) as nat,
                position: 0,
                window_us,
            }),
            r.attack_us == attack_us,
            r.release_us == release_us,
            r.threshold == threshold,
            r.slope == slope_of_ratio(ratio as int),
    {
        Self::rms(window_us, attack_us, release_us, sample_hz, channels, threshold, ratio)
    }
}

impl Compressor<Minimum> {
    /// A compressor that applies the minimum of the channel gains of a peak
    /// detector evenly across the channels: see `peak`.
    pub fn peak_min(attack_us: u32, release_us: u32, sample_hz: u32, channels: usize, threshold: i32, ratio: u32)
        -> (r: Self)
        requires
            channels >= 1,
            ratio > 0,
        ensures
            r.wf(),
            r.detector() == (DetectorModel {
                envelopes: Seq::new(channels as nat, |i: int| 0u64),
                attack: decay_coefficient(attack_us as int, sample_hz as int) as u64,
                release: decay_coefficient(release_us as int, sample_hz as int) as u64,
                rms: false,
                squares: Seq::empty(),
                window: 1,
                position: 0,
                window_us: 0,
            }),
            r.attack_us == attack_us,
            r.release_us == release_us,
            r.threshold == threshold,
            r.slope == slope_of_ratio(ratio as int),
    {
        Self::peak(attack_us, release_us, sample_hz, channels, threshold, ratio)
    }

    /// A compressor that applies the minimum of the channel gains of an RMS
    /// detector evenly across the channels: see `rms`.
    pub fn rms_min(window_us: u32, attack_us: u32, release_us: u32, sample_hz: u32, channels: usize,
        threshold: i32, ratio: u32) -> (r: Self)
        requires
            channels >= 1,
            ratio > 0,
            channels * window_slots(window_us as int, sample_hz as int) <= usize::MAX,
        ensures
            r.wf(),
            r.detector() == (DetectorModel {
                envelopes: Seq::new(channels as nat, |i: int| 0u64),
                attack: decay_coefficient(attack_us as int, sample_hz as int) as u64,
                release: decay_coefficient(release_us as int, sample_hz as int) as u64,
                rms: true,
                squares: Seq::new((channels * window_slots(window_us as int, sample_hz as int)) as nat,
                    |k: int| 0u64),
                window: window_slots(window_us as int, sample_hz as int) as nat,
                position: 0,
                window_us,
            }),
            r.attack_us == attack_us,
            r.release_us == release_us,
            r.threshold == threshold,
            r.slope == slope_of_ratio(ratio as int),
    {
        Self::rms(window_us, attack_us, release_us, sample_hz, channels, threshold, ratio)
    }
}

} // verus!
