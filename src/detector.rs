//! Envelope detectors: peak, and RMS over a sliding window.
use vstd::prelude::*;
use crate::fixed::{UNIT, sqrt_floor, isqrt};

verus! {

/// The largest magnitude an `i32` sample can have.
pub const MAGNITUDE_BOUND: u64 = 0x8000_0000;

/// The magnitude of a sample.
pub open spec fn magnitude(sample: int) -> int {
    if sample < 0 {
        -sample
    } else {
        sample
    }
}

/// One step of attack / release smoothing of `envelope` toward `level`.
///
/// When the level rises above the envelope the attack coefficient keeps that
/// share of the distance still to go; otherwise the release coefficient does.
pub open spec fn smooth(envelope: int, level: int, attack: int, release: int) -> int {
    if level > envelope {
        level - attack * (level - envelope) / (UNIT as int)
    } else {
        level + release * (envelope - level) / (UNIT as int)
    }
}

/// A smoothing coefficient: a share of `UNIT`, below it.
pub open spec fn coefficient_in_range(c: int) -> bool {
    0 <= c < UNIT
}

/// Moves `envelope` toward `level` by one step: see `smooth`.
pub fn smooth_step(envelope: u64, level: u64, attack: u64, release: u64) -> (r: u64)
    requires
        envelope <= MAGNITUDE_BOUND,
        level <= MAGNITUDE_BOUND,
        coefficient_in_range(attack as int),
        coefficient_in_range(release as int),
    ensures
        r == smooth(envelope as int, level as int, attack as int, release as int),
        envelope <= level ==> envelope <= r <= level,
        level <= envelope ==> level <= r <= envelope,
{
    if level > envelope {
        let d: u64 = level - envelope;
        proof {
            lemma_share_below(attack as int, d as int);
        }
        level - attack * d / (UNIT as u64)
    } else {
        let d: u64 = envelope - level;
        proof {
            lemma_share_below(release as int, d as int);
        }
        level + release * d / (UNIT as u64)
    }
}

/// A coefficient's share of a distance is no more than the distance, and less
/// when the distance is positive.
pub proof fn lemma_share_below(c: int, d: int)
    requires
        coefficient_in_range(c),
        0 <= d <= MAGNITUDE_BOUND,
    ensures
        0 <= c * d / (UNIT as int) <= d,
        d > 0 ==> c * d / (UNIT as int) < d,
        c * d <= UNIT * MAGNITUDE_BOUND,
{
    assert(0 <= c * d <= UNIT * MAGNITUDE_BOUND) by (nonlinear_arith)
        requires 0 <= c < UNIT, 0 <= d <= MAGNITUDE_BOUND;
    if d > 0 {
        assert(c * d < d * UNIT) by (nonlinear_arith)
            requires 0 <= c < UNIT, 0 < d;
        vstd::arithmetic::div_mod::lemma_div_by_multiple_is_strongly_ordered(c * d, d * UNIT, d, (UNIT as int));
        vstd::arithmetic::div_mod::lemma_div_multiples_vanish(d, (UNIT as int));
        assert(d * UNIT == UNIT * d) by (nonlinear_arith);
    }
    vstd::arithmetic::div_mod::lemma_div_pos_is_pos(c * d, (UNIT as int));
}

/// `envelopes` resized to `channels` entries: those kept stay, new ones are zero.
pub open spec fn resized(envelopes: Seq<u64>, channels: nat) -> Seq<u64> {
    Seq::new(channels, |i: int| if i < envelopes.len() { envelopes[i] } else { 0u64 })
}

/// A peak envelope detector: one smoothed magnitude per channel.
#[derive(Clone, Debug)]
pub struct PeakEnvelopeDetector {
    /// The current envelope of each channel.
    pub envelopes: Vec<u64>,
    /// The attack coefficient.
    pub attack: u64,
    /// The release coefficient.
    pub release: u64,
}

impl PeakEnvelopeDetector {
    /// Coefficients below `UNIT` and envelopes no larger than a sample's magnitude.
    pub open spec fn wf(&self) -> bool {
        &&& coefficient_in_range(self.attack as int)
        &&& coefficient_in_range(self.release as int)
        &&& forall|i: int| 0 <= i < self.envelopes@.len() ==> #[trigger] self.envelopes@[i] <= MAGNITUDE_BOUND
    }

    /// The number of channels.
    pub open spec fn channels(&self) -> nat {
        self.envelopes@.len()
    }

    /// A silent detector for `channels` channels with the given coefficients.
    pub fn new(channels: usize, attack: u64, release: u64) -> (r: Self)
        requires
            coefficient_in_range(attack as int),
            coefficient_in_range(release as int),
        ensures
            r.wf(),
            r.attack == attack,
            r.release == release,
            r.envelopes@ == Seq::new(channels as nat, |i: int| 0u64),
    {
        let envelopes: Vec<u64> = vec![0u64; channels];
        assert(envelopes@ =~= Seq::new(channels as nat, |i: int| 0u64));
        PeakEnvelopeDetector { envelopes, attack, release }
    }

    /// Feeds one level to one channel and returns that channel's new envelope.
    pub fn next_level(&mut self, channel: usize, level: u64) -> (r: u64)
        requires
            old(self).wf(),
            channel < old(self).channels(),
            level <= MAGNITUDE_BOUND,
        ensures
            final(self).wf(),
            final(self).attack == old(self).attack,
            final(self).release == old(self).release,
            final(self).envelopes@ == old(self).envelopes@.update(channel as int, r),
            r == smooth(old(self).envelopes@[channel as int] as int, level as int,
                old(self).attack as int, old(self).release as int),
    {
        let e = smooth_step(self.envelopes[channel], level, self.attack, self.release);
        self.envelopes.set(channel, e);
        e
    }

    /// Feeds one sample to one channel and returns that channel's new envelope.
    pub fn next_sample(&mut self, channel: usize, sample: i32) -> (r: u64)
        requires
            old(self).wf(),
            channel < old(self).channels(),
        ensures
            final(self).wf(),
            final(self).attack == old(self).attack,
            final(self).release == old(self).release,
            final(self).envelopes@ == old(self).envelopes@.update(channel as int, r),
            r == smooth(old(self).envelopes@[channel as int] as int, magnitude(sample as int),
                old(self).attack as int, old(self).release as int),
    {
        let level: u64 = if sample < 0 { (-(sample as i64)) as u64 } else { sample as u64 };
        self.next_level(channel, level)
    }

    /// Feeds a frame, one sample per channel, and returns the new envelopes.
    pub fn next(&mut self, frame: &Vec<i32>) -> (r: Vec<u64>)
        requires
            old(self).wf(),
            frame@.len() == old(self).channels(),
        ensures
            final(self).wf(),
            final(self).attack == old(self).attack,
            final(self).release == old(self).release,
            final(self).channels() == old(self).channels(),
            forall|i: int| 0 <= i < frame@.len() ==> #[trigger] final(self).envelopes@[i] as int
                == smooth(old(self).envelopes@[i] as int, magnitude(frame@[i] as int),
                    old(self).attack as int, old(self).release as int),
            r@ == final(self).envelopes@,
    {
        let n = frame.len();
        let mut c: usize = 0;
        while c < n
            invariant
                n == frame@.len(),
                c <= n,
                self.wf(),
                self.attack == old(self).attack,
                self.release == old(self).release,
                self.channels() == n,
                forall|i: int| 0 <= i < c ==> #[trigger] self.envelopes@[i] as int
                    == smooth(old(self).envelopes@[i] as int, magnitude(frame@[i] as int),
                        old(self).attack as int, old(self).release as int),
                forall|i: int| c <= i < n ==> #[trigger] self.envelopes@[i] == old(self).envelopes@[i],
            decreases n - c,
        {
            self.next_sample(c, frame[c]);
            c = c + 1;
        }
        self.envelopes.clone()
    }

    /// Resizes to `channels` channels: the envelopes of the channels kept
    /// stay, and new channels start silent.
    pub fn set_channels(&mut self, channels: usize)
        requires
            old(self).wf(),
        ensures
            final(self).wf(),
            final(self).attack == old(self).attack,
            final(self).release == old(self).release,
            final(self).envelopes@ == resized(old(self).envelopes@, channels as nat),
    {
        let ghost before = self.envelopes@;
        if channels <= self.envelopes.len() {
            self.envelopes.truncate(channels);
        } else {
            while self.envelopes.len() < channels
                invariant
                    self.wf(),
                    self.attack == old(self).attack,
                    self.release == old(self).release,
                    before.len() <= self.envelopes@.len() <= channels,
                    forall|i: int| 0 <= i < self.envelopes@.len() ==> #[trigger] self.envelopes@[i]
                        == (if i < before.len() { before[i] } else { 0u64 }),
                decreases channels - self.envelopes@.len(),
            {
                self.envelopes.push(0u64);
            }
        }
        assert(self.envelopes@ =~= resized(before, channels as nat));
    }

    /// Sets the attack coefficient.
    pub fn set_attack(&mut self, attack: u64)
        requires
            old(self).wf(),
            coefficient_in_range(attack as int),
        ensures
            final(self).wf(),
            final(self).attack == attack,
            final(self).release == old(self).release,
            final(self).envelopes@ == old(self).envelopes@,
    {
        self.attack = attack;
    }

    /// Sets the release coefficient.
    pub fn set_release(&mut self, release: u64)
        requires
            old(self).wf(),
            coefficient_in_range(release as int),
        ensures
            final(self).wf(),
            final(self).release == release,
            final(self).attack == old(self).attack,
            final(self).envelopes@ == old(self).envelopes@,
    {
        self.release = release;
    }
}

/// The largest square of a sample's magnitude.
pub const SQUARE_BOUND: u64 = 0x4000_0000_0000_0000;

/// The sum of the `len` entries of `s` from `start` on.
pub open spec fn window_sum(s: Seq<u64>, start: int, len: nat) -> int
    decreases len,
{
    if len == 0 {
        0
    } else {
        window_sum(s, start, (len - 1) as nat) + s[start + len - 1]
    }
}

/// Replacing one entry changes a sum over a range that holds it by the
/// difference, and leaves a sum over a range without it alone.
pub proof fn lemma_window_sum_update(s: Seq<u64>, start: int, len: nat, k: int, v: u64)
    requires
        0 <= start,
        start + len <= s.len(),
        0 <= k < s.len(),
    ensures
        start <= k < start + len ==> window_sum(s.update(k, v), start, len)
            == window_sum(s, start, len) - s[k] + v,
        !(start <= k < start + len) ==> window_sum(s.update(k, v), start, len)
            == window_sum(s, start, len),
    decreases len,
{
    if len > 0 {
        lemma_window_sum_update(s, start, (len - 1) as nat, k, v);
    }
}

/// A sum of `len` entries, none above `bound`, is at most `len * bound`.
pub proof fn lemma_window_sum_bound(s: Seq<u64>, start: int, len: nat, bound: int)
    requires
        0 <= start,
        start + len <= s.len(),
        forall|i: int| start <= i < start + len ==> #[trigger] s[i] <= bound,
    ensures
        0 <= window_sum(s, start, len) <= len * bound,
    decreases len,
{
    if len > 0 {
        lemma_window_sum_bound(s, start, (len - 1) as nat, bound);
        assert((len - 1) * bound + bound == len * bound) by (nonlinear_arith);
    }
}

/// A sum of `len` entries that all equal `v` is `len * v`.
pub proof fn lemma_window_sum_constant(s: Seq<u64>, start: int, len: nat, v: int)
    requires
        0 <= start,
        start + len <= s.len(),
        forall|i: int| start <= i < start + len ==> #[trigger] s[i] == v,
    ensures
        window_sum(s, start, len) == len * v,
    decreases len,
{
    if len > 0 {
        lemma_window_sum_constant(s, start, (len - 1) as nat, v);
        assert(s[start + len - 1] == v);
        assert(window_sum(s, start, len) == window_sum(s, start, (len - 1) as nat) + s[start + len - 1]);
        let l1 = (len - 1) as nat;
        assert(l1 * v + v == len * v) by (nonlinear_arith)
            requires l1 + 1 == len;
    } else {
        assert(len * v == 0) by (nonlinear_arith)
            requires len == 0;
    }
}

/// The sum of a run of zeros is zero.
pub proof fn lemma_window_sum_zero(s: Seq<u64>, start: int, len: nat)
    requires
        0 <= start,
        start + len <= s.len(),
        forall|i: int| start <= i < start + len ==> #[trigger] s[i] == 0,
    ensures
        window_sum(s, start, len) == 0,
{
    lemma_window_sum_constant(s, start, len, 0);
}

/// Where slot `c * w + p` of a buffer of `w`-sized rows lies.
pub proof fn lemma_slot(c: int, w: int, p: int, n: int)
    requires
        0 <= c < n,
        0 <= p < w,
    ensures
        c * w + p < n * w,
        (c + 1) * w <= n * w,
        c * w + w <= n * w,
        0 <= c * w,
        (c * w + p) / w == c,
        (c * w + p) % w == p,
{
    assert((c + 1) * w <= n * w) by (nonlinear_arith)
        requires 0 <= c < n, 0 < w;
    assert(0 <= c * w) by (nonlinear_arith)
        requires 0 <= c, 0 < w;
    assert((c + 1) * w == c * w + w) by (nonlinear_arith);
    vstd::arithmetic::div_mod::lemma_fundamental_div_mod_converse(c * w + p, w, c, p);
}

/// The level that an RMS window holding `sum` over `window` slots yields: the
/// square root of the mean square, rounded down.
pub open spec fn rms_level(sum: int, window: int) -> int {
    sqrt_floor(sum / window)
}

/// An RMS envelope detector: a sliding window of squared magnitudes for each
/// channel, whose root mean square is smoothed by attack and release.
///
/// The windows of all channels share one buffer: channel `c` owns the slots
/// `c * window .. (c + 1) * window`, and each frame writes the slot at
/// `position` in every channel's row.
#[derive(Clone, Debug)]
pub struct RmsEnvelopeDetector {
    /// The attack / release smoothing of the windowed level.
    pub smoothing: PeakEnvelopeDetector,
    /// The squared magnitudes in the windows, row by row.
    pub squares: Vec<u64>,
    /// The sum of each channel's row of `squares`.
    pub sums: Vec<u128>,
    /// The number of slots in each channel's window.
    pub window: usize,
    /// The slot that the next frame writes.
    pub position: usize,
    /// The duration of the window in microseconds.
    pub window_us: u32,
}

impl RmsEnvelopeDetector {
    /// The buffer holds one row per channel, each entry a square, and the sums match the rows.
    pub open spec fn wf(&self) -> bool {
        &&& self.smoothing.wf()
        &&& self.window >= 1
        &&& self.position < self.window
        &&& self.squares@.len() == self.channels() * self.window
        &&& self.sums@.len() == self.channels()
        &&& forall|i: int| 0 <= i < self.squares@.len() ==> #[trigger] self.squares@[i] <= SQUARE_BOUND
        &&& forall|c: int| 0 <= c < self.channels() ==> #[trigger] self.sums@[c] as int
            == window_sum(self.squares@, c * self.window, self.window as nat)
    }

    /// The number of channels.
    pub open spec fn channels(&self) -> nat {
        self.smoothing.channels()
    }

    /// The level that channel `c`'s window yields.
    pub open spec fn level(&self, c: int) -> int {
        rms_level(window_sum(self.squares@, c * self.window, self.window as nat), self.window as int)
    }

    /// A silent detector for `channels` channels, with a window of `window`
    /// samples (at least one) and the given coefficients.
    pub fn new(channels: usize, window: usize, window_us: u32, attack: u64, release: u64) -> (r: Self)
        requires
            coefficient_in_range(attack as int),
            coefficient_in_range(release as int),
            channels * (if window == 0 { 1 } else { window as int }) <= usize::MAX,
        ensures
            r.wf(),
            r.smoothing.attack == attack,
            r.smoothing.release == release,
            r.smoothing.envelopes@ == Seq::new(channels as nat, |i: int| 0u64),
            r.window == if window == 0 { 1 } else { window },
            r.position == 0,
            r.window_us == window_us,
            forall|i: int| 0 <= i < r.squares@.len() ==> #[trigger] r.squares@[i] == 0,
    {
        let smoothing = PeakEnvelopeDetector::new(channels, attack, release);
        let mut r = RmsEnvelopeDetector {
            smoothing,
            squares: Vec::new(),
            sums: Vec::new(),
            window: 1,
            position: 0,
            window_us,
        };
        r.set_window(window);
        r
    }

    /// Resizes the window to `window` samples (at least one) and empties it.
    /// The smoothed envelopes are kept.
    pub fn set_window(&mut self, window: usize)
        requires
            old(self).smoothing.wf(),
            old(self).channels() * (if window == 0 { 1 } else { window as int }) <= usize::MAX,
        ensures
            final(self).wf(),
            final(self).smoothing == old(self).smoothing,
            final(self).window_us == old(self).window_us,
            final(self).window == if window == 0 { 1 } else { window },
            final(self).position == 0,
            forall|i: int| 0 <= i < final(self).squares@.len() ==> #[trigger] final(self).squares@[i] == 0,
    {
        let w: usize = if window == 0 { 1 } else { window };
        let n = self.smoothing.envelopes.len();
        self.squares = vec![0u64; n * w];
        self.sums = vec![0u128; n];
        self.window = w;
        self.position = 0;
        assert forall|c: int| 0 <= c < n implies #[trigger] self.sums@[c] as int
            == window_sum(self.squares@, c * w, w as nat) by {
            lemma_slot(c, w as int, 0, n as int);
            lemma_window_sum_zero(self.squares@, c * w, w as nat);
        }
    }

    /// Writes one channel's new squared magnitude into its window, and
    /// returns the level that the window then yields.
    fn push_square(&mut self, channel: usize, sq: u64) -> (r: u64)
        requires
            old(self).wf(),
            channel < old(self).channels(),
            sq <= SQUARE_BOUND,
        ensures
            final(self).wf(),
            final(self).smoothing == old(self).smoothing,
            final(self).window == old(self).window,
            final(self).position == old(self).position,
            final(self).window_us == old(self).window_us,
            final(self).squares@ == old(self).squares@.update(
                channel * old(self).window + old(self).position, sq),
            forall|c: int| 0 <= c < old(self).channels() && c != channel ==>
                #[trigger] final(self).sums@[c] == old(self).sums@[c],
            r == final(self).level(channel as int),
            r <= MAGNITUDE_BOUND,
    {
        let w = self.window;
        let n = self.smoothing.envelopes.len();
        proof {
            lemma_slot(channel as int, w as int, self.position as int, n as int);
        }
        let total = self.squares.len();
        let k: usize = channel * w + self.position;
        let prev: u64 = self.squares[k];
        let ghost before = self.squares@;
        let ghost sums_before = self.sums@;
        self.squares.set(k, sq);
        proof {
            assert forall|c: int| 0 <= c < n && c != channel implies #[trigger] window_sum(self.squares@, c * w, w as nat)
                    == window_sum(before, c * w, w as nat) by {
                lemma_slot(c, w as int, 0, n as int);
                lemma_window_sum_update(before, c * w, w as nat, k as int, sq);
                if c < channel {
                    assert((c + 1) * w <= channel * w) by (nonlinear_arith)
                        requires c + 1 <= channel, 0 < w;
                    assert((c + 1) * w == c * w + w) by (nonlinear_arith);
                } else if c > channel {
                    assert((channel + 1) * w <= c * w) by (nonlinear_arith)
                        requires channel + 1 <= c, 0 < w;
                    assert((channel + 1) * w == channel * w + w) by (nonlinear_arith);
                }
            }
            lemma_window_sum_update(before, channel * w, w as nat, k as int, sq);
            lemma_window_sum_bound(before, channel * w, w as nat, SQUARE_BOUND as int);
            assert(w * SQUARE_BOUND <= 0x4000_0000_0000_0000_0000_0000_0000_0000) by (nonlinear_arith)
                requires w <= usize::MAX;
            lemma_window_sum_update(before, channel * w, w as nat, k as int, 0);
            lemma_window_sum_bound(before.update(k as int, 0), channel * w, w as nat, SQUARE_BOUND as int);
            lemma_window_sum_bound(self.squares@, channel * w, w as nat, SQUARE_BOUND as int);
        }
        let sum: u128 = self.sums[channel as usize] - prev as u128 + sq as u128;
        self.sums.set(channel, sum);
        proof {
            lemma_window_sum_bound(self.squares@, channel * w, w as nat, SQUARE_BOUND as int);
            vstd::arithmetic::div_mod::lemma_div_is_ordered(sum as int, w * SQUARE_BOUND, w as int);
            vstd::arithmetic::div_mod::lemma_div_multiples_vanish(SQUARE_BOUND as int, w as int);
            assert(w * SQUARE_BOUND == SQUARE_BOUND * w) by (nonlinear_arith);
            assert forall|c: int| 0 <= c < n implies #[trigger] self.sums@[c] as int
                == window_sum(self.squares@, c * w, w as nat) by {
                if c != channel {
                    assert(self.sums@[c] == sums_before[c]);
                    assert(self.squares@.len() == n * w);
                }
            }
        }
        isqrt((sum / (w as u128)) as u64)
    }

    /// Feeds a frame, one sample per channel, and returns the new envelopes.
    pub fn next(&mut self, frame: &Vec<i32>) -> (r: Vec<u64>)
        requires
            old(self).wf(),
            frame@.len() == old(self).channels(),
        ensures
            final(self).wf(),
            rms_stepped(*old(self), *final(self), frame@),
            r@ == final(self).smoothing.envelopes@,
    {
        let n = frame.len();
        let w = self.window;
        let p = self.position;
        let mut c: usize = 0;
        while c < n
            invariant
                n == frame@.len(),
                c <= n,
                self.wf(),
                self.channels() == n,
                self.window == w,
                self.position == p,
                w == old(self).window,
                p == old(self).position,
                self.window_us == old(self).window_us,
                self.smoothing.attack == old(self).smoothing.attack,
                self.smoothing.release == old(self).smoothing.release,
                self.squares@.len() == old(self).squares@.len(),
                forall|k: int| 0 <= k < self.squares@.len() ==> #[trigger] self.squares@[k] as int
                    == (if k % (w as int) == p && k / (w as int) < c {
                        magnitude(frame@[k / (w as int)] as int) * magnitude(frame@[k / (w as int)] as int)
                    } else {
                        old(self).squares@[k] as int
                    }),
                forall|i: int| 0 <= i < c ==> #[trigger] self.smoothing.envelopes@[i] as int
                    == smooth(old(self).smoothing.envelopes@[i] as int, self.level(i),
                        old(self).smoothing.attack as int, old(self).smoothing.release as int),
                forall|i: int| c <= i < n ==> #[trigger] self.smoothing.envelopes@[i] == old(self).smoothing.envelopes@[i],
            decreases n - c,
        {
            let s = frame[c];
            let m: u64 = if s < 0 { (-(s as i64)) as u64 } else { s as u64 };
            proof {
                assert(m * m <= SQUARE_BOUND) by (nonlinear_arith)
                    requires m <= MAGNITUDE_BOUND;
            }
            let ghost prev = *self;
            let level = self.push_square(c, m * m);
            proof {
                lemma_slot(c as int, w as int, p as int, n as int);
                assert forall|k: int| 0 <= k < self.squares@.len() implies #[trigger] self.squares@[k] as int
                    == (if k % (w as int) == p && k / (w as int) < c + 1 {
                        magnitude(frame@[k / (w as int)] as int) * magnitude(frame@[k / (w as int)] as int)
                    } else {
                        old(self).squares@[k] as int
                    }) by {
                    if k != c * w + p {
                        if k % (w as int) == p && k / (w as int) == c {
                            vstd::arithmetic::div_mod::lemma_fundamental_div_mod(k, w as int);
                        }
                    }
                }
            }
            self.smoothing.next_level(c, level);
            proof {
                assert forall|i: int| 0 <= i < c implies #[trigger] self.level(i) == prev.level(i) by {
                    assert(self.sums@[i] == prev.sums@[i]);
                }
            }
            c = c + 1;
        }
        self.position = if p + 1 == w { 0 } else { p + 1 };
        proof {
            assert forall|k: int| 0 <= k < self.squares@.len() implies #[trigger] (k / (w as int)) < n by {
                vstd::arithmetic::div_mod::lemma_div_by_multiple_is_strongly_ordered(k, n * w, n as int, w as int);
                vstd::arithmetic::div_mod::lemma_div_multiples_vanish(n as int, w as int);
                assert(n * w == w * n) by (nonlinear_arith);
            }
            if p + 1 == w {
                vstd::arithmetic::div_mod::lemma_mod_self_0(w as int);
            } else {
                vstd::arithmetic::div_mod::lemma_small_mod((p + 1) as nat, w as nat);
            }
        }
        self.smoothing.envelopes.clone()
    }
}

/// `after` is `before` advanced by one frame: each channel's slot at the
/// current position holds the square of its new sample's magnitude, the
/// position moves on by one (wrapping at the window's end), and each
/// envelope takes one smoothing step toward the level of its window.
pub open spec fn rms_stepped(before: RmsEnvelopeDetector, after: RmsEnvelopeDetector, frame: Seq<i32>) -> bool {
    let w = before.window as int;
    &&& after.window == before.window
    &&& after.window_us == before.window_us
    &&& after.position as int == (before.position + 1) % w
    &&& after.smoothing.attack == before.smoothing.attack
    &&& after.smoothing.release == before.smoothing.release
    &&& after.channels() == before.channels()
    &&& after.squares@.len() == before.squares@.len()
    &&& forall|k: int| 0 <= k < after.squares@.len() ==> #[trigger] after.squares@[k] as int
        == (if k % w == before.position as int {
            magnitude(frame[k / w] as int) * magnitude(frame[k / w] as int)
        } else {
            before.squares@[k] as int
        })
    &&& forall|i: int| 0 <= i < frame.len() ==> #[trigger] after.smoothing.envelopes@[i] as int
        == smooth(before.smoothing.envelopes@[i] as int, after.level(i),
            before.smoothing.attack as int, before.smoothing.release as int)
}

/// What a detector holds, as plain values: for a peak detector `rms` is false,
/// `squares` is empty, `window` is one and `position` zero.
pub struct DetectorModel {
    /// The current envelope of each channel.
    pub envelopes: Seq<u64>,
    /// The attack coefficient.
    pub attack: u64,
    /// The release coefficient.
    pub release: u64,
    /// Whether the level is taken over a window (RMS) or from each sample (peak).
    pub rms: bool,
    /// The windows of squared magnitudes, one row of `window` slots per channel.
    pub squares: Seq<u64>,
    /// The number of slots in each window.
    pub window: nat,
    /// The slot that the next frame writes.
    pub position: nat,
    /// The duration of the window in microseconds (zero for a peak detector).
    pub window_us: u32,
}

/// The windows after a frame: in each row the slot at the position takes the
/// square of that channel's sample's magnitude.
pub open spec fn squares_after(m: DetectorModel, frame: Seq<i32>) -> Seq<u64> {
    let w = m.window as int;
    Seq::new(m.squares.len(), |k: int|
        if k % w == m.position as int {
            (magnitude(frame[k / w] as int) * magnitude(frame[k / w] as int)) as u64
        } else {
            m.squares[k]
        })
}

/// The detector after one frame: each envelope takes one smoothing step
/// toward its channel's level, which is the sample's magnitude for a peak
/// detector and the root mean square of the updated window for an RMS one.
pub open spec fn step(m: DetectorModel, frame: Seq<i32>) -> DetectorModel {
    let w = m.window as int;
    let squares = if m.rms { squares_after(m, frame) } else { m.squares };
    DetectorModel {
        envelopes: Seq::new(m.envelopes.len(), |i: int|
            smooth(
                m.envelopes[i] as int,
                if m.rms {
                    rms_level(window_sum(squares, i * w, m.window), w)
                } else {
                    magnitude(frame[i] as int)
                },
                m.attack as int,
                m.release as int,
            ) as u64),
        squares,
        position: if m.rms { ((m.position + 1) % m.window) as nat } else { m.position },
        ..m
    }
}

/// The detector with its window resized to `window` slots (at least one)
/// for a duration of `window_us`. A window of a new size starts empty; one of
/// the same size is kept. A peak detector has no window and is unchanged.
pub open spec fn with_window(m: DetectorModel, window: int, window_us: u32) -> DetectorModel {
    let w = if window == 0 { 1 } else { window };
    if !m.rms {
        m
    } else if w == m.window {
        DetectorModel { window_us, ..m }
    } else {
        DetectorModel {
            squares: Seq::new(m.envelopes.len() * (w as nat), |k: int| 0u64),
            window: w as nat,
            position: 0,
            window_us,
            ..m
        }
    }
}

/// The detector resized to `channels` channels: the envelopes of the
/// channels kept stay and new channels start silent; an RMS detector's
/// windows, keeping their size, start empty.
pub open spec fn with_channels(m: DetectorModel, channels: nat) -> DetectorModel {
    if m.rms {
        DetectorModel {
            envelopes: resized(m.envelopes, channels),
            squares: Seq::new(channels * m.window, |k: int| 0u64),
            position: 0,
            ..m
        }
    } else {
        DetectorModel { envelopes: resized(m.envelopes, channels), ..m }
    }
}

/// An envelope detector of either kind.
#[derive(Clone, Debug)]
pub enum Detector {
    /// Smooths each sample's magnitude.
    Peak(PeakEnvelopeDetector),
    /// Smooths the root mean square over a sliding window.
    Rms(RmsEnvelopeDetector),
}

impl Detector {
    /// The detector's own invariant.
    pub open spec fn wf(&self) -> bool {
        match self {
            Detector::Peak(d) => d.wf(),
            Detector::Rms(d) => d.wf(),
        }
    }

    /// What the detector holds.
    pub open spec fn view(&self) -> DetectorModel {
        match self {
            Detector::Peak(d) => DetectorModel {
                envelopes: d.envelopes@,
                attack: d.attack,
                release: d.release,
                rms: false,
                squares: Seq::empty(),
                window: 1,
                position: 0,
                window_us: 0,
            },
            Detector::Rms(d) => DetectorModel {
                envelopes: d.smoothing.envelopes@,
                attack: d.smoothing.attack,
                release: d.smoothing.release,
                rms: true,
                squares: d.squares@,
                window: d.window as nat,
                position: d.position as nat,
                window_us: d.window_us,
            },
        }
    }

    /// The number of channels.
    pub open spec fn channels(&self) -> nat {
        self@.envelopes.len()
    }

    /// The number of channels.
    pub fn channels_exec(&self) -> (r: usize)
        ensures
            r == self.channels(),
    {
        match self {
            Detector::Peak(d) => d.envelopes.len(),
            Detector::Rms(d) => d.smoothing.envelopes.len(),
        }
    }

    /// Feeds a frame, one sample per channel, and returns the new envelopes.
    pub fn next(&mut self, frame: &Vec<i32>) -> (r: Vec<u64>)
        requires
            old(self).wf(),
            frame@.len() == old(self).channels(),
        ensures
            final(self).wf(),
            final(self)@ == step(old(self)@, frame@),
            r@ == final(self)@.envelopes,
    {
        match self {
            Detector::Peak(d) => {
                let r = d.next(frame);
                proof {
                    assert(self@.envelopes =~= step(old(self)@, frame@).envelopes);
                }
                r
            },
            Detector::Rms(d) => {
                let r = d.next(frame);
                proof {
                    let m = old(self)@;
                    assert(self@.squares =~= squares_after(m, frame@));
                    assert(self@.envelopes =~= step(m, frame@).envelopes);
                }
                r
            },
        }
    }

    /// Sets the attack coefficient.
    pub fn set_attack(&mut self, attack: u64)
        requires
            old(self).wf(),
            coefficient_in_range(attack as int),
        ensures
            final(self).wf(),
            final(self)@ == (DetectorModel { attack, ..old(self)@ }),
    {
        match self {
            Detector::Peak(d) => d.set_attack(attack),
            Detector::Rms(d) => d.smoothing.set_attack(attack),
        }
    }

    /// Resizes to `channels` channels: see `with_channels`.
    pub fn set_channels(&mut self, channels: usize)
        requires
            old(self).wf(),
            channels * old(self)@.window <= usize::MAX,
        ensures
            final(self).wf(),
            final(self)@ == with_channels(old(self)@, channels as nat),
    {
        match self {
            Detector::Peak(d) => d.set_channels(channels),
            Detector::Rms(d) => {
                d.smoothing.set_channels(channels);
                let w = d.window;
                d.set_window(w);
                proof {
                    assert(self@.squares =~= with_channels(old(self)@, channels as nat).squares);
                }
            },
        }
    }

    /// Resizes an RMS detector's window: see `with_window`.
    pub fn set_window(&mut self, window: usize, window_us: u32)
        requires
            old(self).wf(),
            old(self).channels() * (if window == 0 { 1 } else { window as int }) <= usize::MAX,
        ensures
            final(self).wf(),
            final(self)@ == with_window(old(self)@, window as int, window_us),
    {
        match self {
            Detector::Peak(_) => {},
            Detector::Rms(d) => {
                let w: usize = if window == 0 { 1 } else { window };
                d.window_us = window_us;
                if w != d.window {
                    d.set_window(w);
                    proof {
                        let m = with_window(old(self)@, window as int, window_us);
                        assert(self@.squares =~= m.squares);
                    }
                }
            },
        }
    }

    /// Sets the release coefficient.
    pub fn set_release(&mut self, release: u64)
        requires
            old(self).wf(),
            coefficient_in_range(release as int),
        ensures
            final(self).wf(),
            final(self)@ == (DetectorModel { release, ..old(self)@ }),
    {
        match self {
            Detector::Peak(d) => d.set_release(release),
            Detector::Rms(d) => d.smoothing.set_release(release),
        }
    }
}

} // verus!
