//! Laws that relate the detector, the gain law and the compressor's settings.
use vstd::prelude::*;
use crate::fixed::{UNIT, div_trunc, lemma_sqrt_of_square};
use crate::gain::{gain_law, slope_of_ratio};
use crate::detector::{MAGNITUDE_BOUND, smooth, coefficient_in_range, lemma_share_below, DetectorModel, step,
    squares_after, window_sum, magnitude, rms_level, lemma_slot, lemma_window_sum_constant};
use crate::compressor::{channel_gains, scaled_frame_per_channel, with_attack, with_release};

verus! {

/// `b` to the power `e`.
pub open spec fn power(b: int, e: nat) -> int
    decreases e,
{
    if e == 0 {
        1
    } else {
        b * power(b, (e - 1) as nat)
    }
}

/// The envelope after `k` smoothing steps from `envelope` toward a constant `level`.
pub open spec fn smoothed(envelope: int, level: int, attack: int, release: int, k: nat) -> int
    decreases k,
{
    if k == 0 {
        envelope
    } else {
        smooth(smoothed(envelope, level, attack, release, (k - 1) as nat), level, attack, release)
    }
}

proof fn lemma_power_nonneg(b: int, e: nat)
    requires
        b >= 0,
    ensures
        power(b, e) >= 0,
    decreases e,
{
    if e > 0 {
        lemma_power_nonneg(b, (e - 1) as nat);
        assert(b * power(b, (e - 1) as nat) >= 0) by (nonlinear_arith)
            requires b >= 0, power(b, (e - 1) as nat) >= 0;
    }
}

/// Attack: fed a constant level from an envelope below it (a step up), the
/// envelope never falls, never passes the level, keeps at step `k` no more
/// than `(attack / UNIT)^k` of the distance it started at and no less than
/// that share less `k` (rounding takes at most one unit a step), and reaches
/// the level after at most as many steps as that distance.
pub proof fn attack_monotonic(envelope: int, level: int, attack: int, release: int, k: nat)
    requires
        0 <= envelope <= level <= MAGNITUDE_BOUND,
        coefficient_in_range(attack),
        coefficient_in_range(release),
    ensures
        envelope <= smoothed(envelope, level, attack, release, k),
        smoothed(envelope, level, attack, release, k) <= smoothed(envelope, level, attack, release, k + 1),
        smoothed(envelope, level, attack, release, k + 1) <= level,
        (level - smoothed(envelope, level, attack, release, k)) * power(UNIT as int, k)
            <= (level - envelope) * power(attack, k),
        (level - envelope) * power(attack, k)
            <= (level - smoothed(envelope, level, attack, release, k) + k) * power(UNIT as int, k),
        k >= level - envelope ==> smoothed(envelope, level, attack, release, k) == level,
        level - smoothed(envelope, level, attack, release, k) + k <= level - envelope
            || smoothed(envelope, level, attack, release, k) == level,
    decreases k,
{
    let d0 = level - envelope;
    if k == 0 {
        let e1 = smoothed(envelope, level, attack, release, 1);
        assert(smoothed(envelope, level, attack, release, 0) == envelope);
        assert(e1 == smooth(envelope, level, attack, release));
        lemma_share_below(attack, d0);
        lemma_share_below(release, 0);
        assert(release * 0 == 0);
    } else {
        let k1 = (k - 1) as nat;
        attack_monotonic(envelope, level, attack, release, k1);
        let ek = smoothed(envelope, level, attack, release, k);
        let ep = smoothed(envelope, level, attack, release, k1);
        let dp = level - ep;
        let dk = level - ek;
        assert(ek == smooth(ep, level, attack, release));
        lemma_share_below(attack, dp);
        lemma_share_below(attack, dk);
        lemma_share_below(release, 0);
        assert(release * 0 == 0);
        assert(attack * 0 == 0);
        assert(dk == attack * dp / (UNIT as int));
        let e2 = smoothed(envelope, level, attack, release, k + 1);
        assert(e2 == smooth(ek, level, attack, release));
        // the distance shrinks by the attack coefficient
        vstd::arithmetic::div_mod::lemma_fundamental_div_mod(attack * dp, UNIT as int);
        vstd::arithmetic::div_mod::lemma_mod_pos_bound(attack * dp, UNIT as int);
        assert(dk * UNIT <= attack * dp);
        let pu = power(UNIT as int, k1);
        let pa = power(attack, k1);
        lemma_power_nonneg(UNIT as int, k1);
        lemma_power_nonneg(attack, k1);
        assert(power(UNIT as int, k) == UNIT * pu);
        assert(power(attack, k) == attack * pa);
        assert(dk * (UNIT * pu) <= d0 * (attack * pa)) by (nonlinear_arith)
            requires
                dk * UNIT <= attack * dp,
                dp * pu <= d0 * pa,
                dk >= 0, pu >= 0, attack >= 0;
        assert(dk * UNIT >= attack * dp - UNIT);
        assert(d0 * (attack * pa) <= (dk + k) * (UNIT * pu)) by (nonlinear_arith)
            requires
                dk * UNIT >= attack * dp - UNIT,
                d0 * pa <= (dp + k1) * pu,
                k == k1 + 1, k1 >= 0, pu >= 0, 0 <= attack < UNIT, pa >= 0, d0 >= 0;
    }
}

/// Release: fed a constant level from an envelope above it (a step down), the
/// envelope never rises, never passes below the level, keeps at step `k` no
/// more than `(release / UNIT)^k` of the distance it started at and no less
/// than that share less `k` (rounding takes at most one unit a step), and
/// reaches the level after at most as many steps as that distance.
pub proof fn release_monotonic(envelope: int, level: int, attack: int, release: int, k: nat)
    requires
        0 <= level <= envelope <= MAGNITUDE_BOUND,
        coefficient_in_range(attack),
        coefficient_in_range(release),
    ensures
        smoothed(envelope, level, attack, release, k) <= envelope,
        smoothed(envelope, level, attack, release, k + 1) <= smoothed(envelope, level, attack, release, k),
        level <= smoothed(envelope, level, attack, release, k + 1),
        (smoothed(envelope, level, attack, release, k) - level) * power(UNIT as int, k)
            <= (envelope - level) * power(release, k),
        (envelope - level) * power(release, k)
            <= (smoothed(envelope, level, attack, release, k) - level + k) * power(UNIT as int, k),
        k >= envelope - level ==> smoothed(envelope, level, attack, release, k) == level,
        smoothed(envelope, level, attack, release, k) - level + k <= envelope - level
            || smoothed(envelope, level, attack, release, k) == level,
    decreases k,
{
    let d0 = envelope - level;
    if k == 0 {
        let e1 = smoothed(envelope, level, attack, release, 1);
        assert(smoothed(envelope, level, attack, release, 0) == envelope);
        assert(e1 == smooth(envelope, level, attack, release));
        lemma_share_below(release, d0);
    } else {
        let k1 = (k - 1) as nat;
        release_monotonic(envelope, level, attack, release, k1);
        let ek = smoothed(envelope, level, attack, release, k);
        let ep = smoothed(envelope, level, attack, release, k1);
        let dp = ep - level;
        let dk = ek - level;
        assert(ek == smooth(ep, level, attack, release));
        lemma_share_below(release, dp);
        lemma_share_below(release, dk);
        assert(dk == release * dp / (UNIT as int));
        let e2 = smoothed(envelope, level, attack, release, k + 1);
        assert(e2 == smooth(ek, level, attack, release));
        vstd::arithmetic::div_mod::lemma_fundamental_div_mod(release * dp, UNIT as int);
        vstd::arithmetic::div_mod::lemma_mod_pos_bound(release * dp, UNIT as int);
        assert(dk * UNIT <= release * dp);
        let pu = power(UNIT as int, k1);
        let pr = power(release, k1);
        lemma_power_nonneg(UNIT as int, k1);
        lemma_power_nonneg(release, k1);
        assert(power(UNIT as int, k) == UNIT * pu);
        assert(power(release, k) == release * pr);
        assert(dk * (UNIT * pu) <= d0 * (release * pr)) by (nonlinear_arith)
            requires
                dk * UNIT <= release * dp,
                dp * pu <= d0 * pr,
                dk >= 0, pu >= 0, release >= 0;
        assert(dk * UNIT >= release * dp - UNIT);
        assert(d0 * (release * pr) <= (dk + k) * (UNIT * pu)) by (nonlinear_arith)
            requires
                dk * UNIT >= release * dp - UNIT,
                d0 * pr <= (dp + k1) * pu,
                k == k1 + 1, k1 >= 0, pu >= 0, 0 <= release < UNIT, pr >= 0, d0 >= 0;
    }
}

/// At the threshold exactly there is no attenuation, whatever the slope.
pub proof fn gain_at_threshold(threshold: int, slope: int)
    ensures
        gain_law(threshold, threshold, slope) == UNIT,
{
}

/// Above the threshold by `delta` (the envelope within unity), the gain is
/// unity less `delta * slope`, in fixed point rounded toward zero.
pub proof fn gain_above_threshold(threshold: int, delta: int, slope: int)
    requires
        delta > 0,
        threshold + delta <= UNIT,
    ensures
        gain_law(threshold + delta, threshold, slope) == UNIT - div_trunc(delta * slope, UNIT as int),
{
}

/// A ratio of 1:1 gives a slope of zero, and then no envelope is attenuated.
pub proof fn unity_ratio_no_compression(envelope: int, threshold: int)
    ensures
        slope_of_ratio(UNIT as int) == 0,
        gain_law(envelope, threshold, slope_of_ratio(UNIT as int)) == UNIT,
{
    assert((UNIT * UNIT) / (UNIT as int) == UNIT) by {
        vstd::arithmetic::div_mod::lemma_div_multiples_vanish(UNIT as int, UNIT as int);
    }
    let level = if envelope > UNIT { UNIT as int } else { envelope };
    assert((level - threshold) * 0 == 0);
}

/// A larger ratio never gives a smaller slope, and no ratio that fits in a
/// `u32` reaches a slope of one.
pub proof fn slope_grows_with_ratio(r1: int, r2: int)
    requires
        0 < r1 <= r2 <= u32::MAX,
    ensures
        slope_of_ratio(r1) <= slope_of_ratio(r2) < UNIT,
{
    vstd::arithmetic::div_mod::lemma_div_is_ordered_by_denominator(UNIT * UNIT, r1, r2);
    vstd::arithmetic::div_mod::lemma_div_is_ordered(r2, UNIT * UNIT, r2);
    vstd::arithmetic::div_mod::lemma_div_by_self(r2);
}

/// A ratio above `UNIT * UNIT / 2` (over 32768:1) gives the slope next to one,
/// and the gain then stays within `delta / UNIT + 1` above hard limiting,
/// `UNIT - delta`, where the envelope (within unity) exceeds the threshold by
/// `delta`.
pub proof fn large_ratio_limits(ratio: int, threshold: int, delta: int)
    requires
        UNIT * UNIT / 2 < ratio <= u32::MAX,
        delta > 0,
        threshold + delta <= UNIT,
    ensures
        slope_of_ratio(ratio) == UNIT - 1,
        UNIT - delta < gain_law(threshold + delta, threshold, slope_of_ratio(ratio)),
        gain_law(threshold + delta, threshold, slope_of_ratio(ratio)) <= UNIT - delta + delta / (UNIT as int) + 1,
{
    let uu = UNIT * UNIT;
    vstd::arithmetic::div_mod::lemma_fundamental_div_mod(uu, ratio);
    vstd::arithmetic::div_mod::lemma_mod_pos_bound(uu, ratio);
    let q = uu / ratio;
    assert(q == 1) by (nonlinear_arith)
        requires uu == ratio * q + uu % ratio, 0 <= uu % ratio < ratio, uu / 2 < ratio, ratio < uu, uu == 0x1_0000_0000, q == uu / ratio;
    let p = delta * (UNIT - 1);
    vstd::arithmetic::div_mod::lemma_fundamental_div_mod(p, UNIT as int);
    vstd::arithmetic::div_mod::lemma_mod_pos_bound(p, UNIT as int);
    vstd::arithmetic::div_mod::lemma_fundamental_div_mod(delta, UNIT as int);
    vstd::arithmetic::div_mod::lemma_mod_pos_bound(delta, UNIT as int);
    let t = p / (UNIT as int);
    let dq = delta / (UNIT as int);
    assert(delta - dq - 1 <= t < delta) by (nonlinear_arith)
        requires
            p == delta * (UNIT - 1),
            p == UNIT * t + p % (UNIT as int),
            0 <= p % (UNIT as int) < UNIT,
            delta == UNIT * dq + delta % (UNIT as int),
            0 <= delta % (UNIT as int) < UNIT,
            delta > 0;
}

/// Each channel's envelope after a frame, and so its gain and its scaled
/// sample, depend on that channel's own sample and state alone: two
/// detectors that agree on channel `i` (its envelope and, for RMS, its row of
/// the window) and on the settings give channel `i` the same result, whatever
/// the other channels hold.
pub proof fn per_channel_independent(m1: DetectorModel, m2: DetectorModel, f1: Seq<i32>, f2: Seq<i32>, i: int,
    threshold: i32, slope: i64)
    requires
        f1.len() == m1.envelopes.len(),
        f2.len() == m2.envelopes.len(),
        0 <= i < f1.len(),
        0 <= i < f2.len(),
        f1[i] == f2[i],
        m1.envelopes[i] == m2.envelopes[i],
        m1.attack == m2.attack,
        m1.release == m2.release,
        m1.rms == m2.rms,
        m1.rms ==> {
            &&& m1.window == m2.window
            &&& m1.position == m2.position
            &&& m1.window >= 1
            &&& m1.squares.len() == m1.envelopes.len() * m1.window
            &&& m2.squares.len() == m2.envelopes.len() * m2.window
            &&& forall|j: int| 0 <= j < m1.window ==> #[trigger] m1.squares[i * m1.window + j]
                == m2.squares[i * m2.window + j]
        },
    ensures
        step(m1, f1).envelopes[i] == step(m2, f2).envelopes[i],
        scaled_frame_per_channel(f1, channel_gains(step(m1, f1).envelopes, threshold, slope))[i]
            == scaled_frame_per_channel(f2, channel_gains(step(m2, f2).envelopes, threshold, slope))[i],
{
    if m1.rms {
        let w = m1.window as int;
        let s1 = squares_after(m1, f1);
        let s2 = squares_after(m2, f2);
        assert forall|j: int| 0 <= j < w implies #[trigger] s1[i * w + j] == s2[i * w + j] by {
            crate::detector::lemma_slot(i, w, j, f1.len() as int);
            crate::detector::lemma_slot(i, w, j, f2.len() as int);
        }
        lemma_window_sum_ext(s1, s2, i * w, m1.window);
    }
}

/// Sums over ranges that agree entry by entry are equal.
proof fn lemma_window_sum_ext(s1: Seq<u64>, s2: Seq<u64>, start: int, len: nat)
    requires
        forall|j: int| 0 <= j < len ==> #[trigger] s1[start + j] == s2[start + j],
    ensures
        window_sum(s1, start, len) == window_sum(s2, start, len),
    decreases len,
{
    if len > 0 {
        lemma_window_sum_ext(s1, s2, start, (len - 1) as nat);
        assert(s1[start + (len - 1)] == s2[start + (len - 1)]);
    }
}

/// Setting the attack duration twice to the same value at the same rate
/// leaves the detector as setting it once does.
pub proof fn set_attack_idempotent(m: DetectorModel, us: u32, sample_hz: u32)
    ensures
        with_attack(with_attack(m, us, sample_hz), us, sample_hz) == with_attack(m, us, sample_hz),
{
}

/// Setting the release duration twice to the same value at the same rate
/// leaves the detector as setting it once does.
pub proof fn set_release_idempotent(m: DetectorModel, us: u32, sample_hz: u32)
    ensures
        with_release(with_release(m, us, sample_hz), us, sample_hz) == with_release(m, us, sample_hz),
{
}

/// The detector after `k` frames that are all `frame`: a sustained input.
pub open spec fn sustained(m: DetectorModel, frame: Seq<i32>, k: nat) -> DetectorModel
    decreases k,
{
    if k == 0 {
        m
    } else {
        step(sustained(m, frame, (k - 1) as nat), frame)
    }
}

/// The slot that the `t`-th frame from position `p` writes, in a window of `w`.
pub open spec fn slot_of(p: int, t: int, w: int) -> int {
    (p + t) % w
}

/// Fed a sustained frame, a peak detector's channel follows `smoothed`: its
/// envelope after `k` frames is `k` smoothing steps toward the magnitude of
/// its sample.
proof fn lemma_peak_sustained(m: DetectorModel, frame: Seq<i32>, i: int, k: nat)
    requires
        !m.rms,
        frame.len() == m.envelopes.len(),
        0 <= i < frame.len(),
        m.envelopes[i] <= MAGNITUDE_BOUND,
        coefficient_in_range(m.attack as int),
        coefficient_in_range(m.release as int),
    ensures
        !sustained(m, frame, k).rms,
        sustained(m, frame, k).envelopes.len() == m.envelopes.len(),
        sustained(m, frame, k).attack == m.attack,
        sustained(m, frame, k).release == m.release,
        sustained(m, frame, k).envelopes[i] as int == smoothed(m.envelopes[i] as int,
            magnitude(frame[i] as int), m.attack as int, m.release as int, k),
    decreases k,
{
    if k > 0 {
        let k1 = (k - 1) as nat;
        lemma_peak_sustained(m, frame, i, k1);
        let e0 = m.envelopes[i] as int;
        let level = magnitude(frame[i] as int);
        let (a, r) = (m.attack as int, m.release as int);
        if e0 <= level {
            attack_monotonic(e0, level, a, r, k1);
        } else {
            release_monotonic(e0, level, a, r, k1);
        }
        assert(smoothed(e0, level, a, r, k) == smooth(smoothed(e0, level, a, r, k1), level, a, r));
    }
}

/// Attack, for a peak detector: while a channel is fed a sample whose
/// magnitude is at least its envelope (a step up), its envelope never falls,
/// never passes that magnitude, keeps at frame `k` no more than
/// `(attack / UNIT)^k` of the distance it started at and no less than that
/// share less `k`, and reaches the magnitude after at most as many frames as
/// that distance.
pub proof fn peak_attack_monotonic(m: DetectorModel, frame: Seq<i32>, i: int, k: nat)
    requires
        !m.rms,
        frame.len() == m.envelopes.len(),
        0 <= i < frame.len(),
        m.envelopes[i] <= magnitude(frame[i] as int),
        coefficient_in_range(m.attack as int),
        coefficient_in_range(m.release as int),
    ensures
        sustained(m, frame, k).envelopes[i] <= sustained(m, frame, k + 1).envelopes[i],
        sustained(m, frame, k + 1).envelopes[i] <= magnitude(frame[i] as int),
        (magnitude(frame[i] as int) - sustained(m, frame, k).envelopes[i]) * power(UNIT as int, k)
            <= (magnitude(frame[i] as int) - m.envelopes[i]) * power(m.attack as int, k),
        (magnitude(frame[i] as int) - m.envelopes[i]) * power(m.attack as int, k)
            <= (magnitude(frame[i] as int) - sustained(m, frame, k).envelopes[i] + k) * power(UNIT as int, k),
        k >= magnitude(frame[i] as int) - m.envelopes[i] ==> sustained(m, frame, k).envelopes[i]
            == magnitude(frame[i] as int),
{
    lemma_peak_sustained(m, frame, i, k);
    lemma_peak_sustained(m, frame, i, k + 1);
    attack_monotonic(m.envelopes[i] as int, magnitude(frame[i] as int), m.attack as int, m.release as int, k);
}

/// Release, for a peak detector: while a channel is fed a sample whose
/// magnitude is at most its envelope (a step down), its envelope never
/// rises, never passes below that magnitude, keeps at frame `k` no more than
/// `(release / UNIT)^k` of the distance it started at and no less than that
/// share less `k`, and reaches the magnitude after at most as many frames as
/// that distance. The attack coefficient plays no part.
pub proof fn peak_release_monotonic(m: DetectorModel, frame: Seq<i32>, i: int, k: nat)
    requires
        !m.rms,
        frame.len() == m.envelopes.len(),
        0 <= i < frame.len(),
        magnitude(frame[i] as int) <= m.envelopes[i] <= MAGNITUDE_BOUND,
        coefficient_in_range(m.attack as int),
        coefficient_in_range(m.release as int),
    ensures
        sustained(m, frame, k + 1).envelopes[i] <= sustained(m, frame, k).envelopes[i],
        magnitude(frame[i] as int) <= sustained(m, frame, k + 1).envelopes[i],
        (sustained(m, frame, k).envelopes[i] - magnitude(frame[i] as int)) * power(UNIT as int, k)
            <= (m.envelopes[i] - magnitude(frame[i] as int)) * power(m.release as int, k),
        (m.envelopes[i] - magnitude(frame[i] as int)) * power(m.release as int, k)
            <= (sustained(m, frame, k).envelopes[i] - magnitude(frame[i] as int) + k) * power(UNIT as int, k),
        k >= m.envelopes[i] - magnitude(frame[i] as int) ==> sustained(m, frame, k).envelopes[i]
            == magnitude(frame[i] as int),
{
    lemma_peak_sustained(m, frame, i, k);
    lemma_peak_sustained(m, frame, i, k + 1);
    release_monotonic(m.envelopes[i] as int, magnitude(frame[i] as int), m.attack as int, m.release as int, k);
}

/// An RMS detector with a window of at least one slot per channel.
pub open spec fn rms_shaped(m: DetectorModel) -> bool {
    &&& m.rms
    &&& m.window >= 1
    &&& m.position < m.window
    &&& m.squares.len() == m.envelopes.len() * m.window
}

/// The detector after the first `k` of `frames`, in order.
pub open spec fn fed(m: DetectorModel, frames: Seq<Seq<i32>>, k: nat) -> DetectorModel
    decreases k,
{
    if k == 0 {
        m
    } else {
        step(fed(m, frames, (k - 1) as nat), frames[k - 1])
    }
}

/// Channel `c` of each of the first `k` frames has magnitude `a`, and every
/// frame has one sample per channel.
pub open spec fn steady_channel(frames: Seq<Seq<i32>>, channels: nat, c: int, a: int, k: nat) -> bool {
    &&& k <= frames.len()
    &&& forall|t: int| 0 <= t < k ==> (#[trigger] frames[t]).len() == channels
        && magnitude(frames[t][c] as int) == a
}

proof fn lemma_fed_fills(m: DetectorModel, frames: Seq<Seq<i32>>, c: int, a: int, k: nat)
    requires
        rms_shaped(m),
        0 <= c < m.envelopes.len(),
        steady_channel(frames, m.envelopes.len(), c, a, k),
    ensures
        rms_shaped(fed(m, frames, k)),
        fed(m, frames, k).envelopes.len() == m.envelopes.len(),
        fed(m, frames, k).window == m.window,
        fed(m, frames, k).attack == m.attack,
        fed(m, frames, k).release == m.release,
        fed(m, frames, k).position as int == (m.position as int + k as int) % (m.window as int),
        forall|j: int| 0 <= j < m.window && (exists|t: int| 0 <= t < k && #[trigger] slot_of(m.position as int, t, m.window as int) == j)
            ==> #[trigger] fed(m, frames, k).squares[c * m.window + j] == a * a,
    decreases k,
{
    let w = m.window as int;
    let first = m.position as int;
    if k == 0 {
        vstd::arithmetic::div_mod::lemma_small_mod(m.position, m.window);
    } else {
        let k1 = (k - 1) as nat;
        lemma_fed_fills(m, frames, c, a, k1);
        let frame = frames[k1 as int];
        assert(frame.len() == m.envelopes.len() && magnitude(frame[c] as int) == a);
        let prev = fed(m, frames, k1);
        let next = fed(m, frames, k);
        assert(next == step(prev, frame));
        assert(next.squares == squares_after(prev, frame));
        vstd::arithmetic::div_mod::lemma_mod_pos_bound(first + k1, w);
        vstd::arithmetic::div_mod::lemma_add_mod_noop(first + k1, 1, w);
        vstd::arithmetic::div_mod::lemma_mod_pos_bound(1, w);
        if w == 1 {
            vstd::arithmetic::div_mod::lemma_mod_self_0(1);
        } else {
            vstd::arithmetic::div_mod::lemma_small_mod(1, w as nat);
        }
        assert((prev.position as int + 1) % w == (first + k) % w);
        vstd::arithmetic::div_mod::lemma_mod_pos_bound(first + k, w);
        assert forall|j: int| 0 <= j < m.window && (exists|t: int| 0 <= t < k && #[trigger] slot_of(first, t, w) == j)
            implies #[trigger] next.squares[c * m.window + j] == a * a by {
            lemma_slot(c, w, j, frame.len() as int);
            let idx = c * w + j;
            let t = choose|t: int| 0 <= t < k && #[trigger] slot_of(first, t, w) == j;
            if t < k1 {
                assert(exists|t: int| 0 <= t < k1 && #[trigger] slot_of(first, t, w) == j);
                assert(prev.squares[idx] == a * a);
            } else {
                assert(j == prev.position);
            }
            assert(squares_after(prev, frame)[idx] == next.squares[idx]);
            if idx % w == prev.position as int {
                assert(idx / w == c);
                assert(0 <= a * a <= 0x4000_0000_0000_0000) by (nonlinear_arith)
                    requires 0 <= a <= 0x8000_0000;
            }
        }
    }
}

proof fn lemma_full_window_level(m: DetectorModel, frames: Seq<Seq<i32>>, c: int, a: int, k: nat)
    requires
        rms_shaped(m),
        0 <= c < m.envelopes.len(),
        steady_channel(frames, m.envelopes.len(), c, a, k),
        k >= m.window,
    ensures
        forall|j: int| 0 <= j < m.window ==> #[trigger] fed(m, frames, k).squares[c * m.window + j] == a * a,
        rms_level(window_sum(fed(m, frames, k).squares, c * m.window, m.window), m.window as int) == a,
{
    let w = m.window as int;
    let p = m.position as int;
    lemma_fed_fills(m, frames, c, a, k);
    let s = fed(m, frames, k);
    assert forall|j: int| 0 <= j < m.window implies #[trigger] s.squares[c * m.window + j] == a * a by {
        let t = if j >= p { j - p } else { j - p + w };
        if j >= p {
            vstd::arithmetic::div_mod::lemma_small_mod(j as nat, w as nat);
        } else {
            vstd::arithmetic::div_mod::lemma_mod_add_multiples_vanish(j, w);
            vstd::arithmetic::div_mod::lemma_small_mod(j as nat, w as nat);
        }
        assert(slot_of(p, t, w) == j);
    }
    lemma_slot(c, w, 0, m.envelopes.len() as int);
    assert forall|i: int| c * w <= i < c * w + w implies #[trigger] s.squares[i] == a * a by {
        assert(s.squares[c * m.window + (i - c * w)] == a * a);
    }
    lemma_window_sum_constant(s.squares, c * w, m.window, a * a);
    assert(a * a >= 0) by (nonlinear_arith)
        requires a >= 0;
    vstd::arithmetic::div_mod::lemma_div_multiples_vanish(a * a, w);
    assert(m.window * (a * a) == w * (a * a));
    lemma_sqrt_of_square(a);
}

/// An input whose magnitude in a channel stays `a` (its sign may change) for
/// at least a window's length fills that channel's window: every slot then
/// holds `a * a`, the level that the window yields is `a` exactly, and from
/// then on each frame moves the envelope one smoothing step toward `a`, so
/// that attack or release takes it to `a` as for a peak detector.
pub proof fn rms_window_converges(m: DetectorModel, frames: Seq<Seq<i32>>, c: int, a: int, k: nat)
    requires
        rms_shaped(m),
        0 <= c < m.envelopes.len(),
        steady_channel(frames, m.envelopes.len(), c, a, k),
        k >= m.window,
    ensures
        forall|j: int| 0 <= j < m.window ==> #[trigger] fed(m, frames, k).squares[c * m.window + j] == a * a,
        rms_level(window_sum(fed(m, frames, k).squares, c * m.window, m.window), m.window as int) == a,
        fed(m, frames, k).envelopes[c] == smooth(fed(m, frames, (k - 1) as nat).envelopes[c] as int, a,
            m.attack as int, m.release as int) as u64,
{
    lemma_full_window_level(m, frames, c, a, k);
    let k1 = (k - 1) as nat;
    lemma_fed_fills(m, frames, c, a, k1);
    let prev = fed(m, frames, k1);
    assert(fed(m, frames, k) == step(prev, frames[k1 as int]));
    assert(frames[k1 as int].len() == m.envelopes.len());
}

} // verus!
