//! The threshold / ratio gain law.
use vstd::prelude::*;
use crate::fixed::{UNIT, div_trunc, clip_i32, div_trunc_i128, clip_to_i32};

verus! {

/// No gain that the law yields is larger than this in magnitude.
pub const GAIN_BOUND: i64 = 0x4_0000_0000_0000;

/// The slope that a compression ratio (in fixed point) yields: `1 - 1 / ratio`.
pub open spec fn slope_of_ratio(ratio: int) -> int {
    UNIT - (UNIT * UNIT) / ratio
}

/// The gain for an envelope value, given the threshold and slope.
///
/// The envelope is first limited to at most `UNIT`. At or below the threshold
/// the gain is `UNIT`; above it, the excess is scaled by the slope and taken
/// off `UNIT`. The gain itself is not limited: extreme settings may make it
/// negative.
pub open spec fn gain_law(envelope: int, threshold: int, slope: int) -> int {
    let level = if envelope > UNIT { UNIT as int } else { envelope };
    if level > threshold {
        UNIT - div_trunc((level - threshold) * slope, UNIT as int)
    } else {
        UNIT as int
    }
}

/// What a gain does to a sample: the product, rounded toward zero and
/// limited to the range of `i32`.
pub open spec fn scaled_sample(sample: int, gain: int) -> int {
    clip_i32(div_trunc(sample * gain, UNIT as int))
}

/// A slope as `slope_of_ratio` yields it for a ratio that fits in a `u32`.
pub open spec fn slope_in_range(slope: int) -> bool {
    UNIT - 0x1_0000_0000 <= slope < UNIT
}

/// A gain of at most `GAIN_BOUND` in magnitude.
pub open spec fn gain_in_range(g: int) -> bool {
    -GAIN_BOUND <= g <= GAIN_BOUND
}

/// Derives the slope from a compression ratio in fixed point (`UNIT` is 1:1).
pub fn calc_slope(ratio: u32) -> (r: i64)
    requires
        ratio > 0,
    ensures
        r == slope_of_ratio(ratio as int),
        slope_in_range(r as int),
{
    let q: i64 = (UNIT * UNIT) / (ratio as i64);
    proof {
        vstd::arithmetic::div_mod::lemma_div_is_ordered_by_denominator(UNIT * UNIT, 1, ratio as int);
        assert((UNIT * UNIT) / (ratio as int) >= 1) by {
            vstd::arithmetic::div_mod::lemma_div_is_ordered(ratio as int, UNIT * UNIT, ratio as int);
            vstd::arithmetic::div_mod::lemma_div_is_ordered_by_denominator(UNIT * UNIT, ratio as int, u32::MAX as int);
        }
    }
    UNIT - q
}

/// The gain for one envelope value: see `gain_law`.
pub fn channel_gain(envelope: u64, threshold: i32, slope: i64) -> (r: i64)
    requires
        slope_in_range(slope as int),
    ensures
        r == gain_law(envelope as int, threshold as int, slope as int),
        gain_in_range(r as int),
{
    let level: i128 = if envelope > UNIT as u64 { UNIT as i128 } else { envelope as i128 };
    if level > threshold as i128 {
        let excess: i128 = level - threshold as i128;
        proof {
            assert(0 < excess <= UNIT + 0x8000_0000);
            assert(-0x1_0001_0000_0000_0000 <= excess * slope <= 0x1_0001_0000_0000_0000) by (nonlinear_arith)
                requires 0 < excess <= UNIT + 0x8000_0000, UNIT - 0x1_0000_0000 <= slope < UNIT;
        }
        let q = div_trunc_i128(excess * (slope as i128), UNIT as i128);
        proof {
            let p = excess * slope;
            if p >= 0 {
                vstd::arithmetic::div_mod::lemma_div_is_ordered(p, 0x1_0001_0000_0000_0000, UNIT as int);
            } else {
                vstd::arithmetic::div_mod::lemma_div_is_ordered(-p, 0x1_0001_0000_0000_0000, UNIT as int);
            }
            assert(0x1_0001_0000_0000_0000int / (UNIT as int) == 0x1_0001_0000_0000);
        }
        (UNIT as i128 - q) as i64
    } else {
        UNIT
    }
}

/// Applies a gain to a sample: see `scaled_sample`.
pub fn apply_gain(sample: i32, gain: i64) -> (r: i32)
    requires
        gain_in_range(gain as int),
    ensures
        r == scaled_sample(sample as int, gain as int),
{
    proof {
        assert(-0x2_0000_0000_0000_0000_0000 <= (sample as int) * (gain as int) <= 0x2_0000_0000_0000_0000_0000)
            by (nonlinear_arith)
            requires
                -0x8000_0000 <= sample <= 0x8000_0000,
                -GAIN_BOUND <= gain <= GAIN_BOUND;
    }
    let p: i128 = (sample as i128) * (gain as i128);
    clip_to_i32(div_trunc_i128(p, UNIT as i128))
}

} // verus!
