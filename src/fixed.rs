//! Fixed-point arithmetic shared by the detector and the gain law.
use vstd::prelude::*;

verus! {

/// The fixed-point representation of `1.0` (16 fractional bits).
pub const UNIT: i64 = 65536;

/// Division of `a` by a positive `d`, rounded toward zero.
pub open spec fn div_trunc(a: int, d: int) -> int {
    if a >= 0 {
        a / d
    } else {
        -((-a) / d)
    }
}

/// `x` limited to the range of `i32`.
pub open spec fn clip_i32(x: int) -> int {
    if x > i32::MAX {
        i32::MAX as int
    } else if x < i32::MIN {
        i32::MIN as int
    } else {
        x
    }
}

/// The number of samples that `us` microseconds last at `sample_hz`, rounded down.
pub open spec fn us_to_frames(us: int, sample_hz: int) -> int {
    us * sample_hz / 1_000_000
}

/// The smoothing coefficient for a time constant of `us` microseconds at `sample_hz`.
///
/// With `n = us * sample_hz / 1_000_000` samples, the coefficient approximates
/// `exp(-1 / n)` by its [1/1] Padé approximant `(2n - 1) / (2n + 1)`, that is
/// `(2 * us * sample_hz - 1_000_000) / (2 * us * sample_hz + 1_000_000)`, scaled by
/// `UNIT` and rounded down. Below half a sample it is zero: the envelope then
/// follows its input at once.
///
/// This is an approximation, not `exp` itself: the two differ by about
/// `1 / (12 n^3)`, which is under one fixed-point unit from about 20
/// samples up (time constants of half a millisecond or more at 44.1 kHz),
/// and reaches 0.035 (2264 units) at one sample. Verus has no exponential
/// to state a bound against, so the contracts speak of this formula.
pub open spec fn decay_coefficient(us: int, sample_hz: int) -> int {
    let twice = 2 * us * sample_hz;
    if twice <= 1_000_000 {
        0
    } else {
        UNIT * (twice - 1_000_000) / (twice + 1_000_000)
    }
}

/// Rounds `a / d` toward zero for a positive `d`.
pub fn div_trunc_i128(a: i128, d: i128) -> (r: i128)
    requires
        d > 0,
        a > i128::MIN,
    ensures
        r == div_trunc(a as int, d as int),
{
    if a >= 0 {
        a / d
    } else {
        -((-a) / d)
    }
}

/// Limits `x` to the range of `i32`.
pub fn clip_to_i32(x: i128) -> (r: i32)
    ensures
        r == clip_i32(x as int),
{
    if x > i32::MAX as i128 {
        i32::MAX
    } else if x < i32::MIN as i128 {
        i32::MIN
    } else {
        x as i32
    }
}

/// The number of whole samples that `us` microseconds last at `sample_hz`.
pub fn frames_of_us(us: u32, sample_hz: u32) -> (r: u64)
    ensures
        r == us_to_frames(us as int, sample_hz as int),
{
    proof {
        vstd::arithmetic::mul::lemma_mul_upper_bound(us as int, u32::MAX as int, sample_hz as int, u32::MAX as int);
    }
    (us as u64) * (sample_hz as u64) / 1_000_000
}

/// Derives the smoothing coefficient for `us` microseconds at `sample_hz`.
pub fn coefficient_of_us(us: u32, sample_hz: u32) -> (r: u64)
    ensures
        r == decay_coefficient(us as int, sample_hz as int),
        r < UNIT,
{
    proof {
        vstd::arithmetic::mul::lemma_mul_upper_bound(us as int, u32::MAX as int, sample_hz as int, u32::MAX as int);
    }
    let twice: u128 = 2 * ((us as u128) * (sample_hz as u128));
    assert(twice == 2 * (us as int) * (sample_hz as int)) by (nonlinear_arith)
        requires twice == 2 * ((us as int) * (sample_hz as int));
    if twice <= 1_000_000 {
        0
    } else {
        let num: u128 = (UNIT as u128) * (twice - 1_000_000);
        let den: u128 = twice + 1_000_000;
        proof {
            assert(num < UNIT * den) by (nonlinear_arith)
                requires num == UNIT * (twice - 1_000_000), den == twice + 1_000_000;
            vstd::arithmetic::div_mod::lemma_div_by_multiple_is_strongly_ordered(num as int, UNIT * den, UNIT as int, den as int);
            vstd::arithmetic::div_mod::lemma_div_multiples_vanish(UNIT as int, den as int);
            assert(UNIT * den == den * UNIT) by (nonlinear_arith);
        }
        (num / den) as u64
    }
}

/// `r` is the square root of `n`, rounded down.
pub open spec fn is_root_floor(r: int, n: int) -> bool {
    0 <= r && r * r <= n < (r + 1) * (r + 1)
}

/// The square root of `n`, rounded down.
pub open spec fn sqrt_floor(n: int) -> int {
    choose|r: int| is_root_floor(r, n)
}

/// A number has one rounded-down square root at most.
pub proof fn lemma_root_floor_unique(r: int, s: int, n: int)
    requires
        is_root_floor(r, n),
        is_root_floor(s, n),
    ensures
        r == s,
{
    if r < s {
        assert((r + 1) * (r + 1) <= s * s) by (nonlinear_arith)
            requires 0 <= r, r + 1 <= s;
    } else if s < r {
        assert((s + 1) * (s + 1) <= r * r) by (nonlinear_arith)
            requires 0 <= s, s + 1 <= r;
    }
}

/// Where `r` is a rounded-down square root of `n`, it is `sqrt_floor(n)`.
pub proof fn lemma_sqrt_floor_is(r: int, n: int)
    requires
        is_root_floor(r, n),
    ensures
        sqrt_floor(n) == r,
{
    let s = sqrt_floor(n);
    assert(is_root_floor(s, n));
    lemma_root_floor_unique(r, s, n);
}

/// The square root of `a * a` is `a`.
pub proof fn lemma_sqrt_of_square(a: int)
    requires
        a >= 0,
    ensures
        sqrt_floor(a * a) == a,
{
    assert(a * a < (a + 1) * (a + 1)) by (nonlinear_arith)
        requires a >= 0;
    lemma_sqrt_floor_is(a, a * a);
}

/// The square root of `n`, rounded down, found by bisection.
pub fn isqrt(n: u64) -> (r: u64)
    requires
        n <= 0x4000_0000_0000_0000,
    ensures
        r == sqrt_floor(n as int),
        r <= 0x8000_0000,
{
    let mut lo: u64 = 0;
    let mut hi: u64 = 0x8000_0001;
    assert(hi * hi > n) by (nonlinear_arith)
        requires hi == 0x8000_0001, n <= 0x4000_0000_0000_0000;
    while hi - lo > 1
        invariant
            lo < hi <= 0x8000_0001,
            lo * lo <= n,
            n < hi * hi,
        decreases hi - lo,
    {
        let mid: u64 = lo + (hi - lo) / 2;
        assert(mid * mid <= 0x4000_0001_0000_0001) by (nonlinear_arith)
            requires mid <= 0x8000_0001;
        if mid * mid <= n {
            lo = mid;
        } else {
            hi = mid;
        }
    }
    proof {
        assert(hi == lo + 1);
        lemma_sqrt_floor_is(lo as int, n as int);
        assert(lo <= 0x8000_0000);
    }
    lo
}

} // verus!
