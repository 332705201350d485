//! Ways of reducing the gains of a frame's channels to one gain for all of them.
use vstd::prelude::*;
use crate::fixed::{UNIT, div_trunc, div_trunc_i128};
use crate::gain::{GAIN_BOUND, gain_in_range};

verus! {

/// Every gain of `gains` is within `GAIN_BOUND`.
pub open spec fn gains_in_range(gains: Seq<i64>) -> bool {
    forall|i: int| 0 <= i < gains.len() ==> gain_in_range(#[trigger] gains[i] as int)
}

/// The sum of `gains`.
pub open spec fn gain_sum(gains: Seq<i64>) -> int
    decreases gains.len(),
{
    if gains.len() == 0 {
        0
    } else {
        gain_sum(gains.drop_last()) + gains.last()
    }
}

/// The smallest of the gains: `UNIT` where there are none.
pub open spec fn gain_minimum(gains: Seq<i64>) -> int
    decreases gains.len(),
{
    if gains.len() == 0 {
        UNIT as int
    } else if gains.len() == 1 {
        gains[0] as int
    } else {
        let m = gain_minimum(gains.drop_last());
        if gains.last() < m {
            gains.last() as int
        } else {
            m
        }
    }
}

/// The mean of `gains`, rounded toward zero.
pub open spec fn gain_average(gains: Seq<i64>) -> int {
    div_trunc(gain_sum(gains), gains.len() as int)
}

/// A gain that is applied evenly across all the channels of a frame.
pub trait EvenGainFunction: Sized {
    /// The gain for a frame whose channels yield `gains`.
    spec fn even_gain(gains: Seq<i64>) -> int;

    /// Whether the strategy gives a gain for `gains`.
    spec fn admits(gains: Seq<i64>) -> bool;

    /// Every strategy gives a gain for one channel or more.
    proof fn lemma_admits_nonempty(gains: Seq<i64>)
        requires
            gains.len() > 0,
        ensures
            Self::admits(gains);

    /// Computes the gain for a frame whose channels yield `gains`.
    fn next_gain(gains: &Vec<i64>) -> (r: i64)
        requires
            Self::admits(gains@),
            gains_in_range(gains@),
        ensures
            r as int == Self::even_gain(gains@),
            gain_in_range(r as int);
}

/// Yields the *average* of the channel gains. It selects a compressor's
/// behaviour as a type parameter; its one value is never needed.
#[derive(Copy, Clone, Debug)]
pub enum Average {
    Mean,
}

/// Yields the *minimum* of the channel gains (unity for no channels). It selects a
/// compressor's behaviour as a type parameter; its one value is never needed.
#[derive(Copy, Clone, Debug)]
pub enum Minimum {
    Lowest,
}

/// A sum of gains in range is within `len * GAIN_BOUND`.
pub proof fn lemma_gain_sum_bound(gains: Seq<i64>)
    requires
        gains_in_range(gains),
    ensures
        -(gains.len() * GAIN_BOUND) <= gain_sum(gains) <= gains.len() * GAIN_BOUND,
    decreases gains.len(),
{
    if gains.len() > 0 {
        let rest = gains.drop_last();
        assert forall|i: int| 0 <= i < rest.len() implies gain_in_range(#[trigger] rest[i] as int) by {
            assert(rest[i] == gains[i]);
        }
        lemma_gain_sum_bound(rest);
        assert(gain_in_range(gains[gains.len() - 1] as int));
        let l1 = rest.len();
        assert(l1 * GAIN_BOUND + GAIN_BOUND == gains.len() * GAIN_BOUND) by (nonlinear_arith)
            requires l1 + 1 == gains.len();
    }
}

/// The average of gains in range is in range.
pub proof fn lemma_gain_average_bound(gains: Seq<i64>)
    requires
        gains.len() > 0,
        gains_in_range(gains),
    ensures
        gain_in_range(gain_average(gains)),
{
    let n = gains.len() as int;
    let s = gain_sum(gains);
    lemma_gain_sum_bound(gains);
    vstd::arithmetic::div_mod::lemma_div_multiples_vanish(GAIN_BOUND as int, n);
    assert(n * GAIN_BOUND == GAIN_BOUND * n) by (nonlinear_arith);
    if s >= 0 {
        vstd::arithmetic::div_mod::lemma_div_is_ordered(s, n * GAIN_BOUND, n);
        vstd::arithmetic::div_mod::lemma_div_pos_is_pos(s, n);
    } else {
        vstd::arithmetic::div_mod::lemma_div_is_ordered(-s, n * GAIN_BOUND, n);
        vstd::arithmetic::div_mod::lemma_div_pos_is_pos(-s, n);
    }
}

/// The minimum of gains in range is in range.
pub proof fn lemma_gain_minimum_bound(gains: Seq<i64>)
    requires
        gains_in_range(gains),
    ensures
        gain_in_range(gain_minimum(gains)),
        forall|i: int| 0 <= i < gains.len() ==> gain_minimum(gains) <= #[trigger] gains[i],
        gains.len() > 0 ==> exists|i: int| 0 <= i < gains.len() && gain_minimum(gains) == #[trigger] gains[i],
    decreases gains.len(),
{
    if gains.len() == 1 {
        assert(gain_in_range(gains[0] as int));
    } else if gains.len() > 1 {
        let rest = gains.drop_last();
        assert forall|i: int| 0 <= i < rest.len() implies gain_in_range(#[trigger] rest[i] as int) by {
            assert(rest[i] == gains[i]);
        }
        lemma_gain_minimum_bound(rest);
        assert(gain_in_range(gains[gains.len() - 1] as int));
        assert forall|i: int| 0 <= i < gains.len() implies gain_minimum(gains) <= #[trigger] gains[i] by {
            if i < rest.len() {
                assert(rest[i] == gains[i]);
            }
        }
        let last = gains.len() - 1;
        if gains[last] < gain_minimum(rest) {
            assert(gain_minimum(gains) == gains[last]);
        } else {
            let w = choose|i: int| 0 <= i < rest.len() && gain_minimum(rest) == #[trigger] rest[i];
            assert(gain_minimum(gains) == gains[w]);
        }
    }
}

impl Average {
    /// The average of the channel gains, rounded toward zero.
    pub fn average_gain(gains: &Vec<i64>) -> (r: i64)
        requires
            gains@.len() > 0,
            gains_in_range(gains@),
        ensures
            r as int == gain_average(gains@),
            gain_in_range(r as int),
    {
        let n = gains.len();
        let mut sum: i128 = 0;
        let mut i: usize = 0;
        while i < n
            invariant
                n == gains@.len(),
                i <= n,
                gains_in_range(gains@),
                sum as int == gain_sum(gains@.subrange(0, i as int)),
            decreases n - i,
        {
            proof {
                let pre = gains@.subrange(0, i as int + 1);
                assert(pre.drop_last() =~= gains@.subrange(0, i as int));
                assert forall|j: int| 0 <= j < pre.len() implies gain_in_range(#[trigger] pre[j] as int) by {
                    assert(pre[j] == gains@[j]);
                }
                lemma_gain_sum_bound(pre);
                assert(pre.len() * GAIN_BOUND <= 0x4_0000_0000_0000 * 0x1_0000_0000_0000_0000) by (nonlinear_arith)
                    requires pre.len() <= usize::MAX;
            }
            sum = sum + gains[i] as i128;
            i = i + 1;
        }
        proof {
            assert(gains@.subrange(0, n as int) =~= gains@);
            lemma_gain_average_bound(gains@);
            lemma_gain_sum_bound(gains@);
            assert(n * GAIN_BOUND <= 0x4_0000_0000_0000 * 0x1_0000_0000_0000_0000) by (nonlinear_arith)
                requires n <= usize::MAX;
        }
        div_trunc_i128(sum, n as i128) as i64
    }
}

impl Minimum {
    /// The smallest of the channel gains: `UNIT` where there are none.
    pub fn minimum_gain(gains: &Vec<i64>) -> (r: i64)
        requires
            gains_in_range(gains@),
        ensures
            r as int == gain_minimum(gains@),
            gain_in_range(r as int),
    {
        let n = gains.len();
        if n == 0 {
            return UNIT;
        }
        let mut min: i64 = gains[0];
        let mut i: usize = 1;
        proof {
            assert(gains@.subrange(0, 1).len() == 1);
        }
        while i < n
            invariant
                n == gains@.len(),
                1 <= i <= n,
                gains_in_range(gains@),
                min as int == gain_minimum(gains@.subrange(0, i as int)),
            decreases n - i,
        {
            proof {
                let pre = gains@.subrange(0, i as int + 1);
                assert(pre.drop_last() =~= gains@.subrange(0, i as int));
            }
            if gains[i] < min {
                min = gains[i];
            }
            i = i + 1;
        }
        proof {
            assert(gains@.subrange(0, n as int) =~= gains@);
            lemma_gain_minimum_bound(gains@);
        }
        min
    }
}

impl EvenGainFunction for Average {
    open spec fn even_gain(gains: Seq<i64>) -> int {
        gain_average(gains)
    }

    /// The mean of no gains is undefined.
    open spec fn admits(gains: Seq<i64>) -> bool {
        gains.len() > 0
    }

    proof fn lemma_admits_nonempty(gains: Seq<i64>) {
    }

    fn next_gain(gains: &Vec<i64>) -> (r: i64) {
        Average::average_gain(gains)
    }
}

impl EvenGainFunction for Minimum {
    open spec fn even_gain(gains: Seq<i64>) -> int {
        gain_minimum(gains)
    }

    /// The minimum of no gains is unity.
    open spec fn admits(gains: Seq<i64>) -> bool {
        true
    }

    proof fn lemma_admits_nonempty(gains: Seq<i64>) {
    }

    fn next_gain(gains: &Vec<i64>) -> (r: i64) {
        Minimum::minimum_gain(gains)
    }
}

} // verus!
