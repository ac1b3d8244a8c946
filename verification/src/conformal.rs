//! Split-conformal calibration: from a set of non-conformity scores to the
//! threshold that bounds the error rate.
//!
//! For `n` calibration scores and a significance level `alpha`, the threshold
//! is the score at rank `(n + 1) * (1 - alpha)`, rounded up, among the scores
//! in ascending order. It is the `n + 1`, not `n`, and the rounding up, not
//! to the nearest, that give the marginal coverage `1 - alpha` for
//! exchangeable scores. The rank is therefore computed on the exact number
//! that `alpha` denotes: neither the complement nor the product is rounded
//! before the rounding up.

use vstd::prelude::*;
use vstd::arithmetic::div_mod::*;
use vstd::arithmetic::mul::*;
use vstd::arithmetic::power2::*;
use vstd::bits::lemma_u128_shr_is_div;
use crate::binary64::{
    exponent_field, fraction_field, in_open_unit_interval, is_probability, quanta,
    total_order_rank, unit, unit_interval_patterns, value, HIDDEN_BIT, QUANTUM_EXPONENT,
};
use crate::error::Error;
use crate::sorting::{ascending, sort_ascending};

verus! {

/// The quotient rounded up: for a positive denominator, the least integer
/// that is not below `numerator / denominator`.
pub open spec fn ceil_div(numerator: int, denominator: int) -> int {
    (numerator + denominator - 1) / denominator
}

/// The rank, counted from one, of the score that bounds the error rate
/// `alpha` for `n` calibration scores: `(n + 1) * (1 - alpha)`, rounded up.
/// The product is taken exactly, in quanta.
pub open spec fn conformal_rank(n: nat, alpha: u64) -> int {
    ceil_div((n + 1) * (unit() - quanta(alpha)), unit() as int)
}

/// The place, counted from zero, of the score at the conformal rank among
/// `n` ascending scores. A rank beyond the last score stands for the last.
pub open spec fn threshold_index(n: nat, alpha: u64) -> int {
    if conformal_rank(n, alpha) > n {
        n - 1
    } else {
        conformal_rank(n, alpha) - 1
    }
}

/// Rounding `size * (1 - part / whole)` up takes away from `size` the
/// whole part of `size * part / whole`.
proof fn ceil_of_complement(size: int, part: int, whole: int)
    requires
        0 <= size,
        0 <= part < whole,
    ensures
        ceil_div(size * (whole - part), whole) == size - (size * part) / whole,
        0 <= (size * part) / whole,
        size > 0 ==> (size * part) / whole < size,
{
    let x = size * part;
    let q = x / whole;
    let r = x % whole;
    lemma_mul_nonnegative(size, part);
    lemma_fundamental_div_mod(x, whole);
    lemma_mod_bound(x, whole);
    lemma_div_pos_is_pos(x, whole);
    assert(size * (whole - part) == size * whole - x) by {
        lemma_mul_is_distributive_sub(size, whole, part);
    }
    assert(size * (whole - part) + whole - 1 == (size - q) * whole + (whole - 1 - r)) by {
        lemma_mul_is_distributive_sub_other_way(whole, size, q);
        lemma_mul_is_commutative(whole, q);
    }
    lemma_fundamental_div_mod_converse(
        size * (whole - part) + whole - 1,
        whole,
        size - q,
        whole - 1 - r,
    );
    if size > 0 {
        lemma_mul_strict_inequality(part, whole, size);
        lemma_mul_is_commutative(size, part);
        lemma_mul_is_commutative(size, whole);
        lemma_multiply_divide_lt(x, whole, size);
    }
}

/// For a positive denominator, `ceil_div` is the least integer whose product
/// with the denominator reaches the numerator.
pub proof fn ceil_div_is_least_bound(numerator: int, denominator: int)
    requires
        denominator > 0,
    ensures
        ceil_div(numerator, denominator) * denominator >= numerator,
        (ceil_div(numerator, denominator) - 1) * denominator < numerator,
{
    let x = numerator + denominator - 1;
    let q = x / denominator;
    lemma_fundamental_div_mod(x, denominator);
    lemma_mod_bound(x, denominator);
    lemma_mul_is_commutative(denominator, q);
    lemma_mul_is_distributive_sub_other_way(denominator, q, 1);
}

/// The conformal rank is the least whole number of scores that is not below
/// `(n + 1) * (1 - alpha)`, and it lies between one and `n + 1`.
pub proof fn rank_is_least_cover(n: nat, alpha: u64)
    requires
        in_open_unit_interval(alpha),
    ensures
        1 <= conformal_rank(n, alpha) <= n + 1,
        conformal_rank(n, alpha) * unit() >= (n + 1) * (unit() - quanta(alpha)),
        (conformal_rank(n, alpha) - 1) * unit() < (n + 1) * (unit() - quanta(alpha)),
{
    ceil_of_complement((n + 1) as int, quanta(alpha) as int, unit() as int);
    ceil_div_is_least_bound((n + 1) * (unit() - quanta(alpha)), unit() as int);
}

/// A larger error rate never asks for a higher rank, nor for a later score.
pub proof fn rank_falls_as_alpha_rises(n: nat, lower: u64, higher: u64)
    requires
        in_open_unit_interval(lower),
        in_open_unit_interval(higher),
        value(lower) <= value(higher),
    ensures
        conformal_rank(n, lower) >= conformal_rank(n, higher),
        threshold_index(n, lower) >= threshold_index(n, higher),
{
    let size = (n + 1) as int;
    let whole = unit() as int;
    lemma_mul_inequality(whole - quanta(higher), whole - quanta(lower), size);
    lemma_mul_is_commutative(size, whole - quanta(higher));
    lemma_mul_is_commutative(size, whole - quanta(lower));
    lemma_div_is_ordered(
        size * (whole - quanta(higher)) + whole - 1,
        size * (whole - quanta(lower)) + whole - 1,
        whole,
    );
}

/// With a single calibration score, every error rate selects that score.
pub proof fn single_score_is_every_threshold(alpha: u64)
    requires
        in_open_unit_interval(alpha),
    ensures
        threshold_index(1, alpha) == 0,
{
    rank_is_least_cover(1, alpha);
}

/// The threshold is one of the scores, no score before it in the ascending
/// order exceeds it, and none after it falls below it. So at least as many
/// scores as the conformal rank asks for, or all of them where it asks for
/// more than there are, lie at or below the threshold.
pub proof fn threshold_covers_rank(scores: Seq<u64>, alpha: u64)
    requires
        scores.len() > 0,
        ascending(scores),
        in_open_unit_interval(alpha),
    ensures
        0 <= threshold_index(scores.len(), alpha) < scores.len(),
        threshold_index(scores.len(), alpha) + 1 == if conformal_rank(scores.len(), alpha)
            > scores.len() {
            scores.len() as int
        } else {
            conformal_rank(scores.len(), alpha)
        },
        forall|i: int|
            0 <= i <= threshold_index(scores.len(), alpha) ==> total_order_rank(#[trigger] scores[i])
                <= total_order_rank(scores[threshold_index(scores.len(), alpha)]),
        forall|i: int|
            threshold_index(scores.len(), alpha) <= i < scores.len() ==> total_order_rank(
                scores[threshold_index(scores.len(), alpha)],
            ) <= total_order_rank(#[trigger] scores[i]),
{
    rank_is_least_cover(scores.len(), alpha);
}

/// The conformal rank for `n` scores at the error rate `alpha`. A level that
/// is not strictly between zero and one is refused.
pub fn rank(n: usize, alpha: u64) -> (rank: Result<u128, Error>)
    ensures
        in_open_unit_interval(alpha) ==> rank == Ok::<u128, Error>(
            conformal_rank(n as nat, alpha) as u128,
        ) && 1 <= conformal_rank(n as nat, alpha) <= n + 1,
        !in_open_unit_interval(alpha) ==> rank == Err::<u128, Error>(
            Error::InvalidSignificanceLevel,
        ),
{
    if is_probability(alpha) {
        Ok(rank_of_probability(n, alpha))
    } else {
        Err(Error::InvalidSignificanceLevel)
    }
}

/// The conformal rank for a level that is known to lie strictly between zero
/// and one.
fn rank_of_probability(n: usize, alpha: u64) -> (rank: u128)
    requires
        in_open_unit_interval(alpha),
    ensures
        rank == conformal_rank(n as nat, alpha),
        1 <= rank <= n + 1,
{
    proof {
        unit_interval_patterns(alpha);
    }
    let exponent: u64 = alpha / HIDDEN_BIT;
    let fraction: u64 = alpha % HIDDEN_BIT;
    let significand: u64 = if exponent == 0 {
        fraction
    } else {
        HIDDEN_BIT + fraction
    };
    let shift: u64 = if exponent == 0 {
        0
    } else {
        exponent - 1
    };
    // alpha is significand / 2^scale
    let scale: u64 = QUANTUM_EXPONENT - shift;
    let size: u128 = n as u128 + 1;
    assert(size * significand < 0x20_0000_0000_0000_0000_0000_0000_0000) by (nonlinear_arith)
        requires
            0 <= size <= 0x1_0000_0000_0000_0000,
            0 <= significand < 0x20_0000_0000_0000,
    ;
    let product: u128 = size * (significand as u128);
    // the whole part of (n + 1) * alpha
    let excluded: u128 = if scale >= 128 {
        0
    } else {
        product >> (scale as u128)
    };
    proof {
        let low = pow2(shift as nat) as int;
        let high = pow2(scale as nat) as int;
        lemma_pow2_pos(shift as nat);
        lemma_pow2_pos(scale as nat);
        assert(high * low == unit()) by {
            lemma_pow2_adds(scale as nat, shift as nat);
        }
        assert(quanta(alpha) == significand * low) by {
            assert(exponent_field(alpha) == exponent);
            assert(fraction_field(alpha) == fraction);
            if exponent == 0 {
                lemma2_to64();
                assert(significand * 1 == significand);
            } else {
                assert(exponent_field(alpha) - 1 == shift);
            }
        }
        assert(size * quanta(alpha) == low * product) by (nonlinear_arith)
            requires
                quanta(alpha) == significand * low,
                product == size * significand,
        ;
        assert((size * quanta(alpha)) / (unit() as int) == product as int / high) by {
            lemma_div_multiples_vanish_quotient(low, product as int, high);
            lemma_mul_is_commutative(low, high);
        }
        assert(excluded == product as int / high) by {
            if scale >= 128 {
                lemma_pow2_strictly_increases(117, scale as nat);
                lemma2_to64_rest();
                assert(pow2(117) == 0x20_0000_0000_0000_0000_0000_0000_0000) by {
                    lemma_pow2_adds(64, 53);
                }
                lemma_basic_div(product as int, high);
            } else {
                lemma_u128_shr_is_div(product, scale as u128);
            }
        }
        ceil_of_complement(size as int, quanta(alpha) as int, unit() as int);
    }
    size - excluded
}

/// Non-conformity scores, kept in ascending order. Each score is the bit
/// pattern of a binary64 number, and the order is the IEEE 754 total order.
pub struct CalibrationSet {
    non_conformity_scores: Vec<u64>,
}

impl View for CalibrationSet {
    type V = Seq<u64>;

    closed spec fn view(&self) -> Seq<u64> {
        self.non_conformity_scores@
    }
}

impl CalibrationSet {
    #[verifier::type_invariant]
    spec fn well_formed(self) -> bool {
        self.non_conformity_scores@.len() > 0 && ascending(self.non_conformity_scores@)
    }

    /// Builds the set from the scores of a calibration sample, in any order.
    pub fn new(scores: Vec<u64>) -> (set: Self)
        requires
            scores@.len() > 0,
        ensures
            ascending(set@),
            set@.to_multiset() =~= scores@.to_multiset(),
            set@.len() == scores@.len(),
    {
        CalibrationSet { non_conformity_scores: sort_ascending(scores) }
    }

    /// The scores, in ascending order.
    pub fn non_conformity_scores(&self) -> (scores: &Vec<u64>)
        ensures
            scores@ == self@,
            scores@.len() > 0,
            ascending(scores@),
    {
        proof {
            use_type_invariant(self);
        }
        &self.non_conformity_scores
    }

    /// The threshold for the error rate `alpha`: the score at the conformal
    /// rank, or the largest score where the rank lies beyond it. A level that
    /// is not strictly between zero and one is refused.
    pub fn quantile(&self, alpha: u64) -> (threshold: Result<u64, Error>)
        ensures
            in_open_unit_interval(alpha) ==> threshold == Ok::<u64, Error>(
                self@[threshold_index(self@.len(), alpha)],
            ),
            !in_open_unit_interval(alpha) ==> threshold == Err::<u64, Error>(
                Error::InvalidSignificanceLevel,
            ),
    {
        proof {
            use_type_invariant(self);
        }
        if !is_probability(alpha) {
            return Err(Error::InvalidSignificanceLevel);
        }
        let n: usize = self.non_conformity_scores.len();
        let rank: u128 = rank_of_probability(n, alpha);
        let index: usize = if rank > n as u128 {
            n - 1
        } else {
            (rank - 1) as usize
        };
        Ok(self.non_conformity_scores[index])
    }
}

} // verus!
