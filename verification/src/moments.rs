//! Moment estimation: when a sample is large enough for an estimate, by what
//! the accumulated sum of squared deviations is divided, and how the quotient
//! is kept from falling below zero.

use vstd::prelude::*;
use crate::binary64::{is_finite, is_nan, is_negative, value, SIGN_BIT, INFINITY};
use crate::error::Error;

verus! {

/// The two estimates of a second moment.
#[derive(Debug, Clone, Copy, PartialEq, Eq, Structural)]
pub enum Estimator {
    /// The moment of the sample itself: the sum is divided by the number of
    /// samples. The mean is divided in the same way.
    Population,
    /// The unbiased estimate for the population that the sample was drawn
    /// from: with Bessel's correction, the sum is divided by one less.
    Sample,
}

/// The number by which the estimator divides for `count` samples. An
/// estimate exists where this is positive: from one sample on for the
/// population, from two on with Bessel's correction.
pub open spec fn degrees_of_freedom(estimator: Estimator, count: nat) -> int {
    match estimator {
        Estimator::Population => count as int,
        Estimator::Sample => count - 1,
    }
}

/// The divisor of the estimate over `count` samples, or `EmptyInput` where
/// the samples are too few for one.
pub fn divisor(estimator: Estimator, count: usize) -> (divisor: Result<usize, Error>)
    ensures
        degrees_of_freedom(estimator, count as nat) >= 1 ==> divisor == Ok::<usize, Error>(
            degrees_of_freedom(estimator, count as nat) as usize,
        ),
        degrees_of_freedom(estimator, count as nat) < 1 ==> divisor == Err::<usize, Error>(
            Error::EmptyInput,
        ),
{
    let correction: usize = match estimator {
        Estimator::Population => 0,
        Estimator::Sample => 1,
    };
    if count <= correction {
        Err(Error::EmptyInput)
    } else {
        Ok(count - correction)
    }
}

/// The variance that a computed quotient stands for. Rounding can drive the
/// quotient slightly below zero, and a sample that holds a NaN makes it a
/// NaN: both become positive zero. Every other quotient is kept as it is.
pub open spec fn clamped(quotient: u64) -> u64 {
    if is_negative(quotient) || is_nan(quotient) {
        0
    } else {
        quotient
    }
}

/// Clamps a computed variance at zero.
pub fn clamp_at_zero(quotient: u64) -> (variance: u64)
    ensures
        variance == clamped(quotient),
{
    if quotient >= SIGN_BIT || quotient > INFINITY {
        0
    } else {
        quotient
    }
}

/// A clamped variance is a number, and not a negative one: zero or more
/// where it is finite, and positive infinity otherwise.
pub proof fn clamped_is_not_negative(quotient: u64)
    ensures
        !is_nan(clamped(quotient)),
        !is_negative(clamped(quotient)),
        is_finite(clamped(quotient)) ==> value(clamped(quotient)) >= 0,
        !is_finite(clamped(quotient)) ==> clamped(quotient) == INFINITY,
{
}

/// Clamping changes nothing that is already a number and not negative.
pub proof fn clamped_keeps_what_is_not_negative(quotient: u64)
    requires
        !is_nan(quotient),
        !is_negative(quotient),
    ensures
        clamped(quotient) == quotient,
        clamped(clamped(quotient)) == clamped(quotient),
{
}

} // verus!
