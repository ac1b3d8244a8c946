//! The failures that the library reports.

use vstd::prelude::*;

verus! {

/// Why a statistic could not be computed.
#[derive(Debug, Clone, Copy, PartialEq, Eq, Structural)]
pub enum Error {
    /// Too few samples: none at all, or fewer than two for a sample variance.
    EmptyInput,
    /// A significance level that is not strictly between zero and one.
    InvalidSignificanceLevel,
    /// Observed and expected frequency tables of different lengths.
    ShapeMismatch,
    /// Vectors of different dimensions within one comparison.
    DimensionMismatch,
}

} // verus!
