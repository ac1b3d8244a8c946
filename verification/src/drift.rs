//! Embedding drift: the shape of the two collections of vectors whose means
//! are compared.
//!
//! The drift between two collections is the distance between their mean
//! vectors. Where one collection is empty there is no evidence of drift, and
//! no dimension to speak of; otherwise every vector of both must have the
//! dimension of the first.

use vstd::prelude::*;
use crate::error::Error;

verus! {

/// Every vector has the given dimension.
pub open spec fn uniform<T>(vectors: Seq<&[T]>, dimension: nat) -> bool {
    forall|i: int| 0 <= i < vectors.len() ==> (#[trigger] vectors[i])@.len() == dimension
}

/// What the shapes of two collections allow: nothing to compare where one is
/// empty, the common dimension where all vectors agree on it, and a refusal
/// where they do not.
pub open spec fn shape_of<T>(a: Seq<&[T]>, b: Seq<&[T]>) -> Result<Option<usize>, Error> {
    if a.len() == 0 || b.len() == 0 {
        Ok(None)
    } else if uniform(a, a[0]@.len()) && uniform(b, a[0]@.len()) {
        Ok(Some(a[0]@.len() as usize))
    } else {
        Err(Error::DimensionMismatch)
    }
}

/// Whether every vector has the given dimension.
fn all_of_dimension<T>(vectors: &[&[T]], dimension: usize) -> (all: bool)
    ensures
        all == uniform(vectors@, dimension as nat),
{
    let mut i: usize = 0;
    while i < vectors.len()
        invariant
            i <= vectors@.len(),
            uniform(vectors@.take(i as int), dimension as nat),
        decreases vectors@.len() - i,
    {
        if vectors[i].len() != dimension {
            return false;
        }
        assert forall|k: int| 0 <= k < vectors@.take(i + 1).len() implies (#[trigger] vectors@.take(
            i + 1,
        )[k])@.len() == dimension by {
            if k < i {
                assert(vectors@.take(i as int)[k] == vectors@[k]);
            }
        }
        i += 1;
    }
    assert(vectors@.take(i as int) =~= vectors@);
    true
}

/// The dimension in which the means of `a` and `b` are compared: `None`
/// where either collection is empty, and `DimensionMismatch` where a vector
/// of either differs in dimension from the first vector of `a`.
pub fn common_dimension<T>(a: &[&[T]], b: &[&[T]]) -> (dimension: Result<Option<usize>, Error>)
    ensures
        dimension == shape_of(a@, b@),
{
    if a.len() == 0 || b.len() == 0 {
        return Ok(None);
    }
    let dimension: usize = a[0].len();
    if all_of_dimension(a, dimension) && all_of_dimension(b, dimension) {
        Ok(Some(dimension))
    } else {
        Err(Error::DimensionMismatch)
    }
}

/// The shape does not depend on which collection is named first.
pub proof fn shape_is_symmetric<T>(a: Seq<&[T]>, b: Seq<&[T]>)
    ensures
        shape_of(a, b) == shape_of(b, a),
{
    if a.len() > 0 && b.len() > 0 {
        if uniform(a, a[0]@.len()) && uniform(b, a[0]@.len()) {
            assert(b[0]@.len() == a[0]@.len());
        }
        if uniform(b, b[0]@.len()) && uniform(a, b[0]@.len()) {
            assert(a[0]@.len() == b[0]@.len());
        }
    }
}

} // verus!
