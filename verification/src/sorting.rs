//! Sorting binary64 patterns by the IEEE 754 total order.

use vstd::prelude::*;
use vstd::multiset::{lemma_multiset_empty_len, Multiset};
use vstd::seq_lib::*;
use vstd::relations::{sorted_by, total_ordering};
use crate::binary64::{total_order_key, total_order_rank, total_order_tells_patterns_apart};

verus! {

/// Every element stands before those that follow it in the total order.
pub open spec fn ascending(scores: Seq<u64>) -> bool {
    forall|i: int, j: int|
        0 <= i <= j < scores.len() ==> total_order_rank(scores[i]) <= total_order_rank(scores[j])
}

/// No element of `low` stands after an element of `high`.
pub open spec fn all_precede(low: Seq<u64>, high: Seq<u64>) -> bool {
    forall|i: int, j: int|
        0 <= i < low.len() && 0 <= j < high.len() ==> total_order_rank(low[i])
            <= total_order_rank(high[j])
}

/// Whether `a` stands at or before `b` in the total order.
pub open spec fn precedes(a: u64, b: u64) -> bool {
    total_order_rank(a) <= total_order_rank(b)
}

/// Two ascending sequences that hold the same patterns, each as often as the
/// other, are one sequence: sorting has a single result.
pub proof fn ascending_order_is_unique(x: Seq<u64>, y: Seq<u64>)
    requires
        ascending(x),
        ascending(y),
        x.to_multiset() == y.to_multiset(),
    ensures
        x == y,
{
    let leq = |a: u64, b: u64| precedes(a, b);
    assert(total_ordering(leq)) by {
        assert forall|a: u64, b: u64| #[trigger] leq(a, b) && #[trigger] leq(b, a) implies a
            == b by {
            total_order_tells_patterns_apart(a, b);
        }
    }
    assert(sorted_by(x, leq));
    assert(sorted_by(y, leq));
    lemma_sorted_unique(x, y, leq);
}

/// Taking nothing from a sequence gives the empty multiset.
proof fn nothing_taken(s: Seq<u64>)
    ensures
        s.take(0).to_multiset() =~= Multiset::<u64>::empty(),
{
    to_multiset_len(s.take(0));
    lemma_multiset_empty_len(s.take(0).to_multiset());
}

/// Taking one element more from a sequence adds that element to what was
/// taken.
proof fn take_one_more(s: Seq<u64>, k: int)
    requires
        0 <= k < s.len(),
    ensures
        s.take(k + 1) =~= s.take(k).push(s[k]),
        s.take(k + 1).to_multiset() =~= s.take(k).to_multiset().insert(s[k]),
{
    assert(s.take(k + 1) =~= s.take(k).push(s[k]));
    to_multiset_build(s.take(k), s[k]);
}

/// Moving the head of `taken` to the end of `merged` keeps `merged` ascending
/// and before what is left of both inputs, provided that the head stands
/// before everything in `other`.
proof fn extend_merged(merged: Seq<u64>, taken: Seq<u64>, other: Seq<u64>)
    requires
        taken.len() > 0,
        ascending(merged),
        ascending(taken),
        ascending(other),
        all_precede(merged, taken),
        all_precede(merged, other),
        other.len() > 0 ==> total_order_rank(taken[0]) <= total_order_rank(other[0]),
    ensures
        ascending(merged.push(taken[0])),
        all_precede(merged.push(taken[0]), taken.skip(1)),
        all_precede(merged.push(taken[0]), other),
{
    let longer = merged.push(taken[0]);
    let rest = taken.skip(1);
    assert forall|a: int, b: int| 0 <= a <= b < longer.len() implies total_order_rank(longer[a])
        <= total_order_rank(longer[b]) by {
        if a < merged.len() && b == merged.len() {
            assert(total_order_rank(merged[a]) <= total_order_rank(taken[0]));
        }
    }
    assert forall|a: int, b: int| 0 <= a < longer.len() && 0 <= b < rest.len() implies total_order_rank(
        longer[a],
    ) <= total_order_rank(rest[b]) by {
        assert(rest[b] == taken[b + 1]);
        if a < merged.len() {
            assert(total_order_rank(merged[a]) <= total_order_rank(taken[b + 1]));
        } else {
            assert(total_order_rank(taken[0]) <= total_order_rank(taken[b + 1]));
        }
    }
    assert forall|a: int, b: int| 0 <= a < longer.len() && 0 <= b < other.len() implies total_order_rank(
        longer[a],
    ) <= total_order_rank(other[b]) by {
        if a < merged.len() {
            assert(total_order_rank(merged[a]) <= total_order_rank(other[b]));
        } else {
            assert(total_order_rank(other[0]) <= total_order_rank(other[b]));
        }
    }
}

/// Merges two ascending sequences into one that holds the elements of both.
fn merge(left: &Vec<u64>, right: &Vec<u64>) -> (merged: Vec<u64>)
    requires
        ascending(left@),
        ascending(right@),
    ensures
        ascending(merged@),
        merged@.to_multiset() =~= left@.to_multiset().add(right@.to_multiset()),
{
    let mut merged: Vec<u64> = Vec::new();
    let mut i: usize = 0;
    let mut j: usize = 0;
    proof {
        nothing_taken(left@);
        nothing_taken(right@);
        nothing_taken(merged@);
        assert(merged@.take(0) =~= merged@);
    }
    while i < left.len() || j < right.len()
        invariant
            i <= left.len(),
            j <= right.len(),
            ascending(left@),
            ascending(right@),
            ascending(merged@),
            all_precede(merged@, left@.skip(i as int)),
            all_precede(merged@, right@.skip(j as int)),
            merged@.to_multiset() =~= left@.take(i as int).to_multiset().add(
                right@.take(j as int).to_multiset(),
            ),
        decreases left.len() - i + (right.len() - j),
    {
        let from_left: bool = if i >= left.len() {
            false
        } else if j >= right.len() {
            true
        } else {
            total_order_key(left[i]) <= total_order_key(right[j])
        };
        let ghost before = merged@;
        if from_left {
            let next: u64 = left[i];
            proof {
                take_one_more(left@, i as int);
                to_multiset_build(before, next);
                extend_merged(before, left@.skip(i as int), right@.skip(j as int));
                assert(left@.skip(i as int).skip(1) =~= left@.skip(i + 1));
            }
            merged.push(next);
            i += 1;
        } else {
            let next: u64 = right[j];
            proof {
                take_one_more(right@, j as int);
                to_multiset_build(before, next);
                extend_merged(before, right@.skip(j as int), left@.skip(i as int));
                assert(right@.skip(j as int).skip(1) =~= right@.skip(j + 1));
            }
            merged.push(next);
            j += 1;
        }
    }
    assert(left@.take(i as int) =~= left@);
    assert(right@.take(j as int) =~= right@);
    merged
}

/// Sorts the elements of `scores` from `from` up to `to` into a sequence of
/// their own.
fn sort_range(scores: &Vec<u64>, from: usize, to: usize) -> (sorted: Vec<u64>)
    requires
        from <= to <= scores.len(),
    ensures
        ascending(sorted@),
        sorted@.to_multiset() =~= scores@.subrange(from as int, to as int).to_multiset(),
    decreases to - from,
{
    let ghost range = scores@.subrange(from as int, to as int);
    if to - from <= 1 {
        let mut sorted: Vec<u64> = Vec::new();
        if from < to {
            sorted.push(scores[from]);
            assert(sorted@ =~= range);
        } else {
            assert(sorted@ =~= range);
        }
        sorted
    } else {
        let middle: usize = from + (to - from) / 2;
        let left = sort_range(scores, from, middle);
        let right = sort_range(scores, middle, to);
        proof {
            let low = scores@.subrange(from as int, middle as int);
            let high = scores@.subrange(middle as int, to as int);
            assert(range =~= low + high);
            lemma_multiset_commutative(low, high);
        }
        merge(&left, &right)
    }
}

/// Sorts the patterns into the total order. The result holds each pattern as
/// often as the argument did.
pub fn sort_ascending(scores: Vec<u64>) -> (sorted: Vec<u64>)
    ensures
        ascending(sorted@),
        sorted@.to_multiset() =~= scores@.to_multiset(),
        sorted@.len() == scores@.len(),
{
    let sorted = sort_range(&scores, 0, scores.len());
    proof {
        assert(scores@.subrange(0, scores@.len() as int) =~= scores@);
        to_multiset_len(sorted@);
        to_multiset_len(scores@);
    }
    sorted
}

} // verus!
