//! Checks on lists of type ids: containment, disjointness and repetition.
use vstd::prelude::*;

use crate::ecs::sort::{distinct, sorted, strictly_sorted};

verus! {

/// Every element of `x` occurs in `y`.
pub open spec fn is_subset(x: Seq<u64>, y: Seq<u64>) -> bool {
    forall|i: int| 0 <= i < x.len() ==> y.contains(#[trigger] x[i])
}

/// No element of `x` occurs in `y`.
pub open spec fn is_disjoint(x: Seq<u64>, y: Seq<u64>) -> bool {
    forall|i: int, j: int| 0 <= i < x.len() && 0 <= j < y.len() ==> x[i] != y[j]
}

/// Requires that no element of `x` occurs twice; `msg` says what a repetition
/// would mean to the caller. Its requirement is the whole of its effect.
pub fn assert_no_alias(x: &[u64], msg: &str)
    requires
        distinct(x@),
{
}

/// Sorts the slice in ascending order.
pub fn insertion_sort(x: &mut [u64])
    ensures
        sorted(final(x)@),
        final(x)@.to_multiset() == old(x)@.to_multiset(),
{
    crate::ecs::sort::insertion_sort(x)
}

/// Sorts a slice in which no element occurs twice; the order is then strict.
pub fn insertion_sort_no_alias(x: &mut [u64])
    requires
        distinct(old(x)@),
    ensures
        strictly_sorted(final(x)@),
        final(x)@.to_multiset() == old(x)@.to_multiset(),
{
    crate::ecs::sort::insertion_sort_noalias(x)
}

/// Whether every element of `x` occurs in `y`.
pub fn subset(x: &[u64], y: &[u64]) -> (r: bool)
    ensures
        r == is_subset(x@, y@),
{
    let mut i: usize = 0;
    while i < x.len()
        invariant
            i <= x@.len(),
            forall|k: int| 0 <= k < i ==> y@.contains(#[trigger] x@[k]),
        decreases x.len() - i,
    {
        let mut j: usize = 0;
        let mut found = false;
        while j < y.len()
            invariant
                i < x@.len(),
                j <= y@.len(),
                found ==> y@.contains(x@[i as int]),
                !found ==> forall|m: int| 0 <= m < j ==> x@[i as int] != y@[m],
            decreases y.len() - j,
        {
            if x[i] == y[j] {
                found = true;
            }
            j = j + 1;
        }
        if !found {
            assert(!y@.contains(x@[i as int]));
            return false;
        }
        i = i + 1;
    }
    true
}

/// Whether no element of `x` occurs in `y`.
pub fn disjoint(x: &[u64], y: &[u64]) -> (r: bool)
    ensures
        r == is_disjoint(x@, y@),
{
    let mut i: usize = 0;
    while i < x.len()
        invariant
            i <= x@.len(),
            forall|k: int, m: int| 0 <= k < i && 0 <= m < y@.len() ==> x@[k] != y@[m],
        decreases x.len() - i,
    {
        let mut j: usize = 0;
        while j < y.len()
            invariant
                i < x@.len(),
                j <= y@.len(),
                forall|k: int, m: int| 0 <= k < i && 0 <= m < y@.len() ==> x@[k] != y@[m],
                forall|m: int| 0 <= m < j ==> x@[i as int] != y@[m],
            decreases y.len() - j,
        {
            if x[i] == y[j] {
                return false;
            }
            j = j + 1;
        }
        i = i + 1;
    }
    true
}

/// Containment is transitive.
pub proof fn lemma_subset_transitive(x: Seq<u64>, y: Seq<u64>, z: Seq<u64>)
    requires
        is_subset(x, y),
        is_subset(y, z),
    ensures
        is_subset(x, z),
{
    assert forall|i: int| 0 <= i < x.len() implies z.contains(x[i]) by {
        let j = choose|j: int| 0 <= j < y.len() && y[j] == x[i];
        assert(z.contains(y[j]));
    }
}

/// Disjointness does not depend on the order of the two lists.
pub proof fn lemma_disjoint_symmetric(x: Seq<u64>, y: Seq<u64>)
    ensures
        is_disjoint(x, y) == is_disjoint(y, x),
{
}

/// A non-empty list is not disjoint from a list that contains it.
pub proof fn lemma_subset_not_disjoint(x: Seq<u64>, y: Seq<u64>)
    requires
        x.len() > 0,
        is_subset(x, y),
    ensures
        !is_disjoint(x, y),
{
    assert(y.contains(x[0]));
    let j = choose|j: int| 0 <= j < y.len() && y[j] == x[0];
}

} // verus!
