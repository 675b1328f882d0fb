//! Sorting small slices of type ids in place.
use vstd::prelude::*;

verus! {

broadcast use vstd::seq_lib::group_seq_properties, vstd::multiset::group_multiset_axioms;

/// The elements are in ascending order.
pub open spec fn sorted(s: Seq<u64>) -> bool {
    forall|a: int, b: int| 0 <= a <= b < s.len() ==> s[a] <= s[b]
}

/// The elements are in strictly ascending order.
pub open spec fn strictly_sorted(s: Seq<u64>) -> bool {
    forall|a: int, b: int| 0 <= a < b < s.len() ==> s[a] < s[b]
}

/// No element occurs twice.
pub open spec fn distinct(s: Seq<u64>) -> bool {
    forall|a: int, b: int| 0 <= a < b < s.len() ==> s[a] != s[b]
}

/// The positions `i` and `j` exchanged.
pub open spec fn swapped<T>(s: Seq<T>, i: int, j: int) -> Seq<T> {
    s.update(i, s[j]).update(j, s[i])
}

/// Exchanging two positions keeps the elements.
pub proof fn lemma_swap_multiset<T>(s: Seq<T>, i: int, j: int)
    requires
        0 <= i < s.len(),
        0 <= j < s.len(),
    ensures
        swapped(s, i, j).to_multiset() =~= s.to_multiset(),
{
    let s1 = s.update(i, s[j]);
    assert(s1.to_multiset() =~= s.to_multiset().insert(s[j]).remove(s[i]));
    assert(s1.update(j, s[i]).to_multiset() =~= s1.to_multiset().insert(s[i]).remove(s1[j]));
}

/// Sorts the slice in ascending order, by exchanging each element with every
/// later one that is smaller.
pub fn insertion_sort(x: &mut [u64])
    ensures
        sorted(final(x)@),
        final(x)@.to_multiset() == old(x)@.to_multiset(),
{
    let len = x.len();
    let mut i: usize = 0;
    while i < len
        invariant
            len == x@.len(),
            i <= len,
            x@.to_multiset() == old(x)@.to_multiset(),
            forall|a: int, b: int| 0 <= a <= b < i ==> x@[a] <= x@[b],
            forall|a: int, b: int| 0 <= a < i <= b < len ==> x@[a] <= x@[b],
        decreases len - i,
    {
        let mut j: usize = i + 1;
        while j < len
            invariant
                len == x@.len(),
                i < len,
                i + 1 <= j <= len,
                x@.to_multiset() == old(x)@.to_multiset(),
                forall|a: int, b: int| 0 <= a <= b < i ==> x@[a] <= x@[b],
                forall|a: int, b: int| 0 <= a < i <= b < len ==> x@[a] <= x@[b],
                forall|m: int| i < m < j ==> x@[i as int] <= x@[m],
            decreases len - j,
        {
            if x[i] > x[j] {
                proof {
                    lemma_swap_multiset(x@, i as int, j as int);
                }
                let t = x[i];
                x[i] = x[j];
                x[j] = t;
            }
            j = j + 1;
        }
        i = i + 1;
    }
}

/// Sorts a slice in which no element occurs twice; the order is then strict.
/// A repeated element would be found by the comparisons that sorting makes,
/// and is ruled out by the requirement.
pub fn insertion_sort_noalias(x: &mut [u64])
    requires
        distinct(old(x)@),
    ensures
        strictly_sorted(final(x)@),
        final(x)@.to_multiset() == old(x)@.to_multiset(),
{
    insertion_sort(x);
    proof {
        lemma_sorted_distinct_strict(old(x)@, x@);
    }
}

/// A sorted arrangement of elements that are all different is strictly sorted.
pub proof fn lemma_sorted_distinct_strict(before: Seq<u64>, after: Seq<u64>)
    requires
        distinct(before),
        sorted(after),
        after.to_multiset() == before.to_multiset(),
    ensures
        strictly_sorted(after),
{
    assert forall|a: int, b: int| 0 <= a < b < after.len() implies after[a] < after[b] by {
        if after[a] == after[b] {
            lemma_distinct_count(before, after[a]);
            lemma_count_two(after, a, b);
        }
    }
}

proof fn lemma_distinct_count(s: Seq<u64>, v: u64)
    requires
        distinct(s),
    ensures
        s.to_multiset().count(v) <= 1,
    decreases s.len(),
{
    if s.len() > 0 {
        let t = s.drop_last();
        assert(distinct(t));
        lemma_distinct_count(t, v);
        assert(s =~= t.push(s.last()));
        if s.last() == v {
            assert(!t.contains(v)) by {
                if t.contains(v) {
                    let k = choose|k: int| 0 <= k < t.len() && t[k] == v;
                    assert(s[k] == s[s.len() - 1]);
                }
            }
        }
    }
}

proof fn lemma_count_two(s: Seq<u64>, a: int, b: int)
    requires
        0 <= a < b < s.len(),
        s[a] == s[b],
    ensures
        s.to_multiset().count(s[a]) >= 2,
    decreases s.len(),
{
    let t = s.drop_last();
    assert(s =~= t.push(s.last()));
    if b == s.len() - 1 {
        assert(t.contains(s[a]));
    } else {
        lemma_count_two(t, a, b);
    }
}

/// The pairs of same-position elements of two sequences.
pub open spec fn pairs(x: Seq<u64>, y: Seq<u64>) -> Seq<(u64, u64)> {
    Seq::new(x.len(), |k: int| (x[k], y[k]))
}

/// Sorts `x` in ascending order and moves the elements of `y` along with
/// the elements of `x` at the same positions.
pub fn insertion_cosort(x: &mut [u64], y: &mut [u64])
    requires
        old(x)@.len() == old(y)@.len(),
    ensures
        final(x)@.len() == final(y)@.len(),
        sorted(final(x)@),
        pairs(final(x)@, final(y)@).to_multiset() == pairs(old(x)@, old(y)@).to_multiset(),
{
    let len = x.len();
    let mut i: usize = 0;
    while i < len
        invariant
            len == x@.len(),
            len == y@.len(),
            i <= len,
            pairs(x@, y@).to_multiset() == pairs(old(x)@, old(y)@).to_multiset(),
            forall|a: int, b: int| 0 <= a <= b < i ==> x@[a] <= x@[b],
            forall|a: int, b: int| 0 <= a < i <= b < len ==> x@[a] <= x@[b],
        decreases len - i,
    {
        let mut j: usize = i + 1;
        while j < len
            invariant
                len == x@.len(),
                len == y@.len(),
                i < len,
                i + 1 <= j <= len,
                pairs(x@, y@).to_multiset() == pairs(old(x)@, old(y)@).to_multiset(),
                forall|a: int, b: int| 0 <= a <= b < i ==> x@[a] <= x@[b],
                forall|a: int, b: int| 0 <= a < i <= b < len ==> x@[a] <= x@[b],
                forall|m: int| i < m < j ==> x@[i as int] <= x@[m],
            decreases len - j,
        {
            if x[i] > x[j] {
                proof {
                    let p = pairs(x@, y@);
                    lemma_swap_multiset(p, i as int, j as int);
                    assert(pairs(swapped(x@, i as int, j as int), swapped(y@, i as int, j as int))
                        =~= swapped(p, i as int, j as int));
                }
                let t = x[i];
                x[i] = x[j];
                x[j] = t;
                let u = y[i];
                y[i] = y[j];
                y[j] = u;
            }
            j = j + 1;
        }
        i = i + 1;
    }
}

} // verus!
