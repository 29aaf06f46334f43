//! Shared mathematical helpers: sums of byte counts and last-occurrence
//! indices in sequences, with the lemmas the rest of the crate leans on.

use vstd::prelude::*;

verus! {

/// Sum of a sequence of byte counts, as an unbounded integer.
pub open spec fn sum_u64(s: Seq<u64>) -> int
    decreases s.len(),
{
    if s.len() == 0 {
        0
    } else {
        sum_u64(s.drop_last()) + s.last()
    }
}

pub proof fn lemma_sum_u64_nonneg(s: Seq<u64>)
    ensures
        0 <= sum_u64(s),
    decreases s.len(),
{
    if s.len() > 0 {
        lemma_sum_u64_nonneg(s.drop_last());
    }
}

pub proof fn lemma_sum_u64_push(s: Seq<u64>, v: u64)
    ensures
        sum_u64(s.push(v)) == sum_u64(s) + v,
{
    assert(s.push(v).drop_last() =~= s);
}

/// A sum of `n` byte counts is at most `n` times the largest byte count.
pub proof fn lemma_sum_u64_bound(s: Seq<u64>)
    ensures
        sum_u64(s) <= s.len() * (u64::MAX as int),
    decreases s.len(),
{
    if s.len() > 0 {
        lemma_sum_u64_bound(s.drop_last());
    }
}

/// Updating one element changes the sum by the difference at that spot.
pub proof fn lemma_sum_u64_update(s: Seq<u64>, i: int, v: u64)
    requires
        0 <= i < s.len(),
    ensures
        sum_u64(s.update(i, v)) == sum_u64(s) - s[i] + v,
    decreases s.len(),
{
    if i == s.len() - 1 {
        assert(s.update(i, v).drop_last() =~= s.drop_last());
        assert(s.update(i, v).last() == v);
    } else {
        assert(s.update(i, v).drop_last() =~= s.drop_last().update(i, v));
        lemma_sum_u64_update(s.drop_last(), i, v);
    }
}

/// Every element is at most the whole sum.
pub proof fn lemma_sum_u64_element_le(s: Seq<u64>, i: int)
    requires
        0 <= i < s.len(),
    ensures
        s[i] <= sum_u64(s),
    decreases s.len(),
{
    if i == s.len() - 1 {
        lemma_sum_u64_nonneg(s.drop_last());
    } else {
        lemma_sum_u64_element_le(s.drop_last(), i);
    }
}

/// Sums respect pointwise order.
pub proof fn lemma_sum_u64_pointwise_le(a: Seq<u64>, b: Seq<u64>)
    requires
        a.len() == b.len(),
        forall|i: int| 0 <= i < a.len() ==> a[i] <= b[i],
    ensures
        sum_u64(a) <= sum_u64(b),
    decreases a.len(),
{
    if a.len() > 0 {
        lemma_sum_u64_pointwise_le(a.drop_last(), b.drop_last());
    }
}

/// Index of the last occurrence of `x` in `s`, or `-1` if `x` does not occur.
pub open spec fn last_index_of<A>(s: Seq<A>, x: A) -> int
    decreases s.len(),
{
    if s.len() == 0 {
        -1
    } else if s.last() == x {
        s.len() - 1
    } else {
        last_index_of(s.drop_last(), x)
    }
}

/// `last_index_of` points at an occurrence and nothing occurs after it;
/// `-1` means there is no occurrence at all.
pub proof fn lemma_last_index_of<A>(s: Seq<A>, x: A)
    ensures
        -1 <= last_index_of(s, x) < s.len(),
        last_index_of(s, x) == -1 ==> forall|k: int| 0 <= k < s.len() ==> s[k] != x,
        last_index_of(s, x) >= 0 ==> s[last_index_of(s, x)] == x,
        forall|k: int| last_index_of(s, x) < k < s.len() ==> s[k] != x,
    decreases s.len(),
{
    if s.len() > 0 && s.last() != x {
        lemma_last_index_of(s.drop_last(), x);
        assert(forall|k: int| 0 <= k < s.len() - 1 ==> s[k] == s.drop_last()[k]);
    }
}

} // verus!
