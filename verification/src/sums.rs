//! Sums of sequences of machine integers, as mathematical integers.

use vstd::prelude::*;

verus! {

/// The sum of all items of `s`.
pub open spec fn sum(s: Seq<u64>) -> nat
    decreases s.len(),
{
    if s.len() == 0 {
        0
    } else {
        sum(s.drop_last()) + s.last() as nat
    }
}

/// The sum of a prefix grows by the next item.
pub proof fn lemma_sum_take_next(s: Seq<u64>, i: int)
    requires
        0 <= i < s.len(),
    ensures
        sum(s.take(i + 1)) == sum(s.take(i)) + s[i] as nat,
{
    assert(s.take(i + 1).drop_last() =~= s.take(i));
}

/// The sum of a sequence is that of its full prefix.
pub proof fn lemma_sum_take_all(s: Seq<u64>)
    ensures
        sum(s.take(s.len() as int)) == sum(s),
{
    assert(s.take(s.len() as int) =~= s);
}

/// Every item is at most the sum.
pub proof fn lemma_sum_bounds_item(s: Seq<u64>, i: int)
    requires
        0 <= i < s.len(),
    ensures
        s[i] as nat <= sum(s),
    decreases s.len(),
{
    if i < s.len() - 1 {
        lemma_sum_bounds_item(s.drop_last(), i);
    }
}

/// A sum of `n` machine words is below `n` times the word's range.
pub proof fn lemma_sum_upper_bound(s: Seq<u64>)
    ensures
        sum(s) <= s.len() * (u64::MAX as nat),
    decreases s.len(),
{
    if s.len() > 0 {
        lemma_sum_upper_bound(s.drop_last());
        assert((s.len() - 1) * (u64::MAX as nat) + u64::MAX as nat == s.len() * (u64::MAX as nat))
            by (nonlinear_arith);
    }
}

/// Where no item of `a` exceeds the item of `b` at its place, the sum of `a`
/// does not exceed that of `b`.
pub proof fn lemma_sum_monotone(a: Seq<u64>, b: Seq<u64>)
    requires
        a.len() == b.len(),
        forall|i: int| 0 <= i < a.len() ==> a[i] <= b[i],
    ensures
        sum(a) <= sum(b),
    decreases a.len(),
{
    if a.len() > 0 {
        lemma_sum_monotone(a.drop_last(), b.drop_last());
    }
}

/// Two sequences with equal sums, one of them nowhere above the other, are equal.
pub proof fn lemma_sum_equal_pointwise(a: Seq<u64>, b: Seq<u64>)
    requires
        a.len() == b.len(),
        forall|i: int| 0 <= i < a.len() ==> a[i] <= b[i],
        sum(a) == sum(b),
    ensures
        a =~= b,
    decreases a.len(),
{
    if a.len() > 0 {
        lemma_sum_monotone(a.drop_last(), b.drop_last());
        lemma_sum_equal_pointwise(a.drop_last(), b.drop_last());
        assert forall|i: int| 0 <= i < a.len() implies a[i] == b[i] by {
            if i < a.len() - 1 {
                assert(a.drop_last()[i] == b.drop_last()[i]);
            }
        }
    }
}

/// Raising one item by one unit raises the sum by one.
pub proof fn lemma_sum_update_plus_one(s: Seq<u64>, i: int)
    requires
        0 <= i < s.len(),
        s[i] < u64::MAX,
    ensures
        sum(s.update(i, (s[i] + 1) as u64)) == sum(s) + 1,
    decreases s.len(),
{
    let t = s.update(i, (s[i] + 1) as u64);
    if i == s.len() - 1 {
        assert(t.drop_last() =~= s.drop_last());
    } else {
        lemma_sum_update_plus_one(s.drop_last(), i);
        assert(t.drop_last() =~= s.drop_last().update(i, (s[i] + 1) as u64));
    }
}

} // verus!
