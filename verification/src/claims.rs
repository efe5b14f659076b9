//! The order in which claimants are served the units that rounding left over.

use vstd::prelude::*;
use vstd::seq_lib::{lemma_multiset_commutative, to_multiset_build};

verus! {

/// A claimant's remainder, with the claimant's place among the claimants.
#[derive(Clone, Copy, Debug, PartialEq, Eq, Structural)]
pub struct Claim {
    pub remainder: u128,
    pub index: usize,
}

/// `a` is served no later than `b`: its remainder is larger, or the
/// remainders are equal and `a` does not come after `b`.
pub open spec fn precedes(a: Claim, b: Claim) -> bool {
    a.remainder > b.remainder || (a.remainder == b.remainder && a.index <= b.index)
}

/// Every claim of `s` precedes those behind it.
pub open spec fn is_ordered(s: Seq<Claim>) -> bool {
    forall|a: int, b: int| #![trigger s[a], s[b]] 0 <= a < b < s.len() ==> precedes(s[a], s[b])
}

/// Whether `a` is served no later than `b`.
pub fn claim_precedes(a: &Claim, b: &Claim) -> (r: bool)
    ensures
        r == precedes(*a, *b),
{
    a.remainder > b.remainder || (a.remainder == b.remainder && a.index <= b.index)
}

/// The claims of `claims` from place `from` up to place `to`.
fn copy_range(claims: &Vec<Claim>, from: usize, to: usize) -> (out: Vec<Claim>)
    requires
        from <= to <= claims.len(),
    ensures
        out@ == claims@.subrange(from as int, to as int),
{
    let mut out: Vec<Claim> = Vec::new();
    let mut i: usize = from;
    while i < to
        invariant
            from <= i <= to <= claims.len(),
            out@ == claims@.subrange(from as int, i as int),
        decreases to - i,
    {
        out.push(claims[i]);
        assert(out@ =~= claims@.subrange(from as int, i + 1));
        i = i + 1;
    }
    out
}

/// Merges two ordered runs of claims into one.
fn merge_claims(left: &Vec<Claim>, right: &Vec<Claim>) -> (out: Vec<Claim>)
    requires
        is_ordered(left@),
        is_ordered(right@),
        left.len() + right.len() <= usize::MAX,
    ensures
        is_ordered(out@),
        out@.to_multiset() == left@.to_multiset().add(right@.to_multiset()),
{
    let mut out: Vec<Claim> = Vec::new();
    let mut i: usize = 0;
    let mut j: usize = 0;
    proof {
        assert(left@.take(0) =~= Seq::<Claim>::empty());
        assert(right@.take(0) =~= Seq::<Claim>::empty());
        Seq::<Claim>::empty().to_multiset_ensures();
        assert(out@.to_multiset() =~= left@.take(0).to_multiset().add(
            right@.take(0).to_multiset(),
        ));
    }
    while i < left.len() || j < right.len()
        invariant
            i <= left.len(),
            j <= right.len(),
            left.len() + right.len() <= usize::MAX,
            is_ordered(left@),
            is_ordered(right@),
            is_ordered(out@),
            out@.to_multiset() == left@.take(i as int).to_multiset().add(
                right@.take(j as int).to_multiset(),
            ),
            forall|k: int, a: int|
                #![trigger out@[k], left@[a]]
                0 <= k < out@.len() && i <= a < left@.len() ==> precedes(out@[k], left@[a]),
            forall|k: int, b: int|
                #![trigger out@[k], right@[b]]
                0 <= k < out@.len() && j <= b < right@.len() ==> precedes(out@[k], right@[b]),
        decreases left.len() - i + (right.len() - j),
    {
        let from_left: bool = if i < left.len() && j < right.len() {
            claim_precedes(&left[i], &right[j])
        } else {
            i < left.len()
        };
        let ghost before = out@;
        if from_left {
            let c: Claim = left[i];
            out.push(c);
            proof {
                assert(left@.take(i + 1) =~= left@.take(i as int).push(c));
                to_multiset_build(before, c);
                to_multiset_build(left@.take(i as int), c);
                assert forall|k: int, a: int|
                    #![trigger out@[k], left@[a]]
                    0 <= k < out@.len() && i + 1 <= a < left@.len() implies precedes(
                    out@[k],
                    left@[a],
                ) by {
                    if k < before.len() {
                        assert(out@[k] == before[k]);
                    } else {
                        assert(precedes(left@[i as int], left@[a]));
                    }
                }
                assert forall|k: int, b: int|
                    #![trigger out@[k], right@[b]]
                    0 <= k < out@.len() && j <= b < right@.len() implies precedes(
                    out@[k],
                    right@[b],
                ) by {
                    if k < before.len() {
                        assert(out@[k] == before[k]);
                    } else {
                        assert(precedes(left@[i as int], right@[j as int]));
                        if j < b {
                            assert(precedes(right@[j as int], right@[b]));
                        }
                    }
                }
                assert(out@.to_multiset() =~= left@.take(i + 1).to_multiset().add(
                    right@.take(j as int).to_multiset(),
                ));
            }
            i = i + 1;
        } else {
            let c: Claim = right[j];
            out.push(c);
            proof {
                assert(right@.take(j + 1) =~= right@.take(j as int).push(c));
                to_multiset_build(before, c);
                to_multiset_build(right@.take(j as int), c);
                assert forall|k: int, b: int|
                    #![trigger out@[k], right@[b]]
                    0 <= k < out@.len() && j + 1 <= b < right@.len() implies precedes(
                    out@[k],
                    right@[b],
                ) by {
                    if k < before.len() {
                        assert(out@[k] == before[k]);
                    } else {
                        assert(precedes(right@[j as int], right@[b]));
                    }
                }
                assert forall|k: int, a: int|
                    #![trigger out@[k], left@[a]]
                    0 <= k < out@.len() && i <= a < left@.len() implies precedes(
                    out@[k],
                    left@[a],
                ) by {
                    if k < before.len() {
                        assert(out@[k] == before[k]);
                    } else {
                        assert(!precedes(left@[i as int], right@[j as int]));
                        if i < a {
                            assert(precedes(left@[i as int], left@[a]));
                        }
                    }
                }
                assert(out@.to_multiset() =~= left@.take(i as int).to_multiset().add(
                    right@.take(j + 1).to_multiset(),
                ));
            }
            j = j + 1;
        }
    }
    proof {
        assert(left@.take(left@.len() as int) =~= left@);
        assert(right@.take(right@.len() as int) =~= right@);
    }
    out
}

/// The claims in the order in which they are served: by falling remainder,
/// and among equal remainders by rising place.
pub fn sort_claims(claims: &Vec<Claim>) -> (out: Vec<Claim>)
    ensures
        is_ordered(out@),
        out@.to_multiset() == claims@.to_multiset(),
    decreases claims.len(),
{
    let n: usize = claims.len();
    if n <= 1 {
        let out = copy_range(claims, 0, n);
        assert(out@ =~= claims@);
        return out;
    }
    let mid: usize = n / 2;
    let left = copy_range(claims, 0, mid);
    let right = copy_range(claims, mid, n);
    let left_sorted = sort_claims(&left);
    let right_sorted = sort_claims(&right);
    proof {
        assert(claims@ =~= left@ + right@);
        lemma_multiset_commutative(left@, right@);
        left_sorted@.to_multiset_ensures();
        right_sorted@.to_multiset_ensures();
        left@.to_multiset_ensures();
        right@.to_multiset_ensures();
    }
    merge_claims(&left_sorted, &right_sorted)
}

/// `claims` holds one claim for each place, at that place.
pub open spec fn is_roster(claims: Seq<Claim>) -> bool {
    forall|k: int| 0 <= k < claims.len() ==> (#[trigger] claims[k]).index == k
}

/// Place `j` is among the first `upto` claims of `order`.
pub open spec fn serves(order: Seq<Claim>, upto: int, j: int) -> bool {
    exists|m: int| 0 <= m < upto && m < order.len() && (#[trigger] order[m]).index == j
}

/// The claims of a roster, put in another order, still hold each place once.
pub proof fn lemma_reordered_roster(claims: Seq<Claim>, order: Seq<Claim>)
    requires
        is_roster(claims),
        order.to_multiset() == claims.to_multiset(),
    ensures
        order.len() == claims.len(),
        forall|m: int|
            0 <= m < order.len() ==> 0 <= (#[trigger] order[m]).index < claims.len()
                && claims[order[m].index as int] == order[m],
        forall|m: int, k: int|
            0 <= m < order.len() && 0 <= k < order.len() && m != k ==> (#[trigger] order[m]).index
                != (#[trigger] order[k]).index,
        forall|j: int| 0 <= j < claims.len() ==> #[trigger] serves(order, order.len() as int, j),
{
    claims.to_multiset_ensures();
    order.to_multiset_ensures();
    assert forall|m: int| 0 <= m < order.len() implies 0 <= (#[trigger] order[m]).index
        < claims.len() && claims[order[m].index as int] == order[m] by {
        assert(order.contains(order[m]));
        assert(order.to_multiset().count(order[m]) > 0);
        assert(claims.to_multiset().count(order[m]) > 0);
        assert(claims.contains(order[m]));
        let p = choose|p: int| 0 <= p < claims.len() && claims[p] == order[m];
        assert(claims[p].index == p);
    }
    assert(claims.no_duplicates()) by {
        assert forall|a: int, b: int| 0 <= a < claims.len() && 0 <= b < claims.len() && a
            != b implies claims[a] != claims[b] by {
            assert(claims[a].index == a);
            assert(claims[b].index == b);
        }
    }
    claims.lemma_multiset_has_no_duplicates();
    order.lemma_multiset_has_no_duplicates_conv();
    assert forall|m: int, k: int|
        0 <= m < order.len() && 0 <= k < order.len() && m != k implies (#[trigger] order[m]).index
        != (#[trigger] order[k]).index by {
        assert(order[m] != order[k]);
        assert(claims[order[m].index as int] == order[m]);
        assert(claims[order[k].index as int] == order[k]);
    }
    assert forall|j: int| 0 <= j < claims.len() implies #[trigger] serves(
        order,
        order.len() as int,
        j,
    ) by {
        assert(claims.contains(claims[j]));
        assert(claims.to_multiset().count(claims[j]) > 0);
        assert(order.to_multiset().count(claims[j]) > 0);
        assert(order.contains(claims[j]));
        let m = choose|m: int| 0 <= m < order.len() && order[m] == claims[j];
        assert(order[m].index == j);
    }
}

} // verus!
