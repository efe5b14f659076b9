//! Every pot has an apportionment by every list of weights.
//!
//! The proof builds one: the places are put in the order in which they are
//! served, every place starts with its quota, and the first places in that
//! order, as many as there are units left over, get one unit more.

use crate::apportion::{
    apportionment, is_apportionment, leftover, lemma_leftover_bounds, lemma_quota_remainder,
    outranks, quota, quota_sum,
};
use crate::sums::{lemma_sum_bounds_item, lemma_sum_update_plus_one, sum};
use vstd::prelude::*;
use vstd::relations::{sorted_by, total_ordering};

verus! {

/// Place `i` is served no later than place `j`.
pub open spec fn served_no_later(pot: u64, weights: Seq<u64>) -> spec_fn(int, int) -> bool {
    |i: int, j: int| i == j || outranks(pot, weights, i, j)
}

/// The places `0..n`, each at its own place.
pub open spec fn places(n: nat) -> Seq<int> {
    Seq::new(n, |i: int| i)
}

/// The places in the order in which they are served.
pub open spec fn serving_order(pot: u64, weights: Seq<u64>) -> Seq<int> {
    places(weights.len()).sort_by(served_no_later(pot, weights))
}

/// Place `i` is among the first `k` of `order`.
pub open spec fn among_first(order: Seq<int>, k: int, i: int) -> bool {
    exists|m: int| 0 <= m < k && m < order.len() && #[trigger] order[m] == i
}

/// The quotas, at their places.
pub open spec fn quotas(pot: u64, weights: Seq<u64>) -> Seq<u64> {
    Seq::new(weights.len(), |i: int| quota(pot, weights, i) as u64)
}

/// `base` with one unit more at each of the first `k` places of `order`.
pub open spec fn with_extra(base: Seq<u64>, order: Seq<int>, k: int) -> Seq<u64>
    decreases k,
{
    if k <= 0 {
        base
    } else {
        let before = with_extra(base, order, k - 1);
        before.update(order[k - 1], (before[order[k - 1]] + 1) as u64)
    }
}

/// The shares that the construction gives.
pub open spec fn constructed(pot: u64, weights: Seq<u64>) -> Seq<u64> {
    if sum(weights) == 0 {
        Seq::new(weights.len(), |i: int| 0u64)
    } else {
        with_extra(quotas(pot, weights), serving_order(pot, weights), leftover(pot, weights))
    }
}

/// The order of service is a total order of the places.
pub proof fn lemma_served_no_later_is_total(pot: u64, weights: Seq<u64>)
    ensures
        total_ordering(served_no_later(pot, weights)),
{
    let leq = served_no_later(pot, weights);
    assert forall|x: int| #[trigger] leq(x, x) by {}
    assert forall|x: int, y: int| #[trigger] leq(x, y) && #[trigger] leq(y, x) implies x == y by {}
    assert forall|x: int, y: int, z: int| #[trigger] leq(x, y) && #[trigger] leq(y, z) implies leq(
        x,
        z,
    ) by {}
    assert forall|x: int, y: int| #[trigger] leq(x, y) || #[trigger] leq(y, x) by {}
}

/// The places in the order of service: each place stands in it once, and an
/// earlier one is served no later than a later one.
pub proof fn lemma_serving_order(pot: u64, weights: Seq<u64>)
    ensures
        serving_order(pot, weights).len() == weights.len(),
        forall|m: int|
            0 <= m < weights.len() ==> 0 <= #[trigger] serving_order(pot, weights)[m]
                < weights.len(),
        forall|m: int, k: int|
            0 <= m < k < weights.len() ==> #[trigger] serving_order(pot, weights)[m]
                != #[trigger] serving_order(pot, weights)[k] && outranks(
                pot,
                weights,
                serving_order(pot, weights)[m],
                serving_order(pot, weights)[k],
            ),
        forall|j: int|
            0 <= j < weights.len() ==> #[trigger] among_first(
                serving_order(pot, weights),
                weights.len() as int,
                j,
            ),
{
    let n = weights.len();
    let leq = served_no_later(pot, weights);
    let start = places(n);
    let order = serving_order(pot, weights);
    lemma_served_no_later_is_total(pot, weights);
    start.lemma_sort_by_ensures(leq);
    start.to_multiset_ensures();
    order.to_multiset_ensures();
    assert forall|m: int| 0 <= m < order.len() implies 0 <= #[trigger] order[m] < n by {
        assert(order.contains(order[m]));
        assert(order.to_multiset().count(order[m]) > 0);
        assert(start.to_multiset().count(order[m]) > 0);
        assert(start.contains(order[m]));
        let p = choose|p: int| 0 <= p < start.len() && start[p] == order[m];
        assert(start[p] == p);
    }
    assert(start.no_duplicates());
    start.lemma_multiset_has_no_duplicates();
    order.lemma_multiset_has_no_duplicates_conv();
    assert forall|m: int, k: int| 0 <= m < k < n implies #[trigger] order[m] != #[trigger] order[k]
        && outranks(pot, weights, order[m], order[k]) by {
        assert(sorted_by(order, leq));
        assert(leq(order[m], order[k]));
    }
    assert forall|j: int| 0 <= j < n implies #[trigger] among_first(order, n as int, j) by {
        assert(start[j] == j);
        assert(start.contains(j));
        assert(start.to_multiset().count(j) > 0);
        assert(order.to_multiset().count(j) > 0);
        assert(order.contains(j));
        let m = choose|m: int| 0 <= m < order.len() && order[m] == j;
        assert(order[m] == j);
    }
}

/// What one unit more at each of the first `k` places of `order` comes to:
/// the places that are among them hold one unit more, the others what they
/// held, and the sum has grown by `k`.
pub proof fn lemma_with_extra(base: Seq<u64>, order: Seq<int>, k: int)
    requires
        0 <= k <= order.len(),
        sum(base) + k <= u64::MAX,
        forall|m: int| 0 <= m < order.len() ==> 0 <= #[trigger] order[m] < base.len(),
        forall|m: int, j: int|
            0 <= m < j < order.len() ==> #[trigger] order[m] != #[trigger] order[j],
    ensures
        with_extra(base, order, k).len() == base.len(),
        sum(with_extra(base, order, k)) == sum(base) + k,
        forall|i: int|
            0 <= i < base.len() ==> #[trigger] with_extra(base, order, k)[i] as int == base[i]
                + if among_first(order, k, i) {
                1int
            } else {
                0int
            },
    decreases k,
{
    if k > 0 {
        lemma_with_extra(base, order, k - 1);
        let before = with_extra(base, order, k - 1);
        let after = with_extra(base, order, k);
        let place = order[k - 1];
        lemma_sum_bounds_item(before, place);
        lemma_sum_update_plus_one(before, place);
        if among_first(order, k - 1, place) {
            let m = choose|m: int| 0 <= m < k - 1 && m < order.len() && #[trigger] order[m] == place;
            assert(order[m] != order[k - 1]);
        }
        assert forall|i: int| 0 <= i < base.len() implies #[trigger] after[i] as int == base[i]
            + if among_first(order, k, i) {
            1int
        } else {
            0int
        } by {
            if i == place {
                assert(order[k - 1] == i);
            } else {
                if among_first(order, k, i) {
                    let m = choose|m: int| 0 <= m < k && m < order.len() && #[trigger] order[m] == i;
                    assert(m != k - 1);
                    assert(among_first(order, k - 1, i));
                }
                if among_first(order, k - 1, i) {
                    let m = choose|m: int|
                        0 <= m < k - 1 && m < order.len() && #[trigger] order[m] == i;
                    assert(among_first(order, k, i));
                }
                assert(after[i] == before[i]);
            }
        }
    }
}

/// The quotas of the first `m` places add up to their sum.
pub proof fn lemma_quotas_sum(pot: u64, weights: Seq<u64>, m: int)
    requires
        0 <= m <= weights.len(),
        sum(weights) > 0,
    ensures
        sum(quotas(pot, weights).take(m)) == quota_sum(pot, weights, m),
    decreases m,
{
    if m > 0 {
        lemma_quotas_sum(pot, weights, m - 1);
        lemma_quota_remainder(pot, weights, m - 1);
        assert(quotas(pot, weights).take(m).drop_last() =~= quotas(pot, weights).take(m - 1));
    } else {
        assert(quotas(pot, weights).take(0) =~= Seq::<u64>::empty());
    }
}

/// The shares that the construction gives are an apportionment.
pub proof fn lemma_constructed_is_apportionment(pot: u64, weights: Seq<u64>)
    ensures
        is_apportionment(pot, weights, constructed(pot, weights)),
{
    let n = weights.len() as int;
    let shares = constructed(pot, weights);
    if sum(weights) > 0 {
        let base = quotas(pot, weights);
        let order = serving_order(pot, weights);
        let extra = leftover(pot, weights);
        lemma_leftover_bounds(pot, weights);
        lemma_serving_order(pot, weights);
        lemma_quotas_sum(pot, weights, n);
        assert(base.take(n) =~= base);
        assert forall|i: int| 0 <= i < n implies #[trigger] base[i] as int == quota(
            pot,
            weights,
            i,
        ) by {
            lemma_quota_remainder(pot, weights, i);
        }
        lemma_with_extra(base, order, extra);
        assert forall|i: int, j: int|
            0 <= i < shares.len() && 0 <= j < shares.len() && outranks(pot, weights, j, i)
                && shares[i] as int > quota(pot, weights, i) implies shares[j] as int > quota(
            pot,
            weights,
            j,
        ) by {
            assert(shares[i] as int == base[i] + if among_first(order, extra, i) {
                1int
            } else {
                0int
            });
            assert(shares[j] as int == base[j] + if among_first(order, extra, j) {
                1int
            } else {
                0int
            });
            assert(among_first(order, extra, i));
            let m = choose|m: int| 0 <= m < extra && m < order.len() && #[trigger] order[m] == i;
            assert(among_first(order, n, j));
            let m2 = choose|m2: int| 0 <= m2 < n && m2 < order.len() && #[trigger] order[m2] == j;
            if m2 >= extra {
                assert(outranks(pot, weights, order[m], order[m2]));
                assert(false);
            }
            assert(among_first(order, extra, j));
        }
        assert forall|i: int| 0 <= i < shares.len() implies (#[trigger] shares[i] as int == quota(
            pot,
            weights,
            i,
        ) || shares[i] as int == quota(pot, weights, i) + 1) by {
            assert(shares[i] as int == base[i] + if among_first(order, extra, i) {
                1int
            } else {
                0int
            });
        }
    }
}

/// Every pot has an apportionment by every list of weights, and only one.
pub proof fn lemma_apportionment_exists(pot: u64, weights: Seq<u64>)
    ensures
        is_apportionment(pot, weights, apportionment(pot, weights)),
{
    lemma_constructed_is_apportionment(pot, weights);
}

/// Nothing is lost and nothing is gained: where any weight is above zero,
/// the shares add up to the pot.
pub proof fn lemma_conservation(pot: u64, weights: Seq<u64>)
    requires
        sum(weights) > 0,
    ensures
        sum(apportionment(pot, weights)) == pot as nat,
{
    lemma_apportionment_exists(pot, weights);
}

/// Every share is the claimant's quota or one unit more.
pub proof fn lemma_boundedness(pot: u64, weights: Seq<u64>, i: int)
    requires
        sum(weights) > 0,
        0 <= i < weights.len(),
    ensures
        apportionment(pot, weights)[i] as int == quota(pot, weights, i) || apportionment(
            pot,
            weights,
        )[i] as int == quota(pot, weights, i) + 1,
        0 <= quota(pot, weights, i) <= pot as int,
{
    lemma_apportionment_exists(pot, weights);
    lemma_quota_remainder(pot, weights, i);
}

} // verus!
