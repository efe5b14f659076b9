//! Sharing out a pot among weighted claimants with nothing lost: the method
//! of the largest remainder.
//!
//! Every claimant first gets its quota, the pot times its weight over the
//! total weight, rounded down. What rounding has left over, always fewer
//! units than there are claimants, goes one unit each to the claimants with
//! the largest remainders, and among equal remainders to the claimant that
//! comes first.

use crate::claims::{
    is_roster, lemma_reordered_roster, precedes, serves, sort_claims, Claim,
};
use crate::sums::{
    lemma_sum_bounds_item, lemma_sum_equal_pointwise, lemma_sum_take_all, lemma_sum_take_next,
    lemma_sum_update_plus_one, lemma_sum_upper_bound, sum,
};
use vstd::arithmetic::div_mod::{lemma_fundamental_div_mod, lemma_mod_pos_bound};
use vstd::prelude::*;

verus! {

/// The quota of claimant `i`: `floor(pot * weights[i] / total)`.
pub open spec fn quota(pot: u64, weights: Seq<u64>, i: int) -> int {
    (pot as int * weights[i] as int) / (sum(weights) as int)
}

/// What rounding the quota of claimant `i` down has cut off: `(pot * weights[i]) mod total`.
pub open spec fn remainder(pot: u64, weights: Seq<u64>, i: int) -> int {
    (pot as int * weights[i] as int) % (sum(weights) as int)
}

/// Claimant `j` is served before claimant `i`: its remainder is larger, or
/// the remainders are equal and `j` comes first.
pub open spec fn outranks(pot: u64, weights: Seq<u64>, j: int, i: int) -> bool {
    remainder(pot, weights, j) > remainder(pot, weights, i) || (remainder(pot, weights, j)
        == remainder(pot, weights, i) && j < i)
}

/// The sum of the quotas of the first `m` claimants.
pub open spec fn quota_sum(pot: u64, weights: Seq<u64>, m: int) -> int
    decreases m,
{
    if m <= 0 {
        0
    } else {
        quota_sum(pot, weights, m - 1) + quota(pot, weights, m - 1)
    }
}

/// The sum of the remainders of the first `m` claimants.
pub open spec fn remainder_sum(pot: u64, weights: Seq<u64>, m: int) -> int
    decreases m,
{
    if m <= 0 {
        0
    } else {
        remainder_sum(pot, weights, m - 1) + remainder(pot, weights, m - 1)
    }
}

/// The units that the quotas leave undistributed.
pub open spec fn leftover(pot: u64, weights: Seq<u64>) -> int {
    pot as int - quota_sum(pot, weights, weights.len() as int)
}

/// `shares` is the apportionment of `pot` by `weights`.
///
/// Without any weight nothing is distributed. Otherwise the shares add up to
/// the pot, each share is the claimant's quota or one unit more, and a
/// claimant gets the extra unit only if every claimant that outranks it gets
/// one too.
pub open spec fn is_apportionment(pot: u64, weights: Seq<u64>, shares: Seq<u64>) -> bool {
    &&& shares.len() == weights.len()
    &&& sum(weights) == 0 ==> forall|i: int| 0 <= i < shares.len() ==> shares[i] == 0
    &&& sum(weights) > 0 ==> {
        &&& sum(shares) == pot as nat
        &&& forall|i: int|
            0 <= i < shares.len() ==> (#[trigger] shares[i] as int == quota(pot, weights, i)
                || shares[i] as int == quota(pot, weights, i) + 1)
        &&& forall|i: int, j: int|
            0 <= i < shares.len() && 0 <= j < shares.len() && outranks(pot, weights, j, i)
                && shares[i] as int > quota(pot, weights, i) ==> shares[j] as int > quota(
                pot,
                weights,
                j,
            )
    }
}

/// Quota and remainder split the product of pot and weight.
pub proof fn lemma_quota_remainder(pot: u64, weights: Seq<u64>, i: int)
    requires
        0 <= i < weights.len(),
        sum(weights) > 0,
    ensures
        pot as int * weights[i] as int == sum(weights) as int * quota(pot, weights, i) + remainder(
            pot,
            weights,
            i,
        ),
        0 <= remainder(pot, weights, i) < sum(weights) as int,
        0 <= quota(pot, weights, i) <= pot as int,
{
    let p: int = pot as int;
    let w: int = weights[i] as int;
    let t: int = sum(weights) as int;
    let q: int = quota(pot, weights, i);
    let r: int = remainder(pot, weights, i);
    lemma_sum_bounds_item(weights, i);
    lemma_fundamental_div_mod(p * w, t);
    lemma_mod_pos_bound(p * w, t);
    assert(0 <= p * w <= p * t) by (nonlinear_arith)
        requires
            0 <= p,
            0 <= w <= t,
    ;
    assert(0 <= q <= p) by (nonlinear_arith)
        requires
            p * w == t * q + r,
            0 <= r < t,
            0 <= p * w <= p * t,
            0 <= p,
    ;
}

/// The quotas and remainders of the first `m` claimants split the pot times
/// their weight.
pub proof fn lemma_prefix_split(pot: u64, weights: Seq<u64>, m: int)
    requires
        0 <= m <= weights.len(),
        sum(weights) > 0,
    ensures
        pot as int * sum(weights.take(m)) as int == sum(weights) as int * quota_sum(pot, weights, m)
            + remainder_sum(pot, weights, m),
        0 <= remainder_sum(pot, weights, m) <= m * (sum(weights) as int - 1),
        0 <= quota_sum(pot, weights, m),
    decreases m,
{
    let p: int = pot as int;
    let t: int = sum(weights) as int;
    if m == 0 {
        assert(weights.take(0) =~= Seq::<u64>::empty());
        assert(p * 0 == 0);
        assert(t * 0 == 0);
        assert(0 * (t - 1) == 0);
    } else {
        lemma_prefix_split(pot, weights, m - 1);
        lemma_quota_remainder(pot, weights, m - 1);
        lemma_sum_take_next(weights, m - 1);
        let s0: int = sum(weights.take(m - 1)) as int;
        let w: int = weights[m - 1] as int;
        let qs: int = quota_sum(pot, weights, m - 1);
        let rs: int = remainder_sum(pot, weights, m - 1);
        let q: int = quota(pot, weights, m - 1);
        let r: int = remainder(pot, weights, m - 1);
        assert(p * (s0 + w) == t * (qs + q) + (rs + r)) by (nonlinear_arith)
            requires
                p * s0 == t * qs + rs,
                p * w == t * q + r,
        ;
        assert(rs + r <= m * (t - 1)) by (nonlinear_arith)
            requires
                rs <= (m - 1) * (t - 1),
                r <= t - 1,
        ;
    }
}

/// Rounding leaves fewer units over than there are claimants.
pub proof fn lemma_leftover_bounds(pot: u64, weights: Seq<u64>)
    requires
        sum(weights) > 0,
    ensures
        0 <= leftover(pot, weights) < weights.len(),
        0 <= quota_sum(pot, weights, weights.len() as int) <= pot as int,
{
    let p: int = pot as int;
    let t: int = sum(weights) as int;
    let n: int = weights.len() as int;
    let qs: int = quota_sum(pot, weights, n);
    let rs: int = remainder_sum(pot, weights, n);
    lemma_prefix_split(pot, weights, n);
    lemma_sum_take_all(weights);
    assert(n > 0);
    let d: int = p - qs;
    assert(t * d == rs) by (nonlinear_arith)
        requires
            p * t == t * qs + rs,
            d == p - qs,
    ;
    assert(0 <= d) by (nonlinear_arith)
        requires
            t * d == rs,
            0 <= rs,
            t > 0,
    ;
    assert(d < n) by (nonlinear_arith)
        requires
            t * d == rs,
            rs <= n * (t - 1),
            t > 0,
            n > 0,
    ;
}

/// Of two different claimants one outranks the other.
pub proof fn lemma_outranks_total(pot: u64, weights: Seq<u64>, i: int, j: int)
    requires
        i != j,
    ensures
        outranks(pot, weights, i, j) || outranks(pot, weights, j, i),
        !(outranks(pot, weights, i, j) && outranks(pot, weights, j, i)),
{
}

/// The apportionment is determined by the pot and the weights: two share
/// vectors that both meet its definition are equal, including which of the
/// claimants with equal remainders got the extra unit.
pub proof fn lemma_apportionment_unique(pot: u64, weights: Seq<u64>, a: Seq<u64>, b: Seq<u64>)
    requires
        is_apportionment(pot, weights, a),
        is_apportionment(pot, weights, b),
    ensures
        a == b,
{
    if sum(weights) == 0 {
        assert(a =~= b);
    } else {
        let a_above = exists|x: int| 0 <= x < a.len() && a[x] > b[x];
        let b_above = exists|y: int| 0 <= y < a.len() && b[y] > a[y];
        if a_above && b_above {
            let x = choose|x: int| 0 <= x < a.len() && a[x] > b[x];
            let y = choose|y: int| 0 <= y < a.len() && b[y] > a[y];
            assert(a[x] as int == quota(pot, weights, x) + 1 && b[x] as int == quota(pot, weights, x));
            assert(b[y] as int == quota(pot, weights, y) + 1 && a[y] as int == quota(pot, weights, y));
            lemma_outranks_total(pot, weights, x, y);
            if outranks(pot, weights, x, y) {
                assert(b[x] as int > quota(pot, weights, x));
            } else {
                assert(a[y] as int > quota(pot, weights, y));
            }
            assert(false);
        }
        if !a_above {
            lemma_sum_equal_pointwise(a, b);
        } else {
            lemma_sum_equal_pointwise(b, a);
        }
        assert(a =~= b);
    }
}

/// The apportionment of `pot` by `weights`.
pub open spec fn apportionment(pot: u64, weights: Seq<u64>) -> Seq<u64> {
    choose|shares: Seq<u64>| is_apportionment(pot, weights, shares)
}

/// A share vector that meets the definition is the apportionment.
pub proof fn lemma_apportionment_is(pot: u64, weights: Seq<u64>, shares: Seq<u64>)
    requires
        is_apportionment(pot, weights, shares),
    ensures
        apportionment(pot, weights) == shares,
        is_apportionment(pot, weights, apportionment(pot, weights)),
{
    lemma_apportionment_unique(pot, weights, apportionment(pot, weights), shares);
}

/// The quotas of a shorter prefix add up to no more than those of a longer one.
pub proof fn lemma_quota_sum_monotone(pot: u64, weights: Seq<u64>, a: int, b: int)
    requires
        0 <= a <= b <= weights.len(),
        sum(weights) > 0,
    ensures
        quota_sum(pot, weights, a) <= quota_sum(pot, weights, b),
    decreases b - a,
{
    if a < b {
        lemma_quota_sum_monotone(pot, weights, a, b - 1);
        lemma_quota_remainder(pot, weights, b - 1);
    }
}

/// The total of the weights.
pub fn total_weight(weights: &Vec<u64>) -> (total: u128)
    ensures
        total as nat == sum(weights@),
{
    let mut total: u128 = 0;
    let mut i: usize = 0;
    while i < weights.len()
        invariant
            i <= weights.len(),
            total as nat == sum(weights@.take(i as int)),
        decreases weights.len() - i,
    {
        proof {
            lemma_sum_take_next(weights@, i as int);
            lemma_sum_upper_bound(weights@.take(i + 1));
            let m: int = i + 1;
            assert(m * 0xffff_ffff_ffff_ffff <= 0xffff_ffff_ffff_ffff * 0xffff_ffff_ffff_ffff)
                by (nonlinear_arith)
                requires
                    0 <= m <= 0xffff_ffff_ffff_ffff,
            ;
        }
        total = total + weights[i] as u128;
        i = i + 1;
    }
    proof {
        lemma_sum_take_all(weights@);
    }
    total
}

/// Shares `pot` out among claimants by their `weights`, with nothing lost.
///
/// The result has one share for each weight, at its place. Where the weights
/// are all zero, or there are none, nothing is distributed and every share is
/// zero. Otherwise the shares add up to `pot` exactly: each claimant gets its
/// quota, and the units left over go one each to the claimants with the
/// largest remainders, the earlier claimant first among equal remainders.
pub fn apportion(pot: u64, weights: &Vec<u64>) -> (shares: Vec<u64>)
    ensures
        shares@ == apportionment(pot, weights@),
        is_apportionment(pot, weights@, shares@),
        shares@.len() == weights@.len(),
        sum(weights@) > 0 ==> sum(shares@) == pot as nat,
        sum(weights@) > 0 ==> forall|i: int|
            0 <= i < shares@.len() ==> quota(pot, weights@, i) <= #[trigger] shares@[i] as int
                <= quota(pot, weights@, i) + 1,
        sum(weights@) == 0 ==> forall|i: int| 0 <= i < shares@.len() ==> shares@[i] == 0,
{
    let n: usize = weights.len();
    let total: u128 = total_weight(weights);
    let mut shares: Vec<u64> = Vec::new();
    if total == 0 {
        let mut z: usize = 0;
        while z < n
            invariant
                z <= n,
                shares@.len() == z,
                forall|i: int| 0 <= i < shares@.len() ==> shares@[i] == 0,
            decreases n - z,
        {
            shares.push(0);
            z = z + 1;
        }
        proof {
            lemma_apportionment_is(pot, weights@, shares@);
        }
        return shares;
    }
    let mut claims: Vec<Claim> = Vec::new();
    let mut distributed: u64 = 0;
    let mut i: usize = 0;
    while i < n
        invariant
            n == weights.len(),
            i <= n,
            total as nat == sum(weights@),
            total > 0,
            shares@.len() == i,
            claims@.len() == i,
            forall|k: int| 0 <= k < i ==> #[trigger] shares@[k] as int == quota(pot, weights@, k),
            forall|k: int|
                0 <= k < i ==> (#[trigger] claims@[k]).index == k && claims@[k].remainder as int
                    == remainder(pot, weights@, k),
            distributed as int == quota_sum(pot, weights@, i as int),
            sum(shares@) == distributed as nat,
        decreases n - i,
    {
        proof {
            lemma_quota_remainder(pot, weights@, i as int);
            lemma_quota_sum_monotone(pot, weights@, i + 1, n as int);
            lemma_leftover_bounds(pot, weights@);
            let p: int = pot as int;
            let w: int = weights@[i as int] as int;
            assert(0 <= p * w <= 0xffff_ffff_ffff_ffff * 0xffff_ffff_ffff_ffff) by (nonlinear_arith)
                requires
                    0 <= p <= 0xffff_ffff_ffff_ffff,
                    0 <= w <= 0xffff_ffff_ffff_ffff,
            ;
        }
        let product: u128 = (pot as u128) * (weights[i] as u128);
        let q: u64 = (product / total) as u64;
        let r: u128 = product % total;
        let ghost before = shares@;
        shares.push(q);
        claims.push(Claim { remainder: r, index: i });
        distributed = distributed + q;
        proof {
            assert(shares@.drop_last() =~= before);
        }
        i = i + 1;
    }
    proof {
        lemma_leftover_bounds(pot, weights@);
    }
    let extra: usize = (pot - distributed) as usize;
    let order: Vec<Claim> = sort_claims(&claims);
    let ghost base = shares@;
    proof {
        lemma_reordered_roster(claims@, order@);
    }
    let mut k: usize = 0;
    while k < extra
        invariant
            n == weights.len(),
            k <= extra < n,
            shares@.len() == n,
            base.len() == n,
            order@.len() == n,
            is_roster(claims@),
            order@.to_multiset() == claims@.to_multiset(),
            claims@.len() == n,
            forall|i: int|
                0 <= i < n ==> #[trigger] shares@[i] as int == base[i] as int + if serves(
                    order@,
                    k as int,
                    i,
                ) {
                    1int
                } else {
                    0int
                },
            sum(shares@) == sum(base) + k,
            sum(base) + extra == pot as nat,
        decreases extra - k,
    {
        proof {
            lemma_reordered_roster(claims@, order@);
        }
        let place: usize = order[k].index;
        let ghost before = shares@;
        proof {
            if serves(order@, k as int, place as int) {
                let m = choose|m: int|
                    0 <= m < k && m < order@.len() && (#[trigger] order@[m]).index == place;
                assert(order@[m].index != order@[k as int].index);
            }
            lemma_sum_bounds_item(shares@, place as int);
            lemma_sum_update_plus_one(shares@, place as int);
        }
        shares.set(place, shares[place] + 1);
        proof {
            assert forall|i: int| 0 <= i < n implies #[trigger] shares@[i] as int == base[i] as int
                + if serves(order@, k + 1, i) {
                1int
            } else {
                0int
            } by {
                if i == place {
                    assert(order@[k as int].index == i);
                } else {
                    if serves(order@, k + 1, i) {
                        let m = choose|m: int|
                            0 <= m < k + 1 && m < order@.len() && (#[trigger] order@[m]).index
                                == i;
                        assert(m != k);
                        assert(serves(order@, k as int, i));
                    }
                    if serves(order@, k as int, i) {
                        let m = choose|m: int|
                            0 <= m < k && m < order@.len() && (#[trigger] order@[m]).index == i;
                        assert(serves(order@, k + 1, i));
                    }
                    assert(shares@[i] == before[i]);
                }
            }
        }
        k = k + 1;
    }
    proof {
        lemma_reordered_roster(claims@, order@);
        assert forall|i: int, j: int|
            0 <= i < shares@.len() && 0 <= j < shares@.len() && outranks(pot, weights@, j, i)
                && shares@[i] as int > quota(pot, weights@, i) implies shares@[j] as int > quota(
            pot,
            weights@,
            j,
        ) by {
            assert(shares@[i] as int == base[i] as int + if serves(order@, extra as int, i) {
                1int
            } else {
                0int
            });
            assert(serves(order@, extra as int, i));
            let m = choose|m: int|
                0 <= m < extra && m < order@.len() && (#[trigger] order@[m]).index == i;
            assert(serves(order@, order@.len() as int, j));
            let m2 = choose|m2: int|
                0 <= m2 < order@.len() && m2 < order@.len() && (#[trigger] order@[m2]).index == j;
            assert(claims@[i] == order@[m]);
            assert(claims@[j] == order@[m2]);
            if m2 < extra {
                assert(serves(order@, extra as int, j));
                assert(shares@[j] as int == base[j] as int + 1);
            } else {
                assert(precedes(order@[m], order@[m2]));
                assert(false);
            }
        }
        assert forall|i: int| 0 <= i < shares@.len() implies (#[trigger] shares@[i] as int
            == quota(pot, weights@, i) || shares@[i] as int == quota(pot, weights@, i) + 1) by {
            assert(shares@[i] as int == base[i] as int + if serves(order@, extra as int, i) {
                1int
            } else {
                0int
            });
        }
        lemma_apportionment_is(pot, weights@, shares@);
    }
    shares
}

} // verus!
