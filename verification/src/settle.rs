//! Dissolving a network: sharing out its pool, refunding its owner, and
//! removing everything that the ledger records of it.
//!
//! The request is validated before anything is written: a network that does
//! not exist leaves the ledger untouched. A valid request cannot fail. The pool, with what the liquidation of the
//! liquidity positions has freed, goes to the stakers by their stake. Where
//! nobody holds any stake the pool has no claimant and is dropped with the
//! network.

use crate::accounts::{credited, AccountId};
use crate::apportion::{apportion, apportionment};
use crate::construction::lemma_apportionment_exists;
use crate::fixed::Fixed;
use crate::ledger::{lemma_live_count_update, live_count, Ledger, LifecycleError};
use crate::network::{LiquidatedPosition, Network, Slot, StakePosition};
use crate::refund::{emission_total, owner_refund, refund_of, total_emission};
use crate::scoped::{
    collect_scoped, lemma_scoped_elsewhere_clean, lemma_scoped_elsewhere_keeps, purge,
    scoped_elsewhere, scoped_to, NetUid,
};
use crate::sums::{lemma_sum_take_all, lemma_sum_take_next, sum};
use vstd::prelude::*;

verus! {

/// What the liquidation has freed in all.
pub open spec fn freed_total(liquidation: Seq<LiquidatedPosition>) -> nat
    decreases liquidation.len(),
{
    if liquidation.len() == 0 {
        0
    } else {
        freed_total(liquidation.drop_last()) + liquidation.last().amount as nat
    }
}

/// The pot that is shared out: the pool and what the liquidation has freed,
/// held at the top of the range of `u64`.
pub open spec fn settlement_pot(pool: u64, liquidation: Seq<LiquidatedPosition>) -> u64 {
    credited(pool, freed_total(liquidation))
}

/// The stakes of the positions, at their places.
pub open spec fn stake_weights(positions: Seq<StakePosition>) -> Seq<u64> {
    Seq::new(positions.len(), |i: int| positions[i].alpha)
}

/// What the first `n` positions bring `account`: the shares of those that it holds.
pub open spec fn paid_to(
    positions: Seq<StakePosition>,
    shares: Seq<u64>,
    account: AccountId,
    n: int,
) -> nat
    decreases n,
{
    if n <= 0 {
        0
    } else {
        paid_to(positions, shares, account, n - 1) + if positions[n - 1].coldkey == account {
            shares[n - 1] as nat
        } else {
            0nat
        }
    }
}

/// What the dissolution of `network` brings `account`: its shares of the
/// pot, and the refund of the lock if it owns the network.
pub open spec fn settlement_of(
    network: Network,
    positions: Seq<StakePosition>,
    liquidation: Seq<LiquidatedPosition>,
    owner_cut: u16,
    price: Fixed,
    account: AccountId,
) -> nat {
    let pot = settlement_pot(network.tao, liquidation);
    let shares = apportionment(pot, stake_weights(positions));
    let refund = refund_of(
        network.locked,
        emission_total(network.emission@) as u64,
        owner_cut,
        price,
    );
    paid_to(positions, shares, account, positions.len() as int) + if account == network.owner {
        refund as nat
    } else {
        0nat
    }
}

/// No account is paid more than the shares add up to.
pub proof fn lemma_paid_within_shares(
    positions: Seq<StakePosition>,
    shares: Seq<u64>,
    account: AccountId,
    n: int,
)
    requires
        0 <= n <= shares.len(),
        shares.len() == positions.len(),
    ensures
        paid_to(positions, shares, account, n) <= sum(shares.take(n)),
    decreases n,
{
    if n > 0 {
        lemma_paid_within_shares(positions, shares, account, n - 1);
        lemma_sum_take_next(shares, n - 1);
    } else {
        assert(shares.take(0) =~= Seq::<u64>::empty());
    }
}

/// What the stakers are paid in all is the pot: no account is paid more than
/// the pot, and where nobody holds any stake nobody is paid anything.
pub proof fn lemma_stakers_share_the_pot(
    pot: u64,
    positions: Seq<StakePosition>,
    account: AccountId,
)
    ensures
        paid_to(
            positions,
            apportionment(pot, stake_weights(positions)),
            account,
            positions.len() as int,
        ) <= pot,
        sum(stake_weights(positions)) > 0 ==> sum(apportionment(pot, stake_weights(positions)))
            == pot as nat,
        sum(stake_weights(positions)) == 0 ==> paid_to(
            positions,
            apportionment(pot, stake_weights(positions)),
            account,
            positions.len() as int,
        ) == 0,
{
    let weights = stake_weights(positions);
    let shares = apportionment(pot, weights);
    let n = positions.len() as int;
    lemma_apportionment_exists(pot, weights);
    lemma_paid_within_shares(positions, shares, account, n);
    lemma_sum_take_all(shares);
    if sum(weights) == 0 {
        lemma_unpaid_without_shares(positions, shares, account, n);
    }
}

/// Where every share is zero nobody is paid anything.
pub proof fn lemma_unpaid_without_shares(
    positions: Seq<StakePosition>,
    shares: Seq<u64>,
    account: AccountId,
    n: int,
)
    requires
        0 <= n <= shares.len(),
        forall|i: int| 0 <= i < shares.len() ==> shares[i] == 0,
    ensures
        paid_to(positions, shares, account, n) == 0,
    decreases n,
{
    if n > 0 {
        lemma_unpaid_without_shares(positions, shares, account, n - 1);
    }
}

/// `post` is `pre` after the dissolution of the network `netuid`.
///
/// Every account holds what it held and what the dissolution brings it. The
/// network is gone from its place, and the levels of its currency are zero.
/// No position, member, bond, weight or membership of the network is left;
/// those of other networks are as they were, in their order. Nothing else has
/// changed.
pub open spec fn dissolves(
    pre: Ledger,
    post: Ledger,
    netuid: NetUid,
    liquidation: Seq<LiquidatedPosition>,
    price: Fixed,
) -> bool {
    let network = pre.network_of(netuid);
    let positions = scoped_to(pre.stakes@, netuid);
    &&& pre.has_network(netuid)
    &&& post.slots@.len() == pre.slots@.len()
    &&& post.slots@[netuid as int].network.is_none()
    &&& post.slots@[netuid as int].alpha_in == 0
    &&& post.slots@[netuid as int].alpha_out == 0
    &&& forall|k: int|
        0 <= k < pre.slots@.len() && k != netuid ==> post.slots@[k] == pre.slots@[k]
    &&& post.stakes@ == scoped_elsewhere(pre.stakes@, netuid)
    &&& post.members@ == scoped_elsewhere(pre.members@, netuid)
    &&& post.bonds@ == scoped_elsewhere(pre.bonds@, netuid)
    &&& post.weights@ == scoped_elsewhere(pre.weights@, netuid)
    &&& post.memberships@ == scoped_elsewhere(pre.memberships@, netuid)
    &&& forall|account: AccountId| #[trigger]
        post.balances.of(account) == credited(
            pre.balances.of(account),
            settlement_of(network, positions, liquidation, pre.owner_cut, price, account),
        )
    &&& post.same_settings(&pre)
}

/// After the dissolution of a network nothing of it is left: no network has
/// its identifier, the levels of its currency are zero, no position, member,
/// bond, weight or membership belongs to it, and one network fewer is live.
pub proof fn lemma_dissolution_is_complete(
    pre: Ledger,
    post: Ledger,
    netuid: NetUid,
    liquidation: Seq<LiquidatedPosition>,
    price: Fixed,
)
    requires
        dissolves(pre, post, netuid, liquidation, price),
    ensures
        !post.has_network(netuid),
        post.pool_of(netuid) == (0u64, 0u64),
        scoped_to(post.stakes@, netuid).len() == 0,
        scoped_to(post.members@, netuid).len() == 0,
        scoped_to(post.bonds@, netuid).len() == 0,
        scoped_to(post.weights@, netuid).len() == 0,
        scoped_to(post.memberships@, netuid).len() == 0,
        live_count(post.slots@) + 1 == live_count(pre.slots@),
        forall|other: NetUid|
            other != netuid ==> post.has_network(other) == pre.has_network(other),
{
    lemma_scoped_elsewhere_clean(pre.stakes@, netuid);
    lemma_scoped_elsewhere_clean(pre.members@, netuid);
    lemma_scoped_elsewhere_clean(pre.bonds@, netuid);
    lemma_scoped_elsewhere_clean(pre.weights@, netuid);
    lemma_scoped_elsewhere_clean(pre.memberships@, netuid);
    let cleared = post.slots@[netuid as int];
    assert(post.slots@ =~= pre.slots@.update(netuid as int, cleared));
    lemma_live_count_update(pre.slots@, netuid as int, cleared);
}

/// The pot that is shared out when a network with the pool `pool` is dissolved.
pub fn pot_with_liquidation(pool: u64, liquidation: &Vec<LiquidatedPosition>) -> (pot: u64)
    ensures
        pot == settlement_pot(pool, liquidation@),
{
    let mut pot: u64 = pool;
    let mut i: usize = 0;
    while i < liquidation.len()
        invariant
            i <= liquidation@.len(),
            pot == settlement_pot(pool, liquidation@.take(i as int)),
        decreases liquidation.len() - i,
    {
        proof {
            assert(liquidation@.take(i + 1).drop_last() =~= liquidation@.take(i as int));
        }
        pot = pot.saturating_add(liquidation[i].amount);
        i = i + 1;
    }
    proof {
        assert(liquidation@.take(liquidation@.len() as int) =~= liquidation@);
    }
    pot
}

/// The stakes of the positions, at their places.
pub fn weights_of(positions: &Vec<StakePosition>) -> (weights: Vec<u64>)
    ensures
        weights@ == stake_weights(positions@),
{
    let mut weights: Vec<u64> = Vec::new();
    let mut i: usize = 0;
    while i < positions.len()
        invariant
            i <= positions@.len(),
            weights@.len() == i,
            forall|k: int| 0 <= k < i ==> weights@[k] == positions@[k].alpha,
        decreases positions.len() - i,
    {
        weights.push(positions[i].alpha);
        i = i + 1;
    }
    proof {
        assert(weights@ =~= stake_weights(positions@));
    }
    weights
}

impl Ledger {
    /// Whether a request to dissolve the network `netuid` is valid: the
    /// network must exist. Only for a valid request are the network's
    /// liquidity positions to be liquidated.
    pub fn validate_dissolve(&self, netuid: NetUid) -> (r: Result<(), LifecycleError>)
        ensures
            r.is_ok() <==> self.has_network(netuid),
            r.is_err() ==> r == Err::<(), LifecycleError>(LifecycleError::NetworkDoesNotExist),
    {
        if self.contains_network(netuid) {
            Ok(())
        } else {
            Err(LifecycleError::NetworkDoesNotExist)
        }
    }

    /// Dissolves the network `netuid`.
    ///
    /// `liquidation` is what the liquidation of the network's liquidity
    /// positions has freed, and `price` the current price of the network's
    /// currency. Fails, with nothing changed, if and only if no live network
    /// has the identifier.
    pub fn dissolve(
        &mut self,
        netuid: NetUid,
        liquidation: &Vec<LiquidatedPosition>,
        price: Fixed,
    ) -> (r: Result<(), LifecycleError>)
        ensures
            r.is_err() <==> !old(self).has_network(netuid),
            r.is_err() ==> r == Err::<(), LifecycleError>(LifecycleError::NetworkDoesNotExist)
                && *final(self) == *old(self),
            r.is_ok() ==> dissolves(*old(self), *final(self), netuid, liquidation@, price),
            r.is_ok() ==> live_count(final(self).slots@) + 1 == live_count(old(self).slots@),
            r.is_ok() ==> !final(self).has_network(netuid),
            r.is_ok() ==> scoped_to(final(self).stakes@, netuid).len() == 0,
            r.is_ok() ==> scoped_to(final(self).members@, netuid).len() == 0,
            r.is_ok() ==> scoped_to(final(self).bonds@, netuid).len() == 0,
            r.is_ok() ==> scoped_to(final(self).weights@, netuid).len() == 0,
            r.is_ok() ==> scoped_to(final(self).memberships@, netuid).len() == 0,
            r.is_ok() ==> forall|other: NetUid|
                other != netuid ==> #[trigger] scoped_to(final(self).stakes@, other) == scoped_to(
                    old(self).stakes@,
                    other,
                ),
            old(self).wf() ==> final(self).wf(),
    {
        // Requested -> Validated, or rejected with nothing written.
        match self.validate_dissolve(netuid) {
            Err(e) => {
                return Err(e);
            },
            Ok(()) => {},
        }
        let place: usize = netuid as usize;
        let ghost network_before = self.network_of(netuid);
        let ghost positions_before = scoped_to(self.stakes@, netuid);
        let ghost cleared = Slot { network: None, alpha_in: 0, alpha_out: 0 };
        let (pool, locked, owner, emitted): (u64, u64, AccountId, u64) =
            match &self.slots[place].network {
            Some(network) => (
                network.tao,
                network.locked,
                network.owner,
                total_emission(&network.emission),
            ),
            None => (0, 0, 0, 0),
        };

        // Validated -> Liquidated: what the liquidation has freed joins the pool.
        let pot: u64 = pot_with_liquidation(pool, liquidation);

        // Liquidated -> Apportioned: the stakers' shares, and the owner's refund.
        let positions: Vec<StakePosition> = collect_scoped(&self.stakes, netuid);
        let weights: Vec<u64> = weights_of(&positions);
        let shares: Vec<u64> = apportion(pot, &weights);
        let refund: u64 = owner_refund(locked, emitted, self.owner_cut, price);

        // Apportioned -> Credited.
        let mut i: usize = 0;
        while i < positions.len()
            invariant
                i <= positions@.len(),
                shares@.len() == positions@.len(),
                forall|account: AccountId| #[trigger]
                    self.balances.of(account) == credited(
                        old(self).balances.of(account),
                        paid_to(positions@, shares@, account, i as int),
                    ),
                self.stakes == old(self).stakes,
                self.members == old(self).members,
                self.bonds == old(self).bonds,
                self.weights == old(self).weights,
                self.memberships == old(self).memberships,
                self.same_settings(old(self)),
                self.slots == old(self).slots,
            decreases positions.len() - i,
        {
            let ghost held = self.balances;
            self.balances.credit(positions[i].coldkey, shares[i]);
            proof {
                assert forall|account: AccountId| #[trigger]
                    self.balances.of(account) == credited(
                        old(self).balances.of(account),
                        paid_to(positions@, shares@, account, i + 1),
                    ) by {
                    assert(held.of(account) == credited(
                        old(self).balances.of(account),
                        paid_to(positions@, shares@, account, i as int),
                    ));
                }
            }
            i = i + 1;
        }
        let ghost held = self.balances;
        self.balances.credit(owner, refund);

        // Credited -> Purged: the network leaves its place, its levels are
        // zeroed, and every record that belongs to it is removed.
        self.slots[place].network = None;
        self.slots[place].alpha_in = 0;
        self.slots[place].alpha_out = 0;
        proof {
            assert(self.slots@ =~= old(self).slots@.update(place as int, cleared));
            lemma_live_count_update(old(self).slots@, place as int, cleared);
        }
        purge(&mut self.stakes, netuid);
        purge(&mut self.members, netuid);
        purge(&mut self.bonds, netuid);
        purge(&mut self.weights, netuid);
        purge(&mut self.memberships, netuid);
        proof {
            lemma_scoped_elsewhere_clean(old(self).stakes@, netuid);
            lemma_scoped_elsewhere_clean(old(self).members@, netuid);
            lemma_scoped_elsewhere_clean(old(self).bonds@, netuid);
            lemma_scoped_elsewhere_clean(old(self).weights@, netuid);
            lemma_scoped_elsewhere_clean(old(self).memberships@, netuid);
            assert forall|other: NetUid| other != netuid implies #[trigger] scoped_to(
                self.stakes@,
                other,
            ) == scoped_to(old(self).stakes@, other) by {
                lemma_scoped_elsewhere_keeps(old(self).stakes@, netuid, other);
            }
            assert forall|account: AccountId| #[trigger]
                self.balances.of(account) == credited(
                    old(self).balances.of(account),
                    settlement_of(
                        network_before,
                        positions_before,
                        liquidation@,
                        old(self).owner_cut,
                        price,
                        account,
                    ),
                ) by {
                assert(held.of(account) == credited(
                    old(self).balances.of(account),
                    paid_to(positions@, shares@, account, positions@.len() as int),
                ));
            }
        }
        Ok(())
    }
}

} // verus!
