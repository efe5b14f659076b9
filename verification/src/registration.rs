//! Registering a new network, and making room for it where the ledger is full.
//!
//! The registrant must hold the lock. Where as many networks are live as the
//! ledger allows, the network to prune is dissolved first and the new network
//! takes over its identifier; otherwise the new network gets the lowest
//! identifier above zero that is free. A request that is turned down changes
//! nothing and charges nobody.

use crate::accounts::AccountId;
use crate::fixed::Fixed;
use crate::ledger::{
    is_live, lemma_live_count_full, lemma_live_count_update, live_count, Ledger, LifecycleError,
};
use crate::network::{LiquidatedPosition, Network, Slot};
use crate::scoped::NetUid;
use crate::settle::dissolves;
use vstd::prelude::*;

verus! {

/// `id` is the lowest identifier above zero that no live network has.
pub open spec fn is_first_free(slots: Seq<Slot>, id: int) -> bool {
    &&& 1 <= id <= u16::MAX
    &&& !is_live(slots, id)
    &&& forall|k: int| 1 <= k < id ==> is_live(slots, k)
}

/// `post` is `pre` after the network of `owner` was installed under the
/// identifier `netuid` against the lock `lock`.
///
/// The owner has paid the lock. The network stands in its place as it is
/// right after registration, at the current block, with the lock in its pool
/// and as much of its own currency in the pool. Nothing else has changed.
pub open spec fn installs(
    pre: Ledger,
    post: Ledger,
    netuid: NetUid,
    owner: AccountId,
    hotkey: AccountId,
    lock: u64,
) -> bool {
    &&& pre.balances.of(owner) >= lock
    &&& post.balances.of(owner) == pre.balances.of(owner) - lock
    &&& forall|account: AccountId|
        account != owner ==> #[trigger] post.balances.of(account) == pre.balances.of(account)
    &&& post.slots@.len() == if pre.slots@.len() > netuid {
        pre.slots@.len()
    } else {
        (netuid + 1) as nat
    }
    &&& post.has_network(netuid)
    &&& post.network_of(netuid).is_fresh(owner, hotkey, pre.current_block, lock)
    &&& post.slots@[netuid as int].alpha_in == lock
    &&& post.slots@[netuid as int].alpha_out == 0
    &&& forall|k: int|
        0 <= k < pre.slots@.len() && k != netuid ==> post.slots@[k] == pre.slots@[k]
    &&& forall|k: int|
        pre.slots@.len() <= k < post.slots@.len() && k != netuid ==> {
            &&& (#[trigger] post.slots@[k]).network.is_none()
            &&& post.slots@[k].alpha_in == 0
            &&& post.slots@[k].alpha_out == 0
        }
    &&& post.stakes == pre.stakes
    &&& post.members == pre.members
    &&& post.bonds == pre.bonds
    &&& post.weights == pre.weights
    &&& post.memberships == pre.memberships
    &&& post.same_settings(&pre)
}

/// `post` is `pre` after the network `netuid` was dissolved, which gave
/// `mid`, and the network of `owner` was installed in its place.
pub open spec fn replaces(
    pre: Ledger,
    mid: Ledger,
    post: Ledger,
    netuid: NetUid,
    owner: AccountId,
    hotkey: AccountId,
    lock: u64,
    liquidation: Seq<LiquidatedPosition>,
    price: Fixed,
) -> bool {
    dissolves(pre, mid, netuid, liquidation, price) && installs(
        mid,
        post,
        netuid,
        owner,
        hotkey,
        lock,
    )
}

/// `post` is `pre` after the network `netuid` was dissolved and the network
/// of `owner` was installed in its place.
pub open spec fn replaced(
    pre: Ledger,
    post: Ledger,
    netuid: NetUid,
    owner: AccountId,
    hotkey: AccountId,
    lock: u64,
    liquidation: Seq<LiquidatedPosition>,
    price: Fixed,
) -> bool {
    exists|mid: Ledger| replaces(pre, mid, post, netuid, owner, hotkey, lock, liquidation, price)
}

impl Ledger {
    /// As many networks are live as the ledger allows.
    pub open spec fn is_full(&self) -> bool {
        live_count(self.slots@) >= self.subnet_limit
    }

    /// The lowest identifier above zero that no live network has.
    pub fn next_free_netuid(&self) -> (r: Option<NetUid>)
        requires
            self.wf(),
        ensures
            r.is_some() ==> is_first_free(self.slots@, r.unwrap() as int),
            r.is_none() <==> forall|k: int| 1 <= k <= u16::MAX ==> is_live(self.slots@, k),
            r.is_none() ==> live_count(self.slots@) >= u16::MAX,
    {
        let mut id: u16 = 1;
        loop
            invariant
                1 <= id <= u16::MAX,
                forall|k: int| 1 <= k < id ==> is_live(self.slots@, k),
            decreases u16::MAX - id,
        {
            if !self.contains_network(id) {
                return Some(id);
            }
            if id == u16::MAX {
                proof {
                    lemma_live_count_full(self.slots@, 65536);
                }
                return None;
            }
            id = id + 1;
        }
    }

    /// Puts the network of `owner` in the place of the identifier `netuid`,
    /// which no live network has, and takes the lock from the owner.
    fn install(&mut self, netuid: NetUid, owner: AccountId, hotkey: AccountId, lock: u64)
        requires
            old(self).wf(),
            !old(self).has_network(netuid),
            old(self).balances.of(owner) >= lock,
        ensures
            final(self).wf(),
            installs(*old(self), *final(self), netuid, owner, hotkey, lock),
            live_count(final(self).slots@) == live_count(old(self).slots@) + 1,
    {
        let paid: bool = self.balances.debit(owner, lock);
        let network: Network = Network::fresh(owner, hotkey, self.current_block, lock);
        self.reserve(netuid);
        let slot = Slot { network: Some(network), alpha_in: lock, alpha_out: 0 };
        proof {
            lemma_live_count_update(self.slots@, netuid as int, slot);
        }
        self.slots.set(netuid as usize, slot);
    }

    /// What stands before the registration of a network for `owner` against
    /// the lock `lock`: the reason for which it is turned down, or the network
    /// that is dissolved first to make room, or nothing.
    ///
    /// The registration is turned down where the owner holds less than the
    /// lock, and where the ledger is full and no network is past its immunity.
    /// A network is dissolved first if and only if the ledger is full.
    pub fn eviction_before(&self, owner: AccountId, lock: u64) -> (r: Result<
        Option<NetUid>,
        LifecycleError,
    >)
        requires
            self.wf(),
        ensures
            r == Err::<Option<NetUid>, LifecycleError>(LifecycleError::InsufficientLock)
                <==> self.balances.of(owner) < lock,
            r == Err::<Option<NetUid>, LifecycleError>(LifecycleError::NoEvictionCandidate)
                <==> self.balances.of(owner) >= lock && self.is_full() && self.nothing_to_prune(),
            r != Err::<Option<NetUid>, LifecycleError>(LifecycleError::NetworkDoesNotExist),
            r.is_ok() <==> self.balances.of(owner) >= lock && !(self.is_full()
                && self.nothing_to_prune()),
            r.is_ok() ==> (r.unwrap().is_some() <==> self.is_full()),
            r.is_ok() && r.unwrap().is_some() ==> self.is_prune_target(r.unwrap().unwrap()),
    {
        if self.balances.balance(owner) < lock {
            return Err(LifecycleError::InsufficientLock);
        }
        let limit: usize = self.subnet_limit as usize;
        if self.total_networks() >= limit {
            match self.network_to_prune() {
                None => Err(LifecycleError::NoEvictionCandidate),
                Some(victim) => Ok(Some(victim)),
            }
        } else {
            Ok(None)
        }
    }

    /// Registers a network for `owner`, who pays the lock `lock`.
    ///
    /// `victim_liquidation` and `victim_price` are what the liquidity
    /// collaborator reports of the network that `eviction_before` names: what
    /// the liquidation of its positions frees, and the price of its currency.
    /// They are used only where the ledger is full.
    ///
    /// The request is turned down, with nothing changed, where the owner
    /// holds less than the lock, and where the ledger is full and no network
    /// is past its immunity.
    pub fn register(
        &mut self,
        owner: AccountId,
        hotkey: AccountId,
        lock: u64,
        victim_liquidation: &Vec<LiquidatedPosition>,
        victim_price: Fixed,
    ) -> (r: Result<NetUid, LifecycleError>)
        requires
            old(self).wf(),
        ensures
            final(self).wf(),
            r.is_ok() <==> old(self).balances.of(owner) >= lock && !(old(self).is_full() && old(
                self,
            ).nothing_to_prune()),
            r == Err::<NetUid, LifecycleError>(LifecycleError::InsufficientLock) <==> old(
                self,
            ).balances.of(owner) < lock,
            r == Err::<NetUid, LifecycleError>(LifecycleError::NoEvictionCandidate) <==> old(
                self,
            ).balances.of(owner) >= lock && old(self).is_full() && old(self).nothing_to_prune(),
            r != Err::<NetUid, LifecycleError>(LifecycleError::NetworkDoesNotExist),
            r.is_err() ==> *final(self) == *old(self),
            r.is_ok() && !old(self).is_full() ==> is_first_free(
                old(self).slots@,
                r.unwrap() as int,
            ) && installs(*old(self), *final(self), r.unwrap(), owner, hotkey, lock)
                && live_count(final(self).slots@) == live_count(old(self).slots@) + 1,
            r.is_ok() && old(self).is_full() ==> old(self).is_prune_target(r.unwrap()),
            r.is_ok() && old(self).is_full() ==> live_count(final(self).slots@) == live_count(
                old(self).slots@,
            ),
            r.is_ok() && old(self).is_full() ==> replaced(
                *old(self),
                *final(self),
                r.unwrap(),
                owner,
                hotkey,
                lock,
                victim_liquidation@,
                victim_price,
            ),
    {
        match self.eviction_before(owner, lock) {
            Err(e) => Err(e),
            Ok(Some(victim)) => {
                match self.dissolve(victim, victim_liquidation, victim_price) {
                    Err(e) => Err(e),
                    Ok(()) => {
                        let ghost mid = *self;
                        self.install(victim, owner, hotkey, lock);
                        proof {
                            assert(replaces(
                                *old(self),
                                mid,
                                *self,
                                victim,
                                owner,
                                hotkey,
                                lock,
                                victim_liquidation@,
                                victim_price,
                            ));
                            assert(replaced(
                                *old(self),
                                *self,
                                victim,
                                owner,
                                hotkey,
                                lock,
                                victim_liquidation@,
                                victim_price,
                            ));
                        }
                        Ok(victim)
                    },
                }
            },
            Ok(None) => {
                match self.next_free_netuid() {
                    None => Err(LifecycleError::NoEvictionCandidate),
                    Some(id) => {
                        self.install(id, owner, hotkey, lock);
                        Ok(id)
                    },
                }
            },
        }
    }
}

} // verus!
