//! The ledger: every network, the positions on them, and the balances.

use crate::accounts::{AccountId, Balances};
use crate::guard::MigrationGuard;
use crate::network::{Edge, Member, Membership, Network, Slot, StakePosition};
use crate::scoped::NetUid;
use vstd::prelude::*;

verus! {

/// The state that a scheduled change of an account's owner key is stored in.
#[derive(Clone, Copy, Debug, PartialEq, Eq, Structural)]
pub enum SwapRecord {
    /// The earlier format: the bare mark that a change is scheduled.
    Marked,
    /// A value that cannot be read in the earlier format.
    Unreadable,
    /// The present format: the block of the change and the new key.
    Scheduled { when: u64, new_coldkey: AccountId },
}

/// The scheduled change of the owner key of `coldkey`.
#[derive(Clone, Copy, Debug, PartialEq, Eq, Structural)]
pub struct SwapEntry {
    pub coldkey: AccountId,
    pub record: SwapRecord,
}

/// Why a request was turned down. Nothing has changed when one is returned.
#[derive(Clone, Copy, Debug, PartialEq, Eq, Structural)]
pub enum LifecycleError {
    /// No live network has the identifier.
    NetworkDoesNotExist,
    /// The registrant holds less than the lock.
    InsufficientLock,
    /// The ledger is full and every network is still immune.
    NoEvictionCandidate,
}

/// The whole of the recorded state.
pub struct Ledger {
    /// The place of each network identifier, at the identifier's number.
    pub slots: Vec<Slot>,
    pub stakes: Vec<StakePosition>,
    pub members: Vec<Member>,
    pub bonds: Vec<Edge>,
    pub weights: Vec<Edge>,
    pub memberships: Vec<Membership>,
    pub balances: Balances,
    /// The height of the current block.
    pub current_block: u64,
    /// For how many blocks after its registration a network cannot be pruned.
    pub immunity_period: u64,
    /// The part of every emission that goes to a network's owner, over 65535.
    pub owner_cut: u16,
    /// How many networks can be live at once.
    pub subnet_limit: u16,
    pub migrations: MigrationGuard,
    pub coldkey_swaps: Vec<SwapEntry>,
}

/// A network holds place `k`.
pub open spec fn is_live(slots: Seq<Slot>, k: int) -> bool {
    0 <= k < slots.len() && slots[k].network.is_some()
}

/// How many places hold a network.
pub open spec fn live_count(slots: Seq<Slot>) -> nat
    decreases slots.len(),
{
    if slots.len() == 0 {
        0
    } else {
        live_count(slots.drop_last()) + if slots.last().network.is_some() {
            1nat
        } else {
            0nat
        }
    }
}

/// Putting another slot in place `i` changes the count by what the two slots hold.
pub proof fn lemma_live_count_update(slots: Seq<Slot>, i: int, slot: Slot)
    requires
        0 <= i < slots.len(),
    ensures
        live_count(slots.update(i, slot)) + (if slots[i].network.is_some() {
            1nat
        } else {
            0nat
        }) == live_count(slots) + (if slot.network.is_some() {
            1nat
        } else {
            0nat
        }),
    decreases slots.len(),
{
    let after = slots.update(i, slot);
    if i == slots.len() - 1 {
        assert(after.drop_last() =~= slots.drop_last());
    } else {
        lemma_live_count_update(slots.drop_last(), i, slot);
        assert(after.drop_last() =~= slots.drop_last().update(i, slot));
    }
}

/// Where every place from 1 up to `m - 1` holds a network, there are at least `m - 1` networks.
pub proof fn lemma_live_count_full(slots: Seq<Slot>, m: int)
    requires
        1 <= m <= slots.len(),
        forall|k: int| 1 <= k < m ==> is_live(slots, k),
    ensures
        live_count(slots) >= m - 1,
    decreases slots.len(),
{
    if slots.len() > m {
        assert forall|k: int| 1 <= k < m implies is_live(slots.drop_last(), k) by {
            assert(is_live(slots, k));
        }
        lemma_live_count_full(slots.drop_last(), m);
    } else if m > 1 {
        assert(is_live(slots, m - 1));
        assert forall|k: int| 1 <= k < m - 1 implies is_live(slots.drop_last(), k) by {
            assert(is_live(slots, k));
        }
        lemma_live_count_full(slots.drop_last(), m - 1);
    }
}

impl Ledger {
    /// Every place has an identifier.
    pub open spec fn wf(&self) -> bool {
        self.slots@.len() <= 65536
    }

    /// A live network has the identifier `netuid`.
    pub open spec fn has_network(&self, netuid: NetUid) -> bool {
        is_live(self.slots@, netuid as int)
    }

    /// The network with the identifier `netuid`.
    pub open spec fn network_of(&self, netuid: NetUid) -> Network
        recommends
            self.has_network(netuid),
    {
        self.slots@[netuid as int].network.unwrap()
    }

    /// Everything but the places, the positions and the balances is the same in both.
    pub open spec fn same_settings(&self, other: &Ledger) -> bool {
        &&& self.current_block == other.current_block
        &&& self.immunity_period == other.immunity_period
        &&& self.owner_cut == other.owner_cut
        &&& self.subnet_limit == other.subnet_limit
        &&& self.migrations == other.migrations
        &&& self.coldkey_swaps == other.coldkey_swaps
    }

    /// A ledger without networks, positions or balances, at block 0.
    pub fn new(subnet_limit: u16, immunity_period: u64, owner_cut: u16) -> (r: Ledger)
        ensures
            r.wf(),
            r.slots@.len() == 0,
            r.stakes@.len() == 0,
            r.members@.len() == 0,
            r.bonds@.len() == 0,
            r.weights@.len() == 0,
            r.memberships@.len() == 0,
            r.coldkey_swaps@.len() == 0,
            forall|a: AccountId| r.balances.of(a) == 0,
            forall|name: Seq<u8>| !r.migrations.ran(name),
            r.current_block == 0,
            r.immunity_period == immunity_period,
            r.owner_cut == owner_cut,
            r.subnet_limit == subnet_limit,
    {
        Ledger {
            slots: Vec::new(),
            stakes: Vec::new(),
            members: Vec::new(),
            bonds: Vec::new(),
            weights: Vec::new(),
            memberships: Vec::new(),
            balances: Balances::new(),
            current_block: 0,
            immunity_period,
            owner_cut,
            subnet_limit,
            migrations: MigrationGuard::new(),
            coldkey_swaps: Vec::new(),
        }
    }

    /// Whether a live network has the identifier `netuid`.
    pub fn contains_network(&self, netuid: NetUid) -> (r: bool)
        ensures
            r == self.has_network(netuid),
    {
        let i: usize = netuid as usize;
        i < self.slots.len() && self.slots[i].network.is_some()
    }

    /// The live network with the identifier `netuid`, if there is one.
    pub fn network(&self, netuid: NetUid) -> (r: Option<&Network>)
        ensures
            r.is_some() == self.has_network(netuid),
            r.is_some() ==> *r.unwrap() == self.network_of(netuid),
    {
        let i: usize = netuid as usize;
        if i < self.slots.len() {
            self.slots[i].network.as_ref()
        } else {
            None
        }
    }

    /// How many networks are live.
    pub fn total_networks(&self) -> (r: usize)
        ensures
            r == live_count(self.slots@),
    {
        let mut count: usize = 0;
        let mut i: usize = 0;
        while i < self.slots.len()
            invariant
                i <= self.slots@.len(),
                count == live_count(self.slots@.take(i as int)),
                count <= i,
            decreases self.slots.len() - i,
        {
            proof {
                assert(self.slots@.take(i + 1).drop_last() =~= self.slots@.take(i as int));
            }
            if self.slots[i].network.is_some() {
                count = count + 1;
            }
            i = i + 1;
        }
        proof {
            assert(self.slots@.take(self.slots@.len() as int) =~= self.slots@);
        }
        count
    }

    /// The levels of the own currency of the network `netuid`: what is in
    /// the pool and what is out with the stakers. Both are zero for an
    /// identifier that has no place yet.
    pub fn pool(&self, netuid: NetUid) -> (r: (u64, u64))
        ensures
            netuid < self.slots@.len() ==> r == (
                self.slots@[netuid as int].alpha_in,
                self.slots@[netuid as int].alpha_out,
            ),
            netuid >= self.slots@.len() ==> r == (0u64, 0u64),
    {
        let i: usize = netuid as usize;
        if i < self.slots.len() {
            (self.slots[i].alpha_in, self.slots[i].alpha_out)
        } else {
            (0, 0)
        }
    }

    /// Makes sure that the identifier `netuid` has a place. The places that
    /// are added hold no network.
    pub fn reserve(&mut self, netuid: NetUid)
        requires
            old(self).wf(),
        ensures
            final(self).wf(),
            final(self).slots@.len() == if old(self).slots@.len() > netuid {
                old(self).slots@.len()
            } else {
                (netuid + 1) as nat
            },
            forall|k: int| 0 <= k < old(self).slots@.len() ==> final(self).slots@[k] == old(self).slots@[k],
            forall|k: int|
                old(self).slots@.len() <= k < final(self).slots@.len() ==> {
                    &&& (#[trigger] final(self).slots@[k]).network.is_none()
                    &&& final(self).slots@[k].alpha_in == 0
                    &&& final(self).slots@[k].alpha_out == 0
                },
            live_count(final(self).slots@) == live_count(old(self).slots@),
            final(self).stakes == old(self).stakes,
            final(self).members == old(self).members,
            final(self).bonds == old(self).bonds,
            final(self).weights == old(self).weights,
            final(self).memberships == old(self).memberships,
            final(self).balances == old(self).balances,
            final(self).same_settings(old(self)),
    {
        while self.slots.len() <= netuid as usize
            invariant
                self.slots@.len() <= 65536,
                old(self).slots@.len() <= self.slots@.len(),
                self.slots@.len() <= if old(self).slots@.len() > netuid {
                    old(self).slots@.len()
                } else {
                    (netuid + 1) as nat
                },
                forall|k: int| 0 <= k < old(self).slots@.len() ==> self.slots@[k] == old(self).slots@[k],
                forall|k: int|
                    old(self).slots@.len() <= k < self.slots@.len() ==> {
                        &&& (#[trigger] self.slots@[k]).network.is_none()
                        &&& self.slots@[k].alpha_in == 0
                        &&& self.slots@[k].alpha_out == 0
                    },
                live_count(self.slots@) == live_count(old(self).slots@),
                self.stakes == old(self).stakes,
                self.members == old(self).members,
                self.bonds == old(self).bonds,
                self.weights == old(self).weights,
                self.memberships == old(self).memberships,
                self.balances == old(self).balances,
                self.same_settings(old(self)),
            decreases 65536 - self.slots@.len(),
        {
            let ghost before = self.slots@;
            self.slots.push(Slot::vacant());
            proof {
                assert(self.slots@.drop_last() =~= before);
            }
        }
    }

    /// Puts `network` in the place of the identifier `netuid`, whatever was there.
    pub fn insert_network(&mut self, netuid: NetUid, network: Network)
        requires
            old(self).wf(),
        ensures
            final(self).wf(),
            final(self).has_network(netuid),
            final(self).network_of(netuid) == network,
            final(self).slots@.len() >= old(self).slots@.len(),
            forall|k: int|
                0 <= k < old(self).slots@.len() && k != netuid ==> final(self).slots@[k] == old(
                    self,
                ).slots@[k],
            final(self).slots@.len() == if old(self).slots@.len() > netuid {
                old(self).slots@.len()
            } else {
                (netuid + 1) as nat
            },
            forall|k: int|
                old(self).slots@.len() <= k < final(self).slots@.len() && k != netuid ==> {
                    &&& (#[trigger] final(self).slots@[k]).network.is_none()
                    &&& final(self).slots@[k].alpha_in == 0
                    &&& final(self).slots@[k].alpha_out == 0
                },
            final(self).pool_of(netuid) == old(self).pool_of(netuid),
            live_count(final(self).slots@) == live_count(old(self).slots@) + if old(
                self,
            ).has_network(netuid) {
                0nat
            } else {
                1nat
            },
            final(self).stakes == old(self).stakes,
            final(self).members == old(self).members,
            final(self).bonds == old(self).bonds,
            final(self).weights == old(self).weights,
            final(self).memberships == old(self).memberships,
            final(self).balances == old(self).balances,
            final(self).same_settings(old(self)),
    {
        self.reserve(netuid);
        let i: usize = netuid as usize;
        let ghost before = self.slots@;
        let alpha_in: u64 = self.slots[i].alpha_in;
        let alpha_out: u64 = self.slots[i].alpha_out;
        let slot = Slot { network: Some(network), alpha_in, alpha_out };
        proof {
            lemma_live_count_update(before, i as int, slot);
        }
        self.slots.set(i, slot);
    }

    /// The levels of the own currency kept for the identifier `netuid`.
    pub open spec fn pool_of(&self, netuid: NetUid) -> (u64, u64) {
        if netuid < self.slots@.len() {
            (self.slots@[netuid as int].alpha_in, self.slots@[netuid as int].alpha_out)
        } else {
            (0u64, 0u64)
        }
    }

    /// Sets the levels of the own currency kept for the identifier `netuid`.
    pub fn set_pool(&mut self, netuid: NetUid, alpha_in: u64, alpha_out: u64)
        requires
            old(self).wf(),
        ensures
            final(self).wf(),
            final(self).pool_of(netuid) == (alpha_in, alpha_out),
            final(self).slots@.len() >= old(self).slots@.len(),
            final(self).slots@[netuid as int].network == if netuid < old(self).slots@.len() {
                old(self).slots@[netuid as int].network
            } else {
                None
            },
            forall|k: int|
                0 <= k < old(self).slots@.len() && k != netuid ==> final(self).slots@[k] == old(
                    self,
                ).slots@[k],
            final(self).slots@.len() == if old(self).slots@.len() > netuid {
                old(self).slots@.len()
            } else {
                (netuid + 1) as nat
            },
            forall|k: int|
                old(self).slots@.len() <= k < final(self).slots@.len() && k != netuid ==> {
                    &&& (#[trigger] final(self).slots@[k]).network.is_none()
                    &&& final(self).slots@[k].alpha_in == 0
                    &&& final(self).slots@[k].alpha_out == 0
                },
            live_count(final(self).slots@) == live_count(old(self).slots@),
            final(self).stakes == old(self).stakes,
            final(self).members == old(self).members,
            final(self).bonds == old(self).bonds,
            final(self).weights == old(self).weights,
            final(self).memberships == old(self).memberships,
            final(self).balances == old(self).balances,
            final(self).same_settings(old(self)),
    {
        self.reserve(netuid);
        let i: usize = netuid as usize;
        let ghost before = self.slots@;
        self.slots[i].alpha_in = alpha_in;
        self.slots[i].alpha_out = alpha_out;
        proof {
            assert(self.slots@ =~= before.update(i as int, self.slots@[i as int]));
            lemma_live_count_update(before, i as int, self.slots@[i as int]);
        }
    }
}

} // verus!
