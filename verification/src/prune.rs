//! Choosing, among the networks of a ledger, the one to prune.

use crate::evict::{goes_before, is_immune, select_victim, Candidate};
use crate::ledger::{is_live, Ledger};
use crate::network::Slot;
use crate::refund::{emission_total, total_emission};
use crate::scoped::NetUid;
use vstd::prelude::*;

verus! {

/// What the selection looks at in the network that holds place `k`: its
/// identifier, the block of its registration and the total of its emission.
pub open spec fn candidate_at(slots: Seq<Slot>, k: int) -> Candidate
    recommends
        is_live(slots, k),
{
    Candidate {
        netuid: k as u16,
        registered_at: slots[k].network.unwrap().registered_at,
        emission: emission_total(slots[k].network.unwrap().emission@) as u64,
    }
}

/// The candidate of place `k` is in the list.
pub open spec fn listed(candidates: Seq<Candidate>, k: int) -> bool {
    exists|j: int| 0 <= j < candidates.len() && (#[trigger] candidates[j]).netuid == k
}

/// At most one network of a ledger is the one to prune.
pub proof fn lemma_prune_target_unique(ledger: Ledger, v: NetUid, w: NetUid)
    requires
        ledger.is_prune_target(v),
        ledger.is_prune_target(w),
    ensures
        v == w,
{
    assert(ledger.open_to_pruning(v as int));
    assert(ledger.open_to_pruning(w as int));
}

/// The network to prune is past its immunity, and of all networks that are
/// past their immunity it has emitted the least; among those that have
/// emitted as little, none was registered before it.
pub proof fn lemma_prune_target_is_least(ledger: Ledger, v: NetUid, k: NetUid)
    requires
        ledger.is_prune_target(v),
        ledger.open_to_pruning(k as int),
    ensures
        ledger.has_network(v),
        ledger.current_block - ledger.network_of(v).registered_at >= ledger.immunity_period,
        emission_total(ledger.network_of(v).emission@) <= emission_total(
            ledger.network_of(k).emission@,
        ),
        emission_total(ledger.network_of(v).emission@) == emission_total(
            ledger.network_of(k).emission@,
        ) ==> ledger.network_of(v).registered_at <= ledger.network_of(k).registered_at,
{
    assert(ledger.open_to_pruning(v as int));
    assert(!goes_before(
        candidate_at(ledger.slots@, k as int),
        candidate_at(ledger.slots@, v as int),
    ));
}

impl Ledger {
    /// Place `k` holds a network that is past its immunity.
    pub open spec fn open_to_pruning(&self, k: int) -> bool {
        is_live(self.slots@, k) && !is_immune(
            candidate_at(self.slots@, k),
            self.current_block,
            self.immunity_period,
        )
    }

    /// The network `v` is the one to prune: it is past its immunity, no
    /// network past its immunity has emitted less, or as much and was
    /// registered earlier, and of the networks that are level with it on both
    /// counts it has the lowest identifier.
    pub open spec fn is_prune_target(&self, v: NetUid) -> bool {
        &&& self.open_to_pruning(v as int)
        &&& forall|k: int| #[trigger]
            self.open_to_pruning(k) ==> !goes_before(
                candidate_at(self.slots@, k),
                candidate_at(self.slots@, v as int),
            )
        &&& forall|k: int|
            0 <= k < v && #[trigger] self.open_to_pruning(k) ==> goes_before(
                candidate_at(self.slots@, v as int),
                candidate_at(self.slots@, k),
            )
    }

    /// No network is past its immunity.
    pub open spec fn nothing_to_prune(&self) -> bool {
        forall|k: int| !#[trigger] self.open_to_pruning(k)
    }

    /// The network to prune, if any network is past its immunity.
    pub fn network_to_prune(&self) -> (r: Option<NetUid>)
        requires
            self.wf(),
        ensures
            r.is_none() <==> self.nothing_to_prune(),
            r.is_some() ==> self.is_prune_target(r.unwrap()),
    {
        let mut candidates: Vec<Candidate> = Vec::new();
        let mut i: usize = 0;
        while i < self.slots.len()
            invariant
                i <= self.slots@.len() <= 65536,
                forall|j: int|
                    0 <= j < candidates@.len() ==> {
                        &&& (#[trigger] candidates@[j]).netuid < i
                        &&& is_live(self.slots@, candidates@[j].netuid as int)
                        &&& candidates@[j] == candidate_at(
                            self.slots@,
                            candidates@[j].netuid as int,
                        )
                    },
                forall|k: int|
                    0 <= k < i && is_live(self.slots@, k) ==> #[trigger] listed(candidates@, k),
                forall|a: int, b: int|
                    0 <= a < b < candidates@.len() ==> (#[trigger] candidates@[a]).netuid < (
                    #[trigger] candidates@[b]).netuid,
            decreases self.slots.len() - i,
        {
            let ghost before = candidates@;
            match &self.slots[i].network {
                Some(network) => {
                    let emission: u64 = total_emission(&network.emission);
                    candidates.push(
                        Candidate {
                            netuid: i as u16,
                            registered_at: network.registered_at,
                            emission,
                        },
                    );
                    proof {
                        let last: int = before.len() as int;
                        assert(candidates@[last].netuid == i);
                        assert(listed(candidates@, i as int));
                    }
                },
                None => {},
            }
            proof {
                assert forall|k: int| 0 <= k < i && is_live(self.slots@, k) implies #[trigger] listed(
                    candidates@,
                    k,
                ) by {
                    assert(listed(before, k));
                    let j = choose|j: int| 0 <= j < before.len() && (#[trigger] before[j]).netuid == k;
                    assert(candidates@[j].netuid == k);
                }
            }
            i = i + 1;
        }
        match select_victim(&candidates, self.current_block, self.immunity_period) {
            None => {
                proof {
                    assert forall|k: int| !#[trigger] self.open_to_pruning(k) by {
                        if is_live(self.slots@, k) {
                            assert(listed(candidates@, k));
                            let j = choose|j: int|
                                0 <= j < candidates@.len() && (#[trigger] candidates@[j]).netuid
                                    == k;
                            assert(is_immune(
                                candidates@[j],
                                self.current_block,
                                self.immunity_period,
                            ));
                        }
                    }
                }
                None
            },
            Some(v) => {
                let target: NetUid = candidates[v].netuid;
                proof {
                    let chosen = candidates@[v as int];
                    assert(chosen == candidate_at(self.slots@, target as int));
                    assert(self.open_to_pruning(target as int));
                    assert forall|k: int| #[trigger] self.open_to_pruning(k) implies !goes_before(
                        candidate_at(self.slots@, k),
                        candidate_at(self.slots@, target as int),
                    ) by {
                        assert(listed(candidates@, k));
                        let j = choose|j: int|
                            0 <= j < candidates@.len() && (#[trigger] candidates@[j]).netuid == k;
                        assert(candidates@[j] == candidate_at(self.slots@, k));
                    }
                    assert forall|k: int|
                        0 <= k < target && #[trigger] self.open_to_pruning(k) implies goes_before(
                        candidate_at(self.slots@, target as int),
                        candidate_at(self.slots@, k),
                    ) by {
                        assert(listed(candidates@, k));
                        let j = choose|j: int|
                            0 <= j < candidates@.len() && (#[trigger] candidates@[j]).netuid == k;
                        assert(candidates@[j] == candidate_at(self.slots@, k));
                        if j >= v {
                            if j > v {
                                assert(candidates@[v as int].netuid < candidates@[j].netuid);
                            }
                            assert(false);
                        }
                    }
                    assert(!self.nothing_to_prune());
                }
                Some(target)
            },
        }
    }
}

} // verus!
