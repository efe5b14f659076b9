//! What the ledger records of a network and of the positions on it.

use crate::accounts::AccountId;
use crate::scoped::{NetUid, Scoped};
use vstd::prelude::*;

verus! {

/// The settings of a network.
#[derive(Clone, Copy, Debug, PartialEq, Eq, Structural)]
pub struct NetworkConfig {
    pub modality: u16,
    pub tempo: u16,
    pub kappa: u16,
    pub difficulty: u64,
    pub max_allowed_uids: u16,
    pub immunity_period: u16,
    pub activity_cutoff: u16,
    pub max_weights_limit: u16,
    pub min_allowed_weights: u16,
}

/// The running counts of a network.
#[derive(Clone, Copy, Debug, PartialEq, Eq, Structural)]
pub struct NetworkCounters {
    pub subnetwork_n: u16,
    pub registrations_this_interval: u16,
    pub pow_registrations_this_interval: u16,
    pub burn_registrations_this_interval: u16,
    pub alpha_in_emission: u64,
    pub alpha_out_emission: u64,
    pub tao_in_emission: u64,
    pub volume: u128,
}

/// The values that a network keeps for each of its members, by the member's number.
#[derive(Clone, Debug)]
pub struct MemberVectors {
    pub rank: Vec<u16>,
    pub trust: Vec<u16>,
    pub active: Vec<bool>,
    pub incentive: Vec<u16>,
    pub consensus: Vec<u16>,
    pub dividends: Vec<u16>,
    pub pruning_scores: Vec<u16>,
    pub last_update: Vec<u64>,
    pub validator_permit: Vec<bool>,
    pub validator_trust: Vec<u16>,
}

/// A live network.
#[derive(Clone, Debug)]
pub struct Network {
    /// The account that registered the network and gets the refund.
    pub owner: AccountId,
    /// The identity under which the owner operates.
    pub owner_hotkey: AccountId,
    /// The block at which the network was registered.
    pub registered_at: u64,
    /// What the owner paid to register the network.
    pub locked: u64,
    /// The pooled base currency.
    pub tao: u64,
    /// What was emitted to the network, epoch by epoch.
    pub emission: Vec<u64>,
    pub config: NetworkConfig,
    pub counters: NetworkCounters,
    pub members: MemberVectors,
}

/// The place of one network identifier in the ledger. The levels of the
/// network's own currency are kept for every identifier, live or not.
#[derive(Clone, Debug)]
pub struct Slot {
    pub network: Option<Network>,
    pub alpha_in: u64,
    pub alpha_out: u64,
}

/// An amount of a network's currency, held for `coldkey` through `hotkey`.
#[derive(Clone, Copy, Debug, PartialEq, Eq, Structural)]
pub struct StakePosition {
    pub hotkey: AccountId,
    pub coldkey: AccountId,
    pub netuid: NetUid,
    pub alpha: u64,
}

/// A member of a network: the identity that holds number `uid` on it.
#[derive(Clone, Copy, Debug, PartialEq, Eq, Structural)]
pub struct Member {
    pub netuid: NetUid,
    pub uid: u16,
    pub hotkey: AccountId,
}

/// A value that member `uid` of a network has set on member `target`.
#[derive(Clone, Copy, Debug, PartialEq, Eq, Structural)]
pub struct Edge {
    pub netuid: NetUid,
    pub uid: u16,
    pub target: u16,
    pub value: u16,
}

/// The mark that `account` takes part in a network.
#[derive(Clone, Copy, Debug, PartialEq, Eq, Structural)]
pub struct Membership {
    pub account: AccountId,
    pub netuid: NetUid,
}

/// What the liquidation of one liquidity position has freed for its owner.
#[derive(Clone, Copy, Debug, PartialEq, Eq, Structural)]
pub struct LiquidatedPosition {
    pub owner: AccountId,
    pub amount: u64,
}

impl Scoped for StakePosition {
    open spec fn scope(&self) -> NetUid {
        self.netuid
    }

    fn netuid(&self) -> (r: NetUid) {
        self.netuid
    }
}

impl Scoped for Member {
    open spec fn scope(&self) -> NetUid {
        self.netuid
    }

    fn netuid(&self) -> (r: NetUid) {
        self.netuid
    }
}

impl Scoped for Edge {
    open spec fn scope(&self) -> NetUid {
        self.netuid
    }

    fn netuid(&self) -> (r: NetUid) {
        self.netuid
    }
}

impl Scoped for Membership {
    open spec fn scope(&self) -> NetUid {
        self.netuid
    }

    fn netuid(&self) -> (r: NetUid) {
        self.netuid
    }
}

impl NetworkConfig {
    /// The settings of a network on which nothing has been set.
    pub open spec fn unset_value() -> NetworkConfig {
        NetworkConfig {
            modality: 0,
            tempo: 0,
            kappa: 0,
            difficulty: 0,
            max_allowed_uids: 0,
            immunity_period: 0,
            activity_cutoff: 0,
            max_weights_limit: 0,
            min_allowed_weights: 0,
        }
    }

    /// The settings of a network on which nothing has been set.
    pub fn unset() -> (r: NetworkConfig)
        ensures
            r == NetworkConfig::unset_value(),
    {
        NetworkConfig {
            modality: 0,
            tempo: 0,
            kappa: 0,
            difficulty: 0,
            max_allowed_uids: 0,
            immunity_period: 0,
            activity_cutoff: 0,
            max_weights_limit: 0,
            min_allowed_weights: 0,
        }
    }
}

impl NetworkCounters {
    /// The counts of a network on which nothing has happened.
    pub open spec fn zero_value() -> NetworkCounters {
        NetworkCounters {
            subnetwork_n: 0,
            registrations_this_interval: 0,
            pow_registrations_this_interval: 0,
            burn_registrations_this_interval: 0,
            alpha_in_emission: 0,
            alpha_out_emission: 0,
            tao_in_emission: 0,
            volume: 0,
        }
    }

    /// The counts of a network on which nothing has happened.
    pub fn zero() -> (r: NetworkCounters)
        ensures
            r == NetworkCounters::zero_value(),
    {
        NetworkCounters {
            subnetwork_n: 0,
            registrations_this_interval: 0,
            pow_registrations_this_interval: 0,
            burn_registrations_this_interval: 0,
            alpha_in_emission: 0,
            alpha_out_emission: 0,
            tao_in_emission: 0,
            volume: 0,
        }
    }
}

impl MemberVectors {
    /// No vector holds a value.
    pub open spec fn is_empty(&self) -> bool {
        &&& self.rank@.len() == 0
        &&& self.trust@.len() == 0
        &&& self.active@.len() == 0
        &&& self.incentive@.len() == 0
        &&& self.consensus@.len() == 0
        &&& self.dividends@.len() == 0
        &&& self.pruning_scores@.len() == 0
        &&& self.last_update@.len() == 0
        &&& self.validator_permit@.len() == 0
        &&& self.validator_trust@.len() == 0
    }

    /// The vectors of a network without members.
    pub fn empty() -> (r: MemberVectors)
        ensures
            r.is_empty(),
    {
        MemberVectors {
            rank: Vec::new(),
            trust: Vec::new(),
            active: Vec::new(),
            incentive: Vec::new(),
            consensus: Vec::new(),
            dividends: Vec::new(),
            pruning_scores: Vec::new(),
            last_update: Vec::new(),
            validator_permit: Vec::new(),
            validator_trust: Vec::new(),
        }
    }
}

impl Network {
    /// The network is as it stands right after its registration by `owner`
    /// at block `registered_at` against the lock `lock`: the lock is recorded
    /// and seeds the pool, nothing has been emitted, and nothing else is set.
    pub open spec fn is_fresh(
        &self,
        owner: AccountId,
        owner_hotkey: AccountId,
        registered_at: u64,
        lock: u64,
    ) -> bool {
        &&& self.owner == owner
        &&& self.owner_hotkey == owner_hotkey
        &&& self.registered_at == registered_at
        &&& self.locked == lock
        &&& self.tao == lock
        &&& self.emission@.len() == 0
        &&& self.config == NetworkConfig::unset_value()
        &&& self.counters == NetworkCounters::zero_value()
        &&& self.members.is_empty()
    }

    /// A network right after its registration.
    pub fn fresh(owner: AccountId, owner_hotkey: AccountId, registered_at: u64, lock: u64) -> (r:
        Network)
        ensures
            r.is_fresh(owner, owner_hotkey, registered_at, lock),
    {
        Network {
            owner,
            owner_hotkey,
            registered_at,
            locked: lock,
            tao: lock,
            emission: Vec::new(),
            config: NetworkConfig::unset(),
            counters: NetworkCounters::zero(),
            members: MemberVectors::empty(),
        }
    }
}

impl Slot {
    /// The place of an identifier that no network holds.
    pub fn vacant() -> (r: Slot)
        ensures
            r.network.is_none(),
            r.alpha_in == 0,
            r.alpha_out == 0,
    {
        Slot { network: None, alpha_in: 0, alpha_out: 0 }
    }
}

} // verus!
