use std::collections::BTreeMap;
use subnet_lifecycle::fixed::Fixed;
use subnet_lifecycle::ledger::{Ledger, LifecycleError};
use subnet_lifecycle::migration::migrate_network_immunity_period;
use subnet_lifecycle::network::{
    Edge, LiquidatedPosition, Member, Membership, Network, StakePosition,
};
use subnet_lifecycle::weight::DbWeight;
use substrate_fixed::types::U96F32;

const SUBNET_LIMIT: u16 = 16;
const IMMUNITY_PERIOD: u64 = 50_400;
const OWNER_CUT: u16 = 11_796;
const LOCK_COST: u64 = 100_000_000_000;
const MIN_STAKE: u64 = 2_000_000;

fn new_test_ext(block_number: u64) -> Ledger {
    let mut ledger = Ledger::new(SUBNET_LIMIT, IMMUNITY_PERIOD, OWNER_CUT);
    ledger.current_block = block_number;
    ledger
}

fn no_liquidity() -> Vec<LiquidatedPosition> {
    Vec::new()
}

fn unit_price() -> Fixed {
    Fixed::from_int(1)
}

fn add_network(ledger: &mut Ledger, netuid: u16, tempo: u16) {
    let mut network = Network::fresh(0, 0, ledger.current_block, 0);
    network.config.tempo = tempo;
    ledger.insert_network(netuid, network);
}

fn add_dynamic_network(ledger: &mut Ledger, hotkey: u64, coldkey: u64) -> u16 {
    ledger.balances.credit(coldkey, LOCK_COST);
    ledger
        .register(coldkey, hotkey, LOCK_COST, &no_liquidity(), unit_price())
        .expect("a funded registration under the limit succeeds")
}

fn network_mut(ledger: &mut Ledger, netuid: u16) -> &mut Network {
    ledger.slots[netuid as usize]
        .network
        .as_mut()
        .expect("the network is live")
}

fn set_subnet_locked_balance(ledger: &mut Ledger, netuid: u16, amount: u64) {
    network_mut(ledger, netuid).locked = amount;
}

fn set_subnet_tao(ledger: &mut Ledger, netuid: u16, amount: u64) {
    network_mut(ledger, netuid).tao = amount;
}

fn set_emission(ledger: &mut Ledger, netuid: u16, emission: Vec<u64>) {
    network_mut(ledger, netuid).emission = emission;
}

fn insert_alpha(ledger: &mut Ledger, hotkey: u64, coldkey: u64, netuid: u16, alpha: u64) {
    ledger.stakes.push(StakePosition { hotkey, coldkey, netuid, alpha });
}

fn register_ok_neuron(ledger: &mut Ledger, netuid: u16, hotkey: u64, _coldkey: u64) {
    let uid = ledger.members.iter().filter(|m| m.netuid == netuid).count() as u16;
    ledger.members.push(Member { netuid, uid, hotkey });
    ledger.memberships.push(Membership { account: hotkey, netuid });
}

fn dissolve(ledger: &mut Ledger, netuid: u16) -> Result<(), LifecycleError> {
    ledger.dissolve(netuid, &no_liquidity(), unit_price())
}

fn no_alpha_left(ledger: &Ledger, netuid: u16) -> bool {
    ledger.stakes.iter().all(|p| p.netuid != netuid)
}

#[test]
fn test_registration_ok() {
    let mut ledger = new_test_ext(1);
    let netuid: u16 = 2;
    let tempo: u16 = 13;
    let hotkey_account_id: u64 = 1;
    let coldkey_account_id: u64 = 0;

    add_network(&mut ledger, netuid, tempo);
    assert_eq!(ledger.network(netuid).map(|n| n.config.tempo), Some(13));

    register_ok_neuron(&mut ledger, netuid, hotkey_account_id, coldkey_account_id);
    assert!(ledger.members.iter().any(|m| m.netuid == netuid && m.hotkey == hotkey_account_id));

    assert_eq!(dissolve(&mut ledger, netuid), Ok(()));

    assert!(!ledger.contains_network(netuid));
}

#[test]
fn dissolve_no_stakers_no_alpha_no_emission() {
    let mut ledger = new_test_ext(0);
    let cold: u64 = 1;
    let hot: u64 = 2;
    let net = add_dynamic_network(&mut ledger, hot, cold);

    set_subnet_locked_balance(&mut ledger, net, 0);
    set_subnet_tao(&mut ledger, net, 0);
    set_emission(&mut ledger, net, Vec::new());

    let before = ledger.balances.balance(cold);
    assert_eq!(dissolve(&mut ledger, net), Ok(()));
    let after = ledger.balances.balance(cold);

    assert_eq!(after, before);
    assert!(!ledger.contains_network(net));
}

#[test]
fn dissolve_refunds_full_lock_cost_when_no_emission() {
    let mut ledger = new_test_ext(0);
    let cold: u64 = 3;
    let hot: u64 = 4;
    let net = add_dynamic_network(&mut ledger, hot, cold);

    let lock: u64 = 1_000_000;
    set_subnet_locked_balance(&mut ledger, net, lock);
    set_subnet_tao(&mut ledger, net, 0);
    set_emission(&mut ledger, net, Vec::new());

    let before = ledger.balances.balance(cold);
    assert_eq!(dissolve(&mut ledger, net), Ok(()));
    let after = ledger.balances.balance(cold);

    assert_eq!(after, before + lock);
}

#[test]
fn dissolve_single_alpha_out_staker_gets_all_tao() {
    let mut ledger = new_test_ext(0);
    let owner_cold: u64 = 10;
    let owner_hot: u64 = 20;
    let net = add_dynamic_network(&mut ledger, owner_hot, owner_cold);

    let (s_hot, s_cold): (u64, u64) = (100, 200);
    insert_alpha(&mut ledger, s_hot, s_cold, net, 5_000);

    let pot: u64 = 99_999;
    set_subnet_tao(&mut ledger, net, pot);
    set_subnet_locked_balance(&mut ledger, net, 0);

    let before = ledger.balances.balance(s_cold);

    assert_eq!(dissolve(&mut ledger, net), Ok(()));

    let after = ledger.balances.balance(s_cold);
    assert_eq!(after, before + pot);

    assert!(no_alpha_left(&ledger, net));
    assert!(ledger.network(net).is_none());
}

#[test]
fn dissolve_two_stakers_pro_rata_distribution() {
    let mut ledger = new_test_ext(0);
    let oc: u64 = 50;
    let oh: u64 = 51;
    let net = add_dynamic_network(&mut ledger, oh, oc);

    let (s1_hot, s1_cold, a1): (u64, u64, u128) = (201, 301, 300);
    let (s2_hot, s2_cold, a2): (u64, u64, u128) = (202, 302, 700);

    insert_alpha(&mut ledger, s1_hot, s1_cold, net, a1 as u64);
    insert_alpha(&mut ledger, s2_hot, s2_cold, net, a2 as u64);

    let pot: u64 = 10_000;
    set_subnet_tao(&mut ledger, net, pot);
    set_subnet_locked_balance(&mut ledger, net, 5_000);

    let s1_before = ledger.balances.balance(s1_cold);
    let s2_before = ledger.balances.balance(s2_cold);
    let owner_before = ledger.balances.balance(oc);

    let total = a1 + a2;
    let prod1 = a1 * (pot as u128);
    let prod2 = a2 * (pot as u128);
    let share1 = (prod1 / total) as u64;
    let share2 = (prod2 / total) as u64;
    let mut distributed = share1 + share2;
    let mut rem = [(s1_cold, prod1 % total), (s2_cold, prod2 % total)];
    if distributed < pot {
        rem.sort_by_key(|&(_c, r)| core::cmp::Reverse(r));
        let leftover = pot - distributed;
        for _ in 0..leftover as usize {
            distributed += 1;
        }
    }
    assert_eq!(distributed, pot);
    let mut expected1 = share1;
    let mut expected2 = share2;
    if share1 + share2 < pot {
        rem.sort_by_key(|&(_c, r)| core::cmp::Reverse(r));
        if rem[0].0 == s1_cold {
            expected1 += 1;
        } else {
            expected2 += 1;
        }
    }

    assert_eq!(dissolve(&mut ledger, net), Ok(()));

    assert_eq!(ledger.balances.balance(s1_cold), s1_before + expected1);
    assert_eq!(ledger.balances.balance(s2_cold), s2_before + expected2);
    assert_eq!(ledger.balances.balance(s1_cold), s1_before + 3_000);
    assert_eq!(ledger.balances.balance(s2_cold), s2_before + 7_000);

    assert_eq!(ledger.balances.balance(oc), owner_before + 5_000);

    assert!(no_alpha_left(&ledger, net));
}

#[test]
fn dissolve_owner_cut_refund_logic() {
    let mut ledger = new_test_ext(0);
    let oc: u64 = 70;
    let oh: u64 = 71;
    let net = add_dynamic_network(&mut ledger, oh, oc);

    let sh: u64 = 77;
    let sc: u64 = 88;
    insert_alpha(&mut ledger, sh, sc, net, 100);
    set_subnet_tao(&mut ledger, net, 1_000);

    let lock: u64 = 2_000;
    set_subnet_locked_balance(&mut ledger, net, lock);
    set_emission(&mut ledger, net, vec![200, 600]);

    ledger.owner_cut = 11_796;

    let frac: U96F32 = U96F32::from_num(11_796u16) / U96F32::from_num(u16::MAX);
    let total_emitted_alpha: u64 = 800;
    let owner_alpha_u64: u64 = U96F32::from_num(total_emitted_alpha)
        .saturating_mul(frac)
        .floor()
        .saturating_to_num::<u64>();

    let price = Fixed::from_ratio(3, 4);
    let host_price: U96F32 = U96F32::from_bits(price.to_bits());
    let owner_emission_tau_u64: u64 = U96F32::from_num(owner_alpha_u64)
        .saturating_mul(host_price)
        .floor()
        .saturating_to_num::<u64>();

    let expected_refund: u64 = lock.saturating_sub(owner_emission_tau_u64);
    assert_eq!(owner_alpha_u64, 143);
    assert_eq!(expected_refund, 2_000 - 107);

    let before = ledger.balances.balance(oc);
    assert_eq!(ledger.dissolve(net, &no_liquidity(), price), Ok(()));
    let after = ledger.balances.balance(oc);

    assert_eq!(after, before + expected_refund);
}

#[test]
fn dissolve_zero_refund_when_emission_exceeds_lock() {
    let mut ledger = new_test_ext(0);
    let oc: u64 = 1_000;
    let oh: u64 = 2_000;
    let net = add_dynamic_network(&mut ledger, oh, oc);

    set_subnet_locked_balance(&mut ledger, net, 1_000);
    ledger.owner_cut = u16::MAX;
    set_emission(&mut ledger, net, vec![2_000]);
    set_subnet_tao(&mut ledger, net, 0);

    let before = ledger.balances.balance(oc);
    assert_eq!(dissolve(&mut ledger, net), Ok(()));
    let after = ledger.balances.balance(oc);

    assert_eq!(after, before);
}

#[test]
fn dissolve_nonexistent_subnet_fails() {
    let mut ledger = new_test_ext(0);
    assert_eq!(
        dissolve(&mut ledger, 9_999),
        Err(LifecycleError::NetworkDoesNotExist)
    );
}

#[test]
fn dissolve_clears_all_per_subnet_storages() {
    let mut ledger = new_test_ext(0);
    let owner_cold: u64 = 123;
    let owner_hot: u64 = 456;
    let net = add_dynamic_network(&mut ledger, owner_hot, owner_cold);

    {
        let network = network_mut(&mut ledger, net);
        network.owner = owner_cold;
        network.counters.subnetwork_n = 0;
        network.config.modality = 0;
        network.registered_at = 0;

        network.members.rank = vec![1u16];
        network.members.trust = vec![1u16];
        network.members.active = vec![true];
        network.emission = vec![1];
        network.members.incentive = vec![1u16];
        network.members.consensus = vec![1u16];
        network.members.dividends = vec![1u16];
        network.members.pruning_scores = vec![1u16];
        network.members.last_update = vec![0u64];

        network.members.validator_permit = vec![true];
        network.members.validator_trust = vec![1u16];

        network.config.tempo = 1;
        network.config.kappa = 1;
        network.config.difficulty = 1;

        network.config.max_allowed_uids = 1;
        network.config.immunity_period = 1;
        network.config.activity_cutoff = 1;
        network.config.max_weights_limit = 1;
        network.config.min_allowed_weights = 1;

        network.counters.registrations_this_interval = 1;
        network.counters.pow_registrations_this_interval = 1;
        network.counters.burn_registrations_this_interval = 1;

        network.tao = 1;
        network.counters.alpha_in_emission = 1;
        network.counters.alpha_out_emission = 1;
        network.counters.tao_in_emission = 1;
        network.counters.volume = 1u128;
    }

    ledger.set_pool(net, 2, 3);

    ledger.members.push(Member { netuid: net, uid: 0, hotkey: owner_hot });
    ledger.bonds.push(Edge { netuid: net, uid: 0, target: 0, value: 1 });
    ledger.weights.push(Edge { netuid: net, uid: 0, target: 1, value: 1 });
    ledger.memberships.push(Membership { account: owner_cold, netuid: net });

    assert_eq!(dissolve(&mut ledger, net), Ok(()));

    assert!(ledger.network(net).map(|n| n.owner).is_none());
    assert!(ledger.network(net).map(|n| n.counters.subnetwork_n).is_none());
    assert!(ledger.network(net).map(|n| n.config.modality).is_none());
    assert!(!ledger.contains_network(net));
    assert!(ledger.network(net).map(|n| n.registered_at).is_none());

    assert!(ledger.network(net).map(|n| n.members.rank.clone()).is_none());
    assert!(ledger.network(net).map(|n| n.members.trust.clone()).is_none());
    assert!(ledger.network(net).map(|n| n.members.active.clone()).is_none());
    assert!(ledger.network(net).map(|n| n.emission.clone()).is_none());
    assert!(ledger.network(net).map(|n| n.members.incentive.clone()).is_none());
    assert!(ledger.network(net).map(|n| n.members.consensus.clone()).is_none());
    assert!(ledger.network(net).map(|n| n.members.dividends.clone()).is_none());
    assert!(ledger.network(net).map(|n| n.members.pruning_scores.clone()).is_none());
    assert!(ledger.network(net).map(|n| n.members.last_update.clone()).is_none());

    assert!(ledger.network(net).map(|n| n.members.validator_permit.clone()).is_none());
    assert!(ledger.network(net).map(|n| n.members.validator_trust.clone()).is_none());

    assert!(ledger.network(net).map(|n| n.config.tempo).is_none());
    assert!(ledger.network(net).map(|n| n.config.kappa).is_none());
    assert!(ledger.network(net).map(|n| n.config.difficulty).is_none());

    assert!(ledger.network(net).map(|n| n.config.max_allowed_uids).is_none());
    assert!(ledger.network(net).map(|n| n.config.immunity_period).is_none());
    assert!(ledger.network(net).map(|n| n.config.activity_cutoff).is_none());
    assert!(ledger.network(net).map(|n| n.config.max_weights_limit).is_none());
    assert!(ledger.network(net).map(|n| n.config.min_allowed_weights).is_none());

    assert!(ledger.network(net).map(|n| n.counters.registrations_this_interval).is_none());
    assert!(ledger.network(net).map(|n| n.counters.pow_registrations_this_interval).is_none());
    assert!(ledger.network(net).map(|n| n.counters.burn_registrations_this_interval).is_none());

    assert!(ledger.network(net).map(|n| n.tao).is_none());
    assert!(ledger.network(net).map(|n| n.counters.alpha_in_emission).is_none());
    assert!(ledger.network(net).map(|n| n.counters.alpha_out_emission).is_none());
    assert!(ledger.network(net).map(|n| n.counters.tao_in_emission).is_none());
    assert!(ledger.network(net).map(|n| n.counters.volume).is_none());

    assert_eq!(ledger.pool(net).0, 0);
    assert_eq!(ledger.pool(net).1, 0);

    assert!(ledger.members.iter().filter(|m| m.netuid == net).next().is_none());
    assert!(ledger.bonds.iter().filter(|e| e.netuid == net).next().is_none());
    assert!(ledger.weights.iter().filter(|e| e.netuid == net).next().is_none());
    assert!(!ledger.memberships.contains(&Membership { account: owner_hot, netuid: net }));
    assert!(!ledger.memberships.contains(&Membership { account: owner_cold, netuid: net }));

    assert!(!ledger.contains_network(net));
}

#[test]
fn dissolve_alpha_out_but_zero_tao_no_rewards() {
    let mut ledger = new_test_ext(0);
    let oc: u64 = 21;
    let oh: u64 = 22;
    let net = add_dynamic_network(&mut ledger, oh, oc);

    let sh: u64 = 23;
    let sc: u64 = 24;

    insert_alpha(&mut ledger, sh, sc, net, 1_000);
    set_subnet_tao(&mut ledger, net, 0);
    set_subnet_locked_balance(&mut ledger, net, 0);
    set_emission(&mut ledger, net, Vec::new());

    let before = ledger.balances.balance(sc);
    assert_eq!(dissolve(&mut ledger, net), Ok(()));
    let after = ledger.balances.balance(sc);

    assert_eq!(after, before);
    assert!(ledger.stakes.iter().next().is_none());
}

#[test]
fn dissolve_decrements_total_networks() {
    let mut ledger = new_test_ext(0);
    let total_before = ledger.total_networks();

    let cold: u64 = 41;
    let hot: u64 = 42;
    let net = add_dynamic_network(&mut ledger, hot, cold);

    assert_eq!(ledger.total_networks(), total_before + 1);

    assert_eq!(dissolve(&mut ledger, net), Ok(()));
    assert_eq!(ledger.total_networks(), total_before);
}

#[test]
fn dissolve_rounding_remainder_distribution() {
    let mut ledger = new_test_ext(0);
    let oc: u64 = 61;
    let oh: u64 = 62;
    let net = add_dynamic_network(&mut ledger, oh, oc);

    let (s1h, s1c): (u64, u64) = (63, 64);
    let (s2h, s2c): (u64, u64) = (65, 66);

    insert_alpha(&mut ledger, s1h, s1c, net, 3);
    insert_alpha(&mut ledger, s2h, s2c, net, 2);

    set_subnet_tao(&mut ledger, net, 1);
    set_subnet_locked_balance(&mut ledger, net, 0);

    let c1_before = ledger.balances.balance(s1c);
    let c2_before = ledger.balances.balance(s2c);

    assert_eq!(dissolve(&mut ledger, net), Ok(()));

    let c1_after = ledger.balances.balance(s1c);
    let c2_after = ledger.balances.balance(s2c);

    assert_eq!(c1_after, c1_before + 1);
    assert_eq!(c2_after, c2_before);

    assert!(no_alpha_left(&ledger, net));
    assert!(ledger.network(net).is_none());
}

#[test]
fn destroy_alpha_out_multiple_stakers_pro_rata() {
    let mut ledger = new_test_ext(0);
    let owner_cold: u64 = 10;
    let owner_hot: u64 = 20;
    let netuid = add_dynamic_network(&mut ledger, owner_hot, owner_cold);

    let (c1, h1): (u64, u64) = (111, 211);
    let (c2, h2): (u64, u64) = (222, 333);
    register_ok_neuron(&mut ledger, netuid, h1, c1);
    register_ok_neuron(&mut ledger, netuid, h2, c2);

    let min_total_u64: u64 = MIN_STAKE;
    let s1: u64 = 3u64 * min_total_u64;
    let s2: u64 = 7u64 * min_total_u64;

    ledger.balances.credit(c1, 50_000);
    ledger.balances.credit(c2, 50_000);
    insert_alpha(&mut ledger, h1, c1, netuid, s1);
    insert_alpha(&mut ledger, h2, c2, netuid, s2);

    let a1: u128 = s1 as u128;
    let a2: u128 = s2 as u128;
    let atotal = a1 + a2;

    let tao_pot: u64 = 10_000;
    set_subnet_tao(&mut ledger, netuid, tao_pot);
    set_subnet_locked_balance(&mut ledger, netuid, 5_000);

    let c1_before = ledger.balances.balance(c1);
    let c2_before = ledger.balances.balance(c2);
    let owner_before = ledger.balances.balance(owner_cold);

    assert_eq!(dissolve(&mut ledger, netuid), Ok(()));

    let prod1 = (tao_pot as u128) * a1;
    let prod2 = (tao_pot as u128) * a2;
    let mut s1_share = (prod1 / atotal) as u64;
    let mut s2_share = (prod2 / atotal) as u64;
    let distributed = s1_share + s2_share;
    if distributed < tao_pot {
        let r1 = prod1 % atotal;
        let r2 = prod2 % atotal;
        if r1 >= r2 {
            s1_share += 1;
        } else {
            s2_share += 1;
        }
    }

    assert_eq!(ledger.balances.balance(c1), c1_before + s1_share);
    assert_eq!(ledger.balances.balance(c2), c2_before + s2_share);

    assert_eq!(ledger.balances.balance(owner_cold), owner_before + 5_000);

    assert!(!ledger.stakes.iter().any(|p| p.hotkey == h1 && p.coldkey == c1 && p.netuid == netuid));
    assert!(!ledger.stakes.iter().any(|p| p.hotkey == h2 && p.coldkey == c2 && p.netuid == netuid));
}

#[test]
fn destroy_alpha_out_many_stakers_complex_distribution() {
    let mut ledger = new_test_ext(0);
    let owner_cold: u64 = 1_000;
    let owner_hot: u64 = 2_000;
    let netuid = add_dynamic_network(&mut ledger, owner_hot, owner_cold);

    const N: usize = 20;
    let mut cold = [0u64; N];
    let mut hot = [0u64; N];
    let mut stake = [0u64; N];

    let min_amount_u64: u64 = MIN_STAKE;
    for i in 0..N {
        cold[i] = 10_000 + 2 * i as u64;
        hot[i] = 10_001 + 2 * i as u64;
        stake[i] = (i as u64 + 1u64) * min_amount_u64;

        register_ok_neuron(&mut ledger, netuid, hot[i], cold[i]);
        ledger.balances.credit(cold[i], 100_000);
        insert_alpha(&mut ledger, hot[i], cold[i], netuid, stake[i]);
    }

    let mut alpha = [0u128; N];
    let mut alpha_sum: u128 = 0;
    for i in 0..N {
        alpha[i] = stake[i] as u128;
        alpha_sum += alpha[i];
    }

    let tao_pot: u64 = 123_456;
    let lock: u64 = 30_000;
    set_subnet_tao(&mut ledger, netuid, tao_pot);
    set_subnet_locked_balance(&mut ledger, netuid, lock);

    set_emission(&mut ledger, netuid, vec![1_000, 2_000, 1_500]);
    ledger.owner_cut = 32_768;

    let mut bal_before = [0u64; N];
    for i in 0..N {
        bal_before[i] = ledger.balances.balance(cold[i]);
    }
    let owner_before = ledger.balances.balance(owner_cold);

    let mut share = [0u64; N];
    let mut rem = [0u128; N];
    let mut paid: u128 = 0;

    for i in 0..N {
        let prod = tao_pot as u128 * alpha[i];
        share[i] = (prod / alpha_sum) as u64;
        rem[i] = prod % alpha_sum;
        paid += share[i] as u128;
    }
    let leftover = tao_pot as u128 - paid;
    let mut idx: Vec<_> = (0..N).collect();
    idx.sort_by_key(|i| core::cmp::Reverse(rem[*i]));
    for i in 0..leftover as usize {
        share[idx[i]] += 1;
    }

    let frac: U96F32 = U96F32::from_num(32_768u16) / U96F32::from_num(u16::MAX);
    let total_emitted_alpha: u64 = 1_000 + 2_000 + 1_500;
    let owner_alpha_u64: u64 = U96F32::from_num(total_emitted_alpha)
        .saturating_mul(frac)
        .floor()
        .saturating_to_num::<u64>();

    let price = unit_price();
    let host_price: U96F32 = U96F32::from_bits(price.to_bits());
    let owner_emission_tao_u64: u64 = U96F32::from_num(owner_alpha_u64)
        .saturating_mul(host_price)
        .floor()
        .saturating_to_num::<u64>();
    let expected_refund: u64 = lock.saturating_sub(owner_emission_tao_u64);

    assert_eq!(ledger.dissolve(netuid, &no_liquidity(), price), Ok(()));

    for i in 0..N {
        assert_eq!(
            ledger.balances.balance(cold[i]),
            bal_before[i] + share[i],
            "staker {i} cold-key balance changed unexpectedly"
        );
    }

    assert_eq!(ledger.balances.balance(owner_cold), owner_before + expected_refund);

    assert!(no_alpha_left(&ledger, netuid));
    assert_eq!(ledger.pool(netuid).0, 0);
    assert_eq!(ledger.pool(netuid).1, 0);
    assert_eq!(ledger.network(netuid).map(|n| n.locked).unwrap_or(0), 0);
}

#[test]
fn prune_none_with_no_networks() {
    let ledger = new_test_ext(0);
    assert_eq!(ledger.network_to_prune(), None);
}

#[test]
fn prune_none_when_all_networks_immune() {
    let mut ledger = new_test_ext(0);
    let n1 = add_dynamic_network(&mut ledger, 2, 1);
    let _n2 = add_dynamic_network(&mut ledger, 4, 3);

    set_emission(&mut ledger, n1, vec![10]);

    assert_eq!(ledger.network_to_prune(), None);
}

#[test]
fn prune_selects_network_with_lowest_emission() {
    let mut ledger = new_test_ext(0);
    let n1 = add_dynamic_network(&mut ledger, 20, 10);
    let n2 = add_dynamic_network(&mut ledger, 40, 30);

    let imm = ledger.immunity_period;
    ledger.current_block = imm + 10;

    set_emission(&mut ledger, n1, vec![5]);
    set_emission(&mut ledger, n2, vec![100]);

    assert_eq!(ledger.network_to_prune(), Some(n1));
}

#[test]
fn prune_ignores_immune_network_even_if_lower_emission() {
    let mut ledger = new_test_ext(0);
    let n1 = add_dynamic_network(&mut ledger, 22, 11);

    let imm = ledger.immunity_period;
    ledger.current_block = imm + 5;

    let n2 = add_dynamic_network(&mut ledger, 44, 33);

    set_emission(&mut ledger, n1, vec![50]);
    set_emission(&mut ledger, n2, vec![1]);

    ledger.current_block = imm + 10;
    assert_eq!(ledger.network_to_prune(), Some(n1));
}

#[test]
fn prune_tie_on_emission_earlier_registration_wins() {
    let mut ledger = new_test_ext(0);
    let n1 = add_dynamic_network(&mut ledger, 66, 55);

    ledger.current_block = 1;
    let n2 = add_dynamic_network(&mut ledger, 88, 77);

    let imm = ledger.immunity_period;
    ledger.current_block = imm + 20;

    set_emission(&mut ledger, n1, vec![123]);
    set_emission(&mut ledger, n2, vec![123]);

    assert_eq!(ledger.network_to_prune(), Some(n1));
}

#[test]
fn register_network_under_limit_success() {
    let mut ledger = new_test_ext(0);
    ledger.subnet_limit = 32;

    let total_before = ledger.total_networks();

    let cold: u64 = 10;
    let hot: u64 = 11;

    let lock_now: u64 = LOCK_COST;
    ledger.balances.credit(cold, lock_now.saturating_mul(10));

    let registered = ledger.register(cold, hot, lock_now, &no_liquidity(), unit_price());
    assert!(registered.is_ok());

    assert_eq!(ledger.total_networks(), total_before + 1);
    let new_id: u16 = ledger.total_networks() as u16;
    assert_eq!(registered, Ok(new_id));
    assert_eq!(ledger.network(new_id).map(|n| n.owner), Some(cold));
    assert_eq!(ledger.network(new_id).map(|n| n.owner_hotkey), Some(hot));
}

#[test]
fn register_network_prunes_and_recycles_netuid() {
    let mut ledger = new_test_ext(0);
    ledger.subnet_limit = 2;

    let n1_cold: u64 = 21;
    let n1_hot: u64 = 22;
    let n1 = add_dynamic_network(&mut ledger, n1_hot, n1_cold);

    let n2_cold: u64 = 23;
    let n2_hot: u64 = 24;
    let n2 = add_dynamic_network(&mut ledger, n2_hot, n2_cold);

    let imm = ledger.immunity_period;
    ledger.current_block = imm + 100;

    set_emission(&mut ledger, n1, vec![1]);
    set_emission(&mut ledger, n2, vec![1_000]);

    let new_cold: u64 = 30;
    let new_hot: u64 = 31;
    let needed: u64 = LOCK_COST;
    ledger.balances.credit(new_cold, needed.saturating_mul(10));

    assert_eq!(
        ledger.register(new_cold, new_hot, needed, &no_liquidity(), unit_price()),
        Ok(n1)
    );

    assert_eq!(ledger.total_networks(), 2);
    assert_eq!(ledger.network(n1).map(|n| n.owner), Some(new_cold));
    assert_eq!(ledger.network(n1).map(|n| n.owner_hotkey), Some(new_hot));
    assert_eq!(ledger.network(n2).map(|n| n.owner), Some(n2_cold));
}

#[test]
fn register_network_fails_before_prune_keeps_existing() {
    let mut ledger = new_test_ext(0);
    ledger.subnet_limit = 1;

    let n_cold: u64 = 41;
    let n_hot: u64 = 42;
    let net = add_dynamic_network(&mut ledger, n_hot, n_cold);

    let imm = ledger.immunity_period;
    ledger.current_block = imm + 50;
    set_emission(&mut ledger, net, vec![10]);

    let caller_cold: u64 = 50;
    let caller_hot: u64 = 51;

    assert_eq!(
        ledger.register(caller_cold, caller_hot, LOCK_COST, &no_liquidity(), unit_price()),
        Err(LifecycleError::InsufficientLock)
    );

    assert!(ledger.contains_network(net));
    assert_eq!(ledger.total_networks(), 1);
}

#[test]
fn test_migrate_network_immunity_period() {
    let mut ledger = new_test_ext(0);
    let db_weight = DbWeight { read: 25_000_000, write: 100_000_000 };

    assert_ne!(ledger.immunity_period, 864_000);
    assert!(
        !ledger.migrations.has_run(&b"migrate_network_immunity_period".to_vec()),
        "HasMigrationRun should be false before migration"
    );

    let weight = migrate_network_immunity_period(&mut ledger, db_weight);

    assert_eq!(
        ledger.immunity_period, 864_000,
        "NetworkImmunityPeriod should now be 864_000"
    );

    assert!(
        ledger.migrations.has_run(&b"migrate_network_immunity_period".to_vec()),
        "HasMigrationRun should be true after migration"
    );

    assert!(!weight.is_zero(), "migration weight should be > 0");
}

#[test]
fn test_register_subnet_low_lock_cost() {
    let mut ledger = new_test_ext(1);
    let lock_cost: u64 = 1_000;
    assert!(lock_cost < 100_000_000_000);

    let subnet_owner_coldkey: u64 = 1;
    let subnet_owner_hotkey: u64 = 2;
    ledger.balances.credit(subnet_owner_coldkey, lock_cost);
    let netuid = ledger
        .register(subnet_owner_coldkey, subnet_owner_hotkey, lock_cost, &no_liquidity(), unit_price())
        .expect("the registrant holds the lock");
    assert!(ledger.contains_network(netuid));

    assert_eq!(ledger.network(netuid).map(|n| n.tao), Some(lock_cost));
    assert_eq!(ledger.pool(netuid).0, lock_cost);
}

#[test]
fn test_register_subnet_high_lock_cost() {
    let mut ledger = new_test_ext(1);
    let lock_cost: u64 = 1_000_000_000_000;
    assert!(lock_cost >= 1_000_000_000_000);

    let subnet_owner_coldkey: u64 = 1;
    let subnet_owner_hotkey: u64 = 2;
    ledger.balances.credit(subnet_owner_coldkey, lock_cost);
    let netuid = ledger
        .register(subnet_owner_coldkey, subnet_owner_hotkey, lock_cost, &no_liquidity(), unit_price())
        .expect("the registrant holds the lock");
    assert!(ledger.contains_network(netuid));

    assert_eq!(ledger.network(netuid).map(|n| n.tao), Some(lock_cost));
    assert_eq!(ledger.pool(netuid).0, lock_cost);
}

#[test]
fn massive_dissolve_refund_and_reregistration_flow_is_lossless_and_cleans_state() {
    let mut ledger = new_test_ext(0);
    const NUM_NETS: usize = 4;

    let cold_lps: [u64; 6] = [3001, 3002, 3003, 3004, 3005, 3006];

    let mut cold_to_hots: BTreeMap<u64, [u64; 2]> = BTreeMap::new();
    for &c in cold_lps.iter() {
        let h1 = c.saturating_add(100_000);
        let h2 = c.saturating_add(200_000);
        cold_to_hots.insert(c, [h1, h2]);
    }

    let pots: [u64; NUM_NETS] = [12_345, 23_456, 34_567, 45_678];

    let lp_sets_per_net: [&[u64]; NUM_NETS] = [
        &cold_lps[0..4],
        &cold_lps[2..6],
        &cold_lps[0..6],
        &cold_lps[1..5],
    ];

    let mut nets: Vec<u16> = Vec::new();
    for i in 0..NUM_NETS {
        let owner_hot = 10_000 + (i as u64);
        let owner_cold = 20_000 + (i as u64);
        let net = add_dynamic_network(&mut ledger, owner_hot, owner_cold);
        set_emission(&mut ledger, net, Vec::new());
        set_subnet_locked_balance(&mut ledger, net, 0);
        nets.push(net);
    }

    let mut net_index: BTreeMap<u16, usize> = BTreeMap::new();
    for (i, &n) in nets.iter().enumerate() {
        net_index.insert(n, i);
    }

    for id in 0u64..10 {
        let cold_acc = 1_000_000 + id;
        let hot_acc = 2_000_000 + id;
        for &net in nets.iter() {
            register_ok_neuron(&mut ledger, net, hot_acc, cold_acc);
        }
    }

    for &cold in cold_lps.iter() {
        ledger.balances.credit(cold, u64::MAX);
    }

    let mut tao_before: BTreeMap<u64, u64> = BTreeMap::new();
    let mut alpha_pairs_per_net: BTreeMap<u16, Vec<((u64, u64), u128)>> = BTreeMap::new();

    for (ni, &net) in nets.iter().enumerate() {
        let participants = lp_sets_per_net[ni];
        for &cold in participants.iter() {
            let [hot1, hot2] = cold_to_hots[&cold];

            register_ok_neuron(&mut ledger, net, hot1, cold);
            register_ok_neuron(&mut ledger, net, hot2, cold);

            let base: u64 = 5_000_000 + ((ni as u64) * 1_000_000) + ((cold % 10) * 250_000);
            let stake1: u64 = base.saturating_mul(3) / 5;
            let stake2: u64 = base.saturating_sub(stake1);

            assert!(ledger.balances.debit(cold, stake1));
            insert_alpha(&mut ledger, hot1, cold, net, stake1);
            assert!(ledger.balances.debit(cold, stake2));
            insert_alpha(&mut ledger, hot2, cold, net, stake2);
        }
    }

    for &cold in cold_lps.iter() {
        tao_before.insert(cold, ledger.balances.balance(cold));
    }

    for position in ledger.stakes.iter() {
        if let Some(&ni) = net_index.get(&position.netuid) {
            if lp_sets_per_net[ni].contains(&position.coldkey) {
                let a: u128 = position.alpha as u128;
                if a > 0 {
                    alpha_pairs_per_net
                        .entry(position.netuid)
                        .or_default()
                        .push(((position.hotkey, position.coldkey), a));
                }
            }
        }
    }

    let mut tao_after_adds: BTreeMap<u64, u64> = BTreeMap::new();
    for &cold in cold_lps.iter() {
        tao_after_adds.insert(cold, ledger.balances.balance(cold));
    }

    let mut base_share_cold: BTreeMap<u64, u64> =
        cold_lps.iter().copied().map(|c| (c, 0_u64)).collect();
    let mut pair_count_cold: BTreeMap<u64, u32> =
        cold_lps.iter().copied().map(|c| (c, 0_u32)).collect();

    let mut leftover_total: u64 = 0;

    for (ni, &net) in nets.iter().enumerate() {
        let pot = pots[ni];
        let pairs = alpha_pairs_per_net.get(&net).cloned().unwrap_or_default();
        if pot == 0 || pairs.is_empty() {
            continue;
        }
        let total_alpha: u128 = pairs.iter().map(|(_, a)| *a).sum();
        if total_alpha == 0 {
            continue;
        }

        let mut base_sum_net: u64 = 0;
        for ((_, cold), a) in pairs.iter().copied() {
            let prod: u128 = a.saturating_mul(pot as u128);
            let base: u64 = (prod / total_alpha) as u64;
            base_sum_net = base_sum_net.saturating_add(base);
            *base_share_cold.entry(cold).or_default() = base_share_cold[&cold].saturating_add(base);
            *pair_count_cold.entry(cold).or_default() += 1;
        }
        let leftover_net = pot.saturating_sub(base_sum_net);
        leftover_total = leftover_total.saturating_add(leftover_net);
    }

    for (ni, &net) in nets.iter().enumerate() {
        set_subnet_tao(&mut ledger, net, pots[ni]);
    }
    for &net in nets.iter() {
        assert_eq!(dissolve(&mut ledger, net), Ok(()));
    }

    let mut actual_pot_cold: BTreeMap<u64, u64> =
        cold_lps.iter().copied().map(|c| (c, 0_u64)).collect();
    for &cold in cold_lps.iter() {
        let before = tao_before[&cold];
        let after = ledger.balances.balance(cold);
        actual_pot_cold.insert(cold, after.saturating_sub(before));
    }

    let total_actual: u64 = actual_pot_cold.values().copied().sum();
    let total_pots: u64 = pots.iter().copied().sum();
    assert_eq!(
        total_actual, total_pots,
        "total τ pot credited across colds must equal sum of pots"
    );

    let mut extra_accum: u64 = 0;
    for &cold in cold_lps.iter() {
        let base = *base_share_cold.get(&cold).unwrap_or(&0);
        let pairs = *pair_count_cold.get(&cold).unwrap_or(&0) as u64;
        let actual = *actual_pot_cold.get(&cold).unwrap_or(&0);

        assert!(
            actual >= base,
            "cold {cold:?} actual pot {actual} is below base {base}"
        );
        assert!(
            actual <= base.saturating_add(pairs),
            "cold {cold:?} actual pot {actual} exceeds base + pairs ({base} + {pairs})"
        );

        extra_accum = extra_accum.saturating_add(actual.saturating_sub(base));
    }

    assert_eq!(
        extra_accum, leftover_total,
        "sum of extras beyond base must equal total leftover"
    );

    for &cold in cold_lps.iter() {
        let before = tao_before[&cold];
        let mid = tao_after_adds[&cold];
        let after = ledger.balances.balance(cold);
        let principal_actual = before.saturating_sub(mid);
        let actual_pot = after.saturating_sub(before);
        assert_eq!(
            after.saturating_sub(mid),
            principal_actual.saturating_add(actual_pot),
            "cold {cold:?} τ balance incorrect vs 'after_adds'"
        );
    }

    for &net in nets.iter() {
        assert!(
            no_alpha_left(&ledger, net),
            "alpha ledger not fully cleared for net {net:?}"
        );
        assert!(!ledger.contains_network(net), "subnet {net:?} still exists");
        assert!(
            ledger.members.iter().all(|m| m.netuid != net),
            "members not cleared for net {net:?}"
        );
        assert!(
            ledger.memberships.iter().all(|m| m.netuid != net),
            "memberships not cleared for net {net:?}"
        );
        assert_eq!(ledger.pool(net), (0, 0), "pool levels nonzero for net {net:?}");
    }
    assert_eq!(ledger.total_networks(), 0);

    let new_owner_hot: u64 = 99_000;
    let new_owner_cold: u64 = 99_001;
    let net_new = add_dynamic_network(&mut ledger, new_owner_hot, new_owner_cold);
    assert_eq!(net_new, nets[0]);
    set_emission(&mut ledger, net_new, Vec::new());
    set_subnet_locked_balance(&mut ledger, net_new, 0);

    for &cold in &cold_lps[0..3] {
        let [hot1, _hot2] = cold_to_hots[&cold];
        register_ok_neuron(&mut ledger, net_new, hot1, cold);

        let before_tau = ledger.balances.balance(cold);
        let min_amount_required: u64 = MIN_STAKE;
        assert!(ledger.balances.debit(cold, min_amount_required));
        insert_alpha(&mut ledger, hot1, cold, net_new, min_amount_required);
        let after_tau = ledger.balances.balance(cold);

        assert_eq!(
            after_tau,
            before_tau.saturating_sub(min_amount_required),
            "τ did not decrease by the min required restake amount for cold {cold:?}"
        );
    }

    set_subnet_tao(&mut ledger, net_new, 123_456);
    let before: Vec<u64> = cold_lps[0..3].iter().map(|c| ledger.balances.balance(*c)).collect();
    assert_eq!(dissolve(&mut ledger, net_new), Ok(()));
    let after: Vec<u64> = cold_lps[0..3].iter().map(|c| ledger.balances.balance(*c)).collect();
    assert_eq!(
        after,
        vec![before[0] + 41_152, before[1] + 41_152, before[2] + 41_152]
    );
}
