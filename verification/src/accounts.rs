//! Balances of the base currency, by account.

use std::collections::HashMap;
use vstd::prelude::*;

verus! {

broadcast use vstd::std_specs::hash::group_hash_axioms;

/// The identity of an account.
pub type AccountId = u64;

/// The balances of all accounts. An account that was never credited holds nothing.
pub struct Balances {
    pub held: HashMap<AccountId, u64>,
}

/// `balance + amount`, held at the top of the range of `u64`.
pub open spec fn credited(balance: u64, amount: nat) -> u64 {
    if balance as nat + amount > u64::MAX as nat {
        u64::MAX
    } else {
        (balance as nat + amount) as u64
    }
}

impl Balances {
    /// What `account` holds.
    pub open spec fn of(&self, account: AccountId) -> u64 {
        if self.held@.contains_key(account) {
            self.held@[account]
        } else {
            0
        }
    }

    /// No account holds anything.
    pub fn new() -> (r: Balances)
        ensures
            forall|a: AccountId| r.of(a) == 0,
    {
        Balances { held: HashMap::new() }
    }

    /// What `account` holds.
    pub fn balance(&self, account: AccountId) -> (r: u64)
        ensures
            r == self.of(account),
    {
        match self.held.get(&account) {
            Some(b) => *b,
            None => 0,
        }
    }

    /// Adds `amount` to what `account` holds. The balance is held at the top
    /// of its range; no other account changes.
    pub fn credit(&mut self, account: AccountId, amount: u64)
        ensures
            final(self).of(account) == credited(old(self).of(account), amount as nat),
            forall|a: AccountId| a != account ==> final(self).of(a) == old(self).of(a),
    {
        let now: u64 = self.balance(account);
        self.held.insert(account, now.saturating_add(amount));
    }

    /// Takes `amount` from what `account` holds, if it holds as much.
    pub fn debit(&mut self, account: AccountId, amount: u64) -> (done: bool)
        ensures
            done == (old(self).of(account) >= amount),
            done ==> final(self).of(account) == old(self).of(account) - amount,
            !done ==> final(self).of(account) == old(self).of(account),
            forall|a: AccountId| a != account ==> final(self).of(a) == old(self).of(a),
    {
        let now: u64 = self.balance(account);
        if now >= amount {
            self.held.insert(account, now - amount);
            true
        } else {
            false
        }
    }
}

} // verus!
