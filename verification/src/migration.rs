//! One-shot changes of the stored state. Each runs once: it asks the guard
//! before it starts, marks itself when it is through, and does nothing but
//! account for the one read when it is called again.

use crate::ledger::{Ledger, SwapEntry, SwapRecord};
use crate::weight::{
    clamp, db_reads, db_writes, weight_saturating_accrue, weight_saturating_add, DbWeight, Weight,
};
use vstd::prelude::*;
use vstd::string::StringSliceAdditionalSpecFns;

verus! {

/// The immunity period that the migration of the immunity period sets, in blocks.
pub const MIGRATED_IMMUNITY_PERIOD: u64 = 864000u64;

/// The name under which the migration of the immunity period is marked.
pub open spec fn immunity_migration_name() -> Seq<u8> {
    "migrate_network_immunity_period".spec_bytes()
}

/// The name under which the migration of the scheduled key changes is marked.
pub open spec fn coldkey_swap_migration_name() -> Seq<u8> {
    "migrate_coldkey_swap_scheduled".spec_bytes()
}

/// What every scheduled key change holds after its migration: no block and no key.
pub open spec fn default_scheduled() -> SwapRecord {
    SwapRecord::Scheduled { when: 0, new_coldkey: 0 }
}

/// The scheduled key changes after the migration: an entry that cannot be
/// read is gone, and every other entry holds the default value in the
/// present format.
pub open spec fn migrated_swaps(entries: Seq<SwapEntry>) -> Seq<SwapEntry>
    decreases entries.len(),
{
    if entries.len() == 0 {
        Seq::empty()
    } else if entries.last().record == SwapRecord::Unreadable {
        migrated_swaps(entries.drop_last())
    } else {
        migrated_swaps(entries.drop_last()).push(
            SwapEntry { coldkey: entries.last().coldkey, record: default_scheduled() },
        )
    }
}

/// How many entries cannot be read.
pub open spec fn unreadable_count(entries: Seq<SwapEntry>) -> nat
    decreases entries.len(),
{
    if entries.len() == 0 {
        0
    } else {
        unreadable_count(entries.drop_last()) + if entries.last().record
            == SwapRecord::Unreadable {
            1nat
        } else {
            0nat
        }
    }
}

/// The cost of `reads` reads and `writes` writes, held at the top of its range.
pub open spec fn store_cost(db_weight: DbWeight, reads: nat, writes: nat) -> Weight {
    Weight {
        ref_time: clamp(db_weight.read as int * reads as int + db_weight.write as int * writes as int),
        proof_size: 0,
    }
}

/// Everything but the immunity period and the marks of the guard is the same in both.
pub open spec fn same_but_immunity(pre: Ledger, post: Ledger) -> bool {
    &&& post.slots == pre.slots
    &&& post.stakes == pre.stakes
    &&& post.members == pre.members
    &&& post.bonds == pre.bonds
    &&& post.weights == pre.weights
    &&& post.memberships == pre.memberships
    &&& post.balances == pre.balances
    &&& post.current_block == pre.current_block
    &&& post.owner_cut == pre.owner_cut
    &&& post.subnet_limit == pre.subnet_limit
    &&& post.coldkey_swaps == pre.coldkey_swaps
}

/// Everything but the scheduled key changes and the marks of the guard is the same in both.
pub open spec fn same_but_swaps(pre: Ledger, post: Ledger) -> bool {
    &&& post.slots == pre.slots
    &&& post.stakes == pre.stakes
    &&& post.members == pre.members
    &&& post.bonds == pre.bonds
    &&& post.weights == pre.weights
    &&& post.memberships == pre.memberships
    &&& post.balances == pre.balances
    &&& post.current_block == pre.current_block
    &&& post.immunity_period == pre.immunity_period
    &&& post.owner_cut == pre.owner_cut
    &&& post.subnet_limit == pre.subnet_limit
}

/// The guard of `post` holds the marks of `pre` and the mark of `name`, and no other.
pub open spec fn marked(pre: Ledger, post: Ledger, name: Seq<u8>) -> bool {
    &&& post.migrations.ran(name)
    &&& forall|other: Seq<u8>| pre.migrations.ran(other) ==> post.migrations.ran(other)
    &&& forall|other: Seq<u8>| post.migrations.ran(other) ==> pre.migrations.ran(other) || other == name
}

/// Sets the immunity period to 864000 blocks, once.
///
/// Returns the cost: one read where the migration has run before, and one
/// read and two writes where it runs now.
pub fn migrate_network_immunity_period(ledger: &mut Ledger, db_weight: DbWeight) -> (weight: Weight)
    ensures
        old(ledger).migrations.ran(immunity_migration_name()) ==> *final(ledger) == *old(ledger)
            && weight == store_cost(db_weight, 1, 0),
        !old(ledger).migrations.ran(immunity_migration_name()) ==> {
            &&& final(ledger).immunity_period == MIGRATED_IMMUNITY_PERIOD
            &&& same_but_immunity(*old(ledger), *final(ledger))
            &&& marked(*old(ledger), *final(ledger), immunity_migration_name())
            &&& weight == store_cost(db_weight, 1, 2)
        },
{
    let name: &[u8] = "migrate_network_immunity_period".as_bytes();
    proof {
        assert(db_weight.read as int * 1 == db_weight.read as int);
        assert(db_weight.write as int * 1 == db_weight.write as int);
        assert(db_weight.write as int * 0 == 0);
        assert(db_weight.write as int * 2 == db_weight.write as int + db_weight.write as int);
    }
    let mut weight: Weight = db_reads(db_weight, 1);
    if ledger.migrations.has_run(name) {
        return weight;
    }
    ledger.immunity_period = MIGRATED_IMMUNITY_PERIOD;
    weight = weight_saturating_add(weight, db_writes(db_weight, 1));
    ledger.migrations.mark_run(name);
    weight = weight_saturating_add(weight, db_writes(db_weight, 1));
    weight
}

/// Brings the scheduled key changes into the present format, once.
///
/// An entry that cannot be read in the earlier format is removed. Every other
/// entry is rewritten with the default value: no block and no key.
///
/// Returns the cost: one read where the migration has run before; where it
/// runs now, one read for the guard and one for each entry, and one write for
/// each entry that is removed and one for the mark.
pub fn migrate_coldkey_swap_scheduled(ledger: &mut Ledger, db_weight: DbWeight) -> (weight: Weight)
    ensures
        old(ledger).migrations.ran(coldkey_swap_migration_name()) ==> *final(ledger) == *old(ledger)
            && weight == store_cost(db_weight, 1, 0),
        !old(ledger).migrations.ran(coldkey_swap_migration_name()) ==> {
            &&& final(ledger).coldkey_swaps@ == migrated_swaps(old(ledger).coldkey_swaps@)
            &&& same_but_swaps(*old(ledger), *final(ledger))
            &&& marked(*old(ledger), *final(ledger), coldkey_swap_migration_name())
            &&& weight == store_cost(
                db_weight,
                1 + old(ledger).coldkey_swaps@.len(),
                1 + unreadable_count(old(ledger).coldkey_swaps@),
            )
        },
{
    let name: &[u8] = "migrate_coldkey_swap_scheduled".as_bytes();
    let ghost read: int = db_weight.read as int;
    let ghost write: int = db_weight.write as int;
    proof {
        assert(read * 1 == read);
        assert(write * 1 == write);
        assert(write * 0 == 0);
    }
    let mut weight: Weight = db_reads(db_weight, 1);
    if ledger.migrations.has_run(name) {
        return weight;
    }
    let mut migrated: Vec<SwapEntry> = Vec::new();
    let mut i: usize = 0;
    while i < ledger.coldkey_swaps.len()
        invariant
            *ledger == *old(ledger),
            i <= ledger.coldkey_swaps@.len(),
            read == db_weight.read as int,
            write == db_weight.write as int,
            migrated@ == migrated_swaps(ledger.coldkey_swaps@.take(i as int)),
            weight == store_cost(
                db_weight,
                1 + i as nat,
                unreadable_count(ledger.coldkey_swaps@.take(i as int)),
            ),
        decreases ledger.coldkey_swaps.len() - i,
    {
        let ghost seen = ledger.coldkey_swaps@.take(i as int);
        let ghost unreadable: int = unreadable_count(seen) as int;
        proof {
            assert(ledger.coldkey_swaps@.take(i + 1).drop_last() =~= seen);
            assert(read * (1 + i) + read == read * (1 + (i + 1))) by (nonlinear_arith);
            assert(write * unreadable + write == write * (unreadable + 1)) by (nonlinear_arith);
            assert(0 <= read * (1 + i)) by (nonlinear_arith)
                requires
                    0 <= read,
                    0 <= i,
            ;
            assert(0 <= write * unreadable) by (nonlinear_arith)
                requires
                    0 <= write,
                    0 <= unreadable,
            ;
        }
        let entry: SwapEntry = ledger.coldkey_swaps[i];
        weight_saturating_accrue(&mut weight, db_reads(db_weight, 1));
        match entry.record {
            SwapRecord::Unreadable => {
                weight_saturating_accrue(&mut weight, db_writes(db_weight, 1));
            },
            _ => {
                migrated.push(
                    SwapEntry {
                        coldkey: entry.coldkey,
                        record: SwapRecord::Scheduled { when: 0, new_coldkey: 0 },
                    },
                );
            },
        }
        i = i + 1;
    }
    proof {
        assert(ledger.coldkey_swaps@.take(ledger.coldkey_swaps@.len() as int)
            =~= ledger.coldkey_swaps@);
        let n: int = ledger.coldkey_swaps@.len() as int;
        let unreadable: int = unreadable_count(ledger.coldkey_swaps@) as int;
        assert(write * unreadable + write == write * (1 + unreadable)) by (nonlinear_arith);
        assert(0 <= read * (1 + n)) by (nonlinear_arith)
            requires
                0 <= read,
                0 <= n,
        ;
        assert(0 <= write * unreadable) by (nonlinear_arith)
            requires
                0 <= write,
                0 <= unreadable,
        ;
    }
    ledger.coldkey_swaps = migrated;
    ledger.migrations.mark_run(name);
    weight = weight_saturating_add(weight, db_writes(db_weight, 1));
    weight
}

} // verus!
