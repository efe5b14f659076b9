//! The cost of an operation on the store, as the host runtime meters it.
//!
//! The arithmetic is that of the host: every sum and product is made by
//! `frame_support`, so that a cost computed here is the cost that the runtime
//! would have computed. The contracts state what its functions return.

use vstd::prelude::*;

verus! {

/// A cost in two dimensions: time of computation and size of proof.
#[derive(Clone, Copy, Debug, PartialEq, Eq, Structural)]
pub struct Weight {
    pub ref_time: u64,
    pub proof_size: u64,
}

/// What one read and one write of the store cost in time.
#[derive(Clone, Copy, Debug, PartialEq, Eq, Structural)]
pub struct DbWeight {
    pub read: u64,
    pub write: u64,
}

/// `x`, held within the range of `u64`.
pub open spec fn clamp(x: int) -> u64 {
    if x > u64::MAX as int {
        u64::MAX
    } else if x < 0 {
        0
    } else {
        x as u64
    }
}

impl Weight {
    /// The sum of two costs, each part held at the top of its range.
    pub open spec fn plus(self, other: Weight) -> Weight {
        Weight {
            ref_time: clamp(self.ref_time + other.ref_time),
            proof_size: clamp(self.proof_size + other.proof_size),
        }
    }

    /// Whether there is no cost in either part.
    pub fn is_zero(&self) -> (r: bool)
        ensures
            r == (self.ref_time == 0 && self.proof_size == 0),
    {
        self.ref_time == 0 && self.proof_size == 0
    }
}

impl DbWeight {
    /// The cost of `n` reads: time only, held at the top of its range.
    pub open spec fn reads_cost(self, n: u64) -> Weight {
        Weight { ref_time: clamp(self.read as int * n as int), proof_size: 0 }
    }

    /// The cost of `n` writes: time only, held at the top of its range.
    pub open spec fn writes_cost(self, n: u64) -> Weight {
        Weight { ref_time: clamp(self.write as int * n as int), proof_size: 0 }
    }
}

/// `frame_support::weights::RuntimeDbWeight::reads`: the cost of `n` reads.
/// Believed of it, not proved: the time is the cost of one read times `n`,
/// saturating, and the proof size is zero.
#[verifier::external_body]
pub(crate) fn db_reads(db_weight: DbWeight, n: u64) -> (r: Weight)
    ensures
        r == db_weight.reads_cost(n),
{
    let host = frame_support::weights::RuntimeDbWeight {
        read: db_weight.read,
        write: db_weight.write,
    };
    let cost = host.reads(n);
    Weight { ref_time: cost.ref_time(), proof_size: cost.proof_size() }
}

/// `frame_support::weights::RuntimeDbWeight::writes`: the cost of `n` writes.
/// Believed of it, not proved: the time is the cost of one write times `n`,
/// saturating, and the proof size is zero.
#[verifier::external_body]
pub(crate) fn db_writes(db_weight: DbWeight, n: u64) -> (r: Weight)
    ensures
        r == db_weight.writes_cost(n),
{
    let host = frame_support::weights::RuntimeDbWeight {
        read: db_weight.read,
        write: db_weight.write,
    };
    let cost = host.writes(n);
    Weight { ref_time: cost.ref_time(), proof_size: cost.proof_size() }
}

/// `frame_support::weights::Weight::saturating_add`: the sum of two costs.
/// Believed of it, not proved: each part is the sum of the two parts,
/// saturating.
#[verifier::external_body]
pub(crate) fn weight_saturating_add(a: Weight, b: Weight) -> (r: Weight)
    ensures
        r == a.plus(b),
{
    let left = frame_support::weights::Weight::from_parts(a.ref_time, a.proof_size);
    let right = frame_support::weights::Weight::from_parts(b.ref_time, b.proof_size);
    let total = left.saturating_add(right);
    Weight { ref_time: total.ref_time(), proof_size: total.proof_size() }
}

/// `frame_support::weights::Weight::saturating_accrue`: adds `amount` to `total`.
/// Believed of it, not proved: each part of `total` grows by the part of
/// `amount`, saturating.
#[verifier::external_body]
pub(crate) fn weight_saturating_accrue(total: &mut Weight, amount: Weight)
    ensures
        *final(total) == old(total).plus(amount),
{
    let mut host = frame_support::weights::Weight::from_parts(total.ref_time, total.proof_size);
    host.saturating_accrue(frame_support::weights::Weight::from_parts(
        amount.ref_time,
        amount.proof_size,
    ));
    total.ref_time = host.ref_time();
    total.proof_size = host.proof_size();
}

} // verus!
