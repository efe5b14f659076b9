//! What a network's owner gets back of the lock when the network is dissolved.
//!
//! The owner has been paid a cut of every emission while the network ran.
//! The value of that cut, at the current price, is taken off the lock; the
//! rest of the lock is returned. The refund is never negative and never more
//! than the lock.

use crate::fixed::{scale_floor, Fixed, FIXED_ONE};
use crate::sums::{lemma_sum_take_all, lemma_sum_take_next, sum};
use vstd::prelude::*;

verus! {

/// The denominator of the owner's cut: a cut of `OWNER_CUT_DENOMINATOR` is everything.
pub const OWNER_CUT_DENOMINATOR: u16 = 65535u16;

/// The raw fixed-point representation of the cut `owner_cut / 65535`.
pub open spec fn owner_cut_bits(owner_cut: u16) -> int {
    (owner_cut as int * FIXED_ONE as int) / (OWNER_CUT_DENOMINATOR as int)
}

/// The owner's part of the emitted amount: `floor(emitted * cut)`.
pub open spec fn owner_alpha(emitted: u64, owner_cut: u16) -> int {
    (emitted as int * owner_cut_bits(owner_cut)) / (FIXED_ONE as int)
}

/// The value of the owner's part at `price`: `floor(owner_alpha * price)`, clamped to `u64`.
pub open spec fn owner_value(emitted: u64, owner_cut: u16, price: Fixed) -> int
    recommends
        0 <= owner_alpha(emitted, owner_cut) <= u64::MAX,
{
    scale_floor(owner_alpha(emitted, owner_cut) as u64, price.bits)
}

/// The refund: the lock less the value already paid out, and zero where that value exceeds the lock.
pub open spec fn refund_of(lock: u64, emitted: u64, owner_cut: u16, price: Fixed) -> int {
    let paid: int = owner_value(emitted, owner_cut, price);
    if paid >= lock as int {
        0
    } else {
        lock as int - paid
    }
}

/// The total of an emission record, clamped to the range of `u64`.
pub open spec fn emission_total(record: Seq<u64>) -> int {
    if sum(record) > u64::MAX as nat {
        u64::MAX as int
    } else {
        sum(record) as int
    }
}

/// The cut is a fraction of one, so the owner's part is within the emitted amount.
pub proof fn lemma_owner_alpha_bounds(emitted: u64, owner_cut: u16)
    ensures
        0 <= owner_cut_bits(owner_cut) <= FIXED_ONE as int,
        0 <= owner_alpha(emitted, owner_cut) <= emitted as int,
{
    let c: int = owner_cut as int;
    let f: int = owner_cut_bits(owner_cut);
    let e: int = emitted as int;
    assert(0 <= c * 4294967296 <= 65535 * 4294967296) by (nonlinear_arith)
        requires
            0 <= c <= 65535,
    ;
    assert(0 <= f <= 4294967296);
    assert(0 <= e * f <= e * 4294967296) by (nonlinear_arith)
        requires
            0 <= e,
            0 <= f <= 4294967296,
    ;
    assert((e * 4294967296) / 4294967296 == e) by (nonlinear_arith);
    assert((e * f) / 4294967296 <= (e * 4294967296) / 4294967296) by (nonlinear_arith)
        requires
            0 <= e * f <= e * 4294967296,
    ;
    assert(0 <= (e * f) / 4294967296) by (nonlinear_arith)
        requires
            0 <= e * f,
    ;
}

/// The refund is never negative and never more than the lock, whatever the
/// emitted amount, the cut and the price.
pub proof fn lemma_refund_within_lock(lock: u64, emitted: u64, owner_cut: u16, price: Fixed)
    ensures
        0 <= refund_of(lock, emitted, owner_cut, price) <= lock as int,
{
    lemma_owner_alpha_bounds(emitted, owner_cut);
    let a: int = owner_alpha(emitted, owner_cut);
    let p: int = price.bits as int;
    assert(0 <= (a * p) / 4294967296) by (nonlinear_arith)
        requires
            0 <= a,
            0 <= p,
    ;
}

/// Without emission nothing has been paid out, and the whole lock is returned.
pub proof fn lemma_refund_full_without_emission(lock: u64, owner_cut: u16, price: Fixed)
    ensures
        refund_of(lock, 0, owner_cut, price) == lock as int,
{
    let f: int = owner_cut_bits(owner_cut);
    assert(0 * f == 0);
    assert(0int / 4294967296 == 0);
    assert(owner_alpha(0, owner_cut) == 0);
    assert(0 * (price.bits as int) == 0);
}

/// The owner's cut `owner_cut / 65535` as a fixed-point number.
pub fn owner_cut_fraction(owner_cut: u16) -> (r: Fixed)
    ensures
        r.bits as int == owner_cut_bits(owner_cut),
{
    Fixed::from_ratio(owner_cut as u64, OWNER_CUT_DENOMINATOR as u64)
}

/// The total of an emission record. The sum saturates at the top of `u64`.
pub fn total_emission(record: &Vec<u64>) -> (total: u64)
    ensures
        total as int == emission_total(record@),
{
    let mut total: u64 = 0;
    let mut i: usize = 0;
    while i < record.len()
        invariant
            0 <= i <= record.len(),
            total as int == emission_total(record@.take(i as int)),
        decreases record.len() - i,
    {
        proof {
            lemma_sum_take_next(record@, i as int);
        }
        total = total.saturating_add(record[i]);
        i = i + 1;
    }
    proof {
        lemma_sum_take_all(record@);
    }
    total
}

/// The part of `lock` that is returned to the owner of a network on which
/// `emitted` has been emitted in all, at the owner's cut `owner_cut / 65535`
/// and the current `price` of the network's currency.
pub fn owner_refund(lock: u64, emitted: u64, owner_cut: u16, price: Fixed) -> (refund: u64)
    ensures
        refund as int == refund_of(lock, emitted, owner_cut, price),
        refund <= lock,
{
    let fraction: Fixed = owner_cut_fraction(owner_cut);
    proof {
        lemma_owner_alpha_bounds(emitted, owner_cut);
    }
    let owner_part: u64 = fraction.scale(emitted);
    let paid: u64 = price.scale(owner_part);
    lock.saturating_sub(paid)
}

} // verus!
