//! Unsigned fixed-point numbers with 32 fractional bits in a 128-bit word.

use vstd::prelude::*;

verus! {

/// The weight of the lowest integer bit: `2^32`.
pub const FIXED_ONE: u128 = 4294967296u128;

/// An unsigned fixed-point number: `bits / 2^32`.
#[derive(Clone, Copy, Debug, PartialEq, Eq, Structural)]
pub struct Fixed {
    pub bits: u128,
}

/// `floor(amount * ratio)`, clamped to the range of `u64`.
pub open spec fn scale_floor(amount: u64, ratio_bits: u128) -> int {
    let exact: int = (amount as int * ratio_bits as int) / (FIXED_ONE as int);
    if exact > u64::MAX as int {
        u64::MAX as int
    } else {
        exact
    }
}

impl Fixed {
    /// The number whose raw representation is `bits`.
    pub fn from_bits(bits: u128) -> (r: Fixed)
        ensures
            r.bits == bits,
    {
        Fixed { bits }
    }

    /// The integer `n` as a fixed-point number.
    pub fn from_int(n: u64) -> (r: Fixed)
        ensures
            r.bits == n as int * FIXED_ONE as int,
    {
        assert(n as int * 4294967296 <= u128::MAX as int) by (nonlinear_arith)
            requires
                n as int <= 0xffff_ffff_ffff_ffff,
        ;
        Fixed { bits: (n as u128) * FIXED_ONE }
    }

    /// The quotient `num / den`, rounded down to the nearest multiple of `2^-32`.
    pub fn from_ratio(num: u64, den: u64) -> (r: Fixed)
        requires
            den > 0,
        ensures
            r.bits == (num as int * FIXED_ONE as int) / (den as int),
    {
        assert(num as int * 4294967296 <= u128::MAX as int) by (nonlinear_arith)
            requires
                num as int <= 0xffff_ffff_ffff_ffff,
        ;
        Fixed { bits: ((num as u128) * FIXED_ONE) / (den as u128) }
    }

    /// The raw representation.
    pub fn to_bits(&self) -> (bits: u128)
        ensures
            bits == self.bits,
    {
        self.bits
    }

    /// `floor(amount * self)`, clamped to the range of `u64`.
    pub fn scale(&self, amount: u64) -> (r: u64)
        ensures
            r as int == scale_floor(amount, self.bits),
    {
        match (amount as u128).checked_mul(self.bits) {
            Some(product) => {
                let whole: u128 = product / FIXED_ONE;
                if whole > u64::MAX as u128 {
                    u64::MAX
                } else {
                    whole as u64
                }
            },
            None => {
                proof {
                    let p: int = amount as int * self.bits as int;
                    assert(p > u128::MAX as int);
                    assert(p / 4294967296 > u64::MAX as int);
                }
                u64::MAX
            },
        }
    }
}

} // verus!
