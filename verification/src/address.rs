//! 20-byte account and token addresses, held as 160 bits of plain integers
//! so that equality is structural in both executable and specification code.

use vstd::prelude::*;

verus! {

/// A 20-byte address: 160 bits split into a low 128-bit part and a high
/// 32-bit part.
#[derive(Clone, Copy, PartialEq, Eq, Structural, Debug, Hash)]
pub struct Address {
    pub hi: u32,
    pub lo: u128,
}

impl Address {
    /// The all-zero address.
    pub fn zero() -> (r: Address)
        ensures
            r.hi == 0,
            r.lo == 0,
    {
        Address { hi: 0, lo: 0 }
    }

    /// An address whose lowest eight bytes (big-endian) hold `v` and whose
    /// remaining bytes are zero.
    pub fn from_low_u64_be(v: u64) -> (r: Address)
        ensures
            r.hi == 0,
            r.lo == v,
    {
        Address { hi: 0, lo: v as u128 }
    }
}

} // verus!
