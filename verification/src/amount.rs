//! Fixed-width 256-bit unsigned integers and the wide (512-bit) helpers
//! that amount arithmetic needs.
//!
//! An `Amount` is two 128-bit limbs; its mathematical value is
//! `hi * 2^128 + lo`. All operations carry exact contracts over that value:
//! checked operations return `None` exactly on overflow (or division by
//! zero), and division is floor division.

use vstd::prelude::*;

verus! {

/// 2^128, the weight of the high limb of an `Amount`.
pub open spec fn pow128() -> nat {
    0x1_0000_0000_0000_0000_0000_0000_0000_0000nat
}

/// 2^256, the modulus of `Amount` arithmetic.
pub open spec fn pow256() -> nat {
    pow128() * pow128()
}

/// 2^512, the modulus of `Wide` arithmetic.
pub open spec fn pow512() -> nat {
    pow256() * pow256()
}

/// A 256-bit unsigned integer: `hi * 2^128 + lo`.
#[derive(Clone, Copy, PartialEq, Eq, Structural, Debug)]
pub struct Amount {
    pub lo: u128,
    pub hi: u128,
}

impl View for Amount {
    type V = nat;

    open spec fn view(&self) -> nat {
        (self.hi * pow128() + self.lo) as nat
    }
}

impl Amount {
    /// The zero amount.
    pub fn zero() -> (r: Amount)
        ensures
            r@ == 0,
    {
        Amount { lo: 0, hi: 0 }
    }

    /// Embeds a 128-bit value.
    pub fn from_u128(x: u128) -> (r: Amount)
        ensures
            r@ == x,
    {
        Amount { lo: x, hi: 0 }
    }

    /// The largest representable amount, 2^256 - 1.
    pub fn max_value() -> (r: Amount)
        ensures
            r@ == pow256() - 1,
    {
        Amount { lo: u128::MAX, hi: u128::MAX }
    }

    /// True exactly when the value is zero.
    pub fn is_zero(&self) -> (r: bool)
        ensures
            r == (self@ == 0),
    {
        self.lo == 0 && self.hi == 0
    }

    /// The value as a u128 when it fits, else `None`.
    pub fn to_u128(&self) -> (r: Option<u128>)
        ensures
            match r {
                Some(x) => x == self@,
                None => self@ >= pow128(),
            },
    {
        if self.hi == 0 {
            Some(self.lo)
        } else {
            None
        }
    }

    /// Strict comparison of values.
    pub fn lt(&self, other: &Amount) -> (r: bool)
        ensures
            r == (self@ < other@),
    {
        self.hi < other.hi || (self.hi == other.hi && self.lo < other.lo)
    }

    /// Non-strict comparison of values.
    pub fn le(&self, other: &Amount) -> (r: bool)
        ensures
            r == (self@ <= other@),
    {
        self.hi < other.hi || (self.hi == other.hi && self.lo <= other.lo)
    }

    /// Checked addition: `None` exactly when the sum does not fit 256 bits.
    pub fn checked_add(&self, other: &Amount) -> (r: Option<Amount>)
        ensures
            match r {
                Some(s) => s@ == self@ + other@,
                None => self@ + other@ >= pow256(),
            },
    {
        let (lo, carry): (u128, u128) = if self.lo <= u128::MAX - other.lo {
            (self.lo + other.lo, 0)
        } else {
            ((self.lo - (u128::MAX - other.lo)) - 1, 1)
        };
        if self.hi <= u128::MAX - other.hi {
            let t = self.hi + other.hi;
            if carry == 1 && t == u128::MAX {
                None
            } else {
                proof {
                    assert((t + carry) * pow128() == t * pow128() + carry * pow128())
                        by (nonlinear_arith);
                    assert(t * pow128() == self.hi * pow128() + other.hi * pow128())
                        by (nonlinear_arith)
                        requires
                            t == self.hi + other.hi,
                    ;
                }
                Some(Amount { lo, hi: t + carry })
            }
        } else {
            None
        }
    }

    /// Checked subtraction: `None` exactly when `other` exceeds `self`.
    pub fn checked_sub(&self, other: &Amount) -> (r: Option<Amount>)
        ensures
            match r {
                Some(s) => s@ == self@ - other@,
                None => self@ < other@,
            },
    {
        let (lo, borrow): (u128, u128) = if self.lo >= other.lo {
            (self.lo - other.lo, 0)
        } else {
            (((u128::MAX - other.lo) + self.lo) + 1, 1)
        };
        if self.hi >= other.hi {
            let t = self.hi - other.hi;
            if borrow == 1 && t == 0 {
                None
            } else {
                Some(Amount { lo, hi: t - borrow })
            }
        } else {
            None
        }
    }

    /// Subtraction under a proof that it cannot underflow.
    pub fn sub_exact(&self, other: &Amount) -> (r: Amount)
        requires
            other@ <= self@,
        ensures
            r@ == self@ - other@,
    {
        self.checked_sub(other).unwrap()
    }

    /// Doubles the value modulo 2^256; the flag reports the bit shifted out.
    pub fn double(&self) -> (r: (Amount, bool))
        ensures
            r.0@ + (if r.1 { pow256() } else { 0nat }) == 2 * self@,
    {
        let half: u128 = 0x8000_0000_0000_0000_0000_0000_0000_0000;
        let (lo, c_lo): (u128, u128) = if self.lo >= half {
            ((self.lo - half) * 2, 1)
        } else {
            (self.lo * 2, 0)
        };
        let (hi_d, c_hi): (u128, bool) = if self.hi >= half {
            ((self.hi - half) * 2, true)
        } else {
            (self.hi * 2, false)
        };
        proof {
            assert((hi_d + c_lo) * pow128() == hi_d * pow128() + c_lo * pow128())
                by (nonlinear_arith);
            assert(self.hi >= half ==> (self.hi - half) * 2 == 2 * self.hi - pow128())
                by (nonlinear_arith)
                requires
                    half == 0x8000_0000_0000_0000_0000_0000_0000_0000u128,
            ;
            assert(2 * (self.hi * pow128()) == (2 * self.hi) * pow128()) by (nonlinear_arith);
            assert((2 * self.hi - pow128()) * pow128() == 2 * (self.hi * pow128()) - pow256())
                by (nonlinear_arith);
        }
        (Amount { lo, hi: hi_d + c_lo }, c_hi)
    }

    /// Addition modulo 2^256 with carry in and carry out.
    pub fn add_with_carry(&self, other: &Amount, carry_in: bool) -> (r: (Amount, bool))
        ensures
            r.0@ + (if r.1 { pow256() } else { 0nat }) == self@ + other@ + (if carry_in {
                1nat
            } else {
                0nat
            }),
    {
        let cin: u128 = if carry_in { 1 } else { 0 };
        let (lo1, c1): (u128, u128) = if self.lo <= u128::MAX - other.lo {
            (self.lo + other.lo, 0)
        } else {
            ((self.lo - (u128::MAX - other.lo)) - 1, 1)
        };
        let (lo2, c2): (u128, u128) = if lo1 <= u128::MAX - cin {
            (lo1 + cin, 0)
        } else {
            (0, 1)
        };
        let c_lo = c1 + c2;
        let (hi1, d1): (u128, u128) = if self.hi <= u128::MAX - other.hi {
            (self.hi + other.hi, 0)
        } else {
            ((self.hi - (u128::MAX - other.hi)) - 1, 1)
        };
        let (hi2, d2): (u128, u128) = if hi1 <= u128::MAX - c_lo {
            (hi1 + c_lo, 0)
        } else {
            ((c_lo - (u128::MAX - hi1)) - 1, 1)
        };
        let r = Amount { lo: lo2, hi: hi2 };
        let carry_out = d1 + d2 == 1;
        proof {
            assert(hi2 * pow128() + (if d1 + d2 == 1 { pow256() } else { 0nat }) == self.hi
                * pow128() + other.hi * pow128() + c_lo * pow128()) by (nonlinear_arith)
                requires
                    hi2 + (d1 + d2) * 0x1_0000_0000_0000_0000_0000_0000_0000_0000 == self.hi
                        + other.hi + c_lo,
                    d1 + d2 == 0 || d1 + d2 == 1,
                    pow128() == 0x1_0000_0000_0000_0000_0000_0000_0000_0000,
                    pow256() == pow128() * pow128(),
            ;
            assert(lo2 + c_lo * pow128() == self.lo + other.lo + cin) by (nonlinear_arith)
                requires
                    c_lo == c1 + c2,
                    lo2 + c2 * 0x1_0000_0000_0000_0000_0000_0000_0000_0000 == lo1 + cin,
                    lo1 + c1 * 0x1_0000_0000_0000_0000_0000_0000_0000_0000 == self.lo + other.lo,
                    pow128() == 0x1_0000_0000_0000_0000_0000_0000_0000_0000,
            ;
        }
        (r, carry_out)
    }

    /// Subtraction modulo 2^256 with borrow in and borrow out.
    pub fn sub_with_borrow(&self, other: &Amount, borrow_in: bool) -> (r: (Amount, bool))
        ensures
            r.0@ == self@ - other@ - (if borrow_in { 1nat } else { 0nat }) + (if r.1 {
                pow256()
            } else {
                0nat
            }),
    {
        let bin: u128 = if borrow_in { 1 } else { 0 };
        let (lo1, b1): (u128, u128) = if self.lo >= other.lo {
            (self.lo - other.lo, 0)
        } else {
            ((((u128::MAX - other.lo) + self.lo) + 1), 1)
        };
        let (lo2, b2): (u128, u128) = if lo1 >= bin {
            (lo1 - bin, 0)
        } else {
            (u128::MAX, 1)
        };
        let b_lo = b1 + b2;
        let (hi1, e1): (u128, u128) = if self.hi >= other.hi {
            (self.hi - other.hi, 0)
        } else {
            ((((u128::MAX - other.hi) + self.hi) + 1), 1)
        };
        let (hi2, e2): (u128, u128) = if hi1 >= b_lo {
            (hi1 - b_lo, 0)
        } else {
            ((((u128::MAX - b_lo) + hi1) + 1), 1)
        };
        let r = Amount { lo: lo2, hi: hi2 };
        let borrow_out = e1 + e2 == 1;
        proof {
            assert(hi2 * pow128() == self.hi * pow128() - other.hi * pow128() - b_lo * pow128() + (
            if e1 + e2 == 1 {
                pow256()
            } else {
                0nat
            })) by (nonlinear_arith)
                requires
                    hi2 == self.hi - other.hi - b_lo + (e1 + e2)
                        * 0x1_0000_0000_0000_0000_0000_0000_0000_0000,
                    e1 + e2 == 0 || e1 + e2 == 1,
                    pow128() == 0x1_0000_0000_0000_0000_0000_0000_0000_0000,
                    pow256() == pow128() * pow128(),
            ;
            assert(lo2 - b_lo * pow128() == self.lo - other.lo - bin) by (nonlinear_arith)
                requires
                    b_lo == b1 + b2,
                    lo2 == lo1 - bin + b2 * 0x1_0000_0000_0000_0000_0000_0000_0000_0000,
                    lo1 == self.lo - other.lo + b1 * 0x1_0000_0000_0000_0000_0000_0000_0000_0000,
                    pow128() == 0x1_0000_0000_0000_0000_0000_0000_0000_0000,
            ;
        }
        (r, borrow_out)
    }

    /// Floor half of the value.
    pub fn half(&self) -> (r: Amount)
        ensures
            r@ == self@ / 2,
    {
        let half: u128 = 0x8000_0000_0000_0000_0000_0000_0000_0000;
        let lo = self.lo / 2 + if self.hi % 2 == 1 { half } else { 0 };
        let r = Amount { lo, hi: self.hi / 2 };
        proof {
            assert(r@ == self@ / 2) by {
                assert(self.hi * pow128() + self.lo == (self.hi / 2 * 2 + self.hi % 2) * pow128()
                    + (self.lo / 2 * 2 + self.lo % 2)) by {
                    assert(self.hi == self.hi / 2 * 2 + self.hi % 2);
                    assert(self.lo == self.lo / 2 * 2 + self.lo % 2);
                };
            };
        }
        r
    }
}

} // verus!
