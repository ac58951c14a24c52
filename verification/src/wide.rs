//! 512-bit helpers: exact products of two 256-bit amounts, wide division,
//! and the fused multiply-divide used for ratio arithmetic.
//!
//! A `Wide` is two `Amount` limbs; its value is `hi * 2^256 + lo`. These
//! helpers let every ratio in the solver be computed exactly, with no
//! intermediate overflow.

use vstd::prelude::*;
use vstd::arithmetic::power2::{pow2, lemma_pow2_adds, lemma2_to64};
use vstd::arithmetic::div_mod::lemma_fundamental_div_mod_converse;
use crate::amount::{Amount, pow128, pow256, pow512};

verus! {

/// A 512-bit unsigned integer: `hi * 2^256 + lo`.
#[derive(Clone, Copy, PartialEq, Eq, Structural, Debug)]
pub struct Wide {
    pub lo: Amount,
    pub hi: Amount,
}

impl View for Wide {
    type V = nat;

    open spec fn view(&self) -> nat {
        (self.hi@ * pow256() + self.lo@) as nat
    }
}

impl Wide {
    /// The zero value.
    pub fn zero() -> (r: Wide)
        ensures
            r@ == 0,
    {
        let z = Amount::zero();
        proof {
            lemma_zero_times(pow256());
        }
        Wide { lo: z, hi: z }
    }

    /// Embeds a 256-bit amount.
    pub fn from_amount(a: &Amount) -> (r: Wide)
        ensures
            r@ == a@,
    {
        proof {
            lemma_zero_times(pow256());
        }
        Wide { lo: *a, hi: Amount::zero() }
    }

    /// True exactly when the value fits in 256 bits.
    pub fn fits_amount(&self) -> (r: bool)
        ensures
            r == (self@ < pow256()),
    {
        proof {
            if self.hi@ != 0 {
                assert(self.hi@ * pow256() >= pow256()) by (nonlinear_arith)
                    requires
                        self.hi@ >= 1,
                        pow256() > 0,
                ;
            }
        }
        self.hi.is_zero()
    }

    /// Non-strict comparison of values.
    pub fn le(&self, other: &Wide) -> (r: bool)
        ensures
            r == (self@ <= other@),
    {
        proof {
            lemma_amount_bound(self.lo);
            lemma_amount_bound(other.lo);
            lemma_limbs_le(self.hi@, self.lo@, other.hi@, other.lo@);
        }
        self.hi.lt(&other.hi) || (self.hi == other.hi && self.lo.le(&other.lo))
    }

    /// Strict comparison of values.
    pub fn lt(&self, other: &Wide) -> (r: bool)
        ensures
            r == (self@ < other@),
    {
        let le = other.le(self);
        !le
    }

    /// Addition modulo 2^512 with carry in and carry out.
    pub fn add_with_carry(&self, other: &Wide, carry_in: bool) -> (r: (Wide, bool))
        ensures
            r.0@ + (if r.1 { pow512() } else { 0nat }) == self@ + other@ + (if carry_in {
                1nat
            } else {
                0nat
            }),
    {
        let (lo, c_lo) = self.lo.add_with_carry(&other.lo, carry_in);
        let (hi, c_hi) = self.hi.add_with_carry(&other.hi, c_lo);
        proof {
            lemma_limb_linear(
                self.hi@ as int,
                other.hi@ as int,
                hi@ as int,
                if c_lo { 1 } else { 0 },
                if c_hi { 1 } else { 0 },
            );
        }
        (Wide { lo, hi }, c_hi)
    }

    /// Subtraction modulo 2^512; the flag reports a borrow.
    pub fn sub_with_borrow(&self, other: &Wide, borrow_in: bool) -> (r: (Wide, bool))
        ensures
            r.0@ == self@ - other@ - (if borrow_in { 1nat } else { 0nat }) + (if r.1 {
                pow512()
            } else {
                0nat
            }),
    {
        let (lo, b_lo) = self.lo.sub_with_borrow(&other.lo, borrow_in);
        let (hi, b_hi) = self.hi.sub_with_borrow(&other.hi, b_lo);
        proof {
            let blo: int = if b_lo { 1 } else { 0 };
            let bhi: int = if b_hi { 1 } else { 0 };
            assert(hi@ * pow256() == self.hi@ * pow256() - other.hi@ * pow256() - blo * pow256()
                + bhi * (pow256() * pow256())) by (nonlinear_arith)
                requires
                    hi@ == self.hi@ - other.hi@ - blo + bhi * pow256(),
            ;
        }
        (Wide { lo, hi }, b_hi)
    }

    /// Narrows to 256 bits under a proof that the value fits.
    pub fn to_amount(&self) -> (r: Amount)
        requires
            self@ < pow256(),
        ensures
            r@ == self@,
    {
        proof {
            if self.hi@ != 0 {
                assert(self.hi@ * pow256() >= pow256()) by (nonlinear_arith)
                    requires
                        self.hi@ >= 1,
                        pow256() > 0,
                ;
            }
            lemma_zero_times(pow256());
        }
        self.lo
    }

    /// The value as a u128, saturating at the 128-bit limit.
    pub fn to_u128_sat(&self) -> (r: u128)
        ensures
            r == if self@ > u128::MAX { u128::MAX as nat } else { self@ },
    {
        proof {
            if self.hi@ != 0 {
                assert(self.hi@ * pow256() >= pow256()) by (nonlinear_arith)
                    requires
                        self.hi@ >= 1,
                        pow256() > 0,
                ;
            }
            if self.lo.hi != 0 {
                assert(self.lo.hi * pow128() >= pow128()) by (nonlinear_arith)
                    requires
                        self.lo.hi >= 1,
                        pow128() > 0,
                ;
            }
            lemma_zero_times(pow256());
            lemma_zero_times(pow128());
        }
        if self.hi.is_zero() && self.lo.hi == 0 {
            self.lo.lo
        } else {
            u128::MAX
        }
    }

    /// Narrows a value known to be at most some 256-bit bound.
    pub fn to_amount_small(&self, bound: &Amount) -> (r: Amount)
        requires
            self@ <= bound@,
        ensures
            r@ == self@,
    {
        proof {
            lemma_amount_bound(*bound);
        }
        self.to_amount()
    }

    /// Subtraction under a proof that it cannot underflow.
    pub fn sub_exact(&self, other: &Wide) -> (r: Wide)
        requires
            other@ <= self@,
        ensures
            r@ == self@ - other@,
    {
        let (r, b) = self.sub_with_borrow(other, false);
        proof {
            lemma_wide_bound(r);
        }
        r
    }
}

/// Concrete values of the powers of two that the limb proofs revolve around.
pub proof fn pow2_facts()
    ensures
        pow2(0) == 1,
        pow2(128) == pow128(),
        pow2(256) == pow256(),
        pow2(512) == pow512(),
{
    lemma2_to64();
    lemma_pow2_adds(64, 64);
    lemma_pow2_adds(128, 128);
    lemma_pow2_adds(256, 256);
}

/// Cancels a positive common factor from a product inequality.
proof fn lemma_mul_cancel(x: nat, y: nat, c: nat)
    requires
        c > 0,
    ensures
        x * c >= y * c ==> x >= y,
        x * c < y * c ==> x < y,
{
    assert(x * c >= y * c ==> x >= y) by (nonlinear_arith)
        requires
            c > 0,
    ;
    assert(x * c < y * c ==> x < y) by (nonlinear_arith)
        requires
            c > 0,
    ;
}

/// The exact 512-bit product of two 256-bit amounts, by shift and add
/// over the bits of the second factor.
pub fn mul_wide(a: &Amount, b: &Amount) -> (r: Wide)
    ensures
        r@ == a@ * b@,
{
    let mut acc = Wide::zero();
    let mut bcopy: Amount = *b;
    let a_wide = Wide::from_amount(a);
    let ghost mut v: nat = 0;
    let ghost mut rest: nat = b@;
    let mut i: usize = 0;
    proof {
        pow2_facts();
        lemma_amount_bound(*b);
        lemma_zero_times(pow2(256));
        assert(b@ == v * pow2(256) + rest);
        assert(bcopy@ == rest * pow2(0)) by (nonlinear_arith)
            requires
                pow2(0) == 1,
                bcopy@ == rest,
        ;
        lemma_zero_times(a@);
    }
    while i < 256
        invariant
            i <= 256,
            a_wide@ == a@,
            b@ == v * pow2((256 - i) as nat) + rest,
            rest < pow2((256 - i) as nat),
            bcopy@ == rest * pow2(i as nat),
            acc@ == a@ * v,
            v < pow2(i as nat),
        decreases 256 - i,
    {
        let ghost j: nat = (256 - i) as nat;
        let ghost k: nat = i as nat;
        proof {
            pow2_facts();
            vstd::arithmetic::power2::lemma_pow2_unfold(1);
            vstd::arithmetic::power2::lemma_pow2_pos(k);
            vstd::arithmetic::power2::lemma_pow2_pos((j - 1) as nat);
            vstd::arithmetic::power2::lemma_pow2_pos(j);
            lemma_pow2_adds(k, 1);
            lemma_pow2_adds((j - 1) as nat, 1);
            lemma_pow2_adds((j - 1) as nat, (k + 1) as nat);
            lemma_pow2_adds(256, k);
            lemma_pow2_adds((256 + k) as nat, 1);
            lemma_amount_bound(*a);
        }
        let (bc2, top) = bcopy.double();
        let (acc2, ov) = acc.add_with_carry(&acc, false);
        proof {
            let ghost t: nat = if top { 1 } else { 0 };
            // the doubled accumulator stays below 2^512
            assert(a@ * v < pow2(256) * pow2(k)) by (nonlinear_arith)
                requires
                    a@ < pow2(256),
                    v < pow2(k),
                    pow2(256) > 0,
                    pow2(k) > 0,
            ;
            if 257 + k < 512 {
                vstd::arithmetic::power2::lemma_pow2_strictly_increases((257 + k) as nat, 512);
            }
            assert(2 * acc@ < pow2(512));
            assert(!ov);
        }
        let acc3 = if top {
            let (t3, ov2) = acc2.add_with_carry(&a_wide, false);
            proof {
                assert(a@ * (2 * v + 1) < pow2(256) * pow2((k + 1) as nat)) by (nonlinear_arith)
                    requires
                        a@ < pow2(256),
                        2 * v + 1 < pow2((k + 1) as nat),
                        pow2(256) > 0,
                        pow2((k + 1) as nat) > 0,
                ;
                assert(a@ * (2 * v + 1) == 2 * (a@ * v) + a@) by (nonlinear_arith);
                if 256 + k + 1 < 512 {
                    vstd::arithmetic::power2::lemma_pow2_strictly_increases(
                        (256 + k + 1) as nat,
                        512,
                    );
                }
                assert(!ov2);
            }
            t3
        } else {
            acc2
        };
        proof {
            let ghost t: nat = if top { 1 } else { 0 };
            // relate the shifted-out bit to the top bit of `rest`
            assert(bc2@ + t * pow2(256) == rest * pow2((k + 1) as nat)) by (nonlinear_arith)
                requires
                    bc2@ + t * pow2(256) == 2 * (rest * pow2(k)),
                    pow2((k + 1) as nat) == pow2(k) * 2,
            ;
            if top {
                assert(rest * pow2((k + 1) as nat) >= pow2((j - 1) as nat) * pow2((k + 1) as nat)) by {
                    assert(rest * pow2((k + 1) as nat) >= pow2(256));
                    assert(pow2((j - 1) as nat) * pow2((k + 1) as nat) == pow2(256));
                };
                lemma_mul_cancel(rest, pow2((j - 1) as nat), pow2((k + 1) as nat));
                assert(rest >= pow2((j - 1) as nat));
            }
            let ghost rest2: nat = (rest - t * pow2((j - 1) as nat)) as nat;
            assert(bc2@ == rest2 * pow2((k + 1) as nat)) by (nonlinear_arith)
                requires
                    bc2@ + t * pow2(256) == rest * pow2((k + 1) as nat),
                    rest2 == rest - t * pow2((j - 1) as nat),
                    pow2((j - 1) as nat) * pow2((k + 1) as nat) == pow2(256),
            ;
            // rest2 stays below its new bound
            if top {
                assert(rest2 < pow2((j - 1) as nat));
            } else {
                lemma_amount_bound(bc2);
                assert(rest2 * pow2((k + 1) as nat) < pow2((j - 1) as nat) * pow2((k + 1) as nat));
                lemma_mul_cancel(pow2((j - 1) as nat), rest2, pow2((k + 1) as nat));
                assert(rest2 < pow2((j - 1) as nat));
            }
            // the consumed prefix extends by one bit
            assert(b@ == (2 * v + t) * pow2((j - 1) as nat) + rest2) by (nonlinear_arith)
                requires
                    b@ == v * pow2(j) + rest,
                    rest2 == rest - t * pow2((j - 1) as nat),
                    rest >= t * pow2((j - 1) as nat),
                    pow2(j) == pow2((j - 1) as nat) * 2,
            ;
            // the accumulator tracks the product of the consumed prefix
            assert(acc3@ == a@ * (2 * v + t)) by (nonlinear_arith)
                requires
                    acc3@ == 2 * (a@ * v) + t * a@,
                    t == 0 || t == 1,
            ;
            v = 2 * v + t;
            rest = rest2;
        }
        bcopy = bc2;
        acc = acc3;
        i = i + 1;
    }
    proof {
        pow2_facts();
        assert(rest == 0);
        assert(b@ == v * pow2(0) + 0);
        assert(v == b@) by (nonlinear_arith)
            requires
                b@ == v * pow2(0),
                pow2(0) == 1,
        ;
    }
    acc
}

/// Floor division with remainder on 512-bit values, by restoring
/// long division over the bits of the dividend.
pub fn div_wide(n: &Wide, d: &Wide) -> (r: (Wide, Wide))
    requires
        d@ > 0,
    ensures
        r.0@ * d@ + r.1@ == n@,
        r.1@ < d@,
        r.0@ == n@ / d@,
        r.1@ == n@ % d@,
        r.0@ <= n@,
{
    let mut q = Wide::zero();
    let mut rem = Wide::zero();
    let mut ncopy: Wide = *n;
    let ghost mut v: nat = 0;
    let ghost mut rest: nat = n@;
    let mut i: usize = 0;
    proof {
        pow2_facts();
        lemma_wide_bound(*n);
        lemma_zero_times(pow2(512));
        assert(ncopy@ == rest * pow2(0)) by (nonlinear_arith)
            requires
                pow2(0) == 1,
                ncopy@ == rest,
        ;
        lemma_zero_times(d@);
    }
    while i < 512
        invariant
            i <= 512,
            d@ > 0,
            n@ == v * pow2((512 - i) as nat) + rest,
            rest < pow2((512 - i) as nat),
            ncopy@ == rest * pow2(i as nat),
            v == q@ * d@ + rem@,
            rem@ < d@,
            v < pow2(i as nat),
            q@ <= v,
        decreases 512 - i,
    {
        let ghost j: nat = (512 - i) as nat;
        let ghost k: nat = i as nat;
        proof {
            pow2_facts();
            vstd::arithmetic::power2::lemma_pow2_unfold(1);
            vstd::arithmetic::power2::lemma_pow2_pos(k);
            vstd::arithmetic::power2::lemma_pow2_pos((j - 1) as nat);
            vstd::arithmetic::power2::lemma_pow2_pos(j);
            lemma_pow2_adds(k, 1);
            lemma_pow2_adds((j - 1) as nat, 1);
            lemma_pow2_adds((j - 1) as nat, (k + 1) as nat);
            lemma_wide_bound(*d);
            lemma_wide_bound(rem);
        }
        let (nc2, top) = ncopy.add_with_carry(&ncopy, false);
        let (r2, c2) = rem.add_with_carry(&rem, top);
        let (rem2, qbit) = if c2 {
            proof {
                lemma_wide_bound(r2);
            }
            let (t, _b) = r2.sub_with_borrow(d, false);
            proof {
                lemma_wide_bound(t);
            }
            (t, true)
        } else {
            if r2.lt(d) {
                (r2, false)
            } else {
                (r2.sub_exact(d), true)
            }
        };
        let (q2, qov) = q.add_with_carry(&q, qbit);
        proof {
            let ghost t: nat = if top { 1 } else { 0 };
            let ghost qb: nat = if qbit { 1 } else { 0 };
            // the shifted-out bit is the next bit of `rest`
            assert(nc2@ + t * pow2(512) == rest * pow2((k + 1) as nat)) by (nonlinear_arith)
                requires
                    nc2@ + t * pow2(512) == 2 * (rest * pow2(k)),
                    pow2((k + 1) as nat) == pow2(k) * 2,
            ;
            if top {
                assert(rest * pow2((k + 1) as nat) >= pow2((j - 1) as nat) * pow2(
                    (k + 1) as nat,
                )) by {
                    assert(pow2((j - 1) as nat) * pow2((k + 1) as nat) == pow2(512));
                };
                lemma_mul_cancel(rest, pow2((j - 1) as nat), pow2((k + 1) as nat));
            }
            let ghost rest2: nat = (rest - t * pow2((j - 1) as nat)) as nat;
            assert(nc2@ == rest2 * pow2((k + 1) as nat)) by (nonlinear_arith)
                requires
                    nc2@ + t * pow2(512) == rest * pow2((k + 1) as nat),
                    rest2 == rest - t * pow2((j - 1) as nat),
                    pow2((j - 1) as nat) * pow2((k + 1) as nat) == pow2(512),
            ;
            if !top {
                lemma_wide_bound(nc2);
                assert(rest2 * pow2((k + 1) as nat) < pow2((j - 1) as nat) * pow2(
                    (k + 1) as nat,
                ));
                lemma_mul_cancel(pow2((j - 1) as nat), rest2, pow2((k + 1) as nat));
            }
            assert(n@ == (2 * v + t) * pow2((j - 1) as nat) + rest2) by (nonlinear_arith)
                requires
                    n@ == v * pow2(j) + rest,
                    rest2 == rest - t * pow2((j - 1) as nat),
                    rest >= t * pow2((j - 1) as nat),
                    pow2(j) == pow2((j - 1) as nat) * 2,
            ;
            // the quotient-remainder pair tracks the consumed prefix
            assert(2 * v + t == (2 * q@ + qb) * d@ + rem2@) by (nonlinear_arith)
                requires
                    v == q@ * d@ + rem@,
                    rem2@ == 2 * rem@ + t - qb * d@,
                    t == 0 || t == 1,
                    qb == 0 || qb == 1,
            ;
            // no overflow in the doubled quotient
            assert(2 * q@ + qb < pow2(512)) by {
                if k < 511 {
                    vstd::arithmetic::power2::lemma_pow2_strictly_increases(k, 511);
                }
                lemma_pow2_adds(511, 1);
                assert(q@ < pow2(511));
            };
            assert(!qov);
            assert(q2@ == 2 * q@ + qb);
            assert(q2@ <= 2 * v + t) by (nonlinear_arith)
                requires
                    2 * v + t == q2@ * d@ + rem2@,
                    d@ >= 1,
                    rem2@ >= 0,
                    q2@ >= 0,
            ;
            v = 2 * v + t;
            rest = rest2;
        }
        ncopy = nc2;
        rem = rem2;
        q = q2;
        i = i + 1;
    }
    proof {
        pow2_facts();
        assert(rest == 0);
        assert(v == n@) by (nonlinear_arith)
            requires
                n@ == v * pow2(0) + rest,
                rest == 0,
                pow2(0) == 1,
        ;
        lemma_fundamental_div_mod_converse(n@ as int, d@ as int, q@ as int, rem@ as int);
    }
    (q, rem)
}

/// One step of shifting the next bit out of a partially consumed operand:
/// `total` splits as a consumed prefix `v` and a remainder `rest` held
/// shifted left by `k` in `copyv`; doubling shifts out bit `t`.
proof fn lemma_shift_step(
    total: nat,
    v: nat,
    rest: nat,
    copyv: nat,
    newcopy: nat,
    t: nat,
    j: nat,
    k: nat,
    width: nat,
)
    requires
        j + k == width,
        j >= 1,
        total == v * pow2(j) + rest,
        rest < pow2(j),
        copyv == rest * pow2(k),
        newcopy + t * pow2(width) == 2 * copyv,
        newcopy < pow2(width),
        t == 0 || t == 1,
    ensures
        rest >= t * pow2((j - 1) as nat),
        total == (2 * v + t) * pow2((j - 1) as nat) + (rest - t * pow2((j - 1) as nat)),
        newcopy == (rest - t * pow2((j - 1) as nat)) * pow2((k + 1) as nat),
        rest - t * pow2((j - 1) as nat) < pow2((j - 1) as nat),
{
    vstd::arithmetic::power2::lemma_pow2_pos(k);
    vstd::arithmetic::power2::lemma_pow2_pos((j - 1) as nat);
    vstd::arithmetic::power2::lemma_pow2_pos(j);
    lemma2_to64();
    lemma_pow2_adds((j - 1) as nat, 1);
    lemma_pow2_adds(k, 1);
    lemma_pow2_adds((j - 1) as nat, (k + 1) as nat);
    assert(newcopy + t * pow2(width) == rest * pow2((k + 1) as nat)) by (nonlinear_arith)
        requires
            newcopy + t * pow2(width) == 2 * (rest * pow2(k)),
            pow2((k + 1) as nat) == pow2(k) * 2,
    ;
    if t == 1 {
        assert(rest * pow2((k + 1) as nat) >= pow2((j - 1) as nat) * pow2((k + 1) as nat)) by {
            assert(pow2((j - 1) as nat) * pow2((k + 1) as nat) == pow2(width));
        };
        lemma_mul_cancel(rest, pow2((j - 1) as nat), pow2((k + 1) as nat));
    }
    let rest2: nat = (rest - t * pow2((j - 1) as nat)) as nat;
    assert(newcopy == rest2 * pow2((k + 1) as nat)) by (nonlinear_arith)
        requires
            newcopy + t * pow2(width) == rest * pow2((k + 1) as nat),
            rest2 == rest - t * pow2((j - 1) as nat),
            pow2((j - 1) as nat) * pow2((k + 1) as nat) == pow2(width),
    ;
    if t == 0 {
        assert(rest2 * pow2((k + 1) as nat) < pow2((j - 1) as nat) * pow2((k + 1) as nat));
        lemma_mul_cancel(pow2((j - 1) as nat), rest2, pow2((k + 1) as nat));
    }
    assert(total == (2 * v + t) * pow2((j - 1) as nat) + rest2) by (nonlinear_arith)
        requires
            total == v * pow2(j) + rest,
            rest2 == rest - t * pow2((j - 1) as nat),
            rest >= t * pow2((j - 1) as nat),
            pow2(j) == pow2((j - 1) as nat) * 2,
    ;
}

/// The quotient-remainder update when one more bit enters a running
/// division: the doubled remainder plus contribution, reduced `kk` times.
proof fn lemma_quot_step(x: nat, v: nat, t: nat, q: nat, d: nat, rem: nat, rem2: nat, kk: nat)
    requires
        d > 0,
        x * v == q * d + rem,
        rem2 == 2 * rem + t * x - kk * d,
        t == 0 || t == 1,
    ensures
        x * (2 * v + t) == (2 * q + kk) * d + rem2,
{
    assert(x * (2 * v + t) == (2 * q + kk) * d + rem2) by (nonlinear_arith)
        requires
            x * v == q * d + rem,
            rem2 == 2 * rem + t * x - kk * d,
            t == 0 || t == 1,
    ;
}

/// The running quotient of a division by `d` stays under its bit budget.
proof fn lemma_quot_bound(x: nat, v: nat, q: nat, d: nat, rem: nat, cap: nat)
    requires
        d > 0,
        x < d,
        x * v == q * d + rem,
        rem >= 0,
        v < cap,
    ensures
        q < cap,
{
    assert(q * d <= x * v);
    assert(x * v < d * cap) by (nonlinear_arith)
        requires
            x < d,
            v < cap,
            d > 0,
            cap > 0,
    ;
    assert(q < cap) by (nonlinear_arith)
        requires
            q * d < d * cap,
            d > 0,
    ;
}

/// `floor(x * y / d)` for a 512-bit `x` below the divisor, without ever
/// materialising the 768-bit product. The result always fits 256 bits.
#[verifier::rlimit(100)]
pub fn mul_div(x: &Wide, y: &Amount, d: &Wide) -> (r: Amount)
    requires
        d@ > 0,
        x@ < d@,
    ensures
        r@ == x@ * y@ / d@,
{
    let mut q = Amount::zero();
    let mut rem = Wide::zero();
    let mut ycopy: Amount = *y;
    let ghost mut v: nat = 0;
    let ghost mut rest: nat = y@;
    let mut i: usize = 0;
    proof {
        pow2_facts();
        lemma_amount_bound(*y);
        lemma_zero_times(pow2(256));
        assert(ycopy@ == rest * pow2(0)) by (nonlinear_arith)
            requires
                pow2(0) == 1,
                ycopy@ == rest,
        ;
        lemma_zero_times(d@);
        lemma_zero_times(x@);
    }
    while i < 256
        invariant
            i <= 256,
            d@ > 0,
            x@ < d@,
            y@ == v * pow2((256 - i) as nat) + rest,
            rest < pow2((256 - i) as nat),
            ycopy@ == rest * pow2(i as nat),
            x@ * v == q@ * d@ + rem@,
            rem@ < d@,
            v < pow2(i as nat),
            q@ < pow2(i as nat),
        decreases 256 - i,
    {
        let ghost j: nat = (256 - i) as nat;
        let ghost k: nat = i as nat;
        proof {
            pow2_facts();
            lemma_wide_bound(*d);
            lemma_wide_bound(rem);
            lemma_amount_bound(q);
        }
        let (yc2, top) = ycopy.double();
        // first reduction: double the remainder
        let (t1, c1) = rem.add_with_carry(&rem, false);
        let (rem1, k1) = if c1 {
            proof {
                lemma_wide_bound(t1);
            }
            let (t, _b1) = t1.sub_with_borrow(d, false);
            proof {
                lemma_wide_bound(t);
            }
            (t, true)
        } else {
            if t1.lt(d) {
                (t1, false)
            } else {
                (t1.sub_exact(d), true)
            }
        };
        // second reduction: add `x` when the bit is set
        let (rem2, k2) = if top {
            let (t2, c2) = rem1.add_with_carry(x, false);
            if c2 {
                proof {
                    lemma_wide_bound(t2);
                }
                let (t, _b2) = t2.sub_with_borrow(d, false);
                proof {
                    lemma_wide_bound(t);
                }
                (t, true)
            } else {
                if t2.lt(d) {
                    (t2, false)
                } else {
                    (t2.sub_exact(d), true)
                }
            }
        } else {
            (rem1, false)
        };
        proof {
            let ghost t: nat = if top { 1 } else { 0 };
            let ghost kk: nat = (if k1 { 1nat } else { 0nat }) + (if k2 { 1nat } else { 0nat });
            lemma_amount_bound(yc2);
            lemma_shift_step(y@, v, rest, ycopy@, yc2@, t, j, k, 256);
            let ghost rest2: nat = (rest - t * pow2((j - 1) as nat)) as nat;
            assert(rem2@ == 2 * rem@ + t * x@ - kk * d@) by (nonlinear_arith)
                requires
                    kk == (if k1 { 1nat } else { 0nat }) + (if k2 { 1nat } else { 0nat }),
                    (if top { t == 1nat } else { t == 0nat }),
                    (if k1 { rem1@ == 2 * rem@ - d@ } else { rem1@ == 2 * rem@ }),
                    (if top {
                        (if k2 { rem2@ == rem1@ + x@ - d@ } else { rem2@ == rem1@ + x@ })
                    } else {
                        rem2@ == rem1@ && !k2
                    }),
            ;
            lemma_quot_step(x@, v, t, q@, d@, rem@, rem2@, kk);
            assert(pow2((k + 1) as nat) == 2 * pow2(k)) by {
                vstd::arithmetic::power2::lemma_pow2_unfold((k + 1) as nat);
            };
            assert(2 * v + t < pow2((k + 1) as nat));
            lemma_quot_bound(x@, 2 * v + t, 2 * q@ + kk, d@, rem2@, pow2((k + 1) as nat));
            if k + 1 < 256 {
                vstd::arithmetic::power2::lemma_pow2_strictly_increases((k + 1) as nat, 256);
            }
            assert(2 * q@ + kk < pow2(256));
            v = 2 * v + t;
            rest = rest2;
        }
        // fold the two reduction bits into the quotient
        let (q1, qov1) = q.add_with_carry(&q, k1);
        proof {
            pow2_facts();
            assert(!qov1);
        }
        let q2 = if k2 {
            let zero = Amount::zero();
            let (qq, qov2) = q1.add_with_carry(&zero, true);
            proof {
                pow2_facts();
                assert(!qov2);
            }
            qq
        } else {
            q1
        };
        ycopy = yc2;
        rem = rem2;
        q = q2;
        i = i + 1;
    }
    proof {
        pow2_facts();
        assert(rest == 0);
        assert(v == y@) by (nonlinear_arith)
            requires
                y@ == v * pow2(0) + rest,
                rest == 0,
                pow2(0) == 1,
        ;
        lemma_fundamental_div_mod_converse(
            (x@ * y@) as int,
            d@ as int,
            q@ as int,
            rem@ as int,
        );
    }
    q
}

/// Checked multiplication of amounts: `None` exactly on 256-bit overflow.
pub fn checked_mul(a: &Amount, b: &Amount) -> (r: Option<Amount>)
    ensures
        match r {
            Some(p) => p@ == a@ * b@,
            None => a@ * b@ >= pow256(),
        },
{
    let w = mul_wide(a, b);
    if w.fits_amount() {
        Some(w.to_amount())
    } else {
        None
    }
}

/// Checked floor division of amounts: `None` exactly on a zero divisor.
pub fn checked_div(a: &Amount, b: &Amount) -> (r: Option<Amount>)
    ensures
        match r {
            Some(q) => b@ > 0 && q@ == a@ / b@,
            None => b@ == 0,
        },
{
    if b.is_zero() {
        None
    } else {
        let (q, rem) = div_wide(&Wide::from_amount(a), &Wide::from_amount(b));
        proof {
            lemma_amount_bound(*a);
            assert(q@ * b@ <= a@);
            assert(q@ <= q@ * b@) by (nonlinear_arith)
                requires
                    b@ >= 1,
                    q@ >= 0,
            ;
        }
        Some(q.to_amount())
    }
}

/// Remainder of amount division.
pub fn rem_amount(a: &Amount, b: &Amount) -> (r: Amount)
    requires
        b@ > 0,
    ensures
        r@ == a@ % b@,
{
    let (q, rem) = div_wide(&Wide::from_amount(a), &Wide::from_amount(b));
    proof {
        lemma_amount_bound(*b);
    }
    rem.to_amount()
}

/// Floor square root of a 512-bit value; the result fits 256 bits.
pub fn isqrt_wide(n: &Wide) -> (r: Amount)
    ensures
        r@ * r@ <= n@,
        n@ < (r@ + 1) * (r@ + 1),
{
    let mut lo = Amount::zero();
    let mut hi = Amount::max_value();
    proof {
        pow2_facts();
        lemma_wide_bound(*n);
        lemma_zero_times(0nat);
        assert((pow256() - 1 + 1) * (pow256() - 1 + 1) == pow512()) by (nonlinear_arith)
            requires
                pow512() == pow256() * pow256(),
        ;
    }
    while lo.lt(&hi)
        invariant
            lo@ <= hi@,
            lo@ * lo@ <= n@,
            n@ < (hi@ + 1) * (hi@ + 1),
        decreases hi@ - lo@,
    {
        // mid = lo + ceil((hi - lo) / 2), so lo < mid <= hi
        let diff = hi.sub_exact(&lo);
        let half = diff.half();
        let odd = diff.lo % 2 == 1;
        proof {
            lemma_amount_parity(diff);
            lemma_amount_bound(hi);
        }
        let (mid, ov) = lo.add_with_carry(&half, odd);
        proof {
            assert(!ov);
        }
        let sq = mul_wide(&mid, &mid);
        if sq.le(n) {
            lo = mid;
        } else {
            proof {
                assert(mid@ >= 1);
            }
            hi = mid.sub_exact(&Amount::from_u128(1));
        }
    }
    lo
}

/// The parity of an amount is the parity of its low limb.
proof fn lemma_amount_parity(a: Amount)
    ensures
        (a@ % 2) == (a.lo % 2),
        a@ == 2 * (a@ / 2) + a@ % 2,
{
    assert((a.hi * pow128() + a.lo) % 2 == a.lo % 2) by (nonlinear_arith)
        requires
            pow128() % 2 == 0,
            a.hi >= 0,
            a.lo >= 0,
    ;
    assert(a@ == 2 * (a@ / 2) + a@ % 2) by (nonlinear_arith);
}

/// Cancels a positive common factor on the right of a strict inequality.
proof fn lemma_mul_cancel_left(x: nat, y: nat, c: nat)
    requires
        c > 0,
        x * c < y * c,
    ensures
        x < y,
{
    assert(x < y) by (nonlinear_arith)
        requires
            c > 0,
            x * c < y * c,
    ;
}

/// A 512-bit value scaled by a 64-bit factor, as three 256-bit limbs
/// `(high, mid, low)`.
pub fn scale3(x: &Wide, c: u64) -> (r: (Amount, Amount, Amount))
    ensures
        r.0@ * pow512() + r.1@ * pow256() + r.2@ == x@ * c,
{
    let ca = Amount::from_u128(c as u128);
    let w1 = mul_wide(&x.hi, &ca);
    let w0 = mul_wide(&x.lo, &ca);
    let (mid, carry) = w1.lo.add_with_carry(&w0.hi, false);
    proof {
        lemma_amount_bound(w1.lo);
        lemma_amount_bound(w0.hi);
        // the top limb has ample headroom for the carry
        assert(w1.hi@ * pow256() <= x.hi@ * c) by (nonlinear_arith)
            requires
                w1.hi@ * pow256() + w1.lo@ == x.hi@ * (c as nat),
                w1.lo@ >= 0,
        ;
        assert(x.hi@ * c < 0x1_0000_0000_0000_0000nat * pow256()) by (nonlinear_arith)
            requires
                x.hi@ < pow256(),
                (c as nat) < 0x1_0000_0000_0000_0000nat,
                pow256() > 0,
        ;
        assert(w1.hi@ < 0x1_0000_0000_0000_0000nat) by (nonlinear_arith)
            requires
                w1.hi@ * pow256() <= x.hi@ * (c as nat),
                x.hi@ * (c as nat) < 0x1_0000_0000_0000_0000nat * pow256(),
                pow256() > 0,
        ;
    }
    let hi = if carry {
        w1.hi.checked_add(&Amount::from_u128(1)).unwrap()
    } else {
        w1.hi
    };
    proof {
        let cv: nat = if carry { 1 } else { 0 };
        assert(hi@ * pow512() + mid@ * pow256() + w0.lo@ == x@ * c) by (nonlinear_arith)
            requires
                hi@ == w1.hi@ + cv,
                mid@ + cv * pow256() == w1.lo@ + w0.hi@,
                w1.hi@ * pow256() + w1.lo@ == x.hi@ * (c as nat),
                w0.hi@ * pow256() + w0.lo@ == x.lo@ * (c as nat),
                x@ == x.hi@ * pow256() + x.lo@,
                pow512() == pow256() * pow256(),
        ;
    }
    (hi, mid, w0.lo)
}

/// Whether `x * c <= y * d`, decided exactly through three-limb forms.
pub fn le_scaled(x: &Wide, c: u64, y: &Wide, d: u64) -> (r: bool)
    ensures
        r == (x@ * c <= y@ * d),
{
    let (xh, xm, xl) = scale3(x, c);
    let (yh, ym, yl) = scale3(y, d);
    proof {
        lemma_amount_bound(xm);
        lemma_amount_bound(xl);
        lemma_amount_bound(ym);
        lemma_amount_bound(yl);
        lemma_limbs3_le(xh@, xm@, xl@, yh@, ym@, yl@);
    }
    xh.lt(&yh) || (xh == yh && (xm.lt(&ym) || (xm == ym && xl.le(&yl))))
}

/// Three-limb numbers compare lexicographically.
proof fn lemma_limbs3_le(ah: nat, am: nat, al: nat, bh: nat, bm: nat, bl: nat)
    requires
        am < pow256(),
        al < pow256(),
        bm < pow256(),
        bl < pow256(),
    ensures
        (ah * pow512() + am * pow256() + al <= bh * pow512() + bm * pow256() + bl) == (ah < bh || (
        ah == bh && (am < bm || (am == bm && al <= bl)))),
{
    assert((ah * pow512() + am * pow256() + al <= bh * pow512() + bm * pow256() + bl) == (ah < bh
        || (ah == bh && (am < bm || (am == bm && al <= bl))))) by (nonlinear_arith)
        requires
            am < pow256(),
            al < pow256(),
            bm < pow256(),
            bl < pow256(),
            pow512() == pow256() * pow256(),
            pow256() > 0,
    ;
}

/// Multiplying by zero yields zero, stated for opaque factors.
pub proof fn lemma_zero_times(x: nat)
    ensures
        0nat * x == 0,
        x * 0nat == 0,
{
    assert(0nat * x == 0) by (nonlinear_arith);
    assert(x * 0nat == 0) by (nonlinear_arith);
}

/// The value of any `Wide` is below 2^512.
pub proof fn lemma_wide_bound(w: Wide)
    ensures
        w@ < pow512(),
{
    assert(w.hi@ * pow256() + w.lo@ < pow256() * pow256()) by (nonlinear_arith)
        requires
            w.hi@ < pow256(),
            w.lo@ < pow256(),
            pow256() > 0,
    ;
}

/// The value of any `Amount` is below 2^256.
pub proof fn lemma_amount_bound(a: Amount)
    ensures
        a@ < pow256(),
{
    assert(a.hi * pow128() + a.lo < pow128() * pow128()) by (nonlinear_arith)
        requires
            a.hi < pow128(),
            a.lo < pow128(),
            pow128() > 0,
    ;
}

/// Two-limb numbers compare lexicographically.
proof fn lemma_limbs_le(ah: nat, al: nat, bh: nat, bl: nat)
    requires
        al < pow256(),
        bl < pow256(),
    ensures
        (ah * pow256() + al <= bh * pow256() + bl) == (ah < bh || (ah == bh && al <= bl)),
{
    if ah < bh {
        assert(ah * pow256() + pow256() <= bh * pow256()) by (nonlinear_arith)
            requires
                ah < bh,
                pow256() > 0,
        ;
    }
    if bh < ah {
        assert(bh * pow256() + pow256() <= ah * pow256()) by (nonlinear_arith)
            requires
                bh < ah,
                pow256() > 0,
        ;
    }
}

/// Distributes one carry (or borrow) step over the high-limb weight.
proof fn lemma_limb_linear(sh: int, oh: int, rh: int, cin: int, cout: int)
    requires
        rh + cout * pow256() == sh + oh + cin,
    ensures
        rh * pow256() + cout * (pow256() * pow256()) == sh * pow256() + oh * pow256() + cin
            * pow256(),
{
    assert(rh * pow256() + cout * (pow256() * pow256()) == sh * pow256() + oh * pow256() + cin
        * pow256()) by (nonlinear_arith)
        requires
            rh + cout * pow256() == sh + oh + cin,
    ;
}

} // verus!
