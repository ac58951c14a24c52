//! Checked AMM math: constant-product output and input inversion, price
//! impact, and the split helper used by routing.
//!
//! Price impact is returned in parts per million of the executed fraction.
//! For a constant-product pool the relative deviation of the executed price
//! from the marginal price reduces exactly to
//! `amount_in / (reserve_in + amount_in)`.

use vstd::prelude::*;
use crate::amount::{Amount, pow256};
use crate::wide::{div_wide, mul_div, Wide, checked_mul, lemma_amount_bound};

verus! {

/// The exact result of the checked constant-product output computation:
/// the fee is taken off the input first, flooring at each division, and
/// `None` marks a zero reserve or any 256-bit overflow on the way.
pub open spec fn spec_amm_output(a: nat, rin: nat, rout: nat, f: nat) -> Option<nat> {
    if rin == 0 || rout == 0 {
        None
    } else if a * ((10000 - f) as nat) >= pow256() {
        None
    } else {
        let af = a * ((10000 - f) as nat) / 10000;
        if af * rout >= pow256() {
            None
        } else if rin + af >= pow256() {
            None
        } else {
            Some(af * rout / (rin + af))
        }
    }
}

/// A successful checked constant-product output is strictly below the
/// spot rate: for a positive input, a non-zero fee and non-empty
/// reserves, `out * R_in < amount_in * R_out`.
pub proof fn lemma_amm_output_below_spot(a: nat, rin: nat, rout: nat, f: nat)
    requires
        a >= 1,
        rin >= 1,
        rout >= 1,
        1 <= f < 10000,
    ensures
        match spec_amm_output(a, rin, rout, f) {
            Some(out) => out * rin < a * rout,
            None => true,
        },
{
    let fm = (10000 - f) as nat;
    if a * fm < pow256() {
        let af = a * fm / 10000;
        if af * rout < pow256() && rin + af < pow256() {
            let out = af * rout / (rin + af);
            // the fee-reduced input is strictly below the input
            assert(a * fm < a * 10000) by (nonlinear_arith)
                requires
                    fm < 10000,
                    a >= 1,
            ;
            assert(af < a) by {
                assert(af * 10000 <= a * fm) by {
                    vstd::arithmetic::div_mod::lemma_fundamental_div_mod(
                        (a * fm) as int,
                        10000int,
                    );
                };
                assert(af * 10000 < a * 10000);
                assert(af < a) by (nonlinear_arith)
                    requires
                        af * 10000 < a * 10000,
                ;
            };
            // flooring only lowers the quotient further
            assert(out * (rin + af) <= af * rout) by {
                vstd::arithmetic::div_mod::lemma_fundamental_div_mod(
                    (af * rout) as int,
                    (rin + af) as int,
                );
            };
            assert(out * rin <= out * (rin + af)) by (nonlinear_arith)
                requires
                    out >= 0,
                    af >= 0,
            ;
            assert(af * rout < a * rout) by (nonlinear_arith)
                requires
                    af < a,
                    rout >= 1,
            ;
        }
    }
}

/// Output amount of a constant-product swap, all arithmetic checked.
pub fn calculate_amm_output(
    amount_in: &Amount,
    reserve_in: &Amount,
    reserve_out: &Amount,
    fee_bps: u32,
) -> (r: Option<Amount>)
    requires
        fee_bps <= 10000,
    ensures
        match r {
            Some(out) => spec_amm_output(amount_in@, reserve_in@, reserve_out@, fee_bps as nat)
                == Some(out@),
            None => spec_amm_output(amount_in@, reserve_in@, reserve_out@, fee_bps as nat)
                is None,
        },
{
    if reserve_in.is_zero() || reserve_out.is_zero() {
        return None;
    }
    let fee_multiplier: u32 = 10000 - fee_bps;
    let scaled = match checked_mul(amount_in, &Amount::from_u128(fee_multiplier as u128)) {
        Some(s) => s,
        None => {
            return None;
        },
    };
    let ten_thousand = Amount::from_u128(10000);
    let (afq, _r1) = div_wide(&Wide::from_amount(&scaled), &Wide::from_amount(&ten_thousand));
    let amount_in_with_fee = afq.to_amount_small(&scaled);
    let numerator = match checked_mul(&amount_in_with_fee, reserve_out) {
        Some(n) => n,
        None => {
            return None;
        },
    };
    let denominator = match reserve_in.checked_add(&amount_in_with_fee) {
        Some(d) => d,
        None => {
            return None;
        },
    };
    let (q, _r2) = div_wide(&Wide::from_amount(&numerator), &Wide::from_amount(&denominator));
    Some(q.to_amount_small(&numerator))
}

/// The exact result of the checked constant-product input inversion.
pub open spec fn spec_amm_input(out: nat, rin: nat, rout: nat, f: nat) -> Option<nat> {
    if rin == 0 || rout == 0 || out >= rout {
        None
    } else if rin * out >= pow256() {
        None
    } else if rin * out * 10000 >= pow256() {
        None
    } else if ((rout - out) as nat) * ((10000 - f) as nat) >= pow256() {
        None
    } else if ((rout - out) as nat) * ((10000 - f) as nat) == 0 {
        None
    } else {
        Some(rin * out * 10000 / (((rout - out) as nat) * ((10000 - f) as nat)))
    }
}

/// Input amount required for a desired constant-product output, checked.
pub fn calculate_amm_input(
    amount_out: &Amount,
    reserve_in: &Amount,
    reserve_out: &Amount,
    fee_bps: u32,
) -> (r: Option<Amount>)
    requires
        fee_bps <= 10000,
    ensures
        match r {
            Some(x) => spec_amm_input(amount_out@, reserve_in@, reserve_out@, fee_bps as nat)
                == Some(x@),
            None => spec_amm_input(amount_out@, reserve_in@, reserve_out@, fee_bps as nat)
                is None,
        },
{
    if reserve_in.is_zero() || reserve_out.is_zero() || !amount_out.lt(reserve_out) {
        return None;
    }
    let step1 = match checked_mul(reserve_in, amount_out) {
        Some(s) => s,
        None => {
            return None;
        },
    };
    let numerator = match checked_mul(&step1, &Amount::from_u128(10000)) {
        Some(s) => s,
        None => {
            return None;
        },
    };
    let fee_multiplier: u32 = 10000 - fee_bps;
    let gap = reserve_out.sub_exact(amount_out);
    let denominator = match checked_mul(&gap, &Amount::from_u128(fee_multiplier as u128)) {
        Some(d) => d,
        None => {
            return None;
        },
    };
    if denominator.is_zero() {
        return None;
    }
    let (q, _r) = div_wide(&Wide::from_amount(&numerator), &Wide::from_amount(&denominator));
    Some(q.to_amount_small(&numerator))
}

/// Relative price impact of a constant-product swap, in parts per million:
/// `floor(10^6 * amount_in / (reserve_in + amount_in))`, and zero when a
/// reserve is empty.
pub open spec fn spec_price_impact_ppm(a: nat, rin: nat, rout: nat) -> nat {
    if rin == 0 || rout == 0 {
        0
    } else {
        a * 1_000_000 / (rin + a)
    }
}

/// Price impact of a swap, in parts per million.
pub fn calculate_price_impact(amount_in: &Amount, reserve_in: &Amount, reserve_out: &Amount) -> (r:
    u64)
    ensures
        r == spec_price_impact_ppm(amount_in@, reserve_in@, reserve_out@),
        r <= 1_000_000,
{
    if reserve_in.is_zero() || reserve_out.is_zero() {
        return 0;
    }
    let (den_lo, carry) = reserve_in.add_with_carry(amount_in, false);
    let den = Wide {
        lo: den_lo,
        hi: if carry {
            Amount::from_u128(1)
        } else {
            Amount::zero()
        },
    };
    proof {
        crate::wide::lemma_zero_times(crate::amount::pow256());
        assert(1nat * pow256() == pow256()) by (nonlinear_arith);
    }
    let a_w = Wide::from_amount(amount_in);
    let q = mul_div(&a_w, &Amount::from_u128(1_000_000), &den);
    proof {
        lemma_ratio_scale(amount_in@, 1_000_000nat, den@, q@);
    }
    let q128 = q.to_u128().unwrap();
    q128 as u64
}

/// A ratio of a part to a whole, scaled, stays below the scale.
pub proof fn lemma_ratio_scale(x: nat, scale: nat, d: nat, q: nat)
    requires
        x < d,
        q == x * scale / d,
    ensures
        q < scale || scale == 0,
{
    if scale > 0 {
        assert(x * scale / d * d + x * scale % d == x * scale) by {
            vstd::arithmetic::div_mod::lemma_fundamental_div_mod((x * scale) as int, d as int);
        };
        assert(x * scale < d * scale) by (nonlinear_arith)
            requires
                x < d,
                scale > 0,
        ;
        assert(q < scale) by (nonlinear_arith)
            requires
                q * d <= x * scale,
                x * scale < d * scale,
                d > 0,
        ;
    }
}

/// Floor of the base-2 logarithm, with `spec_log2(0) == spec_log2(1) == 0`.
pub open spec fn spec_log2(n: nat) -> nat
    decreases n,
{
    if n <= 1 {
        0
    } else {
        1 + spec_log2(n / 2)
    }
}

/// `spec_log2` of anything below 2^256 is below 256.
pub proof fn lemma_log2_bound(n: nat, m: nat)
    requires
        n < vstd::arithmetic::power2::pow2(m),
    ensures
        spec_log2(n) <= m,
    decreases m,
{
    if m == 0 {
        assert(vstd::arithmetic::power2::pow2(0) == 1) by {
            vstd::arithmetic::power2::lemma2_to64();
        };
    } else if n <= 1 {
    } else {
        vstd::arithmetic::power2::lemma_pow2_unfold(m);
        lemma_log2_bound(n / 2, (m - 1) as nat);
    }
}

/// Floor base-2 logarithm of an amount.
pub fn log2_floor(a: &Amount) -> (r: u32)
    ensures
        r == spec_log2(a@),
        r <= 256,
{
    let mut x: Amount = *a;
    let mut c: u32 = 0;
    proof {
        crate::wide::pow2_facts();
        lemma_amount_bound(*a);
        lemma_log2_bound(a@, 256);
    }
    let one = Amount::from_u128(1);
    while one.lt(&x)
        invariant
            spec_log2(a@) == c + spec_log2(x@),
            c <= 256,
            one@ == 1,
        decreases x@,
    {
        proof {
            crate::wide::pow2_facts();
            lemma_amount_bound(*a);
            lemma_log2_bound(a@, 256);
        }
        x = x.half();
        c = c + 1;
    }
    proof {
        assert(spec_log2(x@) == 0);
    }
    c
}

/// Splits an amount equally over the candidate paths; the split is not
/// weighted by pool depth.
pub fn calculate_optimal_split(amount: &Amount, path_reserves: &Vec<(Amount, Amount)>) -> (r: Vec<
    Amount,
>)
    ensures
        r@.len() == path_reserves@.len(),
        forall|k: int|
            0 <= k < r@.len() ==> r@[k]@ == amount@ / path_reserves@.len() as nat,
{
    let num_paths = path_reserves.len();
    let mut out: Vec<Amount> = Vec::new();
    if num_paths == 0 {
        return out;
    }
    let divisor = Amount::from_u128(num_paths as u128);
    let (q, _r) = div_wide(&Wide::from_amount(amount), &Wide::from_amount(&divisor));
    let split = q.to_amount_small(amount);
    let mut i: usize = 0;
    while i < num_paths
        invariant
            i <= num_paths,
            out@.len() == i,
            forall|k: int| 0 <= k < i ==> out@[k] == split,
            split@ == amount@ / num_paths as nat,
        decreases num_paths - i,
    {
        out.push(split);
        i = i + 1;
    }
    out
}

} // verus!
