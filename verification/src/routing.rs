//! Routing over automated-market-maker pools: per-hop output math, greedy
//! pool choice per hop, bounded path search, and best-route selection.
//!
//! Price impact is in parts per million of the executed fraction; route
//! scores are signed wad values: the output in wad minus the gas and
//! impact penalties.

use vstd::prelude::*;
use crate::address::Address;
use crate::amount::{Amount, pow256};
use crate::math::lemma_ratio_scale;
use crate::wide::{mul_wide, div_wide, mul_div, Wide, lemma_amount_bound, lemma_zero_times};

verus! {

/// Variant of an AMM pool.
#[derive(Clone, Copy, PartialEq, Eq, Structural, Debug)]
pub enum PoolType {
    /// Uniswap V2 style constant product.
    UniswapV2,
    /// Uniswap V3 (treated as constant product here).
    UniswapV3,
    /// Balancer weighted pool (treated as constant product here).
    Balancer,
    /// Curve stable swap (simplified surrogate).
    Curve,
    /// Generic constant product.
    ConstantProduct,
}

/// A liquidity pool between two tokens.
#[derive(Clone, Copy, PartialEq, Eq, Structural, Debug)]
pub struct LiquidityPool {
    /// Pool contract address.
    pub address: Address,
    /// Pool variant.
    pub pool_type: PoolType,
    /// First token.
    pub token_a: Address,
    /// Second token.
    pub token_b: Address,
    /// Reserve of the first token.
    pub reserve_a: Amount,
    /// Reserve of the second token.
    pub reserve_b: Amount,
    /// Fee in basis points.
    pub fee_bps: u16,
    /// Gas cost of one interaction.
    pub gas_cost: u64,
}

/// The well-formedness of a pool: distinct tokens and a fee below the
/// basis-point denominator.
pub open spec fn pool_wf(p: LiquidityPool) -> bool {
    p.token_a != p.token_b && p.fee_bps < 10000
}

/// Whether a pool serves the unordered token pair `(a, b)`.
pub open spec fn pool_connects(p: LiquidityPool, a: Address, b: Address) -> bool {
    (p.token_a == a && p.token_b == b) || (p.token_a == b && p.token_b == a)
}

/// The reserves of a pool as seen from the input token.
pub open spec fn spec_oriented_reserves(p: LiquidityPool, token_in: Address) -> (nat, nat) {
    if token_in == p.token_a {
        (p.reserve_a@, p.reserve_b@)
    } else {
        (p.reserve_b@, p.reserve_a@)
    }
}

/// Constant-product output with fee: `a F R_out / (R_in 10^4 + a F)` with
/// `F = 10^4 - fee`; zero on an empty input reserve.
pub open spec fn spec_cp_output(a: nat, rin: nat, rout: nat, fee: nat) -> nat {
    if rin == 0 {
        0
    } else {
        let af = a * ((10000 - fee) as nat);
        af * rout / (rin * 10000 + af)
    }
}

/// A constant-product output is strictly below the spot rate: for a
/// positive input, a non-zero fee and non-empty reserves,
/// `out * R_in < amount_in * R_out`.
pub proof fn lemma_cp_output_below_spot(a: nat, rin: nat, rout: nat, fee: nat)
    requires
        a >= 1,
        rin >= 1,
        rout >= 1,
        1 <= fee < 10000,
    ensures
        spec_cp_output(a, rin, rout, fee) * rin < a * rout,
{
    let f = (10000 - fee) as nat;
    let af = a * f;
    let den = rin * 10000 + af;
    let out = af * rout / den;
    assert(a * f >= 1) by (nonlinear_arith)
        requires
            a >= 1,
            f >= 1,
    ;
    assert(out * den <= af * rout) by {
        vstd::arithmetic::div_mod::lemma_fundamental_div_mod((af * rout) as int, den as int);
        assert((af * rout) / den * den + (af * rout) % den == af * rout);
        assert(out * den == (af * rout) / den * den);
    };
    assert(out * (rin * 10000) + out * af == out * den) by (nonlinear_arith)
        requires
            den == rin * 10000 + af,
    ;
    assert(af * rout < (a * 10000) * rout) by (nonlinear_arith)
        requires
            af == a * f,
            f < 10000,
            a >= 1,
            rout >= 1,
    ;
    assert(out * (rin * 10000) < (a * 10000) * rout);
    assert(out * rin * 10000 == out * (rin * 10000)) by (nonlinear_arith);
    assert((a * 10000) * rout == a * rout * 10000) by (nonlinear_arith);
    assert(out * rin < a * rout) by (nonlinear_arith)
        requires
            out * rin * 10000 < a * rout * 10000,
    ;
}

/// Simplified stable-swap output: the fee-reduced input, capped at
/// ninety-nine hundredths of the output reserve.
pub open spec fn spec_stable_output(a: nat, rout: nat, fee: nat) -> nat {
    let lin = a * ((10000 - fee) as nat) / 10000;
    let cap = rout * 99 / 100;
    if lin <= cap {
        lin
    } else {
        cap
    }
}

/// The output a pool quotes for an input amount, by variant.
pub open spec fn spec_pool_output(p: LiquidityPool, token_in: Address, a: nat) -> nat {
    let (rin, rout) = spec_oriented_reserves(p, token_in);
    match p.pool_type {
        PoolType::Curve => spec_stable_output(a, rout, p.fee_bps as nat),
        _ => spec_cp_output(a, rin, rout, p.fee_bps as nat),
    }
}

/// Price impact of one hop, in ppm: the executed fraction of the input
/// reserve, capped at a whole; the cap when the reserve is empty.
pub open spec fn spec_pool_impact_ppm(p: LiquidityPool, token_in: Address, a: nat) -> nat {
    let (rin, rout) = spec_oriented_reserves(p, token_in);
    if rin == 0 {
        1_000_000
    } else if a * 1_000_000 / rin > 1_000_000 {
        1_000_000
    } else {
        a * 1_000_000 / rin
    }
}

/// Route score in wad form: the output (saturated to the signed 128-bit
/// range) minus the gas and impact penalties.
pub open spec fn spec_route_score(out: nat, gas: nat, impact_ppm: nat) -> int {
    let o: int = if out > 0x7fffffffffffffffffffffffffffffff {
        0x7fffffffffffffffffffffffffffffff
    } else {
        out as int
    };
    o - gas * 1_000_000_000_000 - impact_ppm * 1_000_000_000_000
}

/// A route through one or more pools.
#[derive(Clone, Debug)]
pub struct Route {
    /// Pools, one per hop.
    pub pools: Vec<LiquidityPool>,
    /// Token path, one token more than pools.
    pub path: Vec<Address>,
    /// Expected output amount.
    pub output_amount: Amount,
    /// Total gas cost, saturating.
    pub gas_cost: u64,
    /// Accumulated price impact in ppm, saturating.
    pub price_impact: u64,
    /// Route score in wad form.
    pub score: i128,
}

/// The best pool for one hop among `pools[i..]`: among those serving the
/// pair with non-zero output, the first of the highest outputs, paired
/// with that output. Later pools win only with strictly more output.
pub open spec fn spec_best_pool_from(
    pools: Seq<LiquidityPool>,
    a: Address,
    b: Address,
    amt: nat,
    i: nat,
) -> Option<(LiquidityPool, nat)>
    decreases pools.len() - i,
{
    if i >= pools.len() {
        None
    } else {
        let rest = spec_best_pool_from(pools, a, b, amt, i + 1);
        let p = pools[i as int];
        if pool_connects(p, a, b) {
            let o = spec_pool_output(p, a, amt);
            match rest {
                None => Some((p, o)),
                Some((q, oq)) => if oq > o {
                    Some((q, oq))
                } else {
                    Some((p, o))
                },
            }
        } else {
            rest
        }
    }
}

/// Saturating 64-bit sum.
pub open spec fn sat_u64(x: nat) -> nat {
    if x > u64::MAX {
        u64::MAX as nat
    } else {
        x
    }
}

/// Saturating accumulated impact, capped at a thousand wholes.
pub open spec fn sat_impact(x: nat) -> nat {
    if x > 1_000_000_000 {
        1_000_000_000
    } else {
        x
    }
}

/// Saturating total gas of a pool list.
pub open spec fn spec_gas_sum(ps: Seq<LiquidityPool>) -> nat
    decreases ps.len(),
{
    if ps.len() == 0 {
        0
    } else {
        sat_u64((ps[0].gas_cost + spec_gas_sum(ps.drop_first())) as nat)
    }
}

/// Evaluation of a token path from hop `idx` with `carry` units flowing
/// in: greedily the best pool per hop, its output carried to the next hop.
/// `None` when some hop has no pool or only a zero output.
pub open spec fn spec_eval_from(
    pools: Seq<LiquidityPool>,
    path: Seq<Address>,
    idx: nat,
    carry: nat,
) -> Option<(Seq<LiquidityPool>, nat, nat, nat)>
    decreases path.len() - idx,
{
    if idx + 1 >= path.len() {
        Some((Seq::empty(), carry, 0, 0))
    } else {
        match spec_best_pool_from(pools, path[idx as int], path[(idx + 1) as int], carry, 0) {
            None => None,
            Some((p, o)) => {
                if o == 0 {
                    None
                } else {
                    match spec_eval_from(pools, path, idx + 1, o) {
                        None => None,
                        Some((ps, out, gas, imp)) => Some(
                            (
                                seq![p] + ps,
                                out,
                                sat_u64((p.gas_cost + gas) as nat),
                                sat_impact((spec_pool_impact_ppm(p, path[idx as int], carry) + imp) as nat),
                            ),
                        ),
                    }
                }
            },
        }
    }
}

/// A best-pool answer names a registered pool serving the pair, quoting
/// exactly its output.
pub proof fn lemma_best_pool_props(
    pools: Seq<LiquidityPool>,
    a: Address,
    b: Address,
    amt: nat,
    i: nat,
)
    ensures
        match spec_best_pool_from(pools, a, b, amt, i) {
            None => true,
            Some((p, o)) => pools.contains(p) && pool_connects(p, a, b) && o == spec_pool_output(
                p,
                a,
                amt,
            ),
        },
    decreases pools.len() - i,
{
    if i < pools.len() {
        lemma_best_pool_props(pools, a, b, amt, i + 1);
        if pool_connects(pools[i as int], a, b) {
            assert(pools.contains(pools[i as int]));
        }
    }
}

/// A successful path evaluation has one registered, connecting pool per
/// hop, a positive final output when there is at least one hop, and
/// bounded accumulated gas and impact.
pub proof fn lemma_eval_props(pools: Seq<LiquidityPool>, path: Seq<Address>, idx: nat, carry: nat)
    ensures
        match spec_eval_from(pools, path, idx, carry) {
            None => true,
            Some((ps, out, gas, imp)) => {
                &&& idx <= path.len() ==> ps.len() == (if idx + 1 <= path.len() {
                    (path.len() - idx - 1) as nat
                } else {
                    0nat
                })
                &&& forall|k: int|
                    0 <= k < ps.len() ==> pools.contains(#[trigger] ps[k]) && pool_connects(
                        ps[k],
                        path[idx + k],
                        path[idx + k + 1],
                    )
                &&& (idx + 1 < path.len() ==> out > 0)
                &&& (idx + 1 >= path.len() ==> out == carry)
                &&& gas <= u64::MAX
                &&& imp <= 1_000_000_000
            },
        },
    decreases path.len() - idx,
{
    if idx + 1 >= path.len() {
    } else {
        lemma_best_pool_props(pools, path[idx as int], path[(idx + 1) as int], carry, 0);
        match spec_best_pool_from(pools, path[idx as int], path[(idx + 1) as int], carry, 0) {
            None => {},
            Some((p, o)) => {
                if o != 0 {
                    lemma_eval_props(pools, path, idx + 1, o);
                    match spec_eval_from(pools, path, idx + 1, o) {
                        None => {},
                        Some((ps, out, gas, imp)) => {
                            let whole = seq![p] + ps;
                            assert forall|k: int|
                                0 <= k < whole.len() implies pools.contains(#[trigger] whole[k])
                                && pool_connects(whole[k], path[idx + k], path[idx + k + 1]) by {
                                if k > 0 {
                                    assert(whole[k] == ps[k - 1]);
                                }
                            };
                        },
                    }
                }
            },
        }
    }
}

/// A successful path evaluation accumulates exactly the saturating sum of
/// its pools' gas costs.
pub proof fn lemma_eval_gas_sum(pools: Seq<LiquidityPool>, path: Seq<Address>, idx: nat, carry: nat)
    ensures
        match spec_eval_from(pools, path, idx, carry) {
            None => true,
            Some((ps, out, gas, imp)) => gas == spec_gas_sum(ps),
        },
    decreases path.len() - idx,
{
    if idx + 1 >= path.len() {
        assert(spec_gas_sum(Seq::<LiquidityPool>::empty()) == 0);
    } else {
        match spec_best_pool_from(pools, path[idx as int], path[(idx + 1) as int], carry, 0) {
            None => {},
            Some((p, o)) => {
                if o != 0 {
                    lemma_eval_gas_sum(pools, path, idx + 1, o);
                    match spec_eval_from(pools, path, idx + 1, o) {
                        None => {},
                        Some((ps2, out2, g2, im2)) => {
                            let whole = seq![p] + ps2;
                            assert(whole.drop_first() =~= ps2);
                            assert(whole[0] == p);
                            assert(spec_gas_sum(whole) == sat_u64(
                                (p.gas_cost + spec_gas_sum(ps2)) as nat,
                            ));
                        },
                    }
                }
            },
        }
    }
}

/// One hop of a path is served by some registered pool.
pub open spec fn spec_hop_connected(pools: Seq<LiquidityPool>, p: Seq<Address>, i: int) -> bool {
    exists|k: int| 0 <= k < pools.len() && pool_connects(#[trigger] pools[k], p[i], p[i + 1])
}

/// A candidate path for a query: within the depth bound, anchored at both
/// ends, each hop served by a registered pool.
pub open spec fn spec_path_ok(
    pools: Seq<LiquidityPool>,
    start: Address,
    end: Address,
    maxd: nat,
    p: Seq<Address>,
) -> bool {
    &&& 2 <= p.len() <= maxd
    &&& p[0] == start
    &&& p[p.len() - 1] == end
    &&& forall|i: int| 0 <= i < p.len() - 1 ==> spec_hop_connected(pools, p, i)
    &&& forall|i: int, j: int| 0 <= i < j < p.len() ==> p[i] != p[j]
}

/// A route answers a query except possibly for the impact cap: anchored
/// path, one registered connecting pool per hop, positive output, and a
/// consistent score.
pub open spec fn spec_route_pre_ok(
    engine: RoutingEngine,
    token_in: Address,
    token_out: Address,
    r: Route,
) -> bool {
    &&& r.path@.len() >= 2
    &&& r.pools@.len() + 1 == r.path@.len()
    &&& r.path@[0] == token_in
    &&& r.path@[r.path@.len() - 1] == token_out
    &&& (r.pools@.len() == 1 || (engine.max_hops > 1 && r.path@.len() <= engine.max_hops))
    &&& forall|k: int|
        0 <= k < r.pools@.len() ==> engine.pools@.contains(#[trigger] r.pools@[k])
            && pool_connects(r.pools@[k], r.path@[k], r.path@[k + 1])
    &&& (forall|i: int, j: int| 0 <= i < j < r.path@.len() ==> r.path@[i] != r.path@[j])
    &&& r.gas_cost as nat == spec_gas_sum(r.pools@)
    &&& r.output_amount@ > 0
    &&& r.score == spec_route_score(
        r.output_amount@,
        r.gas_cost as nat,
        r.price_impact as nat,
    )
}

/// A route answers a query: sound in shape and within the impact cap.
pub open spec fn spec_route_ok(
    engine: RoutingEngine,
    token_in: Address,
    token_out: Address,
    r: Route,
) -> bool {
    spec_route_pre_ok(engine, token_in, token_out, r) && r.price_impact
        <= engine.max_price_impact
}

/// No admissible direct route exists: either no serving pool quotes a
/// positive output, or the score-best one exceeds the impact cap.
pub open spec fn spec_direct_unavailable(
    engine: RoutingEngine,
    token_in: Address,
    token_out: Address,
    amt: nat,
) -> bool {
    match spec_best_direct_from(engine.pools@, token_in, token_out, amt, 0) {
        None => true,
        Some((p, o, imp, sc)) => imp > engine.max_price_impact,
    }
}

/// A route produced by evaluating exactly this path with this input:
/// pools, output, gas and impact are the evaluation's, and the score is
/// consistent.
pub open spec fn spec_evaluated_route(
    engine: RoutingEngine,
    amt: nat,
    p: Seq<Address>,
    r: Route,
) -> bool {
    &&& r.path@ == p
    &&& spec_eval_from(engine.pools@, p, 0, amt) == Some(
        (r.pools@, r.output_amount@, r.gas_cost as nat, r.price_impact as nat),
    )
    &&& r.score as int == spec_route_score(
        r.output_amount@,
        r.gas_cost as nat,
        r.price_impact as nat,
    )
}

/// Where a route's numbers come from: either it is a single-pool route
/// whose output and impact are its one pool's quotes, or it is the exact
/// evaluation of its own path.
pub open spec fn spec_route_sourced(
    engine: RoutingEngine,
    token_in: Address,
    amt: nat,
    r: Route,
) -> bool {
    ||| {
        &&& r.pools@.len() == 1
        &&& r.output_amount@ == spec_pool_output(r.pools@[0], token_in, amt)
        &&& r.price_impact as nat == spec_pool_impact_ppm(r.pools@[0], token_in, amt)
        &&& r.gas_cost == r.pools@[0].gas_cost
    }
    ||| spec_evaluated_route(engine, amt, r.path@, r)
}

/// The best direct route among `pools[i..]` for an ordered pair: per
/// serving pool with non-zero output, its output, impact and score; a
/// later pool wins only with a strictly higher score.
pub open spec fn spec_best_direct_from(
    pools: Seq<LiquidityPool>,
    a: Address,
    b: Address,
    amt: nat,
    i: nat,
) -> Option<(LiquidityPool, nat, nat, int)>
    decreases pools.len() - i,
{
    if i >= pools.len() {
        None
    } else {
        let rest = spec_best_direct_from(pools, a, b, amt, i + 1);
        let p = pools[i as int];
        if pool_connects(p, a, b) && spec_pool_output(p, a, amt) != 0 {
            let o = spec_pool_output(p, a, amt);
            let imp = spec_pool_impact_ppm(p, a, amt);
            let sc = spec_route_score(o, p.gas_cost as nat, imp);
            match rest {
                None => Some((p, o, imp, sc)),
                Some((q, oq, iq, sq)) => if sq > sc {
                    Some((q, oq, iq, sq))
                } else {
                    Some((p, o, imp, sc))
                },
            }
        } else {
            rest
        }
    }
}

/// A best-direct answer names a registered pool serving the pair, with
/// its exact output, impact and score.
pub proof fn lemma_best_direct_props(
    pools: Seq<LiquidityPool>,
    a: Address,
    b: Address,
    amt: nat,
    i: nat,
)
    ensures
        match spec_best_direct_from(pools, a, b, amt, i) {
            None => true,
            Some((p, o, imp, sc)) => pools.contains(p) && pool_connects(p, a, b) && o
                == spec_pool_output(p, a, amt) && o > 0 && imp == spec_pool_impact_ppm(p, a, amt)
                && sc == spec_route_score(o, p.gas_cost as nat, imp),
        },
    decreases pools.len() - i,
{
    if i < pools.len() {
        lemma_best_direct_props(pools, a, b, amt, i + 1);
        if pool_connects(pools[i as int], a, b) && spec_pool_output(pools[i as int], a, amt) != 0 {
            assert(pools.contains(pools[i as int]));
        }
    }
}

/// Membership of a token in a path.
pub(crate) fn contains_address(path: &Vec<Address>, t: &Address) -> (r: bool)
    ensures
        r == path@.contains(*t),
{
    let n = path.len();
    let mut i: usize = 0;
    while i < n
        invariant
            n == path@.len(),
            i <= n,
            forall|k: int| 0 <= k < i ==> path@[k] != *t,
        decreases n - i,
    {
        if path[i] == *t {
            return true;
        }
        i = i + 1;
    }
    false
}

/// The routing engine: a pool catalogue with search bounds.
pub struct RoutingEngine {
    /// Registered pools, in insertion order.
    pub pools: Vec<LiquidityPool>,
    /// Largest number of tokens a searched path may touch.
    pub max_hops: usize,
    /// Largest admissible accumulated price impact, in ppm.
    pub max_price_impact: u64,
}

impl RoutingEngine {
    /// Every registered pool is well formed.
    pub open spec fn wf(&self) -> bool {
        forall|k: int| 0 <= k < self.pools@.len() ==> pool_wf(#[trigger] self.pools@[k])
    }

    /// An engine with the given bounds and no pools.
    pub fn new(max_hops: usize, max_price_impact: u64) -> (r: RoutingEngine)
        ensures
            r.pools@.len() == 0,
            r.max_hops == max_hops,
            r.max_price_impact == max_price_impact,
            r.wf(),
    {
        RoutingEngine { pools: Vec::new(), max_hops, max_price_impact }
    }

    /// Registers a pool.
    pub fn add_pool(&mut self, pool: LiquidityPool)
        requires
            old(self).wf(),
            pool_wf(pool),
        ensures
            final(self).pools@ == old(self).pools@.push(pool),
            final(self).max_hops == old(self).max_hops,
            final(self).max_price_impact == old(self).max_price_impact,
            final(self).wf(),
    {
        self.pools.push(pool);
    }

    /// The output a pool quotes for an input amount.
    pub fn calculate_output(&self, pool: &LiquidityPool, token_in: &Address, amount_in: &Amount)
        -> (r: Amount)
        requires
            pool_wf(*pool),
        ensures
            r@ == spec_pool_output(*pool, *token_in, amount_in@),
    {
        let (reserve_in, reserve_out) = if *token_in == pool.token_a {
            (pool.reserve_a, pool.reserve_b)
        } else {
            (pool.reserve_b, pool.reserve_a)
        };
        match pool.pool_type {
            PoolType::Curve => self.calculate_stable_swap_output(
                amount_in,
                &reserve_in,
                &reserve_out,
                pool.fee_bps,
            ),
            _ => self.calculate_constant_product_output(
                amount_in,
                &reserve_in,
                &reserve_out,
                pool.fee_bps,
            ),
        }
    }

    /// Exact constant-product output with fee.
    pub fn calculate_constant_product_output(
        &self,
        amount_in: &Amount,
        reserve_in: &Amount,
        reserve_out: &Amount,
        fee_bps: u16,
    ) -> (r: Amount)
        requires
            fee_bps < 10000,
        ensures
            r@ == spec_cp_output(amount_in@, reserve_in@, reserve_out@, fee_bps as nat),
    {
        if reserve_in.is_zero() {
            return Amount::zero();
        }
        let f = Amount::from_u128((10000 - fee_bps) as u128);
        let af = mul_wide(amount_in, &f);
        let rin_scaled = mul_wide(reserve_in, &Amount::from_u128(10000));
        let (den, carry) = af.add_with_carry(&rin_scaled, false);
        proof {
            // the denominator stays well below 2^512
            crate::wide::pow2_facts();
            lemma_amount_bound(*amount_in);
            lemma_amount_bound(*reserve_in);
            assert(amount_in@ * ((10000 - fee_bps) as nat) < pow256() * 10000nat)
                by (nonlinear_arith)
                requires
                    amount_in@ < pow256(),
                    ((10000 - fee_bps) as nat) <= 10000,
                    pow256() > 0,
            ;
            assert(reserve_in@ * 10000nat <= pow256() * 10000nat) by (nonlinear_arith)
                requires
                    reserve_in@ <= pow256(),
            ;
            assert(pow256() * 10000nat + pow256() * 10000nat < crate::amount::pow512())
                by (nonlinear_arith)
                requires
                    crate::amount::pow512() == pow256() * pow256(),
                    pow256() > 20000,
            ;
            assert(!carry);
            // the numerator side is below the denominator
            assert(reserve_in@ * 10000nat >= 10000) by (nonlinear_arith)
                requires
                    reserve_in@ >= 1,
            ;
        }
        mul_div(&af, reserve_out, &den)
    }

    /// Simplified stable-swap output: fee-reduced input capped at
    /// ninety-nine hundredths of the output reserve.
    pub fn calculate_stable_swap_output(
        &self,
        amount_in: &Amount,
        reserve_in: &Amount,
        reserve_out: &Amount,
        fee_bps: u16,
    ) -> (r: Amount)
        requires
            fee_bps < 10000,
        ensures
            r@ == spec_stable_output(amount_in@, reserve_out@, fee_bps as nat),
    {
        let f = Amount::from_u128((10000 - fee_bps) as u128);
        let af = mul_wide(amount_in, &f);
        let (linq, _r1) = div_wide(&af, &Wide::from_amount(&Amount::from_u128(10000)));
        proof {
            lemma_amount_bound(*amount_in);
            assert(amount_in@ * ((10000 - fee_bps) as nat) / 10000 < pow256()) by (nonlinear_arith)
                requires
                    amount_in@ < pow256(),
                    ((10000 - fee_bps) as nat) <= 10000,
                    pow256() > 0,
            ;
        }
        let lin = linq.to_amount();
        let capw = mul_wide(reserve_out, &Amount::from_u128(99));
        let (capq, _r2) = div_wide(&capw, &Wide::from_amount(&Amount::from_u128(100)));
        proof {
            lemma_amount_bound(*reserve_out);
            assert(reserve_out@ * 99nat / 100 < pow256()) by (nonlinear_arith)
                requires
                    reserve_out@ < pow256(),
                    pow256() > 0,
            ;
        }
        let cap = capq.to_amount();
        if lin.le(&cap) {
            lin
        } else {
            cap
        }
    }

    /// Price impact of a swap through a pool, in ppm.
    pub fn calculate_price_impact(&self, pool: &LiquidityPool, token_in: &Address, amount_in:
        &Amount) -> (r: u64)
        ensures
            r == spec_pool_impact_ppm(*pool, *token_in, amount_in@),
            r <= 1_000_000,
    {
        let reserve_in = if *token_in == pool.token_a {
            pool.reserve_a
        } else {
            pool.reserve_b
        };
        if reserve_in.is_zero() {
            return 1_000_000;
        }
        if !amount_in.lt(&reserve_in) {
            proof {
                assert(amount_in@ * 1_000_000nat / reserve_in@ >= 1_000_000) by (nonlinear_arith)
                    requires
                        amount_in@ >= reserve_in@,
                        reserve_in@ >= 1,
                ;
            }
            return 1_000_000;
        }
        let q = mul_div(
            &Wide::from_amount(amount_in),
            &Amount::from_u128(1_000_000),
            &Wide::from_amount(&reserve_in),
        );
        proof {
            lemma_ratio_scale(amount_in@, 1_000_000nat, reserve_in@, q@);
        }
        q.to_u128().unwrap() as u64
    }

    /// The best pool for one hop: the first of the highest outputs among
    /// pools serving the pair.
    pub fn best_pool_for_hop(&self, a: &Address, b: &Address, amt: &Amount) -> (r: Option<
        (LiquidityPool, Amount),
    >)
        requires
            self.wf(),
        ensures
            match r {
                None => spec_best_pool_from(self.pools@, *a, *b, amt@, 0) is None,
                Some((p, o)) => spec_best_pool_from(self.pools@, *a, *b, amt@, 0) == Some(
                    (p, o@),
                ),
            },
    {
        let n = self.pools.len();
        let mut i: usize = n;
        let mut cur: Option<(LiquidityPool, Amount)> = None;
        while i > 0
            invariant
                self.wf(),
                n == self.pools@.len(),
                i <= n,
                match cur {
                    None => spec_best_pool_from(self.pools@, *a, *b, amt@, i as nat) is None,
                    Some((p, o)) => spec_best_pool_from(self.pools@, *a, *b, amt@, i as nat)
                        == Some((p, o@)),
                },
            decreases i,
        {
            i = i - 1;
            let p = self.pools[i];
            if (p.token_a == *a && p.token_b == *b) || (p.token_a == *b && p.token_b == *a) {
                let o = self.calculate_output(&p, a, amt);
                cur = match cur {
                    None => Some((p, o)),
                    Some((q, oq)) => if o.lt(&oq) {
                        Some((q, oq))
                    } else {
                        Some((p, o))
                    },
                };
            }
        }
        cur
    }

    /// Evaluates a token path: the greedy best pool per hop, the carried
    /// output, the saturating gas and impact totals, and the score.
    pub fn evaluate_path(&self, path: &Vec<Address>, amount_in: &Amount) -> (r: Option<Route>)
        requires
            self.wf(),
        ensures
            match r {
                None => path@.len() < 2 || spec_eval_from(self.pools@, path@, 0, amount_in@)
                    is None,
                Some(rt) => {
                    &&& path@.len() >= 2
                    &&& rt.path@ == path@
                    &&& spec_eval_from(self.pools@, path@, 0, amount_in@) == Some(
                        (rt.pools@, rt.output_amount@, rt.gas_cost as nat, rt.price_impact as nat),
                    )
                    &&& rt.score == spec_route_score(
                        rt.output_amount@,
                        rt.gas_cost as nat,
                        rt.price_impact as nat,
                    )
                },
            },
    {
        let n = path.len();
        if n < 2 {
            return None;
        }
        let mut pools_acc: Vec<LiquidityPool> = Vec::new();
        let mut carry: Amount = *amount_in;
        let mut gas: u64 = 0;
        let mut impact: u64 = 0;
        let ghost whole = spec_eval_from(self.pools@, path@, 0, amount_in@);
        let mut idx: usize = 0;
        proof {
            assert(pools_acc@ =~= Seq::<LiquidityPool>::empty());
        }
        while idx + 1 < n
            invariant
                self.wf(),
                n == path@.len(),
                n >= 2,
                idx + 1 <= n,
                gas <= u64::MAX,
                impact <= 1_000_000_000,
                whole == spec_eval_from(self.pools@, path@, 0, amount_in@),
                whole == match spec_eval_from(self.pools@, path@, idx as nat, carry@) {
                    None => None::<(Seq<LiquidityPool>, nat, nat, nat)>,
                    Some((ps, out, g, im)) => Some(
                        (
                            pools_acc@ + ps,
                            out,
                            sat_u64((gas + g) as nat),
                            sat_impact((impact + im) as nat),
                        ),
                    ),
                },
            decreases n - idx,
        {
            let hop_in = path[idx];
            let hop_out = path[idx + 1];
            let best = self.best_pool_for_hop(&hop_in, &hop_out, &carry);
            match best {
                None => {
                    return None;
                },
                Some((p, o)) => {
                    if o.is_zero() {
                        return None;
                    }
                    let hop_impact = self.calculate_price_impact(&p, &hop_in, &carry);
                    proof {
                        let rest = spec_eval_from(self.pools@, path@, (idx + 1) as nat, o@);
                        match rest {
                            Some((ps2, out2, g2, im2)) => {
                                assert(pools_acc@.push(p) + ps2 =~= pools_acc@ + (seq![p] + ps2));
                            },
                            None => {},
                        }
                    }
                    pools_acc.push(p);
                    gas = if gas <= u64::MAX - p.gas_cost {
                        gas + p.gas_cost
                    } else {
                        u64::MAX
                    };
                    impact = if impact + hop_impact <= 1_000_000_000 {
                        impact + hop_impact
                    } else {
                        1_000_000_000
                    };
                    carry = o;
                },
            }
            idx = idx + 1;
        }
        let score = self.calculate_route_score(&carry, gas, impact);
        let mut path_copy: Vec<Address> = Vec::new();
        let mut t: usize = 0;
        while t < n
            invariant
                n == path@.len(),
                t <= n,
                path_copy@ =~= path@.take(t as int),
            decreases n - t,
        {
            proof {
                assert(path@.take(t + 1) =~= path@.take(t as int).push(path@[t as int]));
            }
            path_copy.push(path[t]);
            t = t + 1;
        }
        proof {
            assert(path@.take(n as int) =~= path@);
        }
        Some(
            Route {
                pools: pools_acc,
                path: path_copy,
                output_amount: carry,
                gas_cost: gas,
                price_impact: impact,
                score,
            },
        )
    }

    /// Every candidate token path from `start` to `end` touching at most
    /// `max_depth` tokens: anchored at both ends, no token repeated, each
    /// hop served by a registered pool. The enumeration is deterministic,
    /// depth first, sound and complete: a path is returned exactly when it
    /// is a candidate.
    pub fn find_paths_bfs(&self, start: &Address, end: &Address, max_depth: usize) -> (r: Vec<
        Vec<Address>,
    >)
        requires
            self.wf(),
        ensures
            forall|k: int|
                0 <= k < r@.len() ==> spec_path_ok(
                    self.pools@,
                    *start,
                    *end,
                    max_depth as nat,
                    (#[trigger] r@[k])@,
                ),
            forall|p: Seq<Address>|
                spec_path_ok(self.pools@, *start, *end, max_depth as nat, p)
                    ==> crate::paths::path_views(r@).contains(p),
    {
        let mut seed: Vec<Address> = Vec::new();
        seed.push(*start);
        proof {
            assert(seed@ =~= seq![*start]);
            // anchoring at `start` and extending the one-token seed say
            // the same thing
            assert forall|p: Seq<Address>|
                spec_path_ok(self.pools@, *start, *end, max_depth as nat, p)
                    == crate::paths::spec_extends_to(
                    self.pools@,
                    *end,
                    max_depth as nat,
                    seed@,
                    p,
                ) by {
                if p.len() >= 1 {
                    assert(p.take(1) =~= seq![p[0]]);
                    if p[0] == *start {
                        assert(p.take(1) =~= seq![*start]);
                    }
                    if p.take(1) == seed@ {
                        assert(p[0] == p.take(1)[0]);
                    }
                }
            };
        }
        crate::paths::explore(&self.pools, end, max_depth, &seed)
    }

    /// The best single-pool route for an ordered pair, by score.
    pub fn find_direct_route(&self, token_in: &Address, token_out: &Address, amount_in: &Amount)
        -> (r: Option<Route>)
        requires
            self.wf(),
        ensures
            match r {
                None => spec_best_direct_from(self.pools@, *token_in, *token_out, amount_in@, 0)
                    is None,
                Some(rt) => {
                    &&& match spec_best_direct_from(
                        self.pools@,
                        *token_in,
                        *token_out,
                        amount_in@,
                        0,
                    ) {
                        Some((p, o, imp, sc)) => rt.pools@ == seq![p] && rt.output_amount@ == o
                            && rt.price_impact == imp && rt.score == sc && rt.gas_cost
                            == p.gas_cost,
                        None => false,
                    }
                    &&& rt.path@ == seq![*token_in, *token_out]
                },
            },
    {
        let n = self.pools.len();
        let mut i: usize = n;
        let mut best: Option<(LiquidityPool, Amount, u64, i128)> = None;
        while i > 0
            invariant
                self.wf(),
                n == self.pools@.len(),
                i <= n,
                match best {
                    None => spec_best_direct_from(
                        self.pools@,
                        *token_in,
                        *token_out,
                        amount_in@,
                        i as nat,
                    ) is None,
                    Some((p, o, imp, sc)) => spec_best_direct_from(
                        self.pools@,
                        *token_in,
                        *token_out,
                        amount_in@,
                        i as nat,
                    ) == Some((p, o@, imp as nat, sc as int)),
                },
            decreases i,
        {
            i = i - 1;
            let p = self.pools[i];
            if (p.token_a == *token_in && p.token_b == *token_out) || (p.token_a == *token_out
                && p.token_b == *token_in) {
                let o = self.calculate_output(&p, token_in, amount_in);
                if !o.is_zero() {
                    let imp = self.calculate_price_impact(&p, token_in, amount_in);
                    let sc = self.calculate_route_score(&o, p.gas_cost, imp);
                    best = match best {
                        None => Some((p, o, imp, sc)),
                        Some((q, oq, iq, sq)) => if sq > sc {
                            Some((q, oq, iq, sq))
                        } else {
                            Some((p, o, imp, sc))
                        },
                    };
                }
            }
        }
        match best {
            None => None,
            Some((p, o, imp, sc)) => {
                let mut pools_v: Vec<LiquidityPool> = Vec::new();
                pools_v.push(p);
                let mut path_v: Vec<Address> = Vec::new();
                path_v.push(*token_in);
                path_v.push(*token_out);
                proof {
                    assert(pools_v@ =~= seq![p]);
                    assert(path_v@ =~= seq![*token_in, *token_out]);
                }
                Some(
                    Route {
                        pools: pools_v,
                        path: path_v,
                        output_amount: o,
                        gas_cost: p.gas_cost,
                        price_impact: imp,
                        score: sc,
                    },
                )
            },
        }
    }

    /// All candidate routes for a query: the best direct route, and, when
    /// more than one hop is allowed, one route per enumerated multi-hop
    /// path; only routes within the impact cap are kept.
    /// All candidate routes for a query, within the impact cap: the best
    /// direct route, and, when more than one hop is allowed, the exact
    /// evaluation of every candidate path. Every admissible candidate is
    /// represented in the result.
    pub fn find_all_routes(&self, token_in: &Address, token_out: &Address, amount_in: &Amount)
        -> (r: Vec<Route>)
        requires
            self.wf(),
        ensures
            forall|k: int|
                0 <= k < r@.len() ==> spec_route_ok(
                    *self,
                    *token_in,
                    *token_out,
                    #[trigger] r@[k],
                ),
            forall|k: int|
                0 <= k < r@.len() ==> spec_route_sourced(
                    *self,
                    *token_in,
                    amount_in@,
                    #[trigger] r@[k],
                ),
            self.max_hops <= 1 ==> ((r@.len() == 0) <==> spec_direct_unavailable(
                *self,
                *token_in,
                *token_out,
                amount_in@,
            )),
            r@.len() == 0 ==> spec_direct_unavailable(*self, *token_in, *token_out, amount_in@),
            match spec_best_direct_from(self.pools@, *token_in, *token_out, amount_in@, 0) {
                Some((p, o, imp, sc)) => imp <= self.max_price_impact ==> exists|k: int|
                    0 <= k < r@.len() && (#[trigger] r@[k]).score as int == sc,
                None => true,
            },
            forall|p: Seq<Address>|
                spec_path_ok(self.pools@, *token_in, *token_out, self.max_hops as nat, p)
                    ==> match spec_eval_from(self.pools@, p, 0, amount_in@) {
                    Some(tup) => tup.3 <= self.max_price_impact ==> exists|k: int|
                        0 <= k < r@.len() && spec_evaluated_route(
                            *self,
                            amount_in@,
                            p,
                            #[trigger] r@[k],
                        ),
                    None => true,
                },
    {
        let mut candidates: Vec<Route> = Vec::new();
        let ghost unavailable = spec_direct_unavailable(*self, *token_in, *token_out, amount_in@);
        let ghost dspec = spec_best_direct_from(self.pools@, *token_in, *token_out, amount_in@, 0);
        match self.find_direct_route(token_in, token_out, amount_in) {
            Some(rt) => {
                proof {
                    lemma_best_direct_props(self.pools@, *token_in, *token_out, amount_in@, 0);
                    assert(spec_route_pre_ok(*self, *token_in, *token_out, rt)) by {
                        assert(rt.pools@.len() == 1);
                        assert(rt.path@.len() == 2);
                        assert(rt.path@[0] == *token_in);
                        assert(rt.path@[1] == *token_out);
                        assert(rt.gas_cost as nat == spec_gas_sum(rt.pools@)) by {
                            assert(rt.pools@.drop_first() =~= Seq::<LiquidityPool>::empty());
                            assert(spec_gas_sum(rt.pools@.drop_first()) == 0);
                        };
                    };
                    assert(spec_route_sourced(*self, *token_in, amount_in@, rt)) by {
                        assert(rt.pools@[0] == rt.pools@.first());
                    };
                    assert(unavailable <==> rt.price_impact > self.max_price_impact);
                }
                candidates.push(rt);
            },
            None => {},
        }
        if self.max_hops > 1 {
            let paths = self.find_paths_bfs(token_in, token_out, self.max_hops);
            let npaths = paths.len();
            let mut k: usize = 0;
            while k < npaths
                invariant
                    self.wf(),
                    npaths == paths@.len(),
                    k <= npaths,
                    self.max_hops > 1,
                    forall|j: int|
                        0 <= j < paths@.len() ==> spec_path_ok(
                            self.pools@,
                            *token_in,
                            *token_out,
                            self.max_hops as nat,
                            (#[trigger] paths@[j])@,
                        ),
                    forall|j: int|
                        0 <= j < candidates@.len() ==> spec_route_pre_ok(
                            *self,
                            *token_in,
                            *token_out,
                            #[trigger] candidates@[j],
                        ),
                    forall|j: int|
                        0 <= j < candidates@.len() ==> spec_route_sourced(
                            *self,
                            *token_in,
                            amount_in@,
                            #[trigger] candidates@[j],
                        ),
                    unavailable == spec_direct_unavailable(
                        *self,
                        *token_in,
                        *token_out,
                        amount_in@,
                    ),
                    dspec == spec_best_direct_from(
                        self.pools@,
                        *token_in,
                        *token_out,
                        amount_in@,
                        0,
                    ),
                    match dspec {
                        Some((p, o, imp, sc)) => candidates@.len() >= 1 && candidates@[0].score
                            as int == sc && candidates@[0].price_impact as nat == imp,
                        None => true,
                    },
                    !unavailable ==> (candidates@.len() > 0 && candidates@[0].price_impact
                        <= self.max_price_impact),
                    forall|t: int|
                        0 <= t < k ==> match spec_eval_from(
                            self.pools@,
                            (#[trigger] paths@[t])@,
                            0,
                            amount_in@,
                        ) {
                            Some(tup) => exists|j: int|
                                0 <= j < candidates@.len() && spec_evaluated_route(
                                    *self,
                                    amount_in@,
                                    paths@[t]@,
                                    #[trigger] candidates@[j],
                                ),
                            None => true,
                        },
                decreases npaths - k,
            {
                let ghost cand_pre = candidates@;
                match self.evaluate_path(&paths[k], amount_in) {
                    Some(rt) => {
                        proof {
                            lemma_eval_props(self.pools@, paths@[k as int]@, 0, amount_in@);
                            lemma_eval_gas_sum(self.pools@, paths@[k as int]@, 0, amount_in@);
                            assert(spec_evaluated_route(
                                *self,
                                amount_in@,
                                paths@[k as int]@,
                                rt,
                            ));
                        }
                        candidates.push(rt);
                        proof {
                            assert(candidates@[candidates@.len() - 1] == rt);
                            assert(forall|j: int|
                                0 <= j < cand_pre.len() ==> candidates@[j] == cand_pre[j]);
                        }
                    },
                    None => {},
                }
                k = k + 1;
            }
            // every evaluated candidate path is represented
            proof {
                assert forall|p: Seq<Address>|
                    spec_path_ok(
                        self.pools@,
                        *token_in,
                        *token_out,
                        self.max_hops as nat,
                        p,
                    ) implies match spec_eval_from(self.pools@, p, 0, amount_in@) {
                    Some(tup) => exists|j: int|
                        0 <= j < candidates@.len() && spec_evaluated_route(
                            *self,
                            amount_in@,
                            p,
                            #[trigger] candidates@[j],
                        ),
                    None => true,
                } by {
                    assert(crate::paths::path_views(paths@).contains(p));
                    let t = choose|t: int|
                        0 <= t < paths@.len() && crate::paths::path_views(paths@)[t] == p;
                    assert(paths@[t]@ == p);
                };
            }
        } else {
            // with at most one hop no candidate path exists at all
            proof {
                assert forall|p: Seq<Address>|
                    spec_path_ok(
                        self.pools@,
                        *token_in,
                        *token_out,
                        self.max_hops as nat,
                        p,
                    ) implies match spec_eval_from(self.pools@, p, 0, amount_in@) {
                    Some(tup) => exists|j: int|
                        0 <= j < candidates@.len() && spec_evaluated_route(
                            *self,
                            amount_in@,
                            p,
                            #[trigger] candidates@[j],
                        ),
                    None => true,
                } by {
                    assert(p.len() >= 2 && p.len() <= self.max_hops);
                    assert(false);
                };
            }
        }
        // keep only candidates within the impact cap
        let ghost cand_init = candidates@;
        let ghost mut done: int = 0;
        let mut kept: Vec<Route> = Vec::new();
        while candidates.len() > 0
            invariant
                unavailable == spec_direct_unavailable(*self, *token_in, *token_out, amount_in@),
                0 <= done <= cand_init.len(),
                candidates@ =~= cand_init.skip(done),
                forall|j: int|
                    0 <= j < cand_init.len() ==> spec_route_pre_ok(
                        *self,
                        *token_in,
                        *token_out,
                        #[trigger] cand_init[j],
                    ),
                forall|j: int|
                    0 <= j < cand_init.len() ==> spec_route_sourced(
                        *self,
                        *token_in,
                        amount_in@,
                        #[trigger] cand_init[j],
                    ),
                forall|j: int|
                    0 <= j < done ==> ((#[trigger] cand_init[j]).price_impact
                        <= self.max_price_impact ==> exists|k: int|
                        0 <= k < kept@.len() && #[trigger] kept@[k] == cand_init[j]),
                forall|j: int|
                    0 <= j < kept@.len() ==> spec_route_ok(
                        *self,
                        *token_in,
                        *token_out,
                        #[trigger] kept@[j],
                    ),
                forall|j: int|
                    0 <= j < kept@.len() ==> spec_route_sourced(
                        *self,
                        *token_in,
                        amount_in@,
                        #[trigger] kept@[j],
                    ),
                self.max_hops <= 1 ==> cand_init.len() <= 1,
                !unavailable ==> (kept@.len() > 0 || (candidates@.len() > 0
                    && candidates@[0].price_impact <= self.max_price_impact)),
                self.max_hops <= 1 ==> ((kept@.len() > 0 && !unavailable) || (kept@.len() == 0
                    && candidates@.len() == 0 && unavailable) || (kept@.len() == 0
                    && candidates@.len() > 0 && ((candidates@[0].price_impact
                    <= self.max_price_impact) <==> !unavailable))),
            decreases candidates@.len(),
        {
            let ghost pre = candidates@;
            let rt = candidates.remove(0);
            proof {
                assert(cand_init =~= cand_init.take(done) + cand_init.skip(done));
                assert(cand_init.take(done).len() == done);
                assert(rt == cand_init[done]);
                assert(candidates@ =~= cand_init.skip(done + 1)) by {
                    assert(pre.drop_first() =~= candidates@);
                    assert(cand_init.skip(done).drop_first() =~= cand_init.skip(done + 1));
                };
            }
            if rt.price_impact <= self.max_price_impact {
                let ghost kept_pre = kept@;
                kept.push(rt);
                proof {
                    assert(kept@[kept@.len() - 1] == cand_init[done]);
                    assert(forall|j: int| 0 <= j < kept_pre.len() ==> kept@[j] == kept_pre[j]);
                }
            }
            proof {
                done = done + 1;
            }
        }
        proof {
            assert(cand_init.skip(done).len() == 0);
            assert(done == cand_init.len());
            // surface the containment facts on the kept list
            match dspec {
                Some((p, o, imp, sc)) => {
                    if imp <= self.max_price_impact {
                        assert(cand_init[0].price_impact <= self.max_price_impact);
                        assert(exists|k: int|
                            0 <= k < kept@.len() && #[trigger] kept@[k] == cand_init[0]);
                        let k0 = choose|k: int|
                            0 <= k < kept@.len() && #[trigger] kept@[k] == cand_init[0];
                        assert(kept@[k0].score as int == sc);
                    }
                },
                None => {},
            }
            assert forall|p: Seq<Address>|
                spec_path_ok(
                    self.pools@,
                    *token_in,
                    *token_out,
                    self.max_hops as nat,
                    p,
                ) implies match spec_eval_from(self.pools@, p, 0, amount_in@) {
                Some(tup) => tup.3 <= self.max_price_impact ==> exists|k: int|
                    0 <= k < kept@.len() && spec_evaluated_route(
                        *self,
                        amount_in@,
                        p,
                        #[trigger] kept@[k],
                    ),
                None => true,
            } by {
                match spec_eval_from(self.pools@, p, 0, amount_in@) {
                    Some(tup) => {
                        if tup.3 <= self.max_price_impact {
                            let j = choose|j: int|
                                0 <= j < cand_init.len() && spec_evaluated_route(
                                    *self,
                                    amount_in@,
                                    p,
                                    #[trigger] cand_init[j],
                                );
                            assert(cand_init[j].price_impact as nat == tup.3);
                            assert(exists|k: int|
                                0 <= k < kept@.len() && #[trigger] kept@[k] == cand_init[j]);
                            let k0 = choose|k: int|
                                0 <= k < kept@.len() && #[trigger] kept@[k] == cand_init[j];
                            assert(spec_evaluated_route(*self, amount_in@, p, kept@[k0]));
                        }
                    },
                    None => {},
                }
            };
        }
        kept
    }

    /// The best route for a query: the candidate of highest score within
    /// the impact cap, later candidates winning ties. With a route, its
    /// score is at least that of the admissible best direct pool and of
    /// every admissible evaluated path; without one, no admissible direct
    /// pool exists and every candidate path fails evaluation or exceeds
    /// the impact cap. With at most one hop allowed, a returned route is
    /// a single-pool route.
    pub fn find_best_route(&self, token_in: &Address, token_out: &Address, amount_in: &Amount)
        -> (r: Option<Route>)
        requires
            self.wf(),
        ensures
            match r {
                Some(rt) => {
                    &&& spec_route_ok(*self, *token_in, *token_out, rt)
                    &&& spec_route_sourced(*self, *token_in, amount_in@, rt)
                    &&& (self.max_hops <= 1 ==> rt.pools@.len() == 1)
                    &&& match spec_best_direct_from(
                        self.pools@,
                        *token_in,
                        *token_out,
                        amount_in@,
                        0,
                    ) {
                        Some((p, o, imp, sc)) => imp <= self.max_price_impact ==> rt.score as int
                            >= sc,
                        None => true,
                    }
                    &&& forall|p: Seq<Address>|
                        spec_path_ok(self.pools@, *token_in, *token_out, self.max_hops as nat, p)
                            ==> match spec_eval_from(self.pools@, p, 0, amount_in@) {
                            Some(tup) => tup.3 <= self.max_price_impact ==> rt.score as int
                                >= spec_route_score(tup.1, tup.2, tup.3),
                            None => true,
                        }
                },
                None => {
                    &&& spec_direct_unavailable(*self, *token_in, *token_out, amount_in@)
                    &&& forall|p: Seq<Address>|
                        spec_path_ok(self.pools@, *token_in, *token_out, self.max_hops as nat, p)
                            ==> match spec_eval_from(self.pools@, p, 0, amount_in@) {
                            Some(tup) => tup.3 > self.max_price_impact,
                            None => true,
                        }
                },
            },
    {
        let mut routes = self.find_all_routes(token_in, token_out, amount_in);
        let ghost init = routes@;
        let ghost mut done: int = 0;
        let mut best: Option<Route> = None;
        while routes.len() > 0
            invariant
                0 <= done <= init.len(),
                routes@ =~= init.skip(done),
                forall|j: int|
                    0 <= j < init.len() ==> spec_route_ok(
                        *self,
                        *token_in,
                        *token_out,
                        #[trigger] init[j],
                    ),
                forall|j: int|
                    0 <= j < init.len() ==> spec_route_sourced(
                        *self,
                        *token_in,
                        amount_in@,
                        #[trigger] init[j],
                    ),
                match best {
                    None => done == 0,
                    Some(rt) => {
                        &&& spec_route_ok(*self, *token_in, *token_out, rt)
                        &&& spec_route_sourced(*self, *token_in, amount_in@, rt)
                        &&& forall|j: int|
                            0 <= j < done ==> (#[trigger] init[j]).score <= rt.score
                    },
                },
            decreases routes@.len(),
        {
            let ghost pre = routes@;
            let rt = routes.remove(0);
            proof {
                assert(init =~= init.take(done) + init.skip(done));
                assert(init.take(done).len() == done);
                assert(rt == init[done]);
                assert(routes@ =~= init.skip(done + 1)) by {
                    assert(pre.drop_first() =~= routes@);
                    assert(init.skip(done).drop_first() =~= init.skip(done + 1));
                };
            }
            best = match best {
                None => Some(rt),
                Some(b) => if rt.score >= b.score {
                    Some(rt)
                } else {
                    Some(b)
                },
            };
            proof {
                done = done + 1;
            }
        }
        proof {
            assert(init.skip(done).len() == 0);
            assert(done == init.len());
            let ghost bopt = best;
            match bopt {
                Some(rt) => {
                    // the winner dominates every listed candidate, and the
                    // list holds one for each admissible source
                    match spec_best_direct_from(
                        self.pools@,
                        *token_in,
                        *token_out,
                        amount_in@,
                        0,
                    ) {
                        Some((p, o, imp, sc)) => {
                            if imp <= self.max_price_impact {
                                let k0 = choose|k: int|
                                    0 <= k < init.len() && (#[trigger] init[k]).score as int
                                        == sc;
                                assert(init[k0].score <= rt.score);
                            }
                        },
                        None => {},
                    }
                    assert forall|p: Seq<Address>|
                        spec_path_ok(
                            self.pools@,
                            *token_in,
                            *token_out,
                            self.max_hops as nat,
                            p,
                        ) implies match spec_eval_from(self.pools@, p, 0, amount_in@) {
                        Some(tup) => tup.3 <= self.max_price_impact ==> rt.score as int
                            >= spec_route_score(tup.1, tup.2, tup.3),
                        None => true,
                    } by {
                        match spec_eval_from(self.pools@, p, 0, amount_in@) {
                            Some(tup) => {
                                if tup.3 <= self.max_price_impact {
                                    let k0 = choose|k: int|
                                        0 <= k < init.len() && spec_evaluated_route(
                                            *self,
                                            amount_in@,
                                            p,
                                            #[trigger] init[k],
                                        );
                                    assert(init[k0].score <= rt.score);
                                    assert(init[k0].score as int == spec_route_score(
                                        tup.1,
                                        tup.2,
                                        tup.3,
                                    ));
                                }
                            },
                            None => {},
                        }
                    };
                },
                None => {
                    assert(init.len() == 0);
                    assert forall|p: Seq<Address>|
                        spec_path_ok(
                            self.pools@,
                            *token_in,
                            *token_out,
                            self.max_hops as nat,
                            p,
                        ) implies match spec_eval_from(self.pools@, p, 0, amount_in@) {
                        Some(tup) => tup.3 > self.max_price_impact,
                        None => true,
                    } by {
                        match spec_eval_from(self.pools@, p, 0, amount_in@) {
                            Some(tup) => {
                                if tup.3 <= self.max_price_impact {
                                    assert(exists|k: int|
                                        0 <= k < init.len() && spec_evaluated_route(
                                            *self,
                                            amount_in@,
                                            p,
                                            #[trigger] init[k],
                                        ));
                                    assert(false);
                                }
                            },
                            None => {},
                        }
                    };
                },
            }
        }
        best
    }

    /// Route score in wad form.
    pub fn calculate_route_score(&self, output_amount: &Amount, gas_cost: u64, price_impact: u64)
        -> (r: i128)
        requires
            price_impact <= 1_000_000_000,
        ensures
            r == spec_route_score(output_amount@, gas_cost as nat, price_impact as nat),
    {
        let out_sat: i128 = if output_amount.hi == 0 && output_amount.lo
            <= 0x7fffffffffffffffffffffffffffffff {
            proof {
                lemma_zero_times(crate::amount::pow128());
            }
            output_amount.lo as i128
        } else {
            proof {
                if output_amount.hi != 0 {
                    assert(output_amount.hi * crate::amount::pow128() >= crate::amount::pow128())
                        by (nonlinear_arith)
                        requires
                            output_amount.hi >= 1,
                            crate::amount::pow128() > 0,
                    ;
                }
            }
            i128::MAX
        };
        out_sat - (gas_cost as i128) * 1_000_000_000_000 - (price_impact as i128)
            * 1_000_000_000_000
    }
}

impl Default for RoutingEngine {
    /// Up to three tokens per path; five percent as the impact cap.
    fn default() -> (r: RoutingEngine)
        ensures
            r.pools@.len() == 0,
            r.max_hops == 3,
            r.max_price_impact == 50_000,
            r.wf(),
    {
        RoutingEngine::new(3, 50_000)
    }
}

} // verus!
