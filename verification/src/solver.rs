//! The batch-auction orchestrator: filter orders, match coincidences of
//! wants, set uniform clearing prices, assemble a settlement, and admit it
//! only when profitable.
//!
//! The pipeline is a pure function of the batch and the current time.
//! Thresholds and scores are wad values; slippage is in parts per million.

use vstd::prelude::*;
use crate::address::Address;
use crate::amount::{Amount, pow256};
use crate::matching::{is_floor_sqrt, spec_floor_sqrt, lemma_floor_sqrt_unique};
use crate::orders::{Order, OrderId, OrderStatus, spec_limit_price_wad};
use crate::settlement::{SettlementPlan, Trade, spec_estimate_gas};
use crate::wide::{mul_wide, div_wide, isqrt_wide, le_scaled, Wide};
use crate::Error;

verus! {

broadcast use vstd::seq_lib::group_seq_properties;

/// Solver configuration.
#[derive(Clone, Copy, PartialEq, Eq, Structural, Debug)]
pub struct SolverConfig {
    /// Upper bound on the admissible gas price, in gwei.
    pub max_gas_price: u64,
    /// Minimum admissible solution score, in wad form.
    pub min_profit_threshold: i128,
    /// Price-compatibility tolerance, in ppm of the executed fraction.
    pub max_slippage: u64,
    /// Gate for the matching step.
    pub enable_cow_matching: bool,
    /// Gate for the routing step.
    pub enable_amm_routing: bool,
    /// Gate for cross-chain post-hooks.
    pub enable_cross_chain: bool,
    /// Wall-clock budget per solve, in milliseconds; honoured by the
    /// embedding that drives this pure pipeline.
    pub timeout_ms: u64,
}

impl Default for SolverConfig {
    /// One hundred gwei, a hundredth of a unit as the profit floor, half
    /// a percent slippage, all stages enabled, five seconds.
    fn default() -> (r: SolverConfig)
        ensures
            r.max_gas_price == 100,
            r.min_profit_threshold == 10_000_000_000_000_000i128,
            r.max_slippage == 5_000,
            r.enable_cow_matching,
            r.enable_amm_routing,
            r.enable_cross_chain,
            r.timeout_ms == 5000,
    {
        SolverConfig {
            max_gas_price: 100,
            min_profit_threshold: 10_000_000_000_000_000,
            max_slippage: 5_000,
            enable_cow_matching: true,
            enable_amm_routing: true,
            enable_cross_chain: true,
            timeout_ms: 5000,
        }
    }
}

/// A solution: the settlement plan plus its accounting.
#[derive(Clone, Debug)]
pub struct Solution {
    /// Orders included, one per trade.
    pub orders: Vec<OrderId>,
    /// The settlement plan.
    pub settlement: SettlementPlan,
    /// Estimated gas cost.
    pub gas_cost: u64,
    /// Total surplus, in wad form.
    pub surplus: u128,
    /// Quality score, in wad form.
    pub score: i128,
}

/// Solution score: the surplus (saturated to the signed 128-bit range)
/// minus the gas cost converted from gwei to wad.
pub open spec fn spec_solution_score(surplus: u128, gas_cost: u64) -> int {
    let s: int = if surplus > i128::MAX {
        i128::MAX as int
    } else {
        surplus as int
    };
    s - gas_cost * 1_000_000_000
}

impl Solution {
    /// Computes the score from the surplus and gas cost.
    pub fn calculate_score(&mut self)
        ensures
            final(self).score == spec_solution_score(old(self).surplus, old(self).gas_cost),
            final(self).orders == old(self).orders,
            final(self).settlement == old(self).settlement,
            final(self).gas_cost == old(self).gas_cost,
            final(self).surplus == old(self).surplus,
    {
        let s: i128 = if self.surplus > i128::MAX as u128 {
            i128::MAX
        } else {
            self.surplus as i128
        };
        self.score = s - (self.gas_cost as i128) * 1_000_000_000;
    }

    /// Whether the score reaches a profit threshold.
    pub fn is_profitable(&self, min_threshold: i128) -> (r: bool)
        ensures
            r == (self.score >= min_threshold),
    {
        self.score >= min_threshold
    }
}

/// Context of one auction round.
#[derive(Clone, Debug)]
pub struct AuctionContext {
    /// Current block number.
    pub block_number: u64,
    /// Current timestamp.
    pub timestamp: u32,
    /// Current gas price.
    pub gas_price: u64,
    /// Liquidity sources available.
    pub liquidity_sources: Vec<String>,
}

/// An order survives filtering when open, unexpired and with positive
/// amounts.
pub open spec fn spec_order_keepable(o: Order, now: u32) -> bool {
    &&& o.status == OrderStatus::Open
    &&& o.valid_to >= now
    &&& o.sell_amount@ > 0
    &&& o.buy_amount@ > 0
}

/// The filter predicate at a given time.
pub open spec fn keepable(now: u32) -> spec_fn(Order) -> bool {
    |o: Order| spec_order_keepable(o, now)
}

/// Two orders are price compatible under a slippage tolerance:
/// `buy_a/sell_a <= (sell_b/buy_b) * (1 + slippage)` by exact
/// cross-multiplication.
pub open spec fn spec_price_compatible(a: Order, b: Order, slippage_ppm: u64) -> bool {
    a.buy_amount@ * b.buy_amount@ * 1_000_000 <= a.sell_amount@ * b.sell_amount@ * (1_000_000
        + slippage_ppm)
}

/// A coincidence-of-wants pair: crossing tokens and compatible prices.
pub open spec fn spec_cow_pair(a: Order, b: Order, slippage_ppm: u64) -> bool {
    a.sell_token == b.buy_token && a.buy_token == b.sell_token && spec_price_compatible(
        a,
        b,
        slippage_ppm,
    )
}

/// The matched index pairs from position `(i, j)` onward, in enumeration
/// order.
pub open spec fn spec_cow_from(s: Seq<Order>, slippage_ppm: u64, i: nat, j: nat) -> Seq<
    (usize, usize),
>
    decreases s.len() - i, s.len() - j,
    when i <= j
{
    if i >= s.len() {
        Seq::empty()
    } else if j >= s.len() {
        spec_cow_from(s, slippage_ppm, i + 1, i + 2)
    } else {
        let rest = spec_cow_from(s, slippage_ppm, i, j + 1);
        if spec_cow_pair(s[i as int], s[j as int], slippage_ppm) {
            seq![(i as usize, j as usize)] + rest
        } else {
            rest
        }
    }
}

/// Greedy disjoint selection over index pairs: keep a pair exactly when
/// neither index was used before.
pub open spec fn spec_select_pairs(ps: Seq<(usize, usize)>, used: Set<usize>) -> Seq<
    (usize, usize),
>
    decreases ps.len(),
{
    if ps.len() == 0 {
        Seq::empty()
    } else {
        let (a, b) = ps[0];
        if !used.contains(a) && !used.contains(b) {
            seq![ps[0]] + spec_select_pairs(ps.drop_first(), used.insert(a).insert(b))
        } else {
            spec_select_pairs(ps.drop_first(), used)
        }
    }
}

/// Two index pairs share no index.
pub open spec fn pairs_disjoint(p: (usize, usize), q: (usize, usize)) -> bool {
    p.0 != q.0 && p.0 != q.1 && p.1 != q.0 && p.1 != q.1
}

/// Whatever the greedy pair selection keeps avoids the used set, and the
/// kept pairs are pairwise disjoint over order indices.
pub proof fn lemma_select_pairs_disjoint(ps: Seq<(usize, usize)>, used: Set<usize>)
    ensures
        forall|k: int|
            0 <= k < spec_select_pairs(ps, used).len() ==> !used.contains(
                (#[trigger] spec_select_pairs(ps, used)[k]).0,
            ) && !used.contains(spec_select_pairs(ps, used)[k].1),
        forall|k1: int, k2: int|
            0 <= k1 < k2 < spec_select_pairs(ps, used).len() ==> pairs_disjoint(
                #[trigger] spec_select_pairs(ps, used)[k1],
                #[trigger] spec_select_pairs(ps, used)[k2],
            ),
    decreases ps.len(),
{
    if ps.len() == 0 {
    } else {
        let (a, b) = ps[0];
        if !used.contains(a) && !used.contains(b) {
            let used2 = used.insert(a).insert(b);
            lemma_select_pairs_disjoint(ps.drop_first(), used2);
            let rest = spec_select_pairs(ps.drop_first(), used2);
            let whole = spec_select_pairs(ps, used);
            assert(whole == seq![ps[0]] + rest);
            assert forall|k: int|
                0 <= k < whole.len() implies !used.contains((#[trigger] whole[k]).0)
                && !used.contains(whole[k].1) by {
                if k > 0 {
                    assert(whole[k] == rest[k - 1]);
                    assert(!used2.contains(rest[k - 1].0) && !used2.contains(rest[k - 1].1));
                }
            };
            assert forall|k1: int, k2: int|
                0 <= k1 < k2 < whole.len() implies pairs_disjoint(whole[k1], whole[k2]) by {
                if k1 == 0 {
                    assert(whole[k2] == rest[k2 - 1]);
                    assert(!used2.contains(rest[k2 - 1].0) && !used2.contains(rest[k2 - 1].1));
                    assert(used2.contains(a) && used2.contains(b));
                } else {
                    assert(whole[k1] == rest[k1 - 1]);
                    assert(whole[k2] == rest[k2 - 1]);
                    assert(pairs_disjoint(rest[k1 - 1], rest[k2 - 1]));
                }
            };
        } else {
            lemma_select_pairs_disjoint(ps.drop_first(), used);
            assert(spec_select_pairs(ps, used) == spec_select_pairs(ps.drop_first(), used));
        }
    }
}

/// The inverse limit price `sell_amount / buy_amount` in wad form,
/// saturated; zero when the buy amount is zero.
pub open spec fn spec_inverse_price_wad(o: Order) -> nat {
    if o.buy_amount@ == 0 {
        0
    } else if o.sell_amount@ * 1_000_000_000_000_000_000 / o.buy_amount@ >= pow256() {
        (pow256() - 1) as nat
    } else {
        o.sell_amount@ * 1_000_000_000_000_000_000 / o.buy_amount@
    }
}

/// The uniform clearing price of a matched pair: the geometric mean of
/// the two limit prices, in wad form.
pub open spec fn spec_clearing_price(a: Order, b: Order) -> nat {
    spec_floor_sqrt(spec_limit_price_wad(a) * spec_inverse_price_wad(b))
}

/// The trades a selection settles: per pair, one full-fill trade per
/// order.
pub open spec fn spec_built_trades(s: Seq<Order>, sel: Seq<(usize, usize)>, n: nat) -> Seq<Trade>
    decreases n,
{
    if n == 0 {
        Seq::empty()
    } else {
        let prev = spec_built_trades(s, sel, (n - 1) as nat);
        let (i, j) = sel[n - 1];
        let a = s[i as int];
        let b = s[j as int];
        prev + seq![
            Trade {
                order_id: a.id,
                executed_sell_amount: a.sell_amount,
                executed_buy_amount: a.buy_amount,
                fee: a.fee_amount,
            },
            Trade {
                order_id: b.id,
                executed_sell_amount: b.sell_amount,
                executed_buy_amount: b.buy_amount,
                fee: b.fee_amount,
            },
        ]
    }
}

/// The clearing price a selection leaves for a token: both tokens of each
/// pair receive the pair's price, later pairs overriding earlier ones.
pub open spec fn spec_built_price(s: Seq<Order>, sel: Seq<(usize, usize)>, n: nat, t: Address)
    -> Option<nat>
    decreases n,
{
    if n == 0 {
        None
    } else {
        let (i, j) = sel[n - 1];
        let a = s[i as int];
        if t == a.sell_token || t == a.buy_token {
            Some(spec_clearing_price(a, s[j as int]))
        } else {
            spec_built_price(s, sel, (n - 1) as nat, t)
        }
    }
}

/// The price map of a plan matches what the selection dictates.
pub open spec fn spec_prices_match(
    s: Seq<Order>,
    sel: Seq<(usize, usize)>,
    plan: SettlementPlan,
) -> bool {
    forall|t: Address|
        match #[trigger] plan.spec_price_of(t) {
            Some(p) => spec_built_price(s, sel, sel.len(), t) == Some(p@),
            None => spec_built_price(s, sel, sel.len(), t) is None,
        }
}

/// The first order carrying an id, if any.
pub open spec fn spec_find_order(s: Seq<Order>, id: OrderId, n: nat) -> Option<Order>
    decreases n,
{
    if n == 0 {
        None
    } else {
        match spec_find_order(s, id, (n - 1) as nat) {
            Some(o) => Some(o),
            None => if s[n - 1].id == id {
                Some(s[n - 1])
            } else {
                None
            },
        }
    }
}

/// Surplus of a plan against a batch: per trade, the excess of the
/// referenced order's sell value over its buy value at the plan's
/// prices, in wad form, saturating.
pub open spec fn spec_plan_surplus(s: Seq<Order>, plan: SettlementPlan, n: nat) -> nat
    decreases n,
{
    if n == 0 {
        0
    } else {
        let prev = spec_plan_surplus(s, plan, (n - 1) as nat);
        let tr = plan.trades@[n - 1];
        match spec_find_order(s, tr.order_id, s.len()) {
            None => prev,
            Some(o) => {
                match (plan.spec_price_of(o.sell_token), plan.spec_price_of(o.buy_token)) {
                    (Some(sp), Some(bp)) => {
                        let cv = o.sell_amount@ * sp@;
                        let lv = o.buy_amount@ * bp@;
                        if cv > lv {
                            let term_raw = ((cv - lv) as nat) / 1_000_000_000_000_000_000;
                            let term = if term_raw > u128::MAX {
                                u128::MAX as nat
                            } else {
                                term_raw
                            };
                            if prev + term > u128::MAX {
                                u128::MAX as nat
                            } else {
                                prev + term
                            }
                        } else {
                            prev
                        }
                    },
                    _ => prev,
                }
            },
        }
    }
}

/// The main solver engine for batch auctions.
pub struct SolverEngine {
    /// Configuration in force.
    pub config: SolverConfig,
    /// Engine name.
    pub name: String,
}

impl SolverEngine {
    /// An engine with the given configuration.
    pub fn new(config: SolverConfig) -> (r: SolverEngine)
        ensures
            r.config == config,
            r.name@ == "CoWSolverEngine"@,
    {
        SolverEngine { config, name: "CoWSolverEngine".to_owned() }
    }

    /// The engine's name.
    pub fn name(&self) -> (r: &str)
        ensures
            r@ == self.name@,
    {
        self.name.as_str()
    }

    /// The engine's configuration.
    pub fn config(&self) -> (r: &SolverConfig)
        ensures
            r == self.config,
    {
        &self.config
    }

    /// Keeps exactly the open, unexpired orders with positive amounts.
    pub fn validate_orders(&self, orders: Vec<Order>, now: u32) -> (r: Vec<Order>)
        ensures
            r@ == orders@.filter(keepable(now)),
    {
        let ghost all = orders@;
        let ghost pred = keepable(now);
        let mut rest = orders;
        let mut kept: Vec<Order> = Vec::new();
        let ghost mut done: int = 0;
        proof {
            assert(all.take(0) =~= Seq::<Order>::empty());
            reveal(Seq::filter);
            assert(kept@ =~= all.take(0).filter(pred));
        }
        while rest.len() > 0
            invariant
                pred == keepable(now),
                0 <= done <= all.len(),
                rest@ =~= all.skip(done),
                kept@ =~= all.take(done).filter(pred),
            decreases rest@.len(),
        {
            let o = rest.remove(0);
            let keep = match o.status {
                OrderStatus::Open => o.valid_to >= now && !o.sell_amount.is_zero()
                    && !o.buy_amount.is_zero(),
                _ => false,
            };
            proof {
                assert(o == all[done]);
                assert(rest@ =~= all.skip(done + 1));
                let prefix = all.take(done);
                assert(all.take(done + 1) =~= prefix.push(o));
                assert(prefix.push(o).drop_last() =~= prefix);
                prefix.lemma_filter_push(o, pred);
                assert(keep == pred(o));
                done = done + 1;
            }
            if keep {
                kept.push(o);
            }
        }
        proof {
            assert(all.take(done) =~= all);
        }
        kept
    }

    /// Whether two crossing orders are price compatible under the
    /// configured slippage tolerance.
    pub fn is_price_compatible(&self, order_a: &Order, order_b: &Order) -> (r: bool)
        requires
            self.config.max_slippage <= u64::MAX - 1_000_000,
        ensures
            r == spec_price_compatible(*order_a, *order_b, self.config.max_slippage),
    {
        let x = mul_wide(&order_a.buy_amount, &order_b.buy_amount);
        let y = mul_wide(&order_a.sell_amount, &order_b.sell_amount);
        le_scaled(&x, 1_000_000, &y, 1_000_000 + self.config.max_slippage)
    }

    /// Enumerates the matched index pairs of a batch, in pair order; the
    /// matching gate returns none when disabled.
    pub fn find_cow_matches(&self, orders: &Vec<Order>) -> (r: Vec<(usize, usize)>)
        requires
            self.config.max_slippage <= u64::MAX - 1_000_000,
        ensures
            self.config.enable_cow_matching ==> r@ == spec_cow_from(
                orders@,
                self.config.max_slippage,
                0,
                1,
            ),
            !self.config.enable_cow_matching ==> r@.len() == 0,
            forall|k: int|
                0 <= k < r@.len() ==> (#[trigger] r@[k]).0 < r@[k].1 < orders@.len(),
    {
        let mut out: Vec<(usize, usize)> = Vec::new();
        if !self.config.enable_cow_matching {
            return out;
        }
        let n = orders.len();
        proof {
            assert(spec_cow_from(orders@, self.config.max_slippage, 0, 1) =~= out@
                + spec_cow_from(orders@, self.config.max_slippage, 0, 1));
        }
        let mut i: usize = 0;
        while i < n
            invariant
                self.config.max_slippage <= u64::MAX - 1_000_000,
                n == orders@.len(),
                i <= n,
                spec_cow_from(orders@, self.config.max_slippage, 0, 1) =~= out@ + spec_cow_from(
                    orders@,
                    self.config.max_slippage,
                    i as nat,
                    (i + 1) as nat,
                ),
                forall|k: int|
                    0 <= k < out@.len() ==> (#[trigger] out@[k]).0 < out@[k].1 < orders@.len(),
            decreases n - i,
        {
            let mut j: usize = i + 1;
            while j < n
                invariant
                    self.config.max_slippage <= u64::MAX - 1_000_000,
                    n == orders@.len(),
                    i < n,
                    i + 1 <= j <= n,
                    spec_cow_from(orders@, self.config.max_slippage, 0, 1) =~= out@
                        + spec_cow_from(
                        orders@,
                        self.config.max_slippage,
                        i as nat,
                        j as nat,
                    ),
                    forall|k: int|
                        0 <= k < out@.len() ==> (#[trigger] out@[k]).0 < out@[k].1
                            < orders@.len(),
                decreases n - j,
            {
                let oa = &orders[i];
                let ob = &orders[j];
                if oa.sell_token == ob.buy_token && oa.buy_token == ob.sell_token
                    && self.is_price_compatible(oa, ob) {
                    proof {
                        assert((out@.push((i, j))) + spec_cow_from(
                            orders@,
                            self.config.max_slippage,
                            i as nat,
                            (j + 1) as nat,
                        ) =~= out@ + (seq![(i, j)] + spec_cow_from(
                            orders@,
                            self.config.max_slippage,
                            i as nat,
                            (j + 1) as nat,
                        )));
                    }
                    out.push((i, j));
                }
                j = j + 1;
            }
            i = i + 1;
        }
        out
    }

    /// Greedy disjoint selection over matched index pairs.
    pub fn select_disjoint_pairs(&self, pairs: &Vec<(usize, usize)>) -> (r: Vec<(usize, usize)>)
        ensures
            r@ == spec_select_pairs(pairs@, Set::<usize>::empty()),
            forall|k: int|
                0 <= k < r@.len() ==> pairs@.contains(#[trigger] r@[k]),
            forall|k1: int, k2: int|
                0 <= k1 < k2 < r@.len() ==> pairs_disjoint(
                    #[trigger] r@[k1],
                    #[trigger] r@[k2],
                ),
    {
        proof {
            lemma_select_pairs_disjoint(pairs@, Set::<usize>::empty());
        }
        let n = pairs.len();
        let mut out: Vec<(usize, usize)> = Vec::new();
        let mut used: Vec<usize> = Vec::new();
        let ghost mut used_set: Set<usize> = Set::empty();
        let mut k: usize = 0;
        proof {
            assert(pairs@.skip(0) =~= pairs@);
            assert(spec_select_pairs(pairs@, Set::<usize>::empty()) =~= out@ + spec_select_pairs(
                pairs@.skip(0),
                used_set,
            ));
        }
        while k < n
            invariant
                n == pairs@.len(),
                k <= n,
                spec_select_pairs(pairs@, Set::<usize>::empty()) =~= out@ + spec_select_pairs(
                    pairs@.skip(k as int),
                    used_set,
                ),
                forall|x: usize| used@.contains(x) <==> used_set.contains(x),
                forall|t: int| 0 <= t < out@.len() ==> pairs@.contains(#[trigger] out@[t]),
            decreases n - k,
        {
            let (a, b) = pairs[k];
            let a_used = index_in(a, &used);
            let b_used = index_in(b, &used);
            proof {
                assert(pairs@.skip(k as int)[0] == pairs@[k as int]);
                assert(pairs@.skip(k as int).drop_first() =~= pairs@.skip(k + 1));
            }
            if !a_used && !b_used {
                let ghost used_pre = used@;
                used.push(a);
                used.push(b);
                proof {
                    assert(used@ =~= used_pre.push(a).push(b));
                    used_set = used_set.insert(a).insert(b);
                    assert forall|x: usize| used@.contains(x) <==> used_set.contains(x) by {
                        assert(used_pre.push(a).push(b).contains(x) <==> (used_pre.push(a).contains(
                            x,
                        ) || x == b));
                        assert(used_pre.push(a).contains(x) <==> (used_pre.contains(x) || x == a));
                    };
                    assert(out@.push(pairs@[k as int]) + spec_select_pairs(
                        pairs@.skip(k + 1),
                        used_set,
                    ) =~= out@ + (seq![pairs@[k as int]] + spec_select_pairs(
                        pairs@.skip(k + 1),
                        used_set,
                    )));
                    assert(pairs@.contains(pairs@[k as int]));
                }
                out.push(pairs[k]);
            }
            k = k + 1;
        }
        proof {
            assert(pairs@.skip(n as int).len() == 0);
        }
        out
    }
}

/// The inverse limit price of an order, in wad form, saturated.
fn inverse_price_wad(o: &Order) -> (r: Amount)
    ensures
        r@ == spec_inverse_price_wad(*o),
{
    if o.buy_amount.is_zero() {
        return Amount::zero();
    }
    let num = mul_wide(&o.sell_amount, &crate::orders::wad_amount());
    let (q, _rem) = div_wide(&num, &Wide::from_amount(&o.buy_amount));
    if q.fits_amount() {
        q.to_amount()
    } else {
        Amount::max_value()
    }
}

impl SolverEngine {
    /// The uniform clearing price of a matched pair: the geometric mean
    /// of the two limit prices, in wad form.
    pub fn calculate_clearing_price(&self, order_a: &Order, order_b: &Order) -> (r: Amount)
        ensures
            r@ == spec_clearing_price(*order_a, *order_b),
    {
        let pa = order_a.limit_price();
        let pb = inverse_price_wad(order_b);
        let prod = mul_wide(&pa, &pb);
        let rt = isqrt_wide(&prod);
        proof {
            assert(is_floor_sqrt(prod@, rt@));
            assert(is_floor_sqrt(prod@, spec_floor_sqrt(prod@))) by {
                assert(exists|r0: nat| is_floor_sqrt(prod@, r0)) by {
                    assert(is_floor_sqrt(prod@, rt@));
                };
            };
            lemma_floor_sqrt_unique(prod@, rt@, spec_floor_sqrt(prod@));
        }
        rt
    }

    /// Builds the settlement for a selection: per pair, both tokens priced
    /// at the pair's clearing price and one full-fill trade per order.
    pub fn build_settlement(&self, orders: &Vec<Order>, matches: &Vec<(usize, usize)>) -> (r:
        Result<SettlementPlan, Error>)
        requires
            forall|k: int|
                0 <= k < matches@.len() ==> (#[trigger] matches@[k]).0 < orders@.len()
                    && matches@[k].1 < orders@.len(),
        ensures
            match r {
                Ok(plan) => {
                    &&& plan.wf()
                    &&& plan.trades@ == spec_built_trades(orders@, matches@, matches@.len())
                    &&& plan.interactions@.len() == 0
                    &&& plan.post_hooks@.len() == 0
                    &&& spec_prices_match(orders@, matches@, plan)
                },
                Err(_) => false,
            },
    {
        let mut plan = SettlementPlan::new();
        let n = matches.len();
        let mut k: usize = 0;
        proof {
            assert(plan.trades@ =~= spec_built_trades(orders@, matches@, 0));
        }
        while k < n
            invariant
                n == matches@.len(),
                k <= n,
                forall|t: int|
                    0 <= t < matches@.len() ==> (#[trigger] matches@[t]).0 < orders@.len()
                        && matches@[t].1 < orders@.len(),
                plan.wf(),
                plan.trades@ == spec_built_trades(orders@, matches@, k as nat),
                plan.interactions@.len() == 0,
                plan.post_hooks@.len() == 0,
                forall|t: Address|
                    match #[trigger] plan.spec_price_of(t) {
                        Some(p) => spec_built_price(orders@, matches@, k as nat, t) == Some(p@),
                        None => spec_built_price(orders@, matches@, k as nat, t) is None,
                    },
            decreases n - k,
        {
            let ghost plan0 = plan;
            let (i, j) = matches[k];
            let order_a = &orders[i];
            let order_b = &orders[j];
            let clearing_price = self.calculate_clearing_price(order_a, order_b);
            plan.set_clearing_price(order_a.sell_token, clearing_price);
            plan.set_clearing_price(order_a.buy_token, clearing_price);
            plan.add_trade(
                Trade {
                    order_id: order_a.id,
                    executed_sell_amount: order_a.sell_amount,
                    executed_buy_amount: order_a.buy_amount,
                    fee: order_a.fee_amount,
                },
            );
            plan.add_trade(
                Trade {
                    order_id: order_b.id,
                    executed_sell_amount: order_b.sell_amount,
                    executed_buy_amount: order_b.buy_amount,
                    fee: order_b.fee_amount,
                },
            );
            proof {
                let ghost ta = Trade {
                    order_id: orders@[matches@[k as int].0 as int].id,
                    executed_sell_amount: orders@[matches@[k as int].0 as int].sell_amount,
                    executed_buy_amount: orders@[matches@[k as int].0 as int].buy_amount,
                    fee: orders@[matches@[k as int].0 as int].fee_amount,
                };
                let ghost tb = Trade {
                    order_id: orders@[matches@[k as int].1 as int].id,
                    executed_sell_amount: orders@[matches@[k as int].1 as int].sell_amount,
                    executed_buy_amount: orders@[matches@[k as int].1 as int].buy_amount,
                    fee: orders@[matches@[k as int].1 as int].fee_amount,
                };
                assert(plan.trades@ =~= spec_built_trades(orders@, matches@, k as nat) + seq![
                    ta,
                    tb,
                ]);
                assert(plan.trades@ =~= spec_built_trades(orders@, matches@, (k + 1) as nat));
                let ghost a = orders@[matches@[k as int].0 as int];
                let ghost b = orders@[matches@[k as int].1 as int];
                assert forall|t: Address|
                    match #[trigger] plan.spec_price_of(t) {
                        Some(p) => spec_built_price(orders@, matches@, (k + 1) as nat, t) == Some(
                            p@,
                        ),
                        None => spec_built_price(orders@, matches@, (k + 1) as nat, t) is None,
                    } by {
                    if t == a.sell_token || t == a.buy_token {
                        assert(plan.spec_price_of(t) == Some(clearing_price));
                        assert(spec_built_price(orders@, matches@, (k + 1) as nat, t) == Some(
                            spec_clearing_price(a, b),
                        ));
                    } else {
                        assert(plan.spec_price_of(t) == plan0.spec_price_of(t));
                        assert(spec_built_price(orders@, matches@, (k + 1) as nat, t)
                            == spec_built_price(orders@, matches@, k as nat, t));
                        assert(match plan0.spec_price_of(t) {
                            Some(p) => spec_built_price(orders@, matches@, k as nat, t) == Some(
                                p@,
                            ),
                            None => spec_built_price(orders@, matches@, k as nat, t) is None,
                        });
                    }
                };
            }
            k = k + 1;
        }
        Ok(plan)
    }

    /// Surplus of a plan against a batch: per trade, the excess of the
    /// referenced order's sell value over its buy value at the plan's
    /// prices, in wad form, saturating.
    pub fn calculate_surplus(&self, orders: &Vec<Order>, settlement: &SettlementPlan) -> (r: u128)
        requires
            settlement.wf(),
        ensures
            r == spec_plan_surplus(orders@, *settlement, settlement.trades@.len()),
    {
        let n = settlement.trades.len();
        let wadw = Wide::from_amount(&crate::orders::wad_amount());
        let mut total: u128 = 0;
        let mut k: usize = 0;
        while k < n
            invariant
                settlement.wf(),
                n == settlement.trades@.len(),
                k <= n,
                wadw@ == 1_000_000_000_000_000_000nat,
                total == spec_plan_surplus(orders@, *settlement, k as nat),
            decreases n - k,
        {
            let tr = &settlement.trades[k];
            match find_order(orders, &tr.order_id) {
                None => {},
                Some(oi) => {
                    let o = &orders[oi];
                    match (settlement.clearing_prices.get(&o.sell_token),
                        settlement.clearing_prices.get(&o.buy_token)) {
                        (Some(sp), Some(bp)) => {
                            let clearing_value = mul_wide(&o.sell_amount, &sp);
                            let limit_value = mul_wide(&o.buy_amount, &bp);
                            if limit_value.lt(&clearing_value) {
                                let diff = clearing_value.sub_exact(&limit_value);
                                let (q, _r) = div_wide(&diff, &wadw);
                                let term = q.to_u128_sat();
                                total = match total.checked_add(term) {
                                    Some(s) => s,
                                    None => u128::MAX,
                                };
                            }
                        },
                        _ => {},
                    }
                },
            }
            k = k + 1;
        }
        total
    }
}

/// Index of the first order carrying an id, consistent with
/// `spec_find_order`.
fn find_order(orders: &Vec<Order>, id: &OrderId) -> (r: Option<usize>)
    ensures
        match r {
            Some(i) => i < orders@.len() && spec_find_order(orders@, *id, orders@.len()) == Some(
                orders@[i as int],
            ),
            None => spec_find_order(orders@, *id, orders@.len()) is None,
        },
{
    let n = orders.len();
    let mut i: usize = 0;
    while i < n
        invariant
            n == orders@.len(),
            i <= n,
            spec_find_order(orders@, *id, i as nat) is None,
        decreases n - i,
    {
        if orders[i].id.eq_id(id) {
            proof {
                lemma_find_order_extends(orders@, *id, (i + 1) as nat, n as nat);
            }
            return Some(i);
        }
        i = i + 1;
    }
    None
}

/// Once an order is found at a prefix, longer prefixes agree.
proof fn lemma_find_order_extends(s: Seq<Order>, id: OrderId, m: nat, n: nat)
    requires
        0 < m <= n <= s.len(),
        spec_find_order(s, id, (m - 1) as nat) is None,
        s[m - 1].id == id,
    ensures
        spec_find_order(s, id, n) == Some(s[m - 1]),
    decreases n,
{
    if n == m {
    } else {
        lemma_find_order_extends(s, id, m, (n - 1) as nat);
    }
}

/// The pairs a configuration selects from a batch: the greedy disjoint
/// subset of the matched pairs, or nothing when matching is disabled.
pub open spec fn spec_selected_pairs(s: Seq<Order>, config: SolverConfig) -> Seq<(usize, usize)> {
    if config.enable_cow_matching {
        spec_select_pairs(spec_cow_from(s, config.max_slippage, 0, 1), Set::<usize>::empty())
    } else {
        Seq::empty()
    }
}

/// A selection of `n` pairs settles exactly `2 n` trades.
pub proof fn lemma_built_trades_len(s: Seq<Order>, sel: Seq<(usize, usize)>, n: nat)
    ensures
        spec_built_trades(s, sel, n).len() == 2 * n,
    decreases n,
{
    if n > 0 {
        lemma_built_trades_len(s, sel, (n - 1) as nat);
    }
}

impl SolverEngine {
    /// Runs the auction pipeline at time `now`: filter, match, select a
    /// disjoint subset, price at pairwise geometric means, assemble the
    /// settlement, and admit it only when the score reaches the profit
    /// threshold.
    pub fn solve(&self, orders: Vec<Order>, now: u32) -> (r: Result<Option<Solution>, Error>)
        requires
            self.config.max_slippage <= u64::MAX - 1_000_000,
        ensures
            r is Ok,
            match r {
                Err(_) => false,
                Ok(opt) => {
                    let valid = orders@.filter(keepable(now));
                    let sel = spec_selected_pairs(valid, self.config);
                    match opt {
                        Some(sol) => {
                            &&& valid.len() > 0
                            &&& sel.len() > 0
                            &&& sol.settlement.wf()
                            &&& sol.settlement.trades@ == spec_built_trades(
                                valid,
                                sel,
                                sel.len(),
                            )
                            &&& sol.settlement.interactions@.len() == 0
                            &&& sol.settlement.post_hooks@.len() == 0
                            &&& spec_prices_match(valid, sel, sol.settlement)
                            &&& sol.orders@.len() == sol.settlement.trades@.len()
                            &&& forall|k: int|
                                0 <= k < sol.orders@.len() ==> sol.orders@[k] == (
                                #[trigger] sol.settlement.trades@[k]).order_id
                            &&& sol.gas_cost as nat == (if spec_estimate_gas(sol.settlement)
                                > u64::MAX {
                                u64::MAX as nat
                            } else {
                                spec_estimate_gas(sol.settlement)
                            })
                            &&& sol.surplus == spec_plan_surplus(
                                valid,
                                sol.settlement,
                                sol.settlement.trades@.len(),
                            )
                            &&& sol.score == spec_solution_score(sol.surplus, sol.gas_cost)
                            &&& sol.score >= self.config.min_profit_threshold
                        },
                        None => valid.len() == 0 || sel.len() == 0 || (exists|
                            plan: SettlementPlan,
                        |
                            {
                                &&& #[trigger] plan.trades@ == spec_built_trades(
                                    valid,
                                    sel,
                                    sel.len(),
                                )
                                &&& spec_prices_match(valid, sel, plan)
                                &&& plan.interactions@.len() == 0
                                &&& plan.post_hooks@.len() == 0
                                &&& spec_solution_score(
                                    (spec_plan_surplus(
                                        valid,
                                        plan,
                                        plan.trades@.len(),
                                    )) as u128,
                                    (if spec_estimate_gas(plan) > u64::MAX {
                                        u64::MAX as nat
                                    } else {
                                        spec_estimate_gas(plan)
                                    }) as u64,
                                ) < self.config.min_profit_threshold
                            }),
                    }
                },
            },
    {
        let valid = self.validate_orders(orders, now);
        if valid.len() == 0 {
            return Ok(None);
        }
        let matches = self.find_cow_matches(&valid);
        let sel = self.select_disjoint_pairs(&matches);
        proof {
            if !self.config.enable_cow_matching {
                assert(matches@ =~= Seq::<(usize, usize)>::empty());
                assert(sel@ =~= spec_selected_pairs(valid@, self.config));
            }
        }
        if sel.len() == 0 {
            return Ok(None);
        }
        proof {
            assert forall|k: int| 0 <= k < sel@.len() implies (#[trigger] sel@[k]).0
                < valid@.len() && sel@[k].1 < valid@.len() by {
                assert(matches@.contains(sel@[k]));
                let t = choose|t: int| 0 <= t < matches@.len() && matches@[t] == sel@[k];
            };
        }
        let settlement = match self.build_settlement(&valid, &sel) {
            Ok(p) => p,
            Err(e) => {
                return Err(e);
            },
        };
        proof {
            lemma_built_trades_len(valid@, sel@, sel@.len());
        }
        match settlement.validate() {
            Ok(()) => {},
            Err(m) => {
                proof {
                    assert(false);
                }
                return Err(Error::SettlementFailed(m));
            },
        }
        let gas_cost = settlement.estimate_gas();
        let surplus = self.calculate_surplus(&valid, &settlement);
        let ntr = settlement.trades.len();
        let mut ids: Vec<OrderId> = Vec::new();
        let mut k: usize = 0;
        while k < ntr
            invariant
                ntr == settlement.trades@.len(),
                k <= ntr,
                ids@.len() == k,
                forall|t: int|
                    0 <= t < k ==> ids@[t] == (#[trigger] settlement.trades@[t]).order_id,
            decreases ntr - k,
        {
            ids.push(settlement.trades[k].order_id);
            k = k + 1;
        }
        let mut solution = Solution { orders: ids, settlement, gas_cost, surplus, score: 0 };
        solution.calculate_score();
        if !solution.is_profitable(self.config.min_profit_threshold) {
            proof {
                let ghost witness = solution.settlement;
                assert(witness.trades@ == spec_built_trades(valid@, sel@, sel@.len()));
            }
            return Ok(None);
        }
        Ok(Some(solution))
    }
}

/// Membership of an index in the used list.
fn index_in(x: usize, used: &Vec<usize>) -> (r: bool)
    ensures
        r == used@.contains(x),
{
    let n = used.len();
    let mut i: usize = 0;
    while i < n
        invariant
            n == used@.len(),
            i <= n,
            forall|k: int| 0 <= k < i ==> used@[k] != x,
        decreases n - i,
    {
        if used[i] == x {
            return true;
        }
        i = i + 1;
    }
    false
}

} // verus!
