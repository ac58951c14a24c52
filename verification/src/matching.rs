//! Coincidence-of-wants matching: direct pairs, rings, quality scoring and
//! greedy disjoint selection.
//!
//! Quality scores are parts per million of the unit interval. Estimated
//! surplus is in wad form (10^-18 reference units), saturating at the
//! 128-bit limit. Limit-price tests cross-multiply, so they are exact.

use vstd::prelude::*;
use vstd::seq_lib::lemma_multiset_commutative;
use vstd::multiset::Multiset;
use crate::amount::Amount;
use crate::math::spec_log2;
use crate::math::log2_floor;
use crate::orders::{Order, OrderId};
use crate::rings::{ring_cycles, cycle_views, spec_ring_cycles};
use crate::wide::{mul_wide, div_wide, mul_div, Wide};

verus! {

broadcast use vstd::seq_lib::group_seq_properties;

/// The ppm scale: one million parts make a whole.
pub open spec fn ppm() -> nat {
    1_000_000nat
}

/// Wad scale: 10^18 smallest units make one reference unit.
pub open spec fn surplus_wad() -> nat {
    1_000_000_000_000_000_000nat
}

/// Kind of a match.
#[derive(Clone, Copy, PartialEq, Eq, Structural, Debug)]
pub enum MatchType {
    /// Two orders filling each other directly.
    DirectPair,
    /// A cycle of three or more orders.
    Ring,
    /// Several orders sharing overlapping tokens.
    Batch,
}

/// A candidate match over one or more orders.
#[derive(Clone, Debug)]
pub struct OrderMatch {
    /// The orders involved.
    pub orders: Vec<OrderId>,
    /// Kind of the match.
    pub match_type: MatchType,
    /// Quality in ppm of the unit interval.
    pub quality_score: u64,
    /// Estimated surplus in wad form, saturated to 128 bits.
    pub estimated_surplus: u128,
}

/// The mathematical content of an `OrderMatch`: its order-id sequence,
/// kind, quality and surplus.
pub type MatchModel = (Seq<OrderId>, MatchType, u64, u128);

/// The model of a match value.
pub open spec fn model(m: OrderMatch) -> MatchModel {
    (m.orders@, m.match_type, m.quality_score, m.estimated_surplus)
}

/// The models of a sequence of matches.
pub open spec fn models(s: Seq<OrderMatch>) -> Seq<MatchModel> {
    s.map_values(|m: OrderMatch| model(m))
}

/// Two orders cross: each sells what the other buys, and the limit prices
/// overlap, i.e. `buy_a/sell_a <= sell_b/buy_b` by cross-multiplication.
pub open spec fn spec_has_price_overlap(a: Order, b: Order) -> bool {
    a.buy_amount@ * b.buy_amount@ <= a.sell_amount@ * b.sell_amount@
}

/// Direct-pair condition: tokens cross and the prices overlap.
pub open spec fn spec_is_direct_match(a: Order, b: Order) -> bool {
    &&& a.sell_token == b.buy_token
    &&& a.buy_token == b.sell_token
    &&& spec_has_price_overlap(a, b)
}

/// Direct-pair matching is symmetric: the pair `(a, b)` matches exactly
/// when the reversed pair `(b, a)` does.
pub proof fn lemma_direct_match_symmetric(a: Order, b: Order)
    ensures
        spec_is_direct_match(a, b) == spec_is_direct_match(b, a),
{
    assert(a.buy_amount@ * b.buy_amount@ == b.buy_amount@ * a.buy_amount@) by (nonlinear_arith);
    assert(a.sell_amount@ * b.sell_amount@ == b.sell_amount@ * a.sell_amount@)
        by (nonlinear_arith);
}

/// Price-overlap component of quality: `1 - min(1, price_a / price_b)` in
/// ppm, where the price ratio reduces to the product ratio
/// `(buy_a * buy_b) / (sell_a * sell_b)`.
pub open spec fn spec_price_overlap_ppm(a: Order, b: Order) -> nat {
    let x = a.buy_amount@ * b.buy_amount@;
    let y = a.sell_amount@ * b.sell_amount@;
    if x >= y {
        0
    } else {
        (ppm() - x * ppm() / y) as nat
    }
}

/// Volume component of quality: the combined sell volume in whole units,
/// on a logarithmic scale. One doubling adds ln(2)/10 of a unit, 69315
/// ppm. This is a deliberate step-function surrogate for the continuous
/// natural logarithm over ten, which no integer spec can state exactly:
/// the two agree at every power of two and the surrogate under-reads by
/// at most ln(2)/10 (69315 ppm) in between, always erring low, so no
/// match is over-scored on volume.
pub open spec fn spec_volume_score_ppm(a: Order, b: Order) -> nat {
    spec_log2((a.sell_amount@ + b.sell_amount@) / surplus_wad()) * 69315
}

/// Balance component of quality: the smaller sell volume over the larger,
/// in ppm; a whole when both are zero.
pub open spec fn spec_balance_score_ppm(a: Order, b: Order) -> nat {
    let lo = if a.sell_amount@ <= b.sell_amount@ {
        a.sell_amount@
    } else {
        b.sell_amount@
    };
    let hi = if a.sell_amount@ <= b.sell_amount@ {
        b.sell_amount@
    } else {
        a.sell_amount@
    };
    if hi == 0 {
        ppm()
    } else {
        lo * ppm() / hi
    }
}

/// Pair quality: the weighted blend `0.4 overlap + 0.3 volume + 0.3
/// balance`, clamped to the unit interval.
pub open spec fn spec_pair_quality_ppm(a: Order, b: Order) -> u64 {
    let blend = (4 * spec_price_overlap_ppm(a, b) + 3 * spec_volume_score_ppm(a, b) + 3
        * spec_balance_score_ppm(a, b)) / 10;
    if blend > ppm() {
        1_000_000u64
    } else {
        blend as u64
    }
}

/// Estimated pair surplus in wad form: the matchable volume times the
/// price gap `sell_b/buy_b - buy_a/sell_a`, each term floored, saturated
/// to 128 bits; zero on degenerate amounts.
pub open spec fn spec_pair_surplus(a: Order, b: Order) -> u128 {
    if a.sell_amount@ == 0 || b.buy_amount@ == 0 {
        0
    } else {
        let vol = if a.sell_amount@ <= b.buy_amount@ {
            a.sell_amount@
        } else {
            b.buy_amount@
        };
        let term_b = vol * b.sell_amount@ / b.buy_amount@;
        let term_a = vol * a.buy_amount@ / a.sell_amount@;
        if term_b <= term_a {
            0
        } else if term_b - term_a > u128::MAX {
            u128::MAX
        } else {
            (term_b - term_a) as u128
        }
    }
}

/// The model a direct pair produces: both ids, the kind tag, and the two
/// scores.
pub open spec fn spec_pair_model(a: Order, b: Order) -> MatchModel {
    (
        seq![a.id, b.id],
        MatchType::DirectPair,
        spec_pair_quality_ppm(a, b),
        spec_pair_surplus(a, b),
    )
}

/// The direct-pair matches from position `(i, j)` onward, in enumeration
/// order: for each first index `i`, all second indices `j > i`.
pub open spec fn spec_pairs_from(s: Seq<Order>, i: nat, j: nat) -> Seq<MatchModel>
    decreases s.len() - i, s.len() - j,
    when i <= j
{
    if i >= s.len() {
        Seq::empty()
    } else if j >= s.len() {
        spec_pairs_from(s, i + 1, i + 2)
    } else {
        let rest = spec_pairs_from(s, i, j + 1);
        if spec_is_direct_match(s[i as int], s[j as int]) {
            seq![spec_pair_model(s[i as int], s[j as int])] + rest
        } else {
            rest
        }
    }
}

/// All direct-pair matches of a batch, in enumeration order.
pub open spec fn spec_direct_pairs(s: Seq<Order>) -> Seq<MatchModel> {
    spec_pairs_from(s, 0, 1)
}

/// Where a stable descending insertion places a new entry: after every
/// leading entry of at least its quality.
pub open spec fn spec_insert_pos(ms: Seq<MatchModel>, q: u64) -> nat
    decreases ms.len(),
{
    if ms.len() == 0 {
        0
    } else if ms[0].2 >= q {
        1 + spec_insert_pos(ms.drop_first(), q)
    } else {
        0
    }
}

/// Stable sort by descending quality: entries are inserted in their given
/// order, each after all earlier entries of equal or higher quality, so
/// equal qualities keep their original order.
pub open spec fn spec_stable_sort(ms: Seq<MatchModel>) -> Seq<MatchModel>
    decreases ms.len(),
{
    if ms.len() == 0 {
        Seq::empty()
    } else {
        let prev = spec_stable_sort(ms.drop_last());
        prev.insert(spec_insert_pos(prev, ms.last().2) as int, ms.last())
    }
}

/// The insertion point is characterised by its leading run: every entry
/// before it is at least the quality, the entry at it (if any) is below.
proof fn lemma_insert_pos_char(ms: Seq<MatchModel>, q: u64, pos: int)
    requires
        0 <= pos <= ms.len(),
        forall|k: int| 0 <= k < pos ==> ms[k].2 >= q,
        pos == ms.len() || ms[pos].2 < q,
    ensures
        spec_insert_pos(ms, q) == pos,
    decreases ms.len(),
{
    if ms.len() == 0 {
    } else if pos == 0 {
    } else {
        let rest = ms.drop_first();
        if pos < ms.len() {
            assert(rest[pos - 1] == ms[pos as int]);
        }
        assert forall|k: int| 0 <= k < pos - 1 implies rest[k].2 >= q by {
            assert(rest[k] == ms[k + 1]);
        };
        lemma_insert_pos_char(rest, q, pos - 1);
    }
}

/// Greedy disjoint selection: walk the candidates in order, keeping each
/// whose order ids avoid everything already used.
pub open spec fn spec_greedy(ms: Seq<MatchModel>, used: Set<OrderId>) -> Seq<MatchModel>
    decreases ms.len(),
{
    if ms.len() == 0 {
        Seq::empty()
    } else if ms[0].0.to_set().disjoint(used) {
        seq![ms[0]] + spec_greedy(ms.drop_first(), used.union(ms[0].0.to_set()))
    } else {
        spec_greedy(ms.drop_first(), used)
    }
}

/// Everything the greedy selection keeps avoids the used set, and the kept
/// matches are pairwise disjoint over order ids.
pub proof fn lemma_greedy_disjoint(ms: Seq<MatchModel>, used: Set<OrderId>)
    ensures
        forall|i: int|
            0 <= i < spec_greedy(ms, used).len() ==> (#[trigger] spec_greedy(ms, used)[i]).0
                .to_set().disjoint(used),
        forall|i: int, j: int|
            0 <= i < j < spec_greedy(ms, used).len() ==> spec_greedy(ms, used)[i].0.to_set()
                .disjoint(spec_greedy(ms, used)[j].0.to_set()),
    decreases ms.len(),
{
    if ms.len() == 0 {
    } else if ms[0].0.to_set().disjoint(used) {
        let head = ms[0];
        let used2 = used.union(head.0.to_set());
        lemma_greedy_disjoint(ms.drop_first(), used2);
        let rest = spec_greedy(ms.drop_first(), used2);
        let whole = spec_greedy(ms, used);
        assert(whole == seq![head] + rest);
        assert forall|i: int| 0 <= i < whole.len() implies (#[trigger] whole[i]).0.to_set()
            .disjoint(used) by {
            if i > 0 {
                assert(whole[i] == rest[i - 1]);
                assert(rest[i - 1].0.to_set().disjoint(used2));
                assert(used2 == used.union(head.0.to_set()));
            }
        };
        assert forall|i: int, j: int| 0 <= i < j < whole.len() implies whole[i].0.to_set()
            .disjoint(whole[j].0.to_set()) by {
            if i == 0 {
                assert(whole[j] == rest[j - 1]);
                assert(rest[j - 1].0.to_set().disjoint(used2));
                assert(head.0.to_set() <= used2) by {
                    assert(used2 == used.union(head.0.to_set()));
                };
                assert(whole[0] == head);
                assert forall|x: OrderId| head.0.to_set().contains(x) implies !whole[j].0.to_set()
                    .contains(x) by {
                    assert(used2.contains(x));
                };
            } else {
                assert(whole[i] == rest[i - 1]);
                assert(whole[j] == rest[j - 1]);
            }
        };
    } else {
        lemma_greedy_disjoint(ms.drop_first(), used);
        let whole = spec_greedy(ms, used);
        let rest = spec_greedy(ms.drop_first(), used);
        assert(whole == rest);
    }
}

/// Appending one match inserts its model into the model multiset.
proof fn lemma_models_push(s: Seq<OrderMatch>, v: OrderMatch)
    ensures
        models(s.push(v)).to_multiset() == models(s).to_multiset().insert(model(v)),
{
    broadcast use vstd::seq_lib::group_to_multiset_ensures;

    assert(models(s.push(v)) =~= models(s).push(model(v)));
}

/// Inserting one match anywhere inserts its model into the model multiset.
proof fn lemma_models_insert(s: Seq<OrderMatch>, i: int, v: OrderMatch)
    requires
        0 <= i <= s.len(),
    ensures
        models(s.insert(i, v)).to_multiset() == models(s).to_multiset().insert(model(v)),
{
    broadcast use vstd::seq_lib::group_to_multiset_ensures;
    broadcast use vstd::multiset::group_multiset_axioms;

    let a = s.take(i);
    let b = s.skip(i);
    assert(models(s.insert(i, v)) =~= models(a).push(model(v)) + models(b));
    assert(models(s) =~= models(a) + models(b));
    lemma_multiset_commutative(models(a).push(model(v)), models(b));
    lemma_multiset_commutative(models(a), models(b));
    assert(models(a).push(model(v)).to_multiset() == models(a).to_multiset().insert(model(v)));
    assert(models(a).to_multiset().insert(model(v)).add(models(b).to_multiset()) =~= models(
        a,
    ).to_multiset().add(models(b).to_multiset()).insert(model(v)));
}

/// A closed ring: each order's buy token is the next order's sell token,
/// wrapping around.
pub open spec fn spec_ring_closed(s: Seq<Order>, c: Seq<usize>) -> bool {
    forall|i: int|
        0 <= i < c.len() ==> s[#[trigger] c[i] as int].buy_token == s[c[(i + 1) % c.len() as int]
            as int].sell_token
}

/// The running limit-price product around a ring, in ppm, saturated to 128
/// bits; a zero sell amount saturates outright.
pub open spec fn spec_ring_product_ppm(s: Seq<Order>, c: Seq<usize>, n: nat) -> nat
    decreases n,
{
    if n == 0 {
        ppm()
    } else {
        let p = spec_ring_product_ppm(s, c, (n - 1) as nat);
        let o = s[c[n - 1] as int];
        if o.sell_amount@ == 0 {
            u128::MAX as nat
        } else {
            let q = p * o.buy_amount@ / o.sell_amount@;
            if q > u128::MAX {
                u128::MAX as nat
            } else {
                q
            }
        }
    }
}

/// The accumulated ring surplus estimate, in wad form: a thousandth of
/// each member's sell volume, saturated to 128 bits.
pub open spec fn spec_ring_surplus(s: Seq<Order>, c: Seq<usize>, n: nat) -> nat
    decreases n,
{
    if n == 0 {
        0
    } else {
        let prev = spec_ring_surplus(s, c, (n - 1) as nat);
        let term_raw = s[c[n - 1] as int].sell_amount@ / 1000;
        let term = if term_raw > u128::MAX {
            u128::MAX as nat
        } else {
            term_raw
        };
        if prev + term > u128::MAX {
            u128::MAX as nat
        } else {
            prev + term
        }
    }
}

/// A value `r` is the floor square root of `n`.
pub open spec fn is_floor_sqrt(n: nat, r: nat) -> bool {
    r * r <= n && n < (r + 1) * (r + 1)
}

/// The floor square root.
pub open spec fn spec_floor_sqrt(n: nat) -> nat {
    choose|r: nat| is_floor_sqrt(n, r)
}

/// Floor square roots are unique.
pub proof fn lemma_floor_sqrt_unique(n: nat, a: nat, b: nat)
    requires
        is_floor_sqrt(n, a),
        is_floor_sqrt(n, b),
    ensures
        a == b,
{
    assert(a == b) by (nonlinear_arith)
        requires
            a * a <= n,
            n < (a + 1) * (a + 1),
            b * b <= n,
            n < (b + 1) * (b + 1),
    ;
}

/// Size component of ring quality: `1/sqrt(k)` in ppm, favouring short
/// rings, computed as `10^12 / sqrt(k * 10^12)`.
pub open spec fn spec_ring_size_score_ppm(k: nat) -> nat {
    1_000_000_000_000nat / spec_floor_sqrt(k * 1_000_000_000_000)
}

/// Excess component of ring quality: how far the price product stands
/// above unity, capped at a whole.
pub open spec fn spec_ring_price_score_ppm(prod: nat) -> nat {
    if prod >= ppm() {
        if prod - ppm() > ppm() {
            ppm()
        } else {
            (prod - ppm()) as nat
        }
    } else {
        0
    }
}

/// Ring quality: the mean of the size and price components.
pub open spec fn spec_ring_quality_ppm(s: Seq<Order>, c: Seq<usize>) -> nat {
    (spec_ring_size_score_ppm(c.len()) + spec_ring_price_score_ppm(
        spec_ring_product_ppm(s, c, c.len()),
    )) / 2
}

/// A valid ring: at least three members, closed token-wise, and a
/// limit-price product of at least unity around the cycle.
pub open spec fn spec_ring_valid(s: Seq<Order>, c: Seq<usize>) -> bool {
    &&& c.len() >= 3
    &&& spec_ring_closed(s, c)
    &&& spec_ring_product_ppm(s, c, c.len()) >= 1_000_000
}

/// The model a valid ring produces: the ids along the cycle, the kind
/// tag, and the two scores.
pub open spec fn spec_ring_model(s: Seq<Order>, c: Seq<usize>) -> MatchModel {
    (
        c.map_values(|ci: usize| s[ci as int].id),
        MatchType::Ring,
        spec_ring_quality_ppm(s, c) as u64,
        spec_ring_surplus(s, c, c.len()) as u128,
    )
}

/// The ring matches among a list of candidate cycles: the valid ones,
/// scored, in order.
pub open spec fn spec_ring_results(s: Seq<Order>, cs: Seq<Seq<usize>>, n: nat) -> Seq<MatchModel>
    decreases n,
{
    if n == 0 {
        Seq::empty()
    } else {
        let prev = spec_ring_results(s, cs, (n - 1) as nat);
        if spec_ring_valid(s, cs[n - 1]) {
            prev + seq![spec_ring_model(s, cs[n - 1])]
        } else {
            prev
        }
    }
}

/// The ring matches of a batch: the valid cycles of the deterministic
/// enumeration, scored, in enumeration order.
pub open spec fn spec_ring_matches(s: Seq<Order>, maxk: nat) -> Seq<MatchModel> {
    spec_ring_results(s, spec_ring_cycles(s, maxk), spec_ring_cycles(s, maxk).len())
}

/// The matching engine: discovers candidate matches and selects a
/// non-overlapping subset.
pub struct MatchingEngine {
    /// Largest ring size considered.
    pub max_ring_size: usize,
    /// Minimum quality a match must reach, in ppm.
    pub min_quality_score: u64,
}

impl MatchingEngine {
    /// Builds an engine with the given ring bound and quality floor (ppm).
    pub fn new(max_ring_size: usize, min_quality_score: u64) -> (r: MatchingEngine)
        ensures
            r.max_ring_size == max_ring_size,
            r.min_quality_score == min_quality_score,
    {
        MatchingEngine { max_ring_size, min_quality_score }
    }

    /// Whether two orders form a direct pair match.
    pub fn is_direct_match(&self, order_a: &Order, order_b: &Order) -> (r: bool)
        ensures
            r == spec_is_direct_match(*order_a, *order_b),
    {
        if order_a.sell_token != order_b.buy_token {
            return false;
        }
        if order_a.buy_token != order_b.sell_token {
            return false;
        }
        self.has_price_overlap(order_a, order_b)
    }

    /// Whether the limit prices of two crossing orders overlap.
    pub fn has_price_overlap(&self, order_a: &Order, order_b: &Order) -> (r: bool)
        ensures
            r == spec_has_price_overlap(*order_a, *order_b),
    {
        let x = mul_wide(&order_a.buy_amount, &order_b.buy_amount);
        let y = mul_wide(&order_a.sell_amount, &order_b.sell_amount);
        x.le(&y)
    }

    /// Quality of a direct pair, in ppm.
    pub fn calculate_pair_quality(&self, order_a: &Order, order_b: &Order) -> (r: u64)
        ensures
            r == spec_pair_quality_ppm(*order_a, *order_b),
            r <= 1_000_000,
    {
        let scale = Amount::from_u128(1_000_000);
        // price-overlap component
        let x = mul_wide(&order_a.buy_amount, &order_b.buy_amount);
        let y = mul_wide(&order_a.sell_amount, &order_b.sell_amount);
        let overlap: u64 = if y.le(&x) {
            0
        } else {
            let ratio = mul_div(&x, &scale, &y);
            proof {
                crate::math::lemma_ratio_scale(x@, 1_000_000nat, y@, ratio@);
            }
            1_000_000 - (ratio.to_u128().unwrap() as u64)
        };
        // volume component
        let (vol_sum, carry) = order_a.sell_amount.add_with_carry(&order_b.sell_amount, false);
        let sum_w = Wide {
            lo: vol_sum,
            hi: if carry {
                Amount::from_u128(1)
            } else {
                Amount::zero()
            },
        };
        proof {
            crate::wide::lemma_zero_times(crate::amount::pow256());
            assert(1nat * crate::amount::pow256() == crate::amount::pow256())
                by (nonlinear_arith);
        }
        let wadw = Wide::from_amount(&crate::orders::wad_amount());
        let (whole, _r) = div_wide(&sum_w, &wadw);
        proof {
            crate::wide::pow2_facts();
            assert(whole@ < crate::amount::pow256()) by (nonlinear_arith)
                requires
                    whole@ * 1_000_000_000_000_000_000nat <= sum_w@,
                    sum_w@ < 2 * crate::amount::pow256(),
                    crate::amount::pow256() > 0,
            ;
        }
        let volume: u64 = (log2_floor(&whole.to_amount()) as u64) * 69315;
        // balance component
        let (lo_amt, hi_amt) = if order_a.sell_amount.le(&order_b.sell_amount) {
            (order_a.sell_amount, order_b.sell_amount)
        } else {
            (order_b.sell_amount, order_a.sell_amount)
        };
        let balance: u64 = if hi_amt.is_zero() {
            1_000_000
        } else if hi_amt.le(&lo_amt) {
            proof {
                vstd::arithmetic::div_mod::lemma_fundamental_div_mod_converse(
                    (lo_amt@ * 1_000_000) as int,
                    hi_amt@ as int,
                    1_000_000int,
                    0int,
                );
                assert(lo_amt@ * 1_000_000 == 1_000_000 * hi_amt@ + 0) by (nonlinear_arith)
                    requires
                        lo_amt@ == hi_amt@,
                ;
            }
            1_000_000
        } else {
            let lo_w = Wide::from_amount(&lo_amt);
            let hi_w = Wide::from_amount(&hi_amt);
            let ratio = mul_div(&lo_w, &scale, &hi_w);
            proof {
                crate::math::lemma_ratio_scale(lo_w@, 1_000_000nat, hi_w@, ratio@);
            }
            ratio.to_u128().unwrap() as u64
        };
        let blend = (4 * overlap + 3 * volume + 3 * balance) / 10;
        if blend > 1_000_000 {
            1_000_000
        } else {
            blend
        }
    }

    /// Enumerates every direct-pair match, in pair order.
    pub fn find_direct_pairs(&self, orders: &Vec<Order>) -> (r: Vec<OrderMatch>)
        ensures
            models(r@) == spec_direct_pairs(orders@),
    {
        let n = orders.len();
        let mut out: Vec<OrderMatch> = Vec::new();
        proof {
            assert(models(out@) =~= Seq::<MatchModel>::empty());
            assert(spec_direct_pairs(orders@) =~= models(out@) + spec_pairs_from(orders@, 0, 1));
        }
        let mut i: usize = 0;
        while i < n
            invariant
                n == orders@.len(),
                i <= n,
                spec_direct_pairs(orders@) =~= models(out@) + spec_pairs_from(
                    orders@,
                    i as nat,
                    (i + 1) as nat,
                ),
            decreases n - i,
        {
            let mut j: usize = i + 1;
            while j < n
                invariant
                    n == orders@.len(),
                    i < n,
                    i + 1 <= j <= n,
                    spec_direct_pairs(orders@) =~= models(out@) + spec_pairs_from(
                        orders@,
                        i as nat,
                        j as nat,
                    ),
                decreases n - j,
            {
                if self.is_direct_match(&orders[i], &orders[j]) {
                    let quality = self.calculate_pair_quality(&orders[i], &orders[j]);
                    let surplus = self.estimate_pair_surplus(&orders[i], &orders[j]);
                    let mut ids: Vec<OrderId> = Vec::new();
                    ids.push(orders[i].id);
                    ids.push(orders[j].id);
                    let m = OrderMatch {
                        orders: ids,
                        match_type: MatchType::DirectPair,
                        quality_score: quality,
                        estimated_surplus: surplus,
                    };
                    proof {
                        assert(model(m) == spec_pair_model(orders@[i as int], orders@[j as int]))
                            by {
                            assert(m.orders@ =~= seq![
                                orders@[i as int].id,
                                orders@[j as int].id,
                            ]);
                        };
                        assert(models(out@.push(m)) =~= models(out@) + seq![model(m)]);
                        assert(spec_pairs_from(orders@, i as nat, j as nat) == seq![model(m)]
                            + spec_pairs_from(orders@, i as nat, (j + 1) as nat));
                        assert((models(out@) + seq![model(m)]) + spec_pairs_from(
                            orders@,
                            i as nat,
                            (j + 1) as nat,
                        ) =~= models(out@) + (seq![model(m)] + spec_pairs_from(
                            orders@,
                            i as nat,
                            (j + 1) as nat,
                        )));
                    }
                    out.push(m);
                }
                j = j + 1;
            }
            i = i + 1;
        }
        out
    }

    /// Estimated surplus of a direct pair, in wad form.
    pub fn estimate_pair_surplus(&self, order_a: &Order, order_b: &Order) -> (r: u128)
        ensures
            r == spec_pair_surplus(*order_a, *order_b),
    {
        if order_a.sell_amount.is_zero() || order_b.buy_amount.is_zero() {
            return 0;
        }
        let vol = if order_a.sell_amount.le(&order_b.buy_amount) {
            order_a.sell_amount
        } else {
            order_b.buy_amount
        };
        let (term_b, _rb) = div_wide(
            &mul_wide(&vol, &order_b.sell_amount),
            &Wide::from_amount(&order_b.buy_amount),
        );
        let (term_a, _ra) = div_wide(
            &mul_wide(&vol, &order_a.buy_amount),
            &Wide::from_amount(&order_a.sell_amount),
        );
        if term_b.le(&term_a) {
            0
        } else {
            term_b.sub_exact(&term_a).to_u128_sat()
        }
    }

    /// Quality of a ring, in ppm: the mean of the size score and the
    /// price-product excess.
    /// The running limit-price product around a cycle, in ppm, saturating
    /// at the 128-bit limit.
    pub fn ring_product_ppm(&self, orders: &Vec<Order>, cycle: &Vec<usize>) -> (r: u128)
        requires
            forall|k: int| 0 <= k < cycle@.len() ==> cycle@[k] < orders@.len(),
        ensures
            r == spec_ring_product_ppm(orders@, cycle@, cycle@.len()),
    {
        let k = cycle.len();
        let mut p: u128 = 1_000_000;
        let mut t: usize = 0;
        while t < k
            invariant
                k == cycle@.len(),
                t <= k,
                forall|kk: int| 0 <= kk < cycle@.len() ==> cycle@[kk] < orders@.len(),
                p == spec_ring_product_ppm(orders@, cycle@, t as nat),
            decreases k - t,
        {
            let o = &orders[cycle[t]];
            if o.sell_amount.is_zero() {
                p = u128::MAX;
            } else {
                let w = mul_wide(&Amount::from_u128(p), &o.buy_amount);
                let (q, _r) = div_wide(&w, &Wide::from_amount(&o.sell_amount));
                p = q.to_u128_sat();
            }
            t = t + 1;
        }
        p
    }

    pub fn calculate_ring_quality(&self, orders: &Vec<Order>, cycle: &Vec<usize>) -> (r: u64)
        requires
            3 <= cycle@.len(),
            forall|k: int| 0 <= k < cycle@.len() ==> cycle@[k] < orders@.len(),
        ensures
            r == spec_ring_quality_ppm(orders@, cycle@),
            r <= 1_000_000,
    {
        let k = cycle.len();
        let kw = Amount::from_u128((k as u128) * 1_000_000_000_000);
        let sq = crate::wide::isqrt_wide(&Wide::from_amount(&kw));
        proof {
            assert(is_floor_sqrt(kw@, sq@));
            assert(is_floor_sqrt(kw@, spec_floor_sqrt(kw@))) by {
                assert(exists|r: nat| is_floor_sqrt(kw@, r)) by {
                    assert(is_floor_sqrt(kw@, sq@));
                };
            };
            lemma_floor_sqrt_unique(kw@, sq@, spec_floor_sqrt(kw@));
            // at ring size three or more the root is at least 1732050
            assert(kw@ >= 3_000_000_000_000) by (nonlinear_arith)
                requires
                    kw@ == k * 1_000_000_000_000nat,
                    k >= 3,
            ;
            assert(sq@ >= 1_732_050) by (nonlinear_arith)
                requires
                    (sq@ + 1) * (sq@ + 1) > 3_000_000_000_000,
            ;
            // and small enough to extract
            assert(sq@ < 0x100000000000000000000000000000000) by (nonlinear_arith)
                requires
                    sq@ * sq@ <= kw@,
                    kw@ < 0x10000000000000000000000000000000000000000000000000000000000000000,
            ;
        }
        let sq128 = sq.to_u128().unwrap();
        let size_score: u128 = 1_000_000_000_000u128 / sq128;
        proof {
            vstd::arithmetic::div_mod::lemma_div_is_ordered_by_denominator(
                1_000_000_000_000int,
                1_732_050int,
                sq128 as int,
            );
        }
        let p = self.ring_product_ppm(orders, cycle);
        let price_score: u128 = if p >= 1_000_000 {
            let excess = p - 1_000_000;
            if excess > 1_000_000 {
                1_000_000
            } else {
                excess
            }
        } else {
            0
        };
        ((size_score + price_score) / 2) as u64
    }

    /// Estimated surplus of a ring, in wad form: a thousandth of each
    /// member's sell volume, saturating.
    pub fn estimate_ring_surplus(&self, orders: &Vec<Order>, cycle: &Vec<usize>) -> (r: u128)
        requires
            forall|k: int| 0 <= k < cycle@.len() ==> cycle@[k] < orders@.len(),
        ensures
            r == spec_ring_surplus(orders@, cycle@, cycle@.len()),
    {
        let n = cycle.len();
        let mut total: u128 = 0;
        let thousand = Wide::from_amount(&Amount::from_u128(1000));
        let mut t: usize = 0;
        while t < n
            invariant
                n == cycle@.len(),
                t <= n,
                thousand@ == 1000,
                forall|kk: int| 0 <= kk < cycle@.len() ==> cycle@[kk] < orders@.len(),
                total == spec_ring_surplus(orders@, cycle@, t as nat),
            decreases n - t,
        {
            let o = &orders[cycle[t]];
            let (q, _r) = div_wide(&Wide::from_amount(&o.sell_amount), &thousand);
            let term = q.to_u128_sat();
            total = match total.checked_add(term) {
                Some(s) => s,
                None => u128::MAX,
            };
            t = t + 1;
        }
        total
    }

    /// Validates a candidate cycle and scores it: `Some` exactly when the
    /// cycle has at least three members, closes token-wise, and its
    /// limit-price product is at least unity — without the last no uniform
    /// clearing price can satisfy every member.
    pub fn validate_ring(&self, orders: &Vec<Order>, cycle: &Vec<usize>) -> (r: Option<OrderMatch>)
        requires
            forall|k: int| 0 <= k < cycle@.len() ==> cycle@[k] < orders@.len(),
        ensures
            r is Some <==> spec_ring_valid(orders@, cycle@),
            match r {
                None => true,
                Some(m) => {
                    &&& m.orders@ == cycle@.map_values(|ci: usize| orders@[ci as int].id)
                    &&& m.match_type == MatchType::Ring
                    &&& m.quality_score == spec_ring_quality_ppm(orders@, cycle@)
                    &&& m.estimated_surplus == spec_ring_surplus(orders@, cycle@, cycle@.len())
                },
            },
    {
        let n = cycle.len();
        if n < 3 {
            return None;
        }
        let mut i: usize = 0;
        while i < n
            invariant
                n == cycle@.len(),
                i <= n,
                forall|k: int| 0 <= k < cycle@.len() ==> cycle@[k] < orders@.len(),
                forall|k: int|
                    0 <= k < i ==> orders@[#[trigger] cycle@[k] as int].buy_token == orders@[cycle@[
                        (k + 1) % cycle@.len() as int
                    ] as int].sell_token,
            decreases n - i,
        {
            let current = &orders[cycle[i]];
            let next = &orders[cycle[(i + 1) % n]];
            if current.buy_token != next.sell_token {
                return None;
            }
            i = i + 1;
        }
        if self.ring_product_ppm(orders, cycle) < 1_000_000 {
            return None;
        }
        Some(self.ring_match_of(orders, cycle))
    }

    /// Builds the scored match of a cycle.
    fn ring_match_of(&self, orders: &Vec<Order>, cycle: &Vec<usize>) -> (m: OrderMatch)
        requires
            3 <= cycle@.len(),
            forall|k: int| 0 <= k < cycle@.len() ==> cycle@[k] < orders@.len(),
        ensures
            m.orders@ == cycle@.map_values(|ci: usize| orders@[ci as int].id),
            m.match_type == MatchType::Ring,
            m.quality_score == spec_ring_quality_ppm(orders@, cycle@),
            m.estimated_surplus == spec_ring_surplus(orders@, cycle@, cycle@.len()),
    {
        let n = cycle.len();
        let quality = self.calculate_ring_quality(orders, cycle);
        let surplus = self.estimate_ring_surplus(orders, cycle);
        let mut ids: Vec<OrderId> = Vec::new();
        let mut j: usize = 0;
        while j < n
            invariant
                n == cycle@.len(),
                j <= n,
                forall|k: int| 0 <= k < cycle@.len() ==> cycle@[k] < orders@.len(),
                ids@ =~= cycle@.take(j as int).map_values(|ci: usize| orders@[ci as int].id),
            decreases n - j,
        {
            ids.push(orders[cycle[j]].id);
            proof {
                assert(cycle@.take(j + 1) =~= cycle@.take(j as int).push(cycle@[j as int]));
            }
            j = j + 1;
        }
        proof {
            assert(cycle@.take(n as int) =~= cycle@);
        }
        OrderMatch {
            orders: ids,
            match_type: MatchType::Ring,
            quality_score: quality,
            estimated_surplus: surplus,
        }
    }

    /// Ring discovery: a deterministic depth-first enumeration of the
    /// elementary cycles of the order graph, each anchored at its
    /// smallest order index and bounded by `max_ring_size`; each valid
    /// cycle — closed, with a limit-price product of at least unity — is
    /// scored into a ring match.
    pub fn find_rings(&self, orders: &Vec<Order>) -> (r: Vec<OrderMatch>)
        ensures
            models(r@) == spec_ring_matches(orders@, self.max_ring_size as nat),
    {
        let cycles = ring_cycles(orders, self.max_ring_size);
        let m = cycles.len();
        let mut out: Vec<OrderMatch> = Vec::new();
        proof {
            assert(models(out@) =~= Seq::<MatchModel>::empty());
        }
        let mut k: usize = 0;
        while k < m
            invariant
                m == cycles@.len(),
                k <= m,
                cycle_views(cycles@) == spec_ring_cycles(orders@, self.max_ring_size as nat),
                forall|t: int|
                    0 <= t < cycles@.len() ==> (forall|kk: int|
                        0 <= kk < (#[trigger] cycles@[t])@.len() ==> (#[trigger] cycles@[t])@[kk]
                            < orders@.len()),
                models(out@) =~= spec_ring_results(
                    orders@,
                    cycle_views(cycles@),
                    k as nat,
                ),
            decreases m - k,
        {
            proof {
                assert(cycle_views(cycles@)[k as int] == cycles@[k as int]@);
            }
            match self.validate_ring(orders, &cycles[k]) {
                Some(mm) => {
                    proof {
                        assert(model(mm) == spec_ring_model(orders@, cycles@[k as int]@));
                        assert(models(out@.push(mm)) =~= models(out@).push(model(mm)));
                        assert(models(out@) + seq![model(mm)] =~= models(out@).push(model(mm)));
                    }
                    out.push(mm);
                },
                None => {},
            }
            k = k + 1;
        }
        proof {
            assert(spec_ring_cycles(orders@, self.max_ring_size as nat).len()
                == cycle_views(cycles@).len());
        }
        out
    }

    /// All candidate matches above the quality floor, ordered by descending
    /// quality: the direct pairs and the discovered rings that reach
    /// `min_quality_score`, as one multiset, sorted.
    pub fn find_matches(&self, orders: &Vec<Order>) -> (r: Vec<OrderMatch>)
        ensures
            models(r@) == spec_stable_sort(
                (spec_direct_pairs(orders@) + spec_ring_matches(
                    orders@,
                    self.max_ring_size as nat,
                )).filter(quality_floor(self.min_quality_score)),
            ),
            models(r@).to_multiset() == (spec_direct_pairs(orders@) + spec_ring_matches(
                orders@,
                self.max_ring_size as nat,
            )).filter(quality_floor(self.min_quality_score)).to_multiset(),
            forall|i: int, j: int|
                0 <= i < j < r@.len() ==> r@[i].quality_score >= r@[j].quality_score,
    {
        let ghost pred = quality_floor(self.min_quality_score);
        let mut pairs = self.find_direct_pairs(orders);
        let mut rings = self.find_rings(orders);
        let ghost pm = pairs@;
        let ghost rm = rings@;
        pairs.append(&mut rings);
        proof {
            assert(models(pm + rm) =~= models(pm) + models(rm));
            assert(models(pairs@) =~= spec_direct_pairs(orders@) + spec_ring_matches(
                orders@,
                self.max_ring_size as nat,
            ));
        }
        // keep only matches that reach the quality floor
        let ghost all = pairs@;
        let mut kept: Vec<OrderMatch> = Vec::new();
        let ghost mut done: int = 0;
        proof {
            assert(all.take(0) =~= Seq::<OrderMatch>::empty());
            assert(models(kept@) =~= models(all.take(0)));
            reveal(Seq::filter);
            assert(models(all.take(0)).filter(pred) =~= models(kept@));
        }
        while pairs.len() > 0
            invariant
                pred == quality_floor(self.min_quality_score),
                0 <= done <= all.len(),
                pairs@ =~= all.skip(done),
                models(kept@) =~= models(all.take(done)).filter(pred),
            decreases pairs@.len(),
        {
            let ghost pre = pairs@;
            let m = pairs.remove(0);
            proof {
                assert(m == all[done]);
                assert(pairs@ =~= all.skip(done + 1));
                let prefix = models(all.take(done));
                let next = models(all.take(done + 1));
                assert(next =~= prefix.push(model(m))) by {
                    assert(all.take(done + 1) =~= all.take(done).push(all[done]));
                };
                assert(prefix.push(model(m)).drop_last() =~= prefix);
                assert(prefix.push(model(m)).last() == model(m));
                prefix.lemma_filter_push(model(m), pred);
                if m.quality_score >= self.min_quality_score {
                    assert(next.filter(pred) == prefix.filter(pred).push(model(m)));
                    assert(models(kept@.push(m)) =~= models(kept@).push(model(m)));
                } else {
                    assert(next.filter(pred) == prefix.filter(pred));
                }
                done = done + 1;
            }
            if m.quality_score >= self.min_quality_score {
                kept.push(m);
            }
        }
        proof {
            assert(all.take(done) =~= all);
        }
        // insertion sort by descending quality
        let ghost kept_models = models(kept@);
        let mut sorted: Vec<OrderMatch> = Vec::new();
        let ghost mut done: int = 0;
        proof {
            broadcast use vstd::seq_lib::group_to_multiset_ensures;

            assert(models(sorted@) =~= Seq::<MatchModel>::empty());
            assert(models(sorted@).to_multiset().add(models(kept@).to_multiset())
                =~= kept_models.to_multiset()) by {
                assert(models(sorted@).to_multiset() =~= Multiset::<MatchModel>::empty());
            };
            assert(kept_models.take(0) =~= Seq::<MatchModel>::empty());
            assert(models(kept@) =~= kept_models.skip(0));
        }
        while kept.len() > 0
            invariant
                0 <= done <= kept_models.len(),
                models(kept@) =~= kept_models.skip(done),
                models(sorted@) =~= spec_stable_sort(kept_models.take(done)),
                models(sorted@).to_multiset().add(models(kept@).to_multiset())
                    == kept_models.to_multiset(),
                forall|i: int, j: int|
                    0 <= i < j < sorted@.len() ==> sorted@[i].quality_score
                        >= sorted@[j].quality_score,
            decreases kept@.len(),
        {
            let ghost prek = kept@;
            // candidates are taken in discovery order, and each is placed
            // after every earlier entry of equal quality, so ties keep the
            // discovery order
            let m = kept.remove(0);
            proof {
                broadcast use vstd::seq_lib::group_to_multiset_ensures;

                assert(prek.drop_first() =~= kept@);
                assert(prek =~= kept@.insert(0, m));
                lemma_models_insert(kept@, 0, m);
                assert(models(prek)[0] == model(m));
                assert(models(prek) == kept_models.skip(done));
                assert(kept_models =~= kept_models.take(done) + kept_models.skip(done));
                assert(kept_models.take(done).len() == done);
                assert(kept_models.skip(done)[0] == kept_models[done]);
                assert(model(m) == kept_models[done]);
                assert(models(kept@) =~= kept_models.skip(done + 1)) by {
                    assert(models(prek).drop_first() =~= models(kept@));
                    assert(kept_models.skip(done).drop_first() =~= kept_models.skip(done + 1));
                };
            }
            let mut pos: usize = 0;
            while pos < sorted.len() && sorted[pos].quality_score >= m.quality_score
                invariant
                    pos <= sorted@.len(),
                    forall|k: int| 0 <= k < pos ==> sorted@[k].quality_score >= m.quality_score,
                decreases sorted@.len() - pos,
            {
                pos = pos + 1;
            }
            proof {
                lemma_models_insert(sorted@, pos as int, m);
                assert forall|k: int| 0 <= k < pos implies models(sorted@)[k].2
                    >= m.quality_score by {
                    assert(models(sorted@)[k] == model(sorted@[k]));
                };
                if (pos as int) < sorted@.len() {
                    assert(models(sorted@)[pos as int].2 < m.quality_score);
                }
                lemma_insert_pos_char(models(sorted@), m.quality_score, pos as int);
            }
            let ghost before = sorted@;
            sorted.insert(pos, m);
            proof {
                assert(forall|i: int, j: int|
                    0 <= i < j < sorted@.len() ==> sorted@[i].quality_score
                        >= sorted@[j].quality_score) by {
                    assert(sorted@ =~= before.take(pos as int) + seq![m] + before.skip(pos as int));
                };
                // the placement matches the stable-sort recursion
                assert(models(sorted@) =~= models(before).insert(pos as int, model(m)));
                assert(kept_models.take(done + 1).drop_last() =~= kept_models.take(done));
                assert(kept_models.take(done + 1).last() == kept_models[done]);
                assert(models(sorted@) =~= spec_stable_sort(kept_models.take(done + 1)));
                done = done + 1;
            }
        }
        proof {
            assert(kept_models.take(done) =~= kept_models);
        }
        sorted
    }

    /// Greedy disjoint selection: walk the candidates in order, keeping a
    /// match exactly when none of its orders has been used before. The
    /// result is pairwise disjoint over order identifiers.
    pub fn select_optimal_matches(&self, matches: Vec<OrderMatch>) -> (r: Vec<OrderMatch>)
        ensures
            models(r@) == spec_greedy(models(matches@), Set::<OrderId>::empty()),
            forall|i: int, j: int|
                0 <= i < j < r@.len() ==> r@[i].orders@.to_set().disjoint(r@[j].orders@.to_set()),
    {
        let ghost all = models(matches@);
        let mut remaining = matches;
        let mut selected: Vec<OrderMatch> = Vec::new();
        let mut used: Vec<OrderId> = Vec::new();
        let ghost mut used_set: Set<OrderId> = Set::empty();
        proof {
            assert(models(selected@) =~= Seq::<MatchModel>::empty());
            assert(spec_greedy(all, Set::<OrderId>::empty()) =~= models(selected@) + spec_greedy(
                models(remaining@),
                used_set,
            ));
        }
        while remaining.len() > 0
            invariant
                spec_greedy(all, Set::<OrderId>::empty()) =~= models(selected@) + spec_greedy(
                    models(remaining@),
                    used_set,
                ),
                forall|id: OrderId| used@.contains(id) <==> used_set.contains(id),
            decreases remaining@.len(),
        {
            let ghost pre = remaining@;
            let ghost used_pre = used_set;
            let m = remaining.remove(0);
            proof {
                assert(models(pre)[0] == model(m));
                assert(models(pre).drop_first() =~= models(remaining@));
            }
            let overlaps = ids_overlap(&m.orders, &used);
            proof {
                assert(m.orders@.to_set().disjoint(used_set) <==> !overlaps) by {
                    if overlaps {
                        let k = choose|k: int|
                            0 <= k < m.orders@.len() && used@.contains(m.orders@[k]);
                        assert(m.orders@.to_set().contains(m.orders@[k]));
                        assert(used_set.contains(m.orders@[k]));
                    } else {
                        assert forall|x: OrderId|
                            m.orders@.to_set().contains(x) implies !used_set.contains(x) by {
                            let k = choose|k: int| 0 <= k < m.orders@.len() && m.orders@[k] == x;
                            assert(!used@.contains(m.orders@[k]));
                        };
                    }
                };
            }
            if !overlaps {
                let mut t: usize = 0;
                let n_ids = m.orders.len();
                proof {
                    assert(m.orders@.take(0) =~= Seq::<OrderId>::empty());
                }
                while t < n_ids
                    invariant
                        n_ids == m.orders@.len(),
                        t <= n_ids,
                        forall|id: OrderId|
                            used@.contains(id) <==> (used_set.contains(id) || m.orders@.take(
                                t as int,
                            ).contains(id)),
                    decreases n_ids - t,
                {
                    let ghost used_before = used@;
                    let ghost t0 = t as int;
                    used.push(m.orders[t]);
                    t = t + 1;
                    proof {
                        let x = m.orders@[t0];
                        assert(used@ =~= used_before.push(x));
                        assert(m.orders@.take(t as int) =~= m.orders@.take(t0).push(x));
                        assert forall|id: OrderId|
                            used@.contains(id) <==> (used_set.contains(id) || m.orders@.take(
                                t as int,
                            ).contains(id)) by {
                            assert(used_before.push(x).contains(id) <==> (used_before.contains(id)
                                || id == x));
                            assert(m.orders@.take(t0).push(x).contains(id) <==> (m.orders@.take(
                                t0,
                            ).contains(id) || id == x));
                        };
                    }
                }
                proof {
                    assert(m.orders@.take(n_ids as int) =~= m.orders@);
                    used_set = used_pre.union(m.orders@.to_set());
                    assert(forall|id: OrderId| used@.contains(id) <==> used_set.contains(id)) by {
                        assert(forall|id: OrderId|
                            m.orders@.contains(id) <==> m.orders@.to_set().contains(id));
                    };
                    // unfold the greedy recursion on the kept head
                    assert(spec_greedy(models(pre), used_pre) == seq![model(m)] + spec_greedy(
                        models(remaining@),
                        used_set,
                    ));
                    assert(models(selected@.push(m)) =~= models(selected@).push(model(m)));
                    assert(models(selected@).push(model(m)) + spec_greedy(
                        models(remaining@),
                        used_set,
                    ) =~= models(selected@) + (seq![model(m)] + spec_greedy(
                        models(remaining@),
                        used_set,
                    )));
                }
                selected.push(m);
            } else {
                proof {
                    assert(!(models(pre)[0].0.to_set().disjoint(used_set)));
                    assert(spec_greedy(models(pre), used_set) == spec_greedy(
                        models(remaining@),
                        used_set,
                    ));
                }
            }
        }
        proof {
            assert(models(remaining@).len() == 0);
            assert(models(selected@) + spec_greedy(models(remaining@), used_set) =~= models(
                selected@,
            ));
            lemma_greedy_disjoint(all, Set::<OrderId>::empty());
            assert forall|i: int, j: int|
                0 <= i < j < selected@.len() implies selected@[i].orders@.to_set().disjoint(
                selected@[j].orders@.to_set(),
            ) by {
                assert(models(selected@)[i] == model(selected@[i]));
                assert(models(selected@)[j] == model(selected@[j]));
            };
        }
        selected
    }
}

/// The quality floor as a predicate on match models.
pub open spec fn quality_floor(min: u64) -> spec_fn(MatchModel) -> bool {
    |mm: MatchModel| mm.2 >= min
}

/// Membership of an id among the used ids, decided with byte-exact
/// comparisons.
fn ids_overlap(ids: &Vec<OrderId>, used: &Vec<OrderId>) -> (r: bool)
    ensures
        r == exists|k: int| 0 <= k < ids@.len() && used@.contains(ids@[k]),
{
    let n = ids.len();
    let mut i: usize = 0;
    while i < n
        invariant
            n == ids@.len(),
            i <= n,
            forall|k: int| 0 <= k < i ==> !used@.contains(ids@[k]),
        decreases n - i,
    {
        if id_in(&ids[i], used) {
            return true;
        }
        i = i + 1;
    }
    false
}

/// Membership of one id in a list of ids.
fn id_in(id: &OrderId, used: &Vec<OrderId>) -> (r: bool)
    ensures
        r == used@.contains(*id),
{
    let n = used.len();
    let mut i: usize = 0;
    while i < n
        invariant
            n == used@.len(),
            i <= n,
            forall|k: int| 0 <= k < i ==> used@[k] != *id,
        decreases n - i,
    {
        if used[i].eq_id(id) {
            return true;
        }
        i = i + 1;
    }
    false
}

impl Default for MatchingEngine {
    /// Rings up to four orders; a tenth of the unit interval as the
    /// quality floor.
    fn default() -> (r: MatchingEngine)
        ensures
            r.max_ring_size == 4,
            r.min_quality_score == 100_000,
    {
        MatchingEngine::new(4, 100_000)
    }
}

} // verus!
