//! Uniform clearing prices: four strategies, validation against order
//! limits, and surplus measurement.
//!
//! Prices are held in wad form (`floor(price * 10^18)`), saturated to 256
//! bits. Confidences are parts per million of the unit interval. All limit
//! comparisons cross-multiply, so validation is exact.

use vstd::prelude::*;
use crate::address::Address;
use crate::amount::{Amount, pow128, pow256, pow512};
use crate::keyed::KeyedVec;
use crate::orders::{Order, spec_limit_price_wad};
use crate::wide::{mul_wide, div_wide, mul_div, Wide, lemma_amount_bound, lemma_wide_bound};

verus! {

/// A clearing price for one token.
#[derive(Clone, Copy, PartialEq, Eq, Structural, Debug)]
pub struct ClearingPrice {
    /// The token priced.
    pub token: Address,
    /// Price in wad form.
    pub price: Amount,
    /// Confidence in ppm of the unit interval.
    pub confidence: u64,
}

/// How clearing prices are derived.
#[derive(Clone, Copy, PartialEq, Eq, Structural, Debug)]
pub enum PricingStrategy {
    /// Mid-point of the spread of limit prices per token pair.
    MidPoint,
    /// Volume-weighted average over both sides of every order.
    MaxSurplus,
    /// External oracle quotes, mid-point as the fallback.
    MarketPrice,
    /// Volume-weighted average per sell token.
    VolumeWeighted,
}

/// Saturation to one below 2^512.
pub open spec fn sat_wide(x: nat) -> nat {
    if x > pow512() - 1 {
        (pow512() - 1) as nat
    } else {
        x
    }
}

/// Saturation to one below 2^256.
pub open spec fn sat_amount(x: nat) -> nat {
    if x > pow256() - 1 {
        (pow256() - 1) as nat
    } else {
        x
    }
}

/// Whether an order involves token `t`: always on its sell side, also on
/// its buy side when `both` is set.
pub open spec fn spec_member(o: Order, t: Address, both: bool) -> bool {
    o.sell_token == t || (both && o.buy_token == t)
}

/// Volume-weighted sum of limit prices of the orders among the first `n`
/// involving `t`, saturating.
pub open spec fn spec_wsum(s: Seq<Order>, t: Address, both: bool, n: nat) -> nat
    decreases n,
{
    if n == 0 {
        0
    } else {
        let prev = spec_wsum(s, t, both, (n - 1) as nat);
        if spec_member(s[n - 1], t, both) {
            sat_wide(prev + spec_limit_price_wad(s[n - 1]) * s[n - 1].sell_amount@)
        } else {
            prev
        }
    }
}

/// Total sell volume of the orders among the first `n` involving `t`,
/// saturating.
pub open spec fn spec_vsum(s: Seq<Order>, t: Address, both: bool, n: nat) -> nat
    decreases n,
{
    if n == 0 {
        0
    } else {
        let prev = spec_vsum(s, t, both, (n - 1) as nat);
        if spec_member(s[n - 1], t, both) {
            sat_wide(prev + s[n - 1].sell_amount@)
        } else {
            prev
        }
    }
}

/// The volume-weighted average limit price for `t`, saturated to 256 bits.
pub open spec fn spec_wavg_price(s: Seq<Order>, t: Address, both: bool) -> nat {
    sat_amount(spec_wsum(s, t, both, s.len()) / spec_vsum(s, t, both, s.len()))
}

/// The least and greatest limit price among the first `n` orders selling
/// `st` for `bt`; `None` when no such order exists.
pub open spec fn spec_pair_minmax(s: Seq<Order>, st: Address, bt: Address, n: nat) -> Option<
    (nat, nat),
>
    decreases n,
{
    if n == 0 {
        None
    } else {
        let prev = spec_pair_minmax(s, st, bt, (n - 1) as nat);
        let o = s[n - 1];
        if o.sell_token == st && o.buy_token == bt {
            let lp = spec_limit_price_wad(o);
            match prev {
                None => Some((lp, lp)),
                Some((mn, mx)) => Some(
                    (if lp < mn { lp } else { mn }, if lp > mx { lp } else { mx }),
                ),
            }
        } else {
            prev
        }
    }
}

/// Mid-point price of a pair group: the mean of the least and greatest
/// limit prices.
pub open spec fn spec_mid_price(s: Seq<Order>, st: Address, bt: Address) -> nat {
    match spec_pair_minmax(s, st, bt, s.len()) {
        None => 0,
        Some((mn, mx)) => (mn + mx) / 2,
    }
}

/// Confidence of a mid-point price: one minus the spread over the mid,
/// clamped to the unit interval; zero for a zero mid.
pub open spec fn spec_mid_conf(s: Seq<Order>, st: Address, bt: Address) -> nat {
    match spec_pair_minmax(s, st, bt, s.len()) {
        None => 0,
        Some((mn, mx)) => {
            let mid = (mn + mx) / 2;
            let spread = (mx - mn) as nat;
            if mid == 0 {
                0
            } else if spread >= mid {
                0
            } else {
                (1_000_000 - spread * 1_000_000 / mid) as nat
            }
        },
    }
}

/// Some order sells token `t`.
pub open spec fn spec_sells(s: Seq<Order>, t: Address) -> bool {
    exists|k: int| 0 <= k < s.len() && s[k].sell_token == t
}

/// Some order involves token `t` on the given sides.
pub open spec fn spec_involves(s: Seq<Order>, t: Address, both: bool) -> bool {
    exists|k: int| 0 <= k < s.len() && spec_member(#[trigger] s[k], t, both)
}

/// What a mid-point entry for token `t` asserts: some pair group selling
/// `t` produced it.
pub open spec fn spec_midpoint_char(s: Seq<Order>, t: Address, cp: ClearingPrice) -> bool {
    &&& cp.token == t
    &&& exists|bt: Address|
        {
            &&& #[trigger] spec_pair_minmax(s, t, bt, s.len()) is Some
            &&& cp.price@ == spec_mid_price(s, t, bt)
            &&& cp.confidence == spec_mid_conf(s, t, bt)
        }
}

/// What a volume-weighted entry for token `t` asserts.
pub open spec fn spec_wavg_char(
    s: Seq<Order>,
    t: Address,
    both: bool,
    conf: u64,
    cp: ClearingPrice,
) -> bool {
    &&& cp.token == t
    &&& spec_vsum(s, t, both, s.len()) > 0
    &&& cp.price@ == spec_wavg_price(s, t, both)
    &&& cp.confidence == conf
}

/// A pair group with a member has extremes.
pub proof fn lemma_minmax_nonempty(s: Seq<Order>, st: Address, bt: Address, j: int, n: nat)
    requires
        0 <= j < n <= s.len(),
        s[j].sell_token == st,
        s[j].buy_token == bt,
    ensures
        spec_pair_minmax(s, st, bt, n) is Some,
    decreases n,
{
    if j < n - 1 {
        lemma_minmax_nonempty(s, st, bt, j, (n - 1) as nat);
    }
}

/// The extremes of a pair group are ordered.
pub proof fn lemma_minmax_ordered(s: Seq<Order>, st: Address, bt: Address, n: nat)
    requires
        n <= s.len(),
    ensures
        match spec_pair_minmax(s, st, bt, n) {
            Some((mn, mx)) => mn <= mx,
            None => true,
        },
    decreases n,
{
    if n > 0 {
        lemma_minmax_ordered(s, st, bt, (n - 1) as nat);
    }
}

/// The all-ones wide value is one below 2^512.
pub proof fn lemma_max_wide_value()
    ensures
        (Wide {
            lo: Amount { lo: u128::MAX, hi: u128::MAX },
            hi: Amount { lo: u128::MAX, hi: u128::MAX },
        })@ == pow512() - 1,
{
    let m = Amount { lo: u128::MAX, hi: u128::MAX };
    assert(m@ == pow256() - 1) by (nonlinear_arith)
        requires
            pow128() == 0x1_0000_0000_0000_0000_0000_0000_0000_0000nat,
            pow256() == pow128() * pow128(),
            m.lo == u128::MAX,
            m.hi == u128::MAX,
    ;
    assert((pow256() - 1) * pow256() + (pow256() - 1) == pow256() * pow256() - 1)
        by (nonlinear_arith);
}

/// Halving across the 256-bit seam: the carry contributes half the
/// modulus exactly.
pub proof fn lemma_half_with_carry(s: nat)
    ensures
        (pow256() + s) / 2 == pow256() / 2 + s / 2,
{
    assert(pow256() == 2 * (pow256() / 2)) by (nonlinear_arith)
        requires
            pow256() == pow128() * pow128(),
            pow128() == 0x1_0000_0000_0000_0000_0000_0000_0000_0000nat,
    ;
    assert(s == 2 * (s / 2) + s % 2);
    vstd::arithmetic::div_mod::lemma_fundamental_div_mod_converse(
        (pow256() + s) as int,
        2int,
        (pow256() / 2 + s / 2) as int,
        (s % 2) as int,
    );
}

/// An order is admissible under given prices and confidence floor: both
/// tokens priced, both confidences at the floor, and the limit respected.
pub open spec fn spec_order_priced_ok(
    prices: KeyedVec<ClearingPrice>,
    min_conf: u64,
    o: Order,
) -> bool {
    match (prices.spec_get(o.sell_token), prices.spec_get(o.buy_token)) {
        (Some(sp), Some(bp)) => {
            &&& sp.confidence >= min_conf
            &&& bp.confidence >= min_conf
            &&& o.sell_amount@ * sp.price@ >= o.buy_amount@ * bp.price@
        },
        _ => false,
    }
}

/// The diagnostic for the first pricing rule an order breaks.
pub open spec fn spec_price_err_msg(
    prices: KeyedVec<ClearingPrice>,
    min_conf: u64,
    o: Order,
) -> Seq<char> {
    match (prices.spec_get(o.sell_token), prices.spec_get(o.buy_token)) {
        (Some(sp), Some(bp)) => if sp.confidence < min_conf {
            "Low confidence for sell token"@
        } else if bp.confidence < min_conf {
            "Low confidence for buy token"@
        } else {
            "Clearing prices do not satisfy order"@
        },
        (None, _) => "Missing price for sell token"@,
        (Some(sp), None) => "Missing price for buy token"@,
    }
}

/// Total surplus of the first `n` orders under given prices, in wad form,
/// saturating at the 128-bit limit.
pub open spec fn spec_total_surplus(
    prices: KeyedVec<ClearingPrice>,
    s: Seq<Order>,
    n: nat,
) -> nat
    decreases n,
{
    if n == 0 {
        0
    } else {
        let prev = spec_total_surplus(prices, s, (n - 1) as nat);
        let o = s[n - 1];
        match (prices.spec_get(o.sell_token), prices.spec_get(o.buy_token)) {
            (Some(sp), Some(bp)) => {
                let cv = o.sell_amount@ * sp.price@;
                let lv = o.buy_amount@ * bp.price@;
                if cv > lv {
                    let term_raw = ((cv - lv) as nat) / 1_000_000_000_000_000_000;
                    let term = if term_raw > u128::MAX {
                        u128::MAX as nat
                    } else {
                        term_raw
                    };
                    if prev + term > u128::MAX {
                        u128::MAX as nat
                    } else {
                        prev + term
                    }
                } else {
                    prev
                }
            },
            _ => prev,
        }
    }
}

/// The pricing engine: a strategy, an oracle, and a confidence floor.
pub struct PricingEngine {
    /// Strategy in force.
    pub strategy: PricingStrategy,
    /// External quotes, in wad form per token.
    pub price_oracle: KeyedVec<Amount>,
    /// Minimum admissible confidence, in ppm.
    pub min_confidence: u64,
}

impl PricingEngine {
    /// The oracle map keeps pairwise-distinct keys.
    pub open spec fn wf(&self) -> bool {
        self.price_oracle.wf()
    }

    /// An engine with the given strategy and confidence floor, and no
    /// oracle quotes.
    pub fn new(strategy: PricingStrategy, min_confidence: u64) -> (r: PricingEngine)
        ensures
            r.strategy == strategy,
            r.min_confidence == min_confidence,
            r.price_oracle.entries@.len() == 0,
            forall|t: Address| r.price_oracle.spec_get(t) == None::<Amount>,
            r.wf(),
    {
        PricingEngine { strategy, price_oracle: KeyedVec::new(), min_confidence }
    }

    /// Mid-point prices: per `(sell, buy)` pair group, the mean of the
    /// extreme limit prices, keyed by the sell token; when several pair
    /// groups share a sell token one of them provides the stored entry.
    pub fn calculate_midpoint_prices(&self, orders: &Vec<Order>) -> (r: KeyedVec<ClearingPrice>)
        ensures
            r.wf(),
            forall|t: Address|
                match #[trigger] r.spec_get(t) {
                    Some(cp) => spec_midpoint_char(orders@, t, cp),
                    None => !spec_sells(orders@, t),
                },
    {
        let n = orders.len();
        let mut out: KeyedVec<ClearingPrice> = KeyedVec::new();
        let mut i: usize = 0;
        while i < n
            invariant
                n == orders@.len(),
                i <= n,
                out.wf(),
                forall|k: int|
                    0 <= k < i ==> out.spec_get((#[trigger] orders@[k]).sell_token) is Some,
                forall|t: Address|
                    match #[trigger] out.spec_get(t) {
                        Some(cp) => spec_midpoint_char(orders@, t, cp),
                        None => true,
                    },
            decreases n - i,
        {
            let st = orders[i].sell_token;
            let bt = orders[i].buy_token;
            let mut cur: Option<(Amount, Amount)> = None;
            let mut k2: usize = 0;
            while k2 < n
                invariant
                    n == orders@.len(),
                    k2 <= n,
                    match cur {
                        None => spec_pair_minmax(orders@, st, bt, k2 as nat) is None,
                        Some((mn, mx)) => spec_pair_minmax(orders@, st, bt, k2 as nat) == Some(
                            (mn@, mx@),
                        ),
                    },
                decreases n - k2,
            {
                let o = &orders[k2];
                if o.sell_token == st && o.buy_token == bt {
                    let lp = o.limit_price();
                    cur = match cur {
                        None => Some((lp, lp)),
                        Some((mn, mx)) => Some(
                            (
                                if lp.lt(&mn) {
                                    lp
                                } else {
                                    mn
                                },
                                if mx.lt(&lp) {
                                    lp
                                } else {
                                    mx
                                },
                            ),
                        ),
                    };
                }
                k2 = k2 + 1;
            }
            proof {
                lemma_minmax_nonempty(orders@, st, bt, i as int, n as nat);
            }
            let (mn, mx) = match cur {
                Some(p) => p,
                None => {
                    proof {
                        assert(false);
                    }
                    (Amount::zero(), Amount::zero())
                },
            };
            // mid = floor((mn + mx) / 2), carried across the 256-bit seam
            let (sum, c) = mn.add_with_carry(&mx, false);
            let mid = if c {
                let half = sum.half();
                let top = Amount { lo: 0, hi: 0x8000_0000_0000_0000_0000_0000_0000_0000 };
                proof {
                    lemma_amount_bound(sum);
                    assert(top@ == pow256() / 2) by (nonlinear_arith)
                        requires
                            top@ == 0x8000_0000_0000_0000_0000_0000_0000_0000u128 * pow128(),
                            pow256() == pow128() * pow128(),
                            pow128() == 0x1_0000_0000_0000_0000_0000_0000_0000_0000nat,
                    ;
                    lemma_half_with_carry(sum@);
                    assert(pow256() / 2 + sum@ / 2 < pow256());
                }
                half.checked_add(&top).unwrap()
            } else {
                sum.half()
            };
            proof {
                assert(mid@ == (mn@ + mx@) / 2);
            }
            // confidence from the spread over the mid
            let confidence: u64 = if mid.is_zero() {
                0
            } else {
                proof {
                    lemma_minmax_ordered(orders@, st, bt, n as nat);
                }
                let spread = mx.sub_exact(&mn);
                if !spread.lt(&mid) {
                    0
                } else {
                    let ratio = mul_div(
                        &Wide::from_amount(&spread),
                        &Amount::from_u128(1_000_000),
                        &Wide::from_amount(&mid),
                    );
                    proof {
                        crate::math::lemma_ratio_scale(spread@, 1_000_000nat, mid@, ratio@);
                    }
                    1_000_000 - (ratio.to_u128().unwrap() as u64)
                }
            };
            let cp = ClearingPrice { token: st, price: mid, confidence };
            proof {
                assert(spec_midpoint_char(orders@, st, cp)) by {
                    assert(spec_pair_minmax(orders@, st, bt, orders@.len()) is Some);
                    assert(cp.price@ == spec_mid_price(orders@, st, bt));
                    assert(cp.confidence == spec_mid_conf(orders@, st, bt));
                };
            }
            out.insert(st, cp);
            i = i + 1;
        }
        proof {
            assert forall|t: Address| spec_sells(orders@, t) implies out.spec_get(t) is Some by {
                let k = choose|k: int| 0 <= k < orders@.len() && orders@[k].sell_token == t;
            };
        }
        out
    }

    /// Volume-weighted prices for every token meeting the membership rule,
    /// with a fixed confidence.
    fn weighted_prices(&self, orders: &Vec<Order>, both: bool, conf: u64) -> (r: KeyedVec<
        ClearingPrice,
    >)
        ensures
            r.wf(),
            forall|t: Address|
                match #[trigger] r.spec_get(t) {
                    Some(cp) => spec_wavg_char(orders@, t, both, conf, cp),
                    None => !(spec_involves(orders@, t, both) && spec_vsum(
                        orders@,
                        t,
                        both,
                        orders@.len(),
                    ) > 0),
                },
    {
        let n = orders.len();
        let mut out: KeyedVec<ClearingPrice> = KeyedVec::new();
        let mut i: usize = 0;
        while i < n
            invariant
                n == orders@.len(),
                i <= n,
                out.wf(),
                forall|t: Address|
                    match #[trigger] out.spec_get(t) {
                        Some(cp) => spec_wavg_char(orders@, t, both, conf, cp),
                        None => true,
                    },
                forall|k: int|
                    0 <= k < i ==> {
                        let o = #[trigger] orders@[k];
                        &&& (spec_vsum(orders@, o.sell_token, both, orders@.len()) > 0
                            ==> out.spec_get(o.sell_token) is Some)
                        &&& (both && spec_vsum(orders@, o.buy_token, both, orders@.len()) > 0
                            ==> out.spec_get(o.buy_token) is Some)
                    },
            decreases n - i,
        {
            let sell_t = orders[i].sell_token;
            let buy_t = orders[i].buy_token;
            self.weigh_token(orders, &sell_t, both, conf, &mut out);
            if both {
                self.weigh_token(orders, &buy_t, both, conf, &mut out);
            }
            i = i + 1;
        }
        proof {
            assert forall|t: Address|
                spec_involves(orders@, t, both) && spec_vsum(orders@, t, both, orders@.len())
                    > 0 implies out.spec_get(t) is Some by {
                let k = choose|k: int|
                    0 <= k < orders@.len() && spec_member(#[trigger] orders@[k], t, both);
            };
        }
        out
    }

    /// Accumulates and stores the volume-weighted price of one token,
    /// unless it is already stored or carries no volume.
    fn weigh_token(
        &self,
        orders: &Vec<Order>,
        t: &Address,
        both: bool,
        conf: u64,
        out: &mut KeyedVec<ClearingPrice>,
    )
        requires
            old(out).wf(),
            forall|u: Address|
                match #[trigger] old(out).spec_get(u) {
                    Some(cp) => spec_wavg_char(orders@, u, both, conf, cp),
                    None => true,
                },
        ensures
            final(out).wf(),
            forall|u: Address|
                match #[trigger] final(out).spec_get(u) {
                    Some(cp) => spec_wavg_char(orders@, u, both, conf, cp),
                    None => true,
                },
            spec_vsum(orders@, *t, both, orders@.len()) > 0 ==> final(out).spec_get(*t) is Some,
            forall|u: Address|
                old(out).spec_get(u) is Some ==> final(out).spec_get(u) == old(out).spec_get(u),
    {
        match out.get(t) {
            Some(_) => {
                return ;
            },
            None => {},
        }
        let n = orders.len();
        let mut ws = Wide::zero();
        let mut vs = Wide::zero();
        let mut k: usize = 0;
        while k < n
            invariant
                n == orders@.len(),
                k <= n,
                ws@ == spec_wsum(orders@, *t, both, k as nat),
                vs@ == spec_vsum(orders@, *t, both, k as nat),
            decreases n - k,
        {
            let o = &orders[k];
            if o.sell_token == *t || (both && o.buy_token == *t) {
                let lp = o.limit_price();
                let term = mul_wide(&lp, &o.sell_amount);
                let (ws2, cw) = ws.add_with_carry(&term, false);
                ws = if cw {
                    Wide { lo: Amount::max_value(), hi: Amount::max_value() }
                } else {
                    ws2
                };
                proof {
                    lemma_wide_bound(ws2);
                    lemma_max_wide_value();
                }
                let (vs2, cv) = vs.add_with_carry(&Wide::from_amount(&o.sell_amount), false);
                vs = if cv {
                    Wide { lo: Amount::max_value(), hi: Amount::max_value() }
                } else {
                    vs2
                };
                proof {
                    lemma_wide_bound(vs2);
                    lemma_max_wide_value();
                }
            }
            k = k + 1;
        }
        if Wide::zero().lt(&vs) {
            let (q, _r) = div_wide(&ws, &vs);
            let price = if q.fits_amount() {
                q.to_amount()
            } else {
                Amount::max_value()
            };
            out.insert(*t, ClearingPrice { token: *t, price, confidence: conf });
        }
    }

    /// Volume-weighted prices over both sides of every order.
    pub fn calculate_max_surplus_prices(&self, orders: &Vec<Order>) -> (r: KeyedVec<ClearingPrice>)
        ensures
            r.wf(),
            forall|t: Address|
                match #[trigger] r.spec_get(t) {
                    Some(cp) => spec_wavg_char(orders@, t, true, 800_000, cp),
                    None => !(spec_involves(orders@, t, true) && spec_vsum(
                        orders@,
                        t,
                        true,
                        orders@.len(),
                    ) > 0),
                },
    {
        self.weighted_prices(orders, true, 800_000)
    }

    /// Volume-weighted prices per sell token.
    pub fn calculate_volume_weighted_prices(&self, orders: &Vec<Order>) -> (r: KeyedVec<
        ClearingPrice,
    >)
        ensures
            r.wf(),
            forall|t: Address|
                match #[trigger] r.spec_get(t) {
                    Some(cp) => spec_wavg_char(orders@, t, false, 850_000, cp),
                    None => !(spec_involves(orders@, t, false) && spec_vsum(
                        orders@,
                        t,
                        false,
                        orders@.len(),
                    ) > 0),
                },
    {
        self.weighted_prices(orders, false, 850_000)
    }

    /// Oracle prices for quoted tokens that appear in the batch, with the
    /// mid-point prices filling the gaps.
    pub fn calculate_market_prices(&self, orders: &Vec<Order>) -> (r: KeyedVec<ClearingPrice>)
        requires
            self.wf(),
        ensures
            r.wf(),
            forall|t: Address|
                spec_involves(orders@, t, true) && (#[trigger] self.price_oracle.spec_get(t))
                    is Some ==> match r.spec_get(t) {
                    Some(cp) => cp.token == t && Some(cp.price) == self.price_oracle.spec_get(t)
                        && cp.confidence == 950_000,
                    None => false,
                },
            forall|t: Address|
                !(spec_involves(orders@, t, true) && (#[trigger] self.price_oracle.spec_get(t))
                    is Some) ==> match r.spec_get(t) {
                    Some(cp) => spec_midpoint_char(orders@, t, cp),
                    None => !spec_sells(orders@, t),
                },
    {
        let n = orders.len();
        let mut out: KeyedVec<ClearingPrice> = KeyedVec::new();
        let mut i: usize = 0;
        while i < n
            invariant
                self.wf(),
                n == orders@.len(),
                i <= n,
                out.wf(),
                forall|t: Address|
                    match #[trigger] out.spec_get(t) {
                        Some(cp) => cp.token == t && Some(cp.price)
                            == self.price_oracle.spec_get(t) && cp.confidence == 950_000
                            && spec_involves(orders@, t, true),
                        None => true,
                    },
                forall|k: int|
                    0 <= k < i ==> {
                        let o = #[trigger] orders@[k];
                        &&& (self.price_oracle.spec_get(o.sell_token) is Some ==> out.spec_get(
                            o.sell_token,
                        ) is Some)
                        &&& (self.price_oracle.spec_get(o.buy_token) is Some ==> out.spec_get(
                            o.buy_token,
                        ) is Some)
                    },
            decreases n - i,
        {
            let sell_t = orders[i].sell_token;
            let buy_t = orders[i].buy_token;
            match out.get(&sell_t) {
                Some(_) => {},
                None => {
                    match self.price_oracle.get(&sell_t) {
                        Some(p) => {
                            out.insert(
                                sell_t,
                                ClearingPrice { token: sell_t, price: p, confidence: 950_000 },
                            );
                        },
                        None => {},
                    }
                },
            }
            match out.get(&buy_t) {
                Some(_) => {},
                None => {
                    match self.price_oracle.get(&buy_t) {
                        Some(p) => {
                            out.insert(
                                buy_t,
                                ClearingPrice { token: buy_t, price: p, confidence: 950_000 },
                            );
                        },
                        None => {},
                    }
                },
            }
            i = i + 1;
        }
        proof {
            assert forall|t: Address|
                spec_involves(orders@, t, true) && self.price_oracle.spec_get(t)
                    is Some implies out.spec_get(t) is Some by {
                let k = choose|k: int|
                    0 <= k < orders@.len() && spec_member(#[trigger] orders@[k], t, true);
            };
        }
        // fill the gaps from the mid-point strategy
        let mid = self.calculate_midpoint_prices(orders);
        let ghost oracle_part = out;
        let m = mid.entries.len();
        let mut j: usize = 0;
        while j < m
            invariant
                m == mid.entries@.len(),
                j <= m,
                out.wf(),
                mid.wf(),
                forall|t: Address|
                    match #[trigger] mid.spec_get(t) {
                        Some(cp) => spec_midpoint_char(orders@, t, cp),
                        None => !spec_sells(orders@, t),
                    },
                forall|t: Address|
                    oracle_part.spec_get(t) is Some ==> out.spec_get(t) == oracle_part.spec_get(
                        t,
                    ),
                forall|t: Address|
                    match #[trigger] out.spec_get(t) {
                        Some(cp) => oracle_part.spec_get(t) == Some(cp) || spec_midpoint_char(
                            orders@,
                            t,
                            cp,
                        ),
                        None => true,
                    },
                forall|idx: int|
                    0 <= idx < j ==> out.spec_get((#[trigger] mid.entries@[idx]).0) is Some,
            decreases m - j,
        {
            let (key, cp) = mid.entries[j];
            proof {
                crate::keyed::lemma_lookup_at(mid.entries@, j as int);
                assert((key, cp) == mid.entries@[j as int]);
                assert(mid.spec_get(key) == Some(cp));
                assert(spec_midpoint_char(orders@, key, cp));
            }
            match out.get(&key) {
                Some(_) => {},
                None => {
                    out.insert(key, cp);
                },
            }
            j = j + 1;
        }
        proof {
            assert forall|t: Address|
                !(spec_involves(orders@, t, true) && self.price_oracle.spec_get(t) is Some) && (
                #[trigger] out.spec_get(t)) is None implies !spec_sells(orders@, t) by {
                crate::keyed::lemma_lookup_chars(mid.entries@, t);
                if spec_sells(orders@, t) {
                    assert(mid.spec_get(t) is Some);
                    let k = choose|k: int|
                        0 <= k < mid.entries@.len() && mid.entries@[k] == (
                        t,
                        mid.spec_get(t)->Some_0,
                        );
                }
            };
        }
        out
    }

    /// Clearing prices for a batch, by the engine's strategy.
    pub fn calculate_clearing_prices(&self, orders: &Vec<Order>) -> (r: KeyedVec<ClearingPrice>)
        requires
            self.wf(),
        ensures
            r.wf(),
            self.strategy == PricingStrategy::MidPoint ==> forall|t: Address|
                match #[trigger] r.spec_get(t) {
                    Some(cp) => spec_midpoint_char(orders@, t, cp),
                    None => !spec_sells(orders@, t),
                },
            self.strategy == PricingStrategy::MaxSurplus ==> forall|t: Address|
                match #[trigger] r.spec_get(t) {
                    Some(cp) => spec_wavg_char(orders@, t, true, 800_000, cp),
                    None => !(spec_involves(orders@, t, true) && spec_vsum(
                        orders@,
                        t,
                        true,
                        orders@.len(),
                    ) > 0),
                },
            self.strategy == PricingStrategy::VolumeWeighted ==> forall|t: Address|
                match #[trigger] r.spec_get(t) {
                    Some(cp) => spec_wavg_char(orders@, t, false, 850_000, cp),
                    None => !(spec_involves(orders@, t, false) && spec_vsum(
                        orders@,
                        t,
                        false,
                        orders@.len(),
                    ) > 0),
                },
            self.strategy == PricingStrategy::MarketPrice ==> forall|t: Address|
                {
                    &&& (spec_involves(orders@, t, true) && (
                    #[trigger] self.price_oracle.spec_get(t)) is Some ==> match r.spec_get(t) {
                        Some(cp) => cp.token == t && Some(cp.price)
                            == self.price_oracle.spec_get(t) && cp.confidence == 950_000,
                        None => false,
                    })
                    &&& (!(spec_involves(orders@, t, true) && self.price_oracle.spec_get(t)
                        is Some) ==> match r.spec_get(t) {
                        Some(cp) => spec_midpoint_char(orders@, t, cp),
                        None => !spec_sells(orders@, t),
                    })
                },
    {
        match self.strategy {
            PricingStrategy::MidPoint => self.calculate_midpoint_prices(orders),
            PricingStrategy::MaxSurplus => self.calculate_max_surplus_prices(orders),
            PricingStrategy::MarketPrice => self.calculate_market_prices(orders),
            PricingStrategy::VolumeWeighted => self.calculate_volume_weighted_prices(orders),
        }
    }

    /// Validates clearing prices against every order: both tokens priced,
    /// both confidences at the floor, and the limit respected, i.e.
    /// `sell_amount * sell_price >= buy_amount * buy_price` exactly.
    pub fn validate_prices(&self, prices: &KeyedVec<ClearingPrice>, orders: &Vec<Order>) -> (r:
        Result<(), String>)
        requires
            prices.wf(),
        ensures
            r is Ok <==> (forall|k: int|
                0 <= k < orders@.len() ==> spec_order_priced_ok(
                    *prices,
                    self.min_confidence,
                    #[trigger] orders@[k],
                )),
            r matches Err(m) ==> exists|k: int|
                {
                    &&& 0 <= k < orders@.len()
                    &&& !spec_order_priced_ok(*prices, self.min_confidence, #[trigger] orders@[k])
                    &&& (forall|j: int|
                        0 <= j < k ==> spec_order_priced_ok(
                            *prices,
                            self.min_confidence,
                            #[trigger] orders@[j],
                        ))
                    &&& m@ == spec_price_err_msg(*prices, self.min_confidence, orders@[k])
                },
    {
        let n = orders.len();
        let mut k: usize = 0;
        while k < n
            invariant
                prices.wf(),
                n == orders@.len(),
                k <= n,
                forall|j: int|
                    0 <= j < k ==> spec_order_priced_ok(
                        *prices,
                        self.min_confidence,
                        #[trigger] orders@[j],
                    ),
            decreases n - k,
        {
            let o = &orders[k];
            let sell_price = match prices.get(&o.sell_token) {
                Some(cp) => cp,
                None => {
                    return Err("Missing price for sell token".to_owned());
                },
            };
            let buy_price = match prices.get(&o.buy_token) {
                Some(cp) => cp,
                None => {
                    return Err("Missing price for buy token".to_owned());
                },
            };
            if sell_price.confidence < self.min_confidence {
                return Err("Low confidence for sell token".to_owned());
            }
            if buy_price.confidence < self.min_confidence {
                return Err("Low confidence for buy token".to_owned());
            }
            let sell_value = mul_wide(&o.sell_amount, &sell_price.price);
            let buy_value = mul_wide(&o.buy_amount, &buy_price.price);
            if sell_value.lt(&buy_value) {
                return Err("Clearing prices do not satisfy order".to_owned());
            }
            k = k + 1;
        }
        Ok(())
    }

    /// Total surplus of a batch under given prices, in wad form,
    /// saturating: the sum of each order's excess of sell value over buy
    /// value, taken over orders with both tokens priced.
    pub fn calculate_total_surplus(&self, prices: &KeyedVec<ClearingPrice>, orders: &Vec<Order>)
        -> (r: u128)
        requires
            prices.wf(),
        ensures
            r == spec_total_surplus(*prices, orders@, orders@.len()),
    {
        let n = orders.len();
        let wadw = Wide::from_amount(&crate::orders::wad_amount());
        let mut total: u128 = 0;
        let mut k: usize = 0;
        while k < n
            invariant
                prices.wf(),
                n == orders@.len(),
                k <= n,
                wadw@ == 1_000_000_000_000_000_000nat,
                total == spec_total_surplus(*prices, orders@, k as nat),
            decreases n - k,
        {
            let o = &orders[k];
            match (prices.get(&o.sell_token), prices.get(&o.buy_token)) {
                (Some(sp), Some(bp)) => {
                    let clearing_value = mul_wide(&o.sell_amount, &sp.price);
                    let limit_value = mul_wide(&o.buy_amount, &bp.price);
                    if limit_value.lt(&clearing_value) {
                        let diff = clearing_value.sub_exact(&limit_value);
                        let (q, _r) = div_wide(&diff, &wadw);
                        let term = q.to_u128_sat();
                        total = match total.checked_add(term) {
                            Some(s) => s,
                            None => u128::MAX,
                        };
                    }
                },
                _ => {},
            }
            k = k + 1;
        }
        total
    }

    /// Fee for an order: the given fraction (ppm) of the surplus, in wad
    /// form.
    pub fn calculate_fee(&self, order: &Order, surplus: u128, fee_ppm: u64) -> (r: Amount)
        ensures
            r@ == surplus * fee_ppm / 1_000_000,
    {
        let s = Amount::from_u128(surplus);
        let f = Amount::from_u128(fee_ppm as u128);
        let w = mul_wide(&s, &f);
        let (q, _r) = div_wide(&w, &Wide::from_amount(&Amount::from_u128(1_000_000)));
        proof {
            assert(surplus * fee_ppm / 1_000_000 < pow256()) by (nonlinear_arith)
                requires
                    surplus <= u128::MAX,
                    fee_ppm <= u64::MAX,
                    pow256() > 0x100000000000000000000000000000000000000000000000000000000nat,
            ;
        }
        q.to_amount()
    }

    /// Records an external quote for a token.
    pub fn set_external_price(&mut self, token: Address, price: Amount)
        requires
            old(self).wf(),
        ensures
            final(self).wf(),
            final(self).strategy == old(self).strategy,
            final(self).min_confidence == old(self).min_confidence,
            final(self).price_oracle.spec_get(token) == Some(price),
            forall|u: Address|
                u != token ==> final(self).price_oracle.spec_get(u) == old(
                    self,
                ).price_oracle.spec_get(u),
    {
        self.price_oracle.insert(token, price);
    }
}

impl Default for PricingEngine {
    /// Mid-point strategy with half the unit interval as the confidence
    /// floor.
    fn default() -> (r: PricingEngine)
        ensures
            r.strategy == PricingStrategy::MidPoint,
            r.min_confidence == 500_000,
            r.price_oracle.entries@.len() == 0,
            r.wf(),
    {
        PricingEngine::new(PricingStrategy::MidPoint, 500_000)
    }
}

} // verus!
