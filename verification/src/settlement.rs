//! Settlement plans: the trades, clearing prices, on-chain interactions and
//! cross-chain post-hooks that execute an auction's outcome.

use vstd::prelude::*;
use crate::address::Address;
use crate::amount::Amount;
use crate::chains::ChainId;
use crate::keyed::KeyedVec;
use crate::orders::OrderId;

verus! {

/// One filled order inside a settlement.
#[derive(Clone, Copy, Debug)]
pub struct Trade {
    /// The order being filled.
    pub order_id: OrderId,
    /// Executed sell amount.
    pub executed_sell_amount: Amount,
    /// Executed buy amount.
    pub executed_buy_amount: Amount,
    /// Fee paid, in sell token.
    pub fee: Amount,
}

/// Kind tag of an on-chain interaction.
#[derive(Clone, Copy, PartialEq, Eq, Structural, Debug)]
pub enum InteractionType {
    /// Uniswap V2 swap.
    UniswapV2Swap,
    /// Uniswap V3 swap.
    UniswapV3Swap,
    /// Balancer vault swap.
    BalancerSwap,
    /// Curve pool swap.
    CurveSwap,
    /// ERC20 approval.
    Approval,
    /// Anything else.
    Custom,
}

/// An on-chain call the settlement performs.
#[derive(Clone, Debug)]
pub struct Interaction {
    /// Target contract address.
    pub target: Address,
    /// Call data blob.
    pub call_data: Vec<u8>,
    /// Native value sent along.
    pub value: Amount,
    /// Kind tag.
    pub interaction_type: InteractionType,
}

/// A hook appended for cross-chain delivery through a bridge.
#[derive(Clone, Debug)]
pub struct PostHook {
    /// Target bridge contract.
    pub bridge_contract: Address,
    /// Call data for the bridge.
    pub call_data: Vec<u8>,
    /// Source chain.
    pub source_chain: ChainId,
    /// Destination chain.
    pub destination_chain: ChainId,
    /// Intermediate token being bridged.
    pub intermediate_token: Address,
    /// Amount to bridge.
    pub amount: Amount,
    /// Recipient on the destination chain.
    pub recipient: Address,
}

/// A settlement plan: trades, uniform clearing prices, interactions and
/// post-hooks.
#[derive(Clone, Debug)]
pub struct SettlementPlan {
    /// Trades to execute.
    pub trades: Vec<Trade>,
    /// On-chain interactions.
    pub interactions: Vec<Interaction>,
    /// Clearing price per token.
    pub clearing_prices: KeyedVec<Amount>,
    /// Cross-chain post-hooks.
    pub post_hooks: Vec<PostHook>,
}

/// Alias kept for readers used to the shorter name.
pub type Settlement = SettlementPlan;

/// Gas estimate: a base cost plus a fixed cost per trade, interaction and
/// post-hook.
pub open spec fn spec_estimate_gas(p: SettlementPlan) -> nat {
    21000 + p.trades@.len() * 50000 + p.interactions@.len() * 100000 + p.post_hooks@.len() * 150000
}

impl SettlementPlan {
    /// The clearing-price map keeps pairwise-distinct keys.
    pub open spec fn wf(&self) -> bool {
        self.clearing_prices.wf()
    }

    /// The price recorded for a token, if any.
    pub open spec fn spec_price_of(&self, t: Address) -> Option<Amount> {
        self.clearing_prices.spec_get(t)
    }

    /// An empty settlement.
    pub fn new() -> (r: SettlementPlan)
        ensures
            r.trades@.len() == 0,
            r.interactions@.len() == 0,
            r.post_hooks@.len() == 0,
            r.clearing_prices.entries@.len() == 0,
            forall|t: Address| r.spec_price_of(t) == None::<Amount>,
            r.wf(),
    {
        SettlementPlan {
            trades: Vec::new(),
            interactions: Vec::new(),
            clearing_prices: KeyedVec::new(),
            post_hooks: Vec::new(),
        }
    }

    /// Appends a trade.
    pub fn add_trade(&mut self, trade: Trade)
        ensures
            final(self).trades@ == old(self).trades@.push(trade),
            final(self).interactions == old(self).interactions,
            final(self).clearing_prices == old(self).clearing_prices,
            final(self).post_hooks == old(self).post_hooks,
    {
        self.trades.push(trade);
    }

    /// Appends an interaction.
    pub fn add_interaction(&mut self, interaction: Interaction)
        ensures
            final(self).interactions@ == old(self).interactions@.push(interaction),
            final(self).trades == old(self).trades,
            final(self).clearing_prices == old(self).clearing_prices,
            final(self).post_hooks == old(self).post_hooks,
    {
        self.interactions.push(interaction);
    }

    /// Appends a cross-chain post-hook.
    pub fn add_post_hook(&mut self, post_hook: PostHook)
        ensures
            final(self).post_hooks@ == old(self).post_hooks@.push(post_hook),
            final(self).trades == old(self).trades,
            final(self).interactions == old(self).interactions,
            final(self).clearing_prices == old(self).clearing_prices,
    {
        self.post_hooks.push(post_hook);
    }

    /// Sets the clearing price of a token, replacing any earlier price.
    pub fn set_clearing_price(&mut self, token: Address, price: Amount)
        requires
            old(self).wf(),
        ensures
            final(self).wf(),
            final(self).spec_price_of(token) == Some(price),
            forall|u: Address|
                u != token ==> final(self).spec_price_of(u) == old(self).spec_price_of(u),
            final(self).trades == old(self).trades,
            final(self).interactions == old(self).interactions,
            final(self).post_hooks == old(self).post_hooks,
    {
        self.clearing_prices.insert(token, price);
    }

    /// Structural validation: a settlement must contain at least one trade.
    pub fn validate(&self) -> (r: Result<(), String>)
        ensures
            r is Ok <==> self.trades@.len() > 0,
            r matches Err(m) ==> m@ == "Settlement must contain at least one trade"@,
    {
        if self.trades.len() == 0 {
            return Err("Settlement must contain at least one trade".to_owned());
        }
        Ok(())
    }

    /// Estimates the total gas cost, saturating at the 64-bit limit.
    pub fn estimate_gas(&self) -> (r: u64)
        ensures
            r == if spec_estimate_gas(*self) > u64::MAX {
                u64::MAX as nat
            } else {
                spec_estimate_gas(*self)
            },
    {
        let trade_gas: u128 = (self.trades.len() as u128) * 50000;
        let interaction_gas: u128 = (self.interactions.len() as u128) * 100000;
        let post_hook_gas: u128 = (self.post_hooks.len() as u128) * 150000;
        let total: u128 = 21000 + trade_gas + interaction_gas + post_hook_gas;
        if total > u64::MAX as u128 {
            u64::MAX
        } else {
            total as u64
        }
    }
}

impl Default for SettlementPlan {
    /// The empty settlement.
    fn default() -> (r: SettlementPlan)
        ensures
            r.trades@.len() == 0,
            r.interactions@.len() == 0,
            r.post_hooks@.len() == 0,
            r.clearing_prices.entries@.len() == 0,
            r.wf(),
    {
        SettlementPlan::new()
    }
}

} // verus!
