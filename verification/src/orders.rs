//! Orders: signed off-chain intents to swap one token for another.
//!
//! Limit prices are rational: `buy_amount / sell_amount` in buy-token units
//! per sell-token unit. Executable code never divides to compare prices; it
//! cross-multiplies, so every comparison is exact. Where a price must be
//! materialised it is held as `floor(price * 10^18)` ("wad" form).

use vstd::prelude::*;
use crate::address::Address;
use crate::amount::{Amount, pow256};
use crate::chains::ChainId;
use crate::wide::{mul_wide, div_wide, Wide};

verus! {

broadcast use vstd::array::group_array_axioms;

/// One unit of account scaled by 10^18, the "wad" fixed-point scale.
pub open spec fn wad() -> nat {
    1_000_000_000_000_000_000nat
}

/// The wad scale as an amount.
pub fn wad_amount() -> (r: Amount)
    ensures
        r@ == wad(),
{
    Amount::from_u128(1_000_000_000_000_000_000)
}

/// Unique 32-byte order identifier.
#[derive(Clone, Copy, PartialEq, Eq, Hash, Debug)]
pub struct OrderId(pub [u8; 32]);

impl OrderId {
    /// Structural equality, decided byte by byte.
    pub fn eq_id(&self, other: &OrderId) -> (r: bool)
        ensures
            r == (self == other),
    {
        let mut i: usize = 0;
        while i < 32
            invariant
                i <= 32,
                forall|k: int| 0 <= k < i ==> self.0@[k] == other.0@[k],
            decreases 32 - i,
        {
            if self.0[i] != other.0[i] {
                proof {
                    assert(self.0@[i as int] != other.0@[i as int]);
                    assert(self.0 != other.0);
                }
                return false;
            }
            i = i + 1;
        }
        proof {
            assert(self.0 =~= other.0);
            assert(self.0 == other.0);
        }
        true
    }
}

/// Execution kind of an order.
#[derive(Clone, Copy, PartialEq, Eq, Structural, Debug)]
pub enum OrderType {
    /// Buy an exact amount.
    Buy,
    /// Sell an exact amount.
    Sell,
}

/// Lifecycle status of an order.
#[derive(Clone, Copy, PartialEq, Eq, Structural, Debug)]
pub enum OrderStatus {
    /// Open and fillable.
    Open,
    /// Being processed.
    Pending,
    /// Completely filled.
    Filled,
    /// Partially filled.
    PartiallyFilled,
    /// Cancelled by its owner.
    Cancelled,
    /// Past its validity deadline.
    Expired,
}

/// A user's intent to swap `sell_amount` of `sell_token` for at least
/// `buy_amount` of `buy_token`.
#[derive(Clone, PartialEq, Eq, Debug)]
pub struct Order {
    pub id: OrderId,
    pub owner: Address,
    pub sell_token: Address,
    pub buy_token: Address,
    pub sell_amount: Amount,
    pub buy_amount: Amount,
    pub valid_to: u32,
    pub fee_amount: Amount,
    pub kind: OrderType,
    pub partially_fillable: bool,
    pub status: OrderStatus,
    pub source_chain: Option<ChainId>,
    pub destination_chain: Option<ChainId>,
    pub bridge_provider: Option<String>,
}

/// An order is cross-chain when both endpoints are stated.
pub open spec fn spec_is_cross_chain(o: Order) -> bool {
    o.source_chain is Some && o.destination_chain is Some
}

/// The invariant a well-formed order satisfies: positive amounts, distinct
/// tokens, a set deadline, and a bridge provider when cross-chain.
pub open spec fn spec_order_valid(o: Order) -> bool {
    &&& o.sell_amount@ > 0
    &&& o.buy_amount@ > 0
    &&& o.sell_token != o.buy_token
    &&& o.valid_to > 0
    &&& (spec_is_cross_chain(o) ==> o.bridge_provider is Some)
}

/// The diagnostic for the first validation rule an order breaks.
pub open spec fn spec_validate_msg(o: Order) -> Seq<char> {
    if o.sell_amount@ == 0 {
        "Sell amount must be greater than zero"@
    } else if o.buy_amount@ == 0 {
        "Buy amount must be greater than zero"@
    } else if o.sell_token == o.buy_token {
        "Sell and buy tokens must be different"@
    } else if o.valid_to == 0 {
        "Valid_to timestamp must be set"@
    } else {
        "Cross-chain orders must specify a bridge provider"@
    }
}

/// The limit price in wad form, saturated to 256 bits; zero when the sell
/// amount is zero.
pub open spec fn spec_limit_price_wad(o: Order) -> nat {
    if o.sell_amount@ == 0 {
        0
    } else if o.buy_amount@ * wad() / o.sell_amount@ >= pow256() {
        (pow256() - 1) as nat
    } else {
        o.buy_amount@ * wad() / o.sell_amount@
    }
}

/// Whether an order may execute at price `p` (wad form): a Sell order needs
/// `p >= buy/sell`, a Buy order `p <= buy/sell`, compared exactly by
/// cross-multiplication. A degenerate zero sell amount means a zero limit
/// price: a Sell order then accepts any price and a Buy order only zero.
pub open spec fn spec_can_fill_at_price(o: Order, p: nat) -> bool {
    if o.sell_amount@ == 0 {
        match o.kind {
            OrderType::Buy => p == 0,
            OrderType::Sell => true,
        }
    } else {
        match o.kind {
            OrderType::Buy => p * o.sell_amount@ <= o.buy_amount@ * wad(),
            OrderType::Sell => p * o.sell_amount@ >= o.buy_amount@ * wad(),
        }
    }
}

impl Order {
    /// Checks the order invariant; `Ok` exactly when it holds, and otherwise
    /// the diagnostic of the first rule broken.
    pub fn validate(&self) -> (r: Result<(), String>)
        ensures
            r is Ok <==> spec_order_valid(*self),
            r matches Err(m) ==> m@ == spec_validate_msg(*self),
    {
        if self.sell_amount.is_zero() {
            return Err("Sell amount must be greater than zero".to_owned());
        }
        if self.buy_amount.is_zero() {
            return Err("Buy amount must be greater than zero".to_owned());
        }
        if self.sell_token == self.buy_token {
            return Err("Sell and buy tokens must be different".to_owned());
        }
        if self.valid_to == 0 {
            return Err("Valid_to timestamp must be set".to_owned());
        }
        if self.is_cross_chain() {
            if self.bridge_provider.is_none() {
                return Err("Cross-chain orders must specify a bridge provider".to_owned());
            }
        }
        Ok(())
    }

    /// True exactly when both a source and a destination chain are stated.
    pub fn is_cross_chain(&self) -> (r: bool)
        ensures
            r == spec_is_cross_chain(*self),
    {
        self.source_chain.is_some() && self.destination_chain.is_some()
    }

    /// True exactly when the validity deadline has passed.
    pub fn is_expired(&self, current_time: u32) -> (r: bool)
        ensures
            r == (current_time > self.valid_to),
    {
        current_time > self.valid_to
    }

    /// The limit price `buy_amount / sell_amount` in wad form, saturated to
    /// 256 bits; zero when the sell amount is zero.
    pub fn limit_price(&self) -> (r: Amount)
        ensures
            r@ == spec_limit_price_wad(*self),
    {
        if self.sell_amount.is_zero() {
            return Amount::zero();
        }
        let num = mul_wide(&self.buy_amount, &wad_amount());
        let (q, _rem) = div_wide(&num, &Wide::from_amount(&self.sell_amount));
        if q.fits_amount() {
            q.to_amount()
        } else {
            Amount::max_value()
        }
    }

    /// Whether the order may execute at price `price` (wad form).
    pub fn can_fill_at_price(&self, price: &Amount) -> (r: bool)
        ensures
            r == spec_can_fill_at_price(*self, price@),
    {
        if self.sell_amount.is_zero() {
            return match self.kind {
                OrderType::Buy => price.is_zero(),
                OrderType::Sell => true,
            };
        }
        let lhs = mul_wide(price, &self.sell_amount);
        let rhs = mul_wide(&self.buy_amount, &wad_amount());
        match self.kind {
            OrderType::Buy => lhs.le(&rhs),
            OrderType::Sell => rhs.le(&lhs),
        }
    }
}

} // verus!
