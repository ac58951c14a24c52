//! Tokens and decimal-aware token amounts.

use vstd::prelude::*;
use crate::address::Address;
use crate::amount::{Amount, pow256};
use crate::chains::ChainId;
use crate::wide;

verus! {

/// Adding an amount and then subtracting it is the identity: whenever the
/// checked addition of `b` to `a` succeeds with `s`, the checked
/// subtraction of `b` from `s` cannot fail and returns `a` exactly.
pub proof fn lemma_add_sub_roundtrip(a: nat, b: nat, s: nat)
    requires
        s == a + b,
    ensures
        b <= s,
        (s - b) as nat == a,
{
}

/// A token on a specific chain.
#[derive(Clone, Debug)]
pub struct Token {
    /// Token contract address.
    pub address: Address,
    /// Chain where the token exists.
    pub chain_id: ChainId,
    /// Token symbol.
    pub symbol: String,
    /// Token name.
    pub name: String,
    /// Number of decimals.
    pub decimals: u8,
}

/// An amount of a token in its smallest unit, together with the number of
/// decimals of that token.
#[derive(Clone, Copy, PartialEq, Eq, Structural, Debug)]
pub struct TokenAmount {
    /// Raw amount in the smallest unit.
    pub raw: Amount,
    /// Number of decimals.
    pub decimals: u8,
}

impl TokenAmount {
    /// Packages a raw amount with its decimals.
    pub fn new(raw: Amount, decimals: u8) -> (r: TokenAmount)
        ensures
            r.raw == raw,
            r.decimals == decimals,
    {
        TokenAmount { raw, decimals }
    }

    /// True exactly when the amount is zero.
    pub fn is_zero(&self) -> (r: bool)
        ensures
            r == (self.raw@ == 0),
    {
        self.raw.is_zero()
    }

    /// Adds two amounts of matching decimals; `None` on a decimal mismatch
    /// or 256-bit overflow.
    pub fn checked_add(&self, other: &TokenAmount) -> (r: Option<TokenAmount>)
        ensures
            match r {
                Some(s) => self.decimals == other.decimals && s.decimals == self.decimals
                    && s.raw@ == self.raw@ + other.raw@,
                None => self.decimals != other.decimals || self.raw@ + other.raw@ >= pow256(),
            },
    {
        if self.decimals != other.decimals {
            return None;
        }
        match self.raw.checked_add(&other.raw) {
            Some(raw) => Some(TokenAmount { raw, decimals: self.decimals }),
            None => None,
        }
    }

    /// Subtracts two amounts of matching decimals; `None` on a decimal
    /// mismatch or underflow.
    pub fn checked_sub(&self, other: &TokenAmount) -> (r: Option<TokenAmount>)
        ensures
            match r {
                Some(s) => self.decimals == other.decimals && s.decimals == self.decimals
                    && s.raw@ == self.raw@ - other.raw@,
                None => self.decimals != other.decimals || self.raw@ < other.raw@,
            },
    {
        if self.decimals != other.decimals {
            return None;
        }
        match self.raw.checked_sub(&other.raw) {
            Some(raw) => Some(TokenAmount { raw, decimals: self.decimals }),
            None => None,
        }
    }

    /// Multiplies by a scalar; `None` exactly on 256-bit overflow.
    pub fn checked_mul(&self, scalar: u128) -> (r: Option<TokenAmount>)
        ensures
            match r {
                Some(s) => s.decimals == self.decimals && s.raw@ == self.raw@ * scalar,
                None => self.raw@ * scalar >= pow256(),
            },
    {
        match wide::checked_mul(&self.raw, &Amount::from_u128(scalar)) {
            Some(raw) => Some(TokenAmount { raw, decimals: self.decimals }),
            None => None,
        }
    }

    /// Divides by a scalar, flooring; `None` exactly on a zero divisor.
    pub fn checked_div(&self, scalar: u128) -> (r: Option<TokenAmount>)
        ensures
            match r {
                Some(s) => scalar > 0 && s.decimals == self.decimals && s.raw@ == self.raw@
                    / scalar as nat,
                None => scalar == 0,
            },
    {
        match wide::checked_div(&self.raw, &Amount::from_u128(scalar)) {
            Some(raw) => Some(TokenAmount { raw, decimals: self.decimals }),
            None => None,
        }
    }
}

impl Token {
    /// Builds a token from its parts.
    pub fn new(address: Address, chain_id: ChainId, symbol: String, name: String, decimals: u8) -> (r:
        Token)
        ensures
            r.address == address,
            r.chain_id == chain_id,
            r.symbol == symbol,
            r.name == name,
            r.decimals == decimals,
    {
        Token { address, chain_id, symbol, name, decimals }
    }

    /// A raw amount of this token, tagged with the token's decimals.
    pub fn amount(&self, raw: Amount) -> (r: TokenAmount)
        ensures
            r.raw == raw,
            r.decimals == self.decimals,
    {
        TokenAmount::new(raw, self.decimals)
    }
}

} // verus!
