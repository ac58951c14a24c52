//! The blockchain networks the solver knows about, with their numeric
//! identifiers and catalogue data.

use vstd::prelude::*;

verus! {

/// Supported blockchain networks.
#[derive(Clone, Copy, PartialEq, Eq, Structural, Debug, Hash)]
pub enum ChainId {
    Ethereum,
    Optimism,
    BinanceSmartChain,
    Polygon,
    Base,
    Arbitrum,
    Avalanche,
}

/// The numeric network identifier of a chain.
pub open spec fn spec_chain_id_u64(c: ChainId) -> u64 {
    match c {
        ChainId::Ethereum => 1,
        ChainId::Optimism => 10,
        ChainId::BinanceSmartChain => 56,
        ChainId::Polygon => 137,
        ChainId::Base => 8453,
        ChainId::Arbitrum => 42161,
        ChainId::Avalanche => 43114,
    }
}

/// The typical block time of a chain, in seconds.
pub open spec fn spec_block_time(c: ChainId) -> u64 {
    match c {
        ChainId::Ethereum => 12,
        ChainId::Optimism => 2,
        ChainId::BinanceSmartChain => 3,
        ChainId::Polygon => 2,
        ChainId::Base => 2,
        ChainId::Arbitrum => 1,
        ChainId::Avalanche => 2,
    }
}

/// The display name of a chain.
pub open spec fn spec_chain_name(c: ChainId) -> Seq<char> {
    match c {
        ChainId::Ethereum => "Ethereum"@,
        ChainId::Optimism => "Optimism"@,
        ChainId::BinanceSmartChain => "Binance Smart Chain"@,
        ChainId::Polygon => "Polygon"@,
        ChainId::Base => "Base"@,
        ChainId::Arbitrum => "Arbitrum"@,
        ChainId::Avalanche => "Avalanche"@,
    }
}

/// The native-token symbol of a chain.
pub open spec fn spec_native_token(c: ChainId) -> Seq<char> {
    match c {
        ChainId::Ethereum => "ETH"@,
        ChainId::Optimism => "ETH"@,
        ChainId::BinanceSmartChain => "BNB"@,
        ChainId::Polygon => "MATIC"@,
        ChainId::Base => "ETH"@,
        ChainId::Arbitrum => "ETH"@,
        ChainId::Avalanche => "AVAX"@,
    }
}

impl ChainId {
    /// Returns the chain's display name.
    pub fn name(&self) -> (r: &'static str)
        ensures
            r@ == spec_chain_name(*self),
    {
        match self {
            ChainId::Ethereum => "Ethereum",
            ChainId::Optimism => "Optimism",
            ChainId::BinanceSmartChain => "Binance Smart Chain",
            ChainId::Polygon => "Polygon",
            ChainId::Base => "Base",
            ChainId::Arbitrum => "Arbitrum",
            ChainId::Avalanche => "Avalanche",
        }
    }

    /// Returns the chain's native-token symbol.
    pub fn native_token(&self) -> (r: &'static str)
        ensures
            r@ == spec_native_token(*self),
    {
        match self {
            ChainId::Ethereum => "ETH",
            ChainId::Optimism => "ETH",
            ChainId::BinanceSmartChain => "BNB",
            ChainId::Polygon => "MATIC",
            ChainId::Base => "ETH",
            ChainId::Arbitrum => "ETH",
            ChainId::Avalanche => "AVAX",
        }
    }

    /// All supported chains execute EVM semantics.
    pub fn is_evm(&self) -> (r: bool)
        ensures
            r,
    {
        true
    }

    /// Returns the chain's typical block time in seconds.
    pub fn block_time(&self) -> (r: u64)
        ensures
            r == spec_block_time(*self),
    {
        match self {
            ChainId::Ethereum => 12,
            ChainId::Optimism => 2,
            ChainId::BinanceSmartChain => 3,
            ChainId::Polygon => 2,
            ChainId::Base => 2,
            ChainId::Arbitrum => 1,
            ChainId::Avalanche => 2,
        }
    }

    /// Returns the numeric network identifier.
    pub fn as_u64(&self) -> (r: u64)
        ensures
            r == spec_chain_id_u64(*self),
    {
        match self {
            ChainId::Ethereum => 1,
            ChainId::Optimism => 10,
            ChainId::BinanceSmartChain => 56,
            ChainId::Polygon => 137,
            ChainId::Base => 8453,
            ChainId::Arbitrum => 42161,
            ChainId::Avalanche => 43114,
        }
    }

    /// Looks a chain up by its numeric identifier: `Some` exactly for the
    /// seven known identifiers, and consistent with `as_u64`.
    pub fn from_u64(id: u64) -> (r: Option<ChainId>)
        ensures
            match r {
                Some(c) => spec_chain_id_u64(c) == id,
                None => forall|c: ChainId| spec_chain_id_u64(c) != id,
            },
    {
        if id == 1 {
            Some(ChainId::Ethereum)
        } else if id == 10 {
            Some(ChainId::Optimism)
        } else if id == 56 {
            Some(ChainId::BinanceSmartChain)
        } else if id == 137 {
            Some(ChainId::Polygon)
        } else if id == 8453 {
            Some(ChainId::Base)
        } else if id == 42161 {
            Some(ChainId::Arbitrum)
        } else if id == 43114 {
            Some(ChainId::Avalanche)
        } else {
            None
        }
    }
}

/// Catalogue entry for a chain the solver may settle on.
#[derive(Clone, Debug)]
pub struct SupportedChain {
    pub chain_id: ChainId,
    pub rpc_url: String,
    pub explorer_url: String,
    pub cow_settlement_address: Option<String>,
}

impl SupportedChain {
    /// Builds a catalogue entry from its parts.
    pub fn new(
        chain_id: ChainId,
        rpc_url: String,
        explorer_url: String,
        cow_settlement_address: Option<String>,
    ) -> (r: SupportedChain)
        ensures
            r.chain_id == chain_id,
            r.rpc_url == rpc_url,
            r.explorer_url == explorer_url,
            r.cow_settlement_address == cow_settlement_address,
    {
        SupportedChain { chain_id, rpc_url, explorer_url, cow_settlement_address }
    }
}

} // verus!
