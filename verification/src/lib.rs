//! Batch-auction solver core for a decentralized exchange.
//!
//! Orders are off-chain intents to swap one token for another. The solver
//! discovers coincidence-of-wants matches between orders, routes residual
//! demand through automated-market-maker pools, computes uniform clearing
//! prices, and assembles a scored settlement plan.
//!
//! All amounts are 256-bit unsigned integers in the token's smallest unit.
//! Quantities that are conceptually fractional (scores, confidences, price
//! impact) are held in fixed-point form: parts per million (ppm) for values
//! in [0, 1], and 10^18-scaled integers ("wad") for prices and surplus.

pub mod address;
pub mod amount;
pub mod chains;
pub mod keyed;
pub mod matching;
pub mod math;
pub mod orders;
pub mod paths;
pub mod pricing;
pub mod rings;
pub mod routing;
pub mod settlement;
pub mod solver;
pub mod tokens;
pub mod wide;

use vstd::prelude::*;

verus! {

/// Failure taxonomy for the solver pipeline.
#[derive(Debug)]
pub enum Error {
    /// Malformed or logically inconsistent order fields.
    InvalidOrder(String),
    /// No route satisfies the routing constraints.
    InsufficientLiquidity(String),
    /// An assembled settlement fails structural validation.
    SettlementFailed(String),
    /// Post-hook construction failed for a cross-chain order.
    BridgeError(String),
    /// A configuration parameter is out of its admissible range.
    ConfigError(String),
}

/// The name of an error's kind.
pub open spec fn spec_error_kind(e: Error) -> Seq<char> {
    match e {
        Error::InvalidOrder(_) => "Invalid order"@,
        Error::InsufficientLiquidity(_) => "Insufficient liquidity"@,
        Error::SettlementFailed(_) => "Settlement failed"@,
        Error::BridgeError(_) => "Bridge error"@,
        Error::ConfigError(_) => "Configuration error"@,
    }
}

impl Error {
    /// The name of this error's kind.
    pub fn kind_name(&self) -> (r: &'static str)
        ensures
            r@ == spec_error_kind(*self),
    {
        match self {
            Error::InvalidOrder(_) => "Invalid order",
            Error::InsufficientLiquidity(_) => "Insufficient liquidity",
            Error::SettlementFailed(_) => "Settlement failed",
            Error::BridgeError(_) => "Bridge error",
            Error::ConfigError(_) => "Configuration error",
        }
    }

    /// The diagnostic carried by this error.
    pub fn detail(&self) -> (r: &String)
        ensures
            match self {
                Error::InvalidOrder(m) => r == m,
                Error::InsufficientLiquidity(m) => r == m,
                Error::SettlementFailed(m) => r == m,
                Error::BridgeError(m) => r == m,
                Error::ConfigError(m) => r == m,
            },
    {
        match self {
            Error::InvalidOrder(m) => m,
            Error::InsufficientLiquidity(m) => m,
            Error::SettlementFailed(m) => m,
            Error::BridgeError(m) => m,
            Error::ConfigError(m) => m,
        }
    }
}

} // verus!
