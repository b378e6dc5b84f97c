//! A verified engine for simulating the tokenomics of a project: token supply
//! mechanics (airdrops, unlock schedules), synthetic user populations, trade
//! simulation, and per-interval economic reports.

use vstd::prelude::*;

pub mod blockchain;
pub mod decimal;
pub mod engine;
pub mod engine_builder;
pub mod engine_config;
pub mod report;
pub mod token;
pub mod token_builder;
pub mod trusted;
pub mod user;
pub mod vesting;

verus! {

/// A list of possible errors that can occur while building or running a
/// simulation.
#[derive(Clone, Copy, Debug, PartialEq, Eq, Structural)]
pub enum SimulationError {
    /// Missing required field: name.
    MissingName,
    /// Missing required field: token.
    MissingToken,
    /// Missing required field: options.
    MissingOptions,
    /// Missing required field: total_users.
    MissingTotalUsers,
    /// A decimal value was not representable, or an arithmetic step produced
    /// an unrepresentable value.
    InvalidDecimal,
    /// The fee provider rejected the API key.
    InvalidApiKey,
    /// The fee provider request failed or returned an unusable response.
    InvalidApiRequest,
    /// The fee provider returned a numeric payload that could not be parsed.
    InvalidApiConversion,
}

} // verus!
