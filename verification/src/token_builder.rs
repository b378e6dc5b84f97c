//! Builder for creating a new token.

use vstd::prelude::*;

use crate::decimal::{dec_wf, pow10, units, Dec, MAX_SCALE};
use crate::token::{Token, UnlockEvent};
use crate::trusted::fresh_uuid;
use crate::SimulationError;

verus! {

/// Builder for creating a new token. Fields left unset fall back to their
/// defaults when the token is built.
#[derive(Debug, Default, PartialEq)]
pub struct TokenBuilder {
    /// Name of the token.
    pub name: Option<String>,
    /// Symbol of the token.
    pub symbol: Option<String>,
    /// Total supply of the token, in whole tokens.
    pub total_supply: Option<i64>,
    /// Current supply of the token.
    pub current_supply: Option<Dec>,
    /// Initial supply of the token, in percent of the total supply.
    pub initial_supply_percentage: Option<Dec>,
    /// Fraction of each trade minted anew, if the supply is inflationary.
    pub inflation_rate: Option<Dec>,
    /// Fraction of each trade destroyed, if the supply is deflationary.
    pub burn_rate: Option<Dec>,
    /// Initial price of the token in the simulation.
    pub initial_price: Option<Dec>,
    /// Airdrop amount of the token, in percent of the total supply.
    pub airdrop_percentage: Option<Dec>,
    /// Unlock schedule.
    pub unlock_schedule: Option<Vec<UnlockEvent>>,
}

impl TokenBuilder {
    /// Creates a new token builder with no field set.
    pub fn new() -> (r: TokenBuilder)
        ensures
            r == (TokenBuilder {
                name: None,
                symbol: None,
                total_supply: None,
                current_supply: None,
                initial_supply_percentage: None,
                inflation_rate: None,
                burn_rate: None,
                initial_price: None,
                airdrop_percentage: None,
                unlock_schedule: None,
            }),
    {
        TokenBuilder {
            name: None,
            symbol: None,
            total_supply: None,
            current_supply: None,
            initial_supply_percentage: None,
            inflation_rate: None,
            burn_rate: None,
            initial_price: None,
            airdrop_percentage: None,
            unlock_schedule: None,
        }
    }

    /// Sets the name of the token.
    pub fn name(self, name: String) -> (r: TokenBuilder)
        ensures
            r == (TokenBuilder { name: Some(name), ..self }),
    {
        TokenBuilder { name: Some(name), ..self }
    }

    /// Sets the symbol of the token.
    pub fn symbol(self, symbol: String) -> (r: TokenBuilder)
        ensures
            r == (TokenBuilder { symbol: Some(symbol), ..self }),
    {
        TokenBuilder { symbol: Some(symbol), ..self }
    }

    /// Sets the total supply of the token.
    pub fn total_supply(self, total_supply: i64) -> (r: TokenBuilder)
        ensures
            r == (TokenBuilder { total_supply: Some(total_supply), ..self }),
    {
        TokenBuilder { total_supply: Some(total_supply), ..self }
    }

    /// Sets the current supply of the token.
    pub fn current_supply(self, current_supply: Dec) -> (r: TokenBuilder)
        ensures
            r == (TokenBuilder { current_supply: Some(current_supply), ..self }),
    {
        TokenBuilder { current_supply: Some(current_supply), ..self }
    }

    /// Sets the initial supply of the token, in percent of the total supply.
    pub fn initial_supply_percentage(self, initial_supply_percentage: Dec) -> (r: TokenBuilder)
        ensures
            r == (TokenBuilder {
                initial_supply_percentage: Some(initial_supply_percentage),
                ..self
            }),
    {
        TokenBuilder { initial_supply_percentage: Some(initial_supply_percentage), ..self }
    }

    /// Sets the annual percentage increase in supply, if inflationary.
    pub fn inflation_rate(self, inflation_rate: Dec) -> (r: TokenBuilder)
        ensures
            r == (TokenBuilder { inflation_rate: Some(inflation_rate), ..self }),
    {
        TokenBuilder { inflation_rate: Some(inflation_rate), ..self }
    }

    /// Sets the percentage of tokens burned during each transaction.
    pub fn burn_rate(self, burn_rate: Dec) -> (r: TokenBuilder)
        ensures
            r == (TokenBuilder { burn_rate: Some(burn_rate), ..self }),
    {
        TokenBuilder { burn_rate: Some(burn_rate), ..self }
    }

    /// Sets the initial price of the token in the simulation.
    pub fn initial_price(self, initial_price: Dec) -> (r: TokenBuilder)
        ensures
            r == (TokenBuilder { initial_price: Some(initial_price), ..self }),
    {
        TokenBuilder { initial_price: Some(initial_price), ..self }
    }

    /// Sets the airdrop amount of the token, in percent of the total supply.
    pub fn airdrop_percentage(self, airdrop_percentage: Dec) -> (r: TokenBuilder)
        ensures
            r == (TokenBuilder { airdrop_percentage: Some(airdrop_percentage), ..self }),
    {
        TokenBuilder { airdrop_percentage: Some(airdrop_percentage), ..self }
    }

    /// Sets the unlock schedule.
    pub fn unlock_schedule(self, unlock_schedule: Vec<UnlockEvent>) -> (r: TokenBuilder)
        ensures
            r == (TokenBuilder { unlock_schedule: Some(unlock_schedule), ..self }),
    {
        TokenBuilder { unlock_schedule: Some(unlock_schedule), ..self }
    }

    /// Builds the token. Fails exactly when the name is missing; every other
    /// field falls back to its default: symbol `TKN`, total supply 1,000,000,
    /// current supply 0, initial supply 100 percent, initial price 1.
    pub fn build(self) -> (r: Result<Token, SimulationError>)
        ensures
            r is Ok <==> self.name is Some,
            r matches Ok(t) ==> {
                &&& Some(t.name) == self.name
                &&& self.symbol matches Some(s) ==> t.symbol == s
                &&& self.symbol is None ==> t.symbol@ == "TKN"@
                &&& dec_wf(t.total_supply) && units(t.total_supply) == (match self.total_supply {
                    Some(s) => s as int,
                    None => 1000000,
                }) * pow10(MAX_SCALE as nat)
                &&& t.current_supply == (match self.current_supply {
                    Some(c) => c,
                    None => Dec { neg: false, mag: 0, scale: 0 },
                })
                &&& t.initial_supply_percentage == (match self.initial_supply_percentage {
                    Some(p) => p,
                    None => Dec { neg: false, mag: 100, scale: 0 },
                })
                &&& t.inflation_rate == self.inflation_rate
                &&& t.burn_rate == self.burn_rate
                &&& t.initial_price == (match self.initial_price {
                    Some(p) => p,
                    None => Dec { neg: false, mag: 1, scale: 0 },
                })
                &&& t.airdrop_percentage == self.airdrop_percentage
                &&& t.unlock_schedule == self.unlock_schedule
            },
            r is Err ==> r == Err::<Token, SimulationError>(SimulationError::MissingName),
    {
        let name = match self.name {
            Some(n) => n,
            None => {
                return Err(SimulationError::MissingName);
            },
        };
        let symbol = match self.symbol {
            Some(s) => s,
            None => "TKN".to_string(),
        };
        let total_supply = match self.total_supply {
            Some(s) => Dec::new(s, 0),
            None => Dec::new(1000000, 0),
        };
        let current_supply = match self.current_supply {
            Some(c) => c,
            None => Dec::zero(),
        };
        let initial_supply_percentage = match self.initial_supply_percentage {
            Some(p) => p,
            None => Dec::hundred(),
        };
        let initial_price = match self.initial_price {
            Some(p) => p,
            None => Dec::one(),
        };
        Ok(
            Token {
                id: fresh_uuid(),
                name,
                symbol,
                total_supply,
                current_supply,
                initial_supply_percentage,
                inflation_rate: self.inflation_rate,
                burn_rate: self.burn_rate,
                initial_price,
                airdrop_percentage: self.airdrop_percentage,
                unlock_schedule: self.unlock_schedule,
            },
        )
    }
}

} // verus!
