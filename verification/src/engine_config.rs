//! Configuration for the simulation engine: the input parameters and their
//! builder.

use vstd::prelude::*;

use crate::decimal::{dec_wf, Dec, MAX_SCALE};
use crate::engine::SimulationInterval;
use crate::SimulationError;

verus! {

/// Valuation model for the token.
#[derive(Debug, Clone, Copy, PartialEq)]
pub enum ValuationModel {
    /// Linear valuation model: valuation = users * initial_price.
    Linear,
    /// Exponential valuation model: valuation = initial_price * e^(users /
    /// factor). A higher factor gives a slower growth rate.
    Exponential(Dec),
}

/// Input parameters for a simulation.
#[derive(Debug, Clone, PartialEq)]
pub struct SimulationOptions {
    /// Duration of the simulation, in intervals of the configured type.
    pub duration: u64,
    /// Total number of users that will be simulated.
    pub total_users: u64,
    /// Volatility level: 0 is no volatility, 1 is maximum volatility.
    pub market_volatility: Dec,
    /// Decimal precision for all monetary values.
    pub decimal_precision: u32,
    /// Interval type at which the simulation runs.
    pub interval_type: SimulationInterval,
    /// Transaction fee for each trade, in percent.
    pub transaction_fee_percentage: Option<Dec>,
    /// Rate at which users adopt the token.
    pub adoption_rate: Option<Dec>,
    /// Valuation model for the token.
    pub valuation_model: Option<ValuationModel>,
}

/// Well-formedness of simulation options: the decimals are in range and the
/// precision does not exceed the supported number of fractional digits.
pub open spec fn options_wf(o: SimulationOptions) -> bool {
    &&& dec_wf(o.market_volatility)
    &&& o.decimal_precision <= MAX_SCALE
    &&& (o.transaction_fee_percentage matches Some(d) ==> dec_wf(d))
    &&& (o.adoption_rate matches Some(d) ==> dec_wf(d))
    &&& (o.valuation_model matches Some(ValuationModel::Exponential(f)) ==> dec_wf(f) && f.mag
        >= 1)
}

/// Builder for creating new simulation options.
#[derive(Debug, Default, PartialEq)]
pub struct SimulationOptionsBuilder {
    /// Duration of the simulation, in intervals of the configured type.
    pub duration: Option<u64>,
    /// Total number of users in the simulation.
    pub total_users: Option<u64>,
    /// Volatility level: 0 is no volatility, 1 is maximum volatility.
    pub market_volatility: Option<Dec>,
    /// Decimal precision for the simulation.
    pub decimal_precision: Option<u32>,
    /// Interval type for the simulation.
    pub interval_type: Option<SimulationInterval>,
    /// Transaction fee for each trade, in percent.
    pub transaction_fee_percentage: Option<Dec>,
    /// Rate at which users adopt the token.
    pub adoption_rate: Option<Dec>,
    /// Valuation model for the token.
    pub valuation_model: Option<ValuationModel>,
}

impl SimulationOptionsBuilder {
    /// Creates a new simulation options builder with no field set.
    pub fn new() -> (r: SimulationOptionsBuilder)
        ensures
            r == (SimulationOptionsBuilder {
                duration: None,
                total_users: None,
                market_volatility: None,
                decimal_precision: None,
                interval_type: None,
                transaction_fee_percentage: None,
                adoption_rate: None,
                valuation_model: None,
            }),
    {
        SimulationOptionsBuilder {
            duration: None,
            total_users: None,
            market_volatility: None,
            decimal_precision: None,
            interval_type: None,
            transaction_fee_percentage: None,
            adoption_rate: None,
            valuation_model: None,
        }
    }

    /// Sets the duration of the simulation.
    pub fn duration(self, duration: u64) -> (r: SimulationOptionsBuilder)
        ensures
            r == (SimulationOptionsBuilder { duration: Some(duration), ..self }),
    {
        SimulationOptionsBuilder { duration: Some(duration), ..self }
    }

    /// Sets the total number of users in the simulation.
    pub fn total_users(self, total_users: u64) -> (r: SimulationOptionsBuilder)
        ensures
            r == (SimulationOptionsBuilder { total_users: Some(total_users), ..self }),
    {
        SimulationOptionsBuilder { total_users: Some(total_users), ..self }
    }

    /// Sets the market volatility level.
    pub fn market_volatility(self, market_volatility: Dec) -> (r: SimulationOptionsBuilder)
        ensures
            r == (SimulationOptionsBuilder { market_volatility: Some(market_volatility), ..self }),
    {
        SimulationOptionsBuilder { market_volatility: Some(market_volatility), ..self }
    }

    /// Sets the decimal precision for the simulation.
    pub fn decimal_precision(self, decimal_precision: u32) -> (r: SimulationOptionsBuilder)
        ensures
            r == (SimulationOptionsBuilder { decimal_precision: Some(decimal_precision), ..self }),
    {
        SimulationOptionsBuilder { decimal_precision: Some(decimal_precision), ..self }
    }

    /// Sets the interval type for the simulation.
    pub fn interval_type(self, interval_type: SimulationInterval) -> (r: SimulationOptionsBuilder)
        ensures
            r == (SimulationOptionsBuilder { interval_type: Some(interval_type), ..self }),
    {
        SimulationOptionsBuilder { interval_type: Some(interval_type), ..self }
    }

    /// Sets the transaction fee for each trade, in percent.
    pub fn transaction_fee_percentage(self, transaction_fee: Dec) -> (r: SimulationOptionsBuilder)
        ensures
            r == (SimulationOptionsBuilder {
                transaction_fee_percentage: Some(transaction_fee),
                ..self
            }),
    {
        SimulationOptionsBuilder { transaction_fee_percentage: Some(transaction_fee), ..self }
    }

    /// Sets the rate at which users adopt the token.
    pub fn adoption_rate(self, adoption_rate: Dec) -> (r: SimulationOptionsBuilder)
        ensures
            r == (SimulationOptionsBuilder { adoption_rate: Some(adoption_rate), ..self }),
    {
        SimulationOptionsBuilder { adoption_rate: Some(adoption_rate), ..self }
    }

    /// Sets the valuation model for the token.
    pub fn valuation_model(self, valuation_model: ValuationModel) -> (r: SimulationOptionsBuilder)
        ensures
            r == (SimulationOptionsBuilder { valuation_model: Some(valuation_model), ..self }),
    {
        SimulationOptionsBuilder { valuation_model: Some(valuation_model), ..self }
    }

    /// Builds the simulation options. Fails exactly when the total number of
    /// users is missing; the other fields fall back to their defaults:
    /// duration 7, market volatility 0.5, decimal precision 4, daily
    /// intervals.
    pub fn build(self) -> (r: Result<SimulationOptions, SimulationError>)
        ensures
            r is Ok <==> self.total_users is Some,
            r matches Ok(o) ==> {
                &&& o.duration == (match self.duration {
                    Some(d) => d,
                    None => 7u64,
                })
                &&& Some(o.total_users) == self.total_users
                &&& o.market_volatility == (match self.market_volatility {
                    Some(v) => v,
                    None => Dec { neg: false, mag: 5, scale: 1 },
                })
                &&& o.decimal_precision == (match self.decimal_precision {
                    Some(p) => p,
                    None => 4u32,
                })
                &&& o.interval_type == (match self.interval_type {
                    Some(t) => t,
                    None => SimulationInterval::Daily,
                })
                &&& o.transaction_fee_percentage == self.transaction_fee_percentage
                &&& o.adoption_rate == self.adoption_rate
                &&& o.valuation_model == self.valuation_model
            },
            r is Err ==> r == Err::<SimulationOptions, SimulationError>(
                SimulationError::MissingTotalUsers,
            ),
    {
        let total_users = match self.total_users {
            Some(u) => u,
            None => {
                return Err(SimulationError::MissingTotalUsers);
            },
        };
        Ok(
            SimulationOptions {
                duration: match self.duration {
                    Some(d) => d,
                    None => 7,
                },
                total_users,
                market_volatility: match self.market_volatility {
                    Some(v) => v,
                    None => Dec::new(5, 1),
                },
                decimal_precision: match self.decimal_precision {
                    Some(p) => p,
                    None => 4,
                },
                interval_type: match self.interval_type {
                    Some(t) => t,
                    None => SimulationInterval::Daily,
                },
                transaction_fee_percentage: self.transaction_fee_percentage,
                adoption_rate: self.adoption_rate,
                valuation_model: self.valuation_model,
            },
        )
    }
}

} // verus!
