//! Builder for creating a new simulation.

use vstd::prelude::*;

use crate::engine::{Simulation, SimulationStatus};
use crate::engine_config::SimulationOptions;
use crate::report::SimulationReport;
use crate::token::Token;
use crate::trusted::{fresh_uuid, now_millis};
use crate::SimulationError;

verus! {

/// Builder for creating a new simulation. The name, token and options are
/// required; the description is optional.
#[derive(Debug, Default, PartialEq)]
pub struct SimulationBuilder {
    /// Name of the simulation.
    pub name: Option<String>,
    /// Token used to run the simulation.
    pub token: Option<Token>,
    /// Description of the simulation.
    pub description: Option<String>,
    /// Input parameters for the simulation.
    pub options: Option<SimulationOptions>,
}

impl SimulationBuilder {
    /// Creates a new simulation builder with no field set.
    pub fn new() -> (r: SimulationBuilder)
        ensures
            r == (SimulationBuilder { name: None, token: None, description: None, options: None }),
    {
        SimulationBuilder { name: None, token: None, description: None, options: None }
    }

    /// Sets the name of the simulation.
    pub fn name(self, name: String) -> (r: SimulationBuilder)
        ensures
            r == (SimulationBuilder { name: Some(name), ..self }),
    {
        SimulationBuilder { name: Some(name), ..self }
    }

    /// Sets the token used to run the simulation.
    pub fn token(self, token: Token) -> (r: SimulationBuilder)
        ensures
            r == (SimulationBuilder { token: Some(token), ..self }),
    {
        SimulationBuilder { token: Some(token), ..self }
    }

    /// Sets the description of the simulation.
    pub fn description(self, description: String) -> (r: SimulationBuilder)
        ensures
            r == (SimulationBuilder { description: Some(description), ..self }),
    {
        SimulationBuilder { description: Some(description), ..self }
    }

    /// Sets the input parameters for the simulation.
    pub fn options(self, options: SimulationOptions) -> (r: SimulationBuilder)
        ensures
            r == (SimulationBuilder { options: Some(options), ..self }),
    {
        SimulationBuilder { options: Some(options), ..self }
    }

    /// Builds the simulation in the `Pending` state, with empty reports.
    /// Fails exactly when the name, token or options are missing, in that
    /// order of checking.
    pub fn build(self) -> (r: Result<Simulation, SimulationError>)
        ensures
            r is Ok <==> (self.name is Some && self.token is Some && self.options is Some),
            r matches Ok(s) ==> {
                &&& Some(s.name) == self.name
                &&& Some(s.token) == self.token
                &&& s.description == self.description
                &&& Some(s.options) == self.options
                &&& s.status == SimulationStatus::Pending
                &&& s.interval_reports@.len() == 0
            },
            self.name is None ==> r == Err::<Simulation, SimulationError>(
                SimulationError::MissingName,
            ),
            (self.name is Some && self.token is None) ==> r == Err::<Simulation, SimulationError>(
                SimulationError::MissingToken,
            ),
            (self.name is Some && self.token is Some && self.options is None) ==> r == Err::<
                Simulation,
                SimulationError,
            >(SimulationError::MissingOptions),
    {
        let name = match self.name {
            Some(n) => n,
            None => {
                return Err(SimulationError::MissingName);
            },
        };
        let token = match self.token {
            Some(t) => t,
            None => {
                return Err(SimulationError::MissingToken);
            },
        };
        let options = match self.options {
            Some(o) => o,
            None => {
                return Err(SimulationError::MissingOptions);
            },
        };
        let created = now_millis();
        Ok(
            Simulation {
                id: fresh_uuid(),
                name,
                token,
                description: self.description,
                status: SimulationStatus::Pending,
                options,
                interval_reports: Vec::new(),
                report: SimulationReport::default(),
                created_at: created,
                updated_at: created,
            },
        )
    }
}

} // verus!
