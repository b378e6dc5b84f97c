use tokenomics_simulator::decimal::Dec;
use tokenomics_simulator::engine::SimulationInterval;
use tokenomics_simulator::engine_builder::SimulationBuilder;
use tokenomics_simulator::engine_config::{SimulationOptions, ValuationModel};
use tokenomics_simulator::token_builder::TokenBuilder;
use tokenomics_simulator::SimulationError;

fn options() -> SimulationOptions {
    SimulationOptions {
        duration: 30,
        total_users: 100,
        decimal_precision: 4,
        market_volatility: Dec::new(5, 1),
        transaction_fee_percentage: None,
        interval_type: SimulationInterval::Daily,
        adoption_rate: None,
        valuation_model: Some(ValuationModel::Exponential(Dec::new(1, 0))),
    }
}

#[test]
fn test_new_simulation_builder() {
    let builder = SimulationBuilder::new();

    assert_eq!(builder.name, None);
    assert_eq!(builder.token, None);
    assert_eq!(builder.description, None);
    assert_eq!(builder.options, None);
}

#[test]
fn test_build_simulation() {
    let token = TokenBuilder::new()
        .name("Test Token".to_string())
        .total_supply(1_000_000)
        .build()
        .unwrap();

    let simulation = SimulationBuilder::default()
        .name("Test Simulation".to_string())
        .description("Test Simulation".to_string())
        .token(token.clone())
        .options(options())
        .build()
        .unwrap();

    assert_eq!(simulation.name, "Test Simulation");
    assert_eq!(simulation.token, token);
    assert_eq!(simulation.options, options());
}

#[test]
fn test_build_simulation_missing_name() {
    let token = TokenBuilder::new()
        .name("Test Token".to_string())
        .total_supply(1_000_000)
        .build()
        .unwrap();

    let simulation = SimulationBuilder::default().token(token).options(options()).build();

    assert!(simulation.is_err());
    assert_eq!(simulation.unwrap_err(), SimulationError::MissingName);
}

#[test]
fn test_build_simulation_missing_token() {
    let simulation = SimulationBuilder::default()
        .name("Test Simulation".to_string())
        .options(options())
        .build();

    assert!(simulation.is_err());
    assert_eq!(simulation.unwrap_err(), SimulationError::MissingToken);
}

#[test]
fn test_build_simulation_missing_options() {
    let token = TokenBuilder::new()
        .name("Test Token".to_string())
        .total_supply(1_000_000)
        .build()
        .unwrap();

    let simulation = SimulationBuilder::default()
        .name("Test Simulation".to_string())
        .token(token)
        .build();

    assert!(simulation.is_err());
    assert_eq!(simulation.unwrap_err(), SimulationError::MissingOptions);
}
