use tokenomics_simulator::decimal::Dec;
use tokenomics_simulator::engine::SimulationInterval;
use tokenomics_simulator::engine_config::{SimulationOptionsBuilder, ValuationModel};
use tokenomics_simulator::SimulationError;

#[test]
fn test_new_simulation_options_builder() {
    let builder = SimulationOptionsBuilder::new();

    assert_eq!(builder.duration, None);
    assert_eq!(builder.total_users, None);
    assert_eq!(builder.market_volatility, None);
    assert_eq!(builder.decimal_precision, None);
    assert_eq!(builder.interval_type, None);
    assert_eq!(builder.transaction_fee_percentage, None);
    assert_eq!(builder.adoption_rate, None);
    assert_eq!(builder.valuation_model, None);
}

#[test]
fn test_build_simulation_options_with_only_required() {
    let builder = SimulationOptionsBuilder::new();
    let options = builder
        .total_users(100)
        .market_volatility(Dec::new(5, 1))
        .build()
        .unwrap();

    assert_eq!(options.duration, 7);
    assert_eq!(options.total_users, 100);
    assert_eq!(options.decimal_precision, 4);
    assert_eq!(options.market_volatility, Dec::new(5, 1));
    assert_eq!(options.interval_type, SimulationInterval::Daily);
    assert_eq!(options.transaction_fee_percentage, None);
    assert_eq!(options.adoption_rate, None);
    assert_eq!(options.valuation_model, None);
}

#[test]
fn test_build_simulation_options() {
    let builder = SimulationOptionsBuilder::new();
    let options = builder
        .adoption_rate(Dec::new(1, 0))
        .duration(10)
        .decimal_precision(2)
        .interval_type(SimulationInterval::Daily)
        .transaction_fee_percentage(Dec::new(1, 2))
        .valuation_model(ValuationModel::Linear)
        .total_users(100)
        .market_volatility(Dec::new(5, 1))
        .build()
        .unwrap();

    assert_eq!(options.duration, 10);
    assert_eq!(options.total_users, 100);
    assert_eq!(options.decimal_precision, 2);
    assert_eq!(options.market_volatility, Dec::new(5, 1));
    assert_eq!(options.interval_type, SimulationInterval::Daily);
    assert_eq!(options.transaction_fee_percentage, Some(Dec::new(1, 2)));
    assert_eq!(options.adoption_rate, Some(Dec::new(1, 0)));
    assert_eq!(options.valuation_model, Some(ValuationModel::Linear));
}

#[test]
fn test_build_simulation_options_missing_total_users() {
    let builder = SimulationOptionsBuilder::new();
    let result = builder.build();

    assert_eq!(result, Err(SimulationError::MissingTotalUsers));
}
