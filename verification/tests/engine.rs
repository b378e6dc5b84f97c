use tokenomics_simulator::decimal::Dec;
use tokenomics_simulator::engine::{Simulation, SimulationInterval, SimulationStatus};
use tokenomics_simulator::engine_builder::SimulationBuilder;
use tokenomics_simulator::engine_config::{
    SimulationOptions, SimulationOptionsBuilder, ValuationModel,
};
use tokenomics_simulator::report::SimulationReport;
use tokenomics_simulator::token_builder::TokenBuilder;

fn setup() -> Simulation {
    let token = Simulation::token_builder()
        .name("Test Token".to_string())
        .total_supply(1_000_000)
        .build()
        .unwrap();

    Simulation {
        id: uuid::Uuid::new_v4(),
        name: "Test Simulation".to_string(),
        token,
        description: None,
        status: SimulationStatus::Running,
        options: SimulationOptions {
            duration: 30,
            total_users: 100,
            decimal_precision: 4,
            market_volatility: Dec::new(5, 1),
            transaction_fee_percentage: None,
            interval_type: SimulationInterval::Daily,
            adoption_rate: None,
            valuation_model: Some(ValuationModel::Exponential(Dec::new(1, 1))),
        },
        interval_reports: vec![],
        report: SimulationReport::default(),
        created_at: 0,
        updated_at: 0,
    }
}

#[test]
fn test_builder() {
    let builder = Simulation::builder();
    assert_eq!(builder, SimulationBuilder::new());
}

#[test]
fn test_options_builder() {
    let builder = Simulation::options_builder();
    assert_eq!(builder, SimulationOptionsBuilder::new());
}

#[test]
fn engine_test_token_builder() {
    let builder = Simulation::token_builder();
    assert_eq!(builder, TokenBuilder::new());
}

#[test]
fn test_get_interval() {
    let daily_simulation = setup();
    assert_eq!(daily_simulation.get_interval(), 24);

    let mut hourly_simulation = setup();
    hourly_simulation.options.interval_type = SimulationInterval::Hourly;
    assert_eq!(hourly_simulation.get_interval(), 1);

    let mut weekly_simulation = setup();
    weekly_simulation.options.interval_type = SimulationInterval::Weekly;
    assert_eq!(weekly_simulation.get_interval(), 24 * 7);

    let mut monthly_simulation = setup();
    monthly_simulation.options.interval_type = SimulationInterval::Monthly;
    assert_eq!(monthly_simulation.get_interval(), 24 * 30);
}

#[test]
fn test_update_status() {
    let mut simulation = setup();
    simulation.update_status(SimulationStatus::Completed);

    assert_eq!(simulation.status, SimulationStatus::Completed);
}

#[test]
fn test_run_with_valid_exponential_factor() {
    let mut simulation = setup();
    simulation.options.valuation_model = Some(ValuationModel::Exponential(Dec::new(1, 0)));

    simulation.run().unwrap();

    assert_eq!(simulation.status, SimulationStatus::Completed);
    assert_eq!(simulation.interval_reports.len(), 30);
}

#[test]
fn test_run_with_airdrop() {
    let mut simulation = setup();
    simulation.token.airdrop_percentage = Some(Dec::new(10, 0));

    simulation.run().unwrap();

    assert_eq!(simulation.status, SimulationStatus::Completed);
    assert_eq!(simulation.interval_reports.len(), 30);
    assert_eq!(simulation.report.token_distribution.len(), 100);
}

#[test]
fn run_hourly_produces_one_report_per_hour() {
    let mut simulation = setup();
    simulation.options.interval_type = SimulationInterval::Hourly;
    simulation.options.duration = 24;

    simulation.run().unwrap();

    assert_eq!(simulation.status, SimulationStatus::Completed);
    assert_eq!(simulation.interval_reports.len(), 24);
}

#[test]
fn run_keeps_supply_within_total() {
    let mut simulation = setup();
    simulation.token.airdrop_percentage = Some(Dec::new(100, 0));
    simulation.token.burn_rate = Some(Dec::new(1, 2));

    simulation.run().unwrap();

    assert!(simulation.token.current_supply.le(&simulation.token.total_supply));
}

#[test]
fn test_calculate_valuation_linear() {
    let mut simulation = setup();
    simulation.token.initial_price = Dec::new(1, 2);
    simulation.options.valuation_model = Some(ValuationModel::Linear);

    let token = simulation.token.clone();
    let users = 99;
    let valuation = simulation.calculate_valuation(&token, users).unwrap();

    assert_eq!(valuation, Dec::new(99, 2));
}

#[test]
fn test_calculate_valuation_exponential() {
    let mut simulation = setup();
    simulation.options.valuation_model = Some(ValuationModel::Exponential(Dec::new(2, 0)));

    let token = simulation.token.clone();
    let users = 100;
    let valuation = simulation.calculate_valuation(&token, users).unwrap();

    assert_eq!(valuation, Dec::new(1, 0));
}

#[test]
fn test_calculate_valuation_exponential_overflow() {
    let mut simulation = setup();
    simulation.options.valuation_model = Some(ValuationModel::Exponential(Dec::new(1, 1)));

    let token = simulation.token.clone();
    let users = 1_000_000;
    let valuation = simulation.calculate_valuation(&token, users).unwrap();

    assert_eq!(valuation, Dec::new(1, 0));
}

#[test]
fn test_calculate_valuation_default() {
    let mut simulation = setup();
    simulation.options.valuation_model = None;

    let token = simulation.token.clone();
    let users = 1_000_000;
    let valuation = simulation.calculate_valuation(&token, users).unwrap();

    assert_eq!(valuation, Dec::new(0, 0));
}

#[test]
fn exponential_valuation_applies_a_real_exponential() {
    let mut simulation = setup();
    // e^2 is roughly 7.389, so the valuation must land between 7 and 8;
    // anything echoing the exponent back would return 2.
    simulation.options.valuation_model = Some(ValuationModel::Exponential(Dec::new(1, 0)));
    let token = simulation.token.clone();
    let valuation = simulation.calculate_valuation(&token, 2).unwrap();

    assert!(Dec::new(7, 0).le(&valuation));
    assert!(valuation.le(&Dec::new(8, 0)));
}

#[test]
fn test_simulate_adoption_with_rate() {
    let simulation = setup();
    let current_users = 100;

    let new_users = simulation.simulate_adoption(current_users).unwrap();
    assert_eq!(new_users, 100);

    let simulation = setup();
    let current_users = 100;

    let new_users = simulation.simulate_adoption(current_users).unwrap();
    assert_eq!(new_users, 100);
}

#[test]
fn test_simulate_adoption_without_rate() {
    let simulation = setup();
    let current_users = 100;

    let new_users = simulation.simulate_adoption(current_users).unwrap();
    assert_eq!(new_users, 100);
}

#[test]
fn simulate_adoption_rejects_overflowing_growth() {
    let mut simulation = setup();
    simulation.options.adoption_rate = Some(Dec::new(i64::MAX, 0));

    let result = simulation.simulate_adoption(3);
    assert_eq!(
        result.unwrap_err(),
        tokenomics_simulator::SimulationError::InvalidDecimal
    );
}

#[test]
fn simulate_adoption_grows_by_the_rate() {
    let mut simulation = setup();
    simulation.options.adoption_rate = Some(Dec::new(5, 1));

    let new_users = simulation.simulate_adoption(100).unwrap();
    assert_eq!(new_users, 150);
}
