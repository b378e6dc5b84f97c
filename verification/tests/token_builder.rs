use tokenomics_simulator::decimal::Dec;
use tokenomics_simulator::token::UnlockEvent;
use tokenomics_simulator::token_builder::TokenBuilder;
use tokenomics_simulator::SimulationError;

#[test]
fn test_token_builder_with_defaults() {
    let token = TokenBuilder::new()
        .name("Test Token".to_string())
        .build()
        .unwrap();

    assert_eq!(token.name, "Test Token");
    assert_eq!(token.symbol, "TKN");
    assert_eq!(token.total_supply, Dec::new(1_000_000, 0));
    assert_eq!(token.current_supply, Dec::new(0, 0));
    assert_eq!(token.initial_supply_percentage, Dec::new(100, 0));
    assert_eq!(token.inflation_rate, None);
    assert_eq!(token.burn_rate, None);
    assert_eq!(token.initial_price, Dec::new(1, 0));
    assert_eq!(token.airdrop_percentage, None);
    assert!(token.unlock_schedule.is_none());
}

#[test]
fn token_builder_test_token_builder() {
    let unlock_event = UnlockEvent { date: 1_700_000_000_000, amount: Dec::new(100_000, 0) };

    let token = TokenBuilder::new()
        .name("Test Token".to_string())
        .symbol("TT".to_string())
        .total_supply(1_000_000)
        .current_supply(Dec::new(100_000, 0))
        .initial_supply_percentage(Dec::new(50, 0))
        .inflation_rate(Dec::new(5, 0))
        .burn_rate(Dec::new(1, 0))
        .initial_price(Dec::new(2, 0))
        .airdrop_percentage(Dec::new(10, 0))
        .unlock_schedule(vec![unlock_event])
        .build()
        .unwrap();

    assert_eq!(token.name, "Test Token");
    assert_eq!(token.symbol, "TT");
    assert_eq!(token.total_supply, Dec::new(1_000_000, 0));
    assert_eq!(token.current_supply, Dec::new(100_000, 0));
    assert_eq!(token.initial_supply_percentage, Dec::new(50, 0));
    assert_eq!(token.inflation_rate, Some(Dec::new(5, 0)));
    assert_eq!(token.burn_rate, Some(Dec::new(1, 0)));
    assert_eq!(token.initial_price, Dec::new(2, 0));
    assert_eq!(token.airdrop_percentage, Some(Dec::new(10, 0)));
    assert_eq!(token.unlock_schedule.unwrap().len(), 1);
}

#[test]
fn test_token_builder_missing_name() {
    let token = TokenBuilder::new().build();

    assert_eq!(token, Err(SimulationError::MissingName));
}
