use tokenomics_simulator::decimal::Dec;
use tokenomics_simulator::token_builder::TokenBuilder;

#[test]
fn test_token_airdrop() {
    let mut token = TokenBuilder::new()
        .name("Test Token".to_string())
        .total_supply(1_000_000)
        .build()
        .unwrap();
    let final_amount = Dec::new(100000, 0);

    let airdrop_amount = token.airdrop(Dec::new(10, 0)).unwrap();

    assert_eq!(airdrop_amount, final_amount);
    assert_eq!(token.current_supply, final_amount);

    let airdrop_amount = token.airdrop(Dec::new(100, 0)).unwrap();

    assert_eq!(airdrop_amount, Dec::new(900000, 0));
    assert_eq!(token.current_supply, Dec::new(1_000_000, 0));
}

#[test]
fn test_add_unlock_event() {
    let mut token = TokenBuilder::new()
        .name("Test Token".to_string())
        .total_supply(1_000_000)
        .build()
        .unwrap();
    let date: i64 = 1_700_000_000_000;
    let amount = Dec::new(100000, 0);

    token.add_unlock_event(date, amount);
    token.add_unlock_event(date, amount);

    assert_eq!(token.unlock_schedule.unwrap().len(), 2);
}

#[test]
fn test_process_unlock() {
    let mut token = TokenBuilder::new()
        .name("Test Token".to_string())
        .total_supply(1_000_000)
        .build()
        .unwrap();
    let date: i64 = 1_700_000_000_000;
    let amount = Dec::new(100000, 0);
    token.add_unlock_event(date, amount);

    let current_date = date + 24 * 60 * 60 * 1000;
    token.process_unlocks(current_date).unwrap();

    assert_eq!(token.current_supply, amount);
    assert!(token.unlock_schedule.unwrap().is_empty());
}

#[test]
fn process_unlocks_releases_each_event_once() {
    let mut token = TokenBuilder::new()
        .name("Test Token".to_string())
        .total_supply(1_000_000)
        .build()
        .unwrap();
    let date: i64 = 1_700_000_000_000;
    token.add_unlock_event(date, Dec::new(100_000, 0));
    token.add_unlock_event(date + 1, Dec::new(50_000, 0));

    token.process_unlocks(date).unwrap();
    assert_eq!(token.current_supply, Dec::new(100_000, 0));
    assert_eq!(token.unlock_schedule.as_ref().unwrap().len(), 1);

    // A second pass at the same date is a no-op for released events.
    token.process_unlocks(date).unwrap();
    assert_eq!(token.current_supply, Dec::new(100_000, 0));
    assert_eq!(token.unlock_schedule.as_ref().unwrap().len(), 1);
}

#[test]
fn airdrop_caps_at_total_supply() {
    let mut token = TokenBuilder::new()
        .name("Test Token".to_string())
        .total_supply(1_000_000)
        .build()
        .unwrap();

    // An airdrop of 150 percent is capped at the outstanding supply.
    let amount = token.airdrop(Dec::new(150, 0)).unwrap();
    assert_eq!(amount, Dec::new(1_000_000, 0));
    assert_eq!(token.current_supply, token.total_supply);
}

#[test]
fn initial_supply_uses_percentage() {
    let token = TokenBuilder::new()
        .name("Test Token".to_string())
        .total_supply(1_000_000)
        .initial_supply_percentage(Dec::new(50, 0))
        .build()
        .unwrap();
    assert_eq!(token.initial_supply().unwrap(), Dec::new(500_000, 0));
}
