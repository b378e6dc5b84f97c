use tokenomics_simulator::decimal::Dec;
use tokenomics_simulator::report::SimulationReport;
use tokenomics_simulator::user::User;

#[test]
fn test_default() {
    let report = SimulationReport::default();

    assert_eq!(report.profit_loss, Dec::new(0, 0));
    assert_eq!(report.trades, 0);
    assert_eq!(report.successful_trades, 0);
    assert_eq!(report.failed_trades, 0);
    assert!(report.token_distribution.is_empty());
    assert_eq!(report.market_volatility, Dec::new(0, 0));
    assert_eq!(report.liquidity, Dec::new(0, 0));
    assert_eq!(report.adoption_rate, Dec::new(0, 0));
    assert_eq!(report.burn_rate, Dec::new(0, 0));
    assert_eq!(report.inflation_rate, Dec::new(0, 0));
    assert_eq!(report.user_retention, Dec::new(0, 0));
    assert_eq!(report.network_activity, 0);
}

#[test]
fn test_calculate_liquidity() {
    let report = SimulationReport::default();
    let trades = Dec::new(100, 0);
    let interval_duration = Dec::new(10, 0);

    assert_eq!(
        report.calculate_liquidity(trades, interval_duration, 4).unwrap(),
        Dec::new(10, 0)
    );
}

#[test]
fn test_calculate_adoption_rate() {
    let report = SimulationReport::default();
    let users = vec![
        User::new(uuid::Uuid::new_v4(), Dec::new(0, 0)),
        User::new(uuid::Uuid::new_v4(), Dec::new(10, 0)),
        User::new(uuid::Uuid::new_v4(), Dec::new(0, 0)),
        User::new(uuid::Uuid::new_v4(), Dec::new(5, 0)),
    ];

    assert_eq!(report.calculate_adoption_rate(&users, 4).unwrap(), Dec::new(5, 1));
}

#[test]
fn test_calculate_burn_rate() {
    let report = SimulationReport::default();
    let total_burned = Dec::new(100, 0);
    let total_users = Dec::new(10, 0);

    assert_eq!(
        report.calculate_burn_rate(total_burned, total_users, 4).unwrap(),
        Dec::new(10, 0)
    );
}

#[test]
fn test_calculate_inflation_rate() {
    let report = SimulationReport::default();
    let total_new_tokens = Dec::new(100, 0);
    let total_users = Dec::new(10, 0);

    assert_eq!(
        report.calculate_inflation_rate(total_new_tokens, total_users, 4).unwrap(),
        Dec::new(10, 0)
    );
}

#[test]
fn test_calculate_user_retention() {
    let report = SimulationReport::default();
    let users = vec![
        User::new(uuid::Uuid::new_v4(), Dec::new(0, 0)),
        User::new(uuid::Uuid::new_v4(), Dec::new(10, 0)),
        User::new(uuid::Uuid::new_v4(), Dec::new(0, 0)),
        User::new(uuid::Uuid::new_v4(), Dec::new(5, 0)),
    ];

    assert_eq!(report.calculate_user_retention(&users, 4).unwrap(), Dec::new(5, 1));
}

#[test]
fn rounding_is_half_to_even() {
    let report = SimulationReport::default();
    // 2.5 rounds down to the even 2; 3.5 rounds up to the even 4.
    assert_eq!(
        report.calculate_liquidity(Dec::new(25, 1), Dec::new(1, 0), 0).unwrap(),
        Dec::new(2, 0)
    );
    assert_eq!(
        report.calculate_liquidity(Dec::new(35, 1), Dec::new(1, 0), 0).unwrap(),
        Dec::new(4, 0)
    );
}

#[test]
fn retention_matches_adoption_on_any_snapshot() {
    let report = SimulationReport::default();
    let users = vec![
        User::new(uuid::Uuid::new_v4(), Dec::new(3, 2)),
        User::new(uuid::Uuid::new_v4(), Dec::new(0, 0)),
        User::new(uuid::Uuid::new_v4(), Dec::new(7, 0)),
    ];
    assert_eq!(
        report.calculate_adoption_rate(&users, 4).unwrap(),
        report.calculate_user_retention(&users, 4).unwrap()
    );
}
