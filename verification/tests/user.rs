use tokenomics_simulator::decimal::Dec;
use tokenomics_simulator::user::User;
use tokenomics_simulator::SimulationError;

#[test]
fn test_user_new() {
    let id = uuid::Uuid::new_v4();
    let balance = Dec::new(100, 0);

    let user = User::new(id, balance);

    assert_eq!(user.id, id);
    assert_eq!(user.balance, balance);
}

#[test]
fn test_user_generate() {
    let total_users = 10;
    let decimals = 4;
    let initial_supply = Dec::new(1000, 0);
    let initial_price = Dec::new(1, 0);

    let users = User::generate(total_users, initial_supply, initial_price, decimals).unwrap();

    assert_eq!(users.len(), total_users as usize);

    let mut total_balance = Dec::new(0, 0);
    for user in users.iter() {
        total_balance = total_balance.checked_add(&user.balance).unwrap();
    }

    assert_eq!(total_balance, initial_supply);
}

#[test]
fn generate_with_zero_supply_is_rejected() {
    // Every raw draw is zero, so the normalization factor is undefined.
    let result = User::generate(5, Dec::new(0, 0), Dec::new(1, 0), 4);
    assert_eq!(result.unwrap_err(), SimulationError::InvalidDecimal);
}

#[test]
fn generate_balances_sum_to_supply_with_larger_population() {
    let users = User::generate(100, Dec::new(12345, 0), Dec::new(1, 0), 4).unwrap();
    assert_eq!(users.len(), 100);
    let mut total_balance = Dec::new(0, 0);
    for user in users.iter() {
        total_balance = total_balance.checked_add(&user.balance).unwrap();
    }
    assert_eq!(total_balance, Dec::new(12345, 0));
}
