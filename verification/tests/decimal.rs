use tokenomics_simulator::decimal::Dec;

#[test]
fn equality_ignores_scale() {
    assert_eq!(Dec::new(10, 0), Dec::new(1000, 2));
    assert_eq!(Dec::new(0, 0), Dec::new(0, 5));
    assert_ne!(Dec::new(10, 0), Dec::new(1001, 2));
}

#[test]
fn round_dp_is_half_to_even() {
    // 0.25 at two digits rounds to 0.2 (even), 0.35 rounds to 0.4.
    assert_eq!(Dec::new(25, 2).round_dp(1), Dec::new(2, 1));
    assert_eq!(Dec::new(35, 2).round_dp(1), Dec::new(4, 1));
    // Values already at the precision are unchanged.
    assert_eq!(Dec::new(123, 1).round_dp(4), Dec::new(123, 1));
    // Negative values round symmetrically.
    assert_eq!(Dec::new(-25, 2).round_dp(1), Dec::new(-2, 1));
}

#[test]
fn arithmetic_is_exact() {
    let a = Dec::new(12345, 2);
    let b = Dec::new(655, 1);
    assert_eq!(a.checked_add(&b).unwrap(), Dec::new(18895, 2));
    assert_eq!(a.checked_sub(&b).unwrap(), Dec::new(5795, 2));
    assert_eq!(Dec::new(15, 1).checked_mul(&Dec::new(2, 0)).unwrap(), Dec::new(3, 0));
}

#[test]
fn division_rounds_at_the_requested_precision() {
    let one = Dec::new(1, 0);
    let three = Dec::new(3, 0);
    assert_eq!(one.div_round(&three, 4).unwrap(), Dec::new(3333, 4));
    assert_eq!(Dec::new(2, 0).div_round(&three, 4).unwrap(), Dec::new(6667, 4));
}

#[test]
fn comparison_follows_value() {
    assert!(Dec::new(-1, 0).le(&Dec::new(0, 0)));
    assert!(Dec::new(9999, 4).le(&Dec::new(1, 0)));
    assert!(!Dec::new(10001, 4).le(&Dec::new(1, 0)));
    assert_eq!(Dec::new(3, 0).min_dec(&Dec::new(2, 0)), Dec::new(2, 0));
}

#[test]
fn from_parts_checks_the_range() {
    assert!(Dec::from_parts(false, 1, 29).is_none());
    assert!(Dec::from_parts(false, u128::MAX, 0).is_none());
    assert_eq!(Dec::from_parts(true, 5, 1).unwrap(), Dec::new(-5, 1));
}
