use tokenomics_simulator::decimal::Dec;
use tokenomics_simulator::vesting::{VestingCliff, VestingSchedule};

fn create_vesting_schedule() -> VestingSchedule {
    VestingSchedule {
        cliffs: vec![
            VestingCliff { duration: 3600, allocation_percentage: Dec::new(25, 2) },
            VestingCliff { duration: 3600, allocation_percentage: Dec::new(25, 2) },
            VestingCliff { duration: 3600, allocation_percentage: Dec::new(25, 2) },
            VestingCliff { duration: 3600, allocation_percentage: Dec::new(25, 2) },
        ],
        allocation_percentage: Dec::new(1, 0),
    }
}

#[test]
fn test_after_first_cliff() {
    let vesting_schedule = create_vesting_schedule();
    let total_tokens = Dec::new(1000, 0);
    let unlocked_tokens = vesting_schedule.calculate_unlocked_tokens(total_tokens, 3600).unwrap();
    assert_eq!(unlocked_tokens, Dec::new(250, 0));
}

#[test]
fn test_after_second_cliff() {
    let vesting_schedule = create_vesting_schedule();
    let total_tokens = Dec::new(1000, 0);
    let unlocked_tokens =
        vesting_schedule.calculate_unlocked_tokens(total_tokens, 3600 * 2).unwrap();
    assert_eq!(unlocked_tokens, Dec::new(500, 0));
}

#[test]
fn test_after_third_cliff() {
    let vesting_schedule = create_vesting_schedule();
    let total_tokens = Dec::new(1000, 0);
    let unlocked_tokens =
        vesting_schedule.calculate_unlocked_tokens(total_tokens, 3600 * 3).unwrap();
    assert_eq!(unlocked_tokens, Dec::new(750, 0));
}

#[test]
fn test_after_fourth_cliff() {
    let vesting_schedule = create_vesting_schedule();
    let total_tokens = Dec::new(1000, 0);
    let unlocked_tokens =
        vesting_schedule.calculate_unlocked_tokens(total_tokens, 3600 * 4).unwrap();
    assert_eq!(unlocked_tokens, Dec::new(1000, 0));
}

#[test]
fn test_halfway_between_cliffs() {
    let vesting_schedule = create_vesting_schedule();
    let total_tokens = Dec::new(1000, 0);
    let unlocked_tokens =
        vesting_schedule.calculate_unlocked_tokens(total_tokens, 3600 * 3 + 1800).unwrap();
    assert_eq!(unlocked_tokens, Dec::new(750, 0));
}
