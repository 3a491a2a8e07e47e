use c2rust_translate::settings::{
    compute_interval_test_decision, parse_positive_usize, process_warnings_from, setting_is_yes,
    test_interval_from, update_interval_counter,
};

#[test]
fn test_update_interval_counter_resets_when_test_ran() {
    let mut counter = 5usize;
    update_interval_counter(&mut counter, true);
    assert_eq!(counter, 0);
}

#[test]
fn test_update_interval_counter_increments_when_test_skipped() {
    let mut counter = 2usize;
    update_interval_counter(&mut counter, false);
    assert_eq!(counter, 3);
}

#[test]
fn test_update_interval_counter_increments_from_zero() {
    let mut counter = 0usize;
    update_interval_counter(&mut counter, false);
    assert_eq!(counter, 1);
}

#[test]
fn interval_of_three_runs_every_third_translation() {
    let mut counter = 0usize;
    let mut runs = Vec::new();
    for _ in 0..6 {
        let (run, skip) = compute_interval_test_decision(counter, 3);
        assert_eq!(run, !skip);
        runs.push(run);
        update_interval_counter(&mut counter, run);
    }
    assert_eq!(runs, vec![false, false, true, false, false, true]);
    assert_eq!(counter, 0);
}

#[test]
fn interval_of_one_always_runs() {
    for counter in 0..5usize {
        assert_eq!(compute_interval_test_decision(counter, 1), (true, false));
    }
}

#[test]
fn test_interval_settings() {
    assert_eq!(test_interval_from(None), 1);
    assert_eq!(test_interval_from(Some("1")), 1);
    assert_eq!(test_interval_from(Some("5")), 5);
    assert_eq!(test_interval_from(Some("100")), 100);
    assert_eq!(test_interval_from(Some("0")), 1);
    assert_eq!(test_interval_from(Some("abc")), 1);
    assert_eq!(test_interval_from(Some("")), 1);
    assert_eq!(test_interval_from(Some("  3  ")), 3);
}

#[test]
fn process_warnings_settings() {
    assert!(process_warnings_from(None));
    assert!(!process_warnings_from(Some("0")));
    assert!(!process_warnings_from(Some("false")));
    assert!(!process_warnings_from(Some("FALSE")));
    assert!(process_warnings_from(Some("1")));
    assert!(process_warnings_from(Some("true")));
}

#[test]
fn yes_settings() {
    assert!(!setting_is_yes(None));
    assert!(setting_is_yes(Some("1")));
    assert!(setting_is_yes(Some("true")));
    assert!(setting_is_yes(Some("TRUE")));
    assert!(setting_is_yes(Some("yes")));
    assert!(setting_is_yes(Some(" YES ")));
    assert!(!setting_is_yes(Some("0")));
    assert!(!setting_is_yes(Some("false")));
}

#[test]
fn positive_counts_from_command_line() {
    assert_eq!(parse_positive_usize("3"), Ok(3));
    assert_eq!(parse_positive_usize("0"), Err("value must be greater than 0".to_string()));
    assert_eq!(parse_positive_usize("x"), Err("`x` is not a valid number".to_string()));
}
