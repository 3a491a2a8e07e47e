use c2rust_translate::util::{validate_feature_name, ProgressState, TranslationStats};

#[test]
fn util_test_translation_stats_default() {
    let stats = TranslationStats::default();
    assert_eq!(stats.total_files, 0);
    assert_eq!(stats.success_first_try, 0);
    assert_eq!(stats.success_retry_1, 0);
    assert_eq!(stats.success_retry_2, 0);
    assert_eq!(stats.success_retry_3_plus, 0);
    assert_eq!(stats.restart_count, 0);
    assert!(stats.file_attempts.is_empty());
    assert!(stats.skipped_files.is_empty());
}

#[test]
fn util_test_record_file_completion_first_try() {
    let mut stats = TranslationStats::new();
    stats.record_file_completion("foo.rs".to_string(), 1, false, 0);
    assert_eq!(stats.total_files, 1);
    assert_eq!(stats.success_first_try, 1);
    assert_eq!(stats.success_retry_1, 0);
    assert_eq!(stats.restart_count, 0);
    let entry = stats.file_attempts.get("foo.rs").unwrap();
    assert_eq!(entry.translation_attempts, 1);
    assert_eq!(entry.fix_attempts, 0);
    assert!(!entry.had_restart);
}

#[test]
fn util_test_record_file_completion_retry_1() {
    let mut stats = TranslationStats::new();
    stats.record_file_completion("bar.rs".to_string(), 2, false, 3);
    assert_eq!(stats.total_files, 1);
    assert_eq!(stats.success_first_try, 0);
    assert_eq!(stats.success_retry_1, 1);
    let entry = stats.file_attempts.get("bar.rs").unwrap();
    assert_eq!(entry.translation_attempts, 2);
    assert_eq!(entry.fix_attempts, 3);
}

#[test]
fn util_test_record_file_completion_retry_2() {
    let mut stats = TranslationStats::new();
    stats.record_file_completion("baz.rs".to_string(), 3, false, 5);
    assert_eq!(stats.success_retry_2, 1);
}

#[test]
fn util_test_record_file_completion_retry_3_plus() {
    let mut stats = TranslationStats::new();
    stats.record_file_completion("qux.rs".to_string(), 4, false, 8);
    assert_eq!(stats.success_retry_3_plus, 1);
}

#[test]
fn util_test_record_file_completion_with_restart() {
    let mut stats = TranslationStats::new();
    stats.record_file_completion("restart.rs".to_string(), 2, true, 2);
    assert_eq!(stats.restart_count, 1);
    let entry = stats.file_attempts.get("restart.rs").unwrap();
    assert!(entry.had_restart);
}

#[test]
fn util_test_translation_stats_multiple_files() {
    let mut stats = TranslationStats::new();
    stats.record_file_completion("a.rs".to_string(), 1, false, 0);
    stats.record_file_completion("b.rs".to_string(), 2, true, 3);
    stats.record_file_completion("c.rs".to_string(), 3, false, 5);
    assert_eq!(stats.total_files, 3);
    assert_eq!(stats.success_first_try, 1);
    assert_eq!(stats.success_retry_1, 1);
    assert_eq!(stats.success_retry_2, 1);
    assert_eq!(stats.restart_count, 1);
    assert_eq!(stats.file_attempts.len(), 3);
}

#[test]
fn util_test_record_file_skipped() {
    let mut stats = TranslationStats::new();
    assert!(stats.skipped_files.is_empty());
    stats.record_file_skipped("foo.rs".to_string());
    assert_eq!(stats.skipped_files.len(), 1);
    assert_eq!(stats.skipped_files[0], "foo.rs");
    stats.record_file_skipped("bar.rs".to_string());
    assert_eq!(stats.skipped_files.len(), 2);
    assert_eq!(stats.skipped_files[1], "bar.rs");
    stats.record_file_skipped("foo.rs".to_string());
    assert_eq!(stats.skipped_files.len(), 2);
}

#[test]
fn util_test_record_file_translation_failed() {
    let mut stats = TranslationStats::new();
    assert!(stats.translation_failed_files.is_empty());
    assert!(stats.skipped_files.is_empty());
    stats.record_file_translation_failed("bad.rs".to_string());
    assert_eq!(stats.translation_failed_files.len(), 1);
    assert_eq!(stats.translation_failed_files[0], "bad.rs");
    stats.record_file_translation_failed("bad.rs".to_string());
    assert_eq!(stats.translation_failed_files.len(), 1);
    assert!(stats.skipped_files.is_empty());
}

#[test]
fn util_test_get_completed_files() {
    let mut stats = TranslationStats::new();
    assert!(stats.get_completed_files().is_empty());
    stats.record_file_completion("a.rs".to_string(), 1, false, 0);
    stats.record_file_completion("b.rs".to_string(), 2, true, 3);
    let mut completed = stats.get_completed_files();
    completed.sort();
    assert_eq!(completed, vec!["a.rs", "b.rs"]);
}

#[test]
fn util_test_progress_state_default() {
    let state = ProgressState::default();
    assert_eq!(state.processed_count, 0);
    assert_eq!(state.total_count, 0);
}

#[test]
fn util_test_progress_state_new() {
    let state = ProgressState::new(10);
    assert_eq!(state.processed_count, 0);
    assert_eq!(state.total_count, 10);
}

#[test]
fn util_test_mark_processed() {
    let mut state = ProgressState::new(5);
    assert_eq!(state.processed_count, 0);
    state.mark_processed();
    assert_eq!(state.processed_count, 1);
    state.mark_processed();
    assert_eq!(state.processed_count, 2);
}

#[test]
fn util_test_get_current_position() {
    let mut state = ProgressState::new(10);
    assert_eq!(state.get_current_position(), 1);
    state.mark_processed();
    assert_eq!(state.get_current_position(), 2);
    state.mark_processed();
    assert_eq!(state.get_current_position(), 3);
}

#[test]
fn util_test_get_total_count() {
    let state = ProgressState::new(25);
    assert_eq!(state.get_total_count(), 25);
}

#[test]
fn util_test_with_initial_progress() {
    let state = ProgressState::with_initial_progress(10, 3);
    assert_eq!(state.processed_count, 3);
    assert_eq!(state.total_count, 10);
    assert_eq!(state.get_current_position(), 4);
}

#[test]
fn util_test_with_initial_progress_continuation() {
    let mut state = ProgressState::with_initial_progress(10, 5);
    assert_eq!(state.get_current_position(), 6);
    state.mark_processed();
    assert_eq!(state.get_current_position(), 7);
    assert_eq!(state.processed_count, 6);
}

#[test]
fn util_test_with_initial_progress_clamping() {
    let state = ProgressState::with_initial_progress(10, 15);
    assert_eq!(state.processed_count, 10);
    assert_eq!(state.total_count, 10);
    assert_eq!(state.get_current_position(), 11);
    let state2 = ProgressState::with_initial_progress(10, 10);
    assert_eq!(state2.processed_count, 10);
    assert_eq!(state2.get_current_position(), 11);
}

#[test]
fn util_test_refresh_updates_counts() {
    let mut state = ProgressState::new(10);
    state.refresh(20, 15);
    assert_eq!(state.total_count, 20);
    assert_eq!(state.processed_count, 15);
}

#[test]
fn util_test_refresh_clamps_processed_to_total() {
    let mut state = ProgressState::new(10);
    state.refresh(5, 8);
    assert_eq!(state.total_count, 5);
    assert_eq!(state.processed_count, 5);
}

#[test]
fn util_test_refresh_processed_equals_total() {
    let mut state = ProgressState::new(3);
    state.refresh(3, 3);
    assert_eq!(state.total_count, 3);
    assert_eq!(state.processed_count, 3);
}

#[test]
fn util_test_mark_processed_caps_at_total_count() {
    let mut state = ProgressState::new(2);
    state.mark_processed();
    state.mark_processed();
    assert_eq!(state.processed_count, 2);
    state.mark_processed();
    assert_eq!(state.processed_count, 2);
}

#[test]
fn test_validate_feature_name_valid() {
    assert!(validate_feature_name("valid_feature").is_ok());
    assert!(validate_feature_name("feature123").is_ok());
    assert!(validate_feature_name("my-feature").is_ok());
}

#[test]
fn test_validate_feature_name_invalid() {
    assert!(validate_feature_name("feature/path").is_err());
    assert!(validate_feature_name("feature\\path").is_err());
    assert!(validate_feature_name("..").is_err());
    assert!(validate_feature_name("../feature").is_err());
    assert!(validate_feature_name("feature/../other").is_err());
    assert!(validate_feature_name("").is_err());
}

#[test]
fn feature_name_error_message() {
    assert_eq!(
        validate_feature_name("a/b").err().unwrap().message(),
        "Invalid feature name 'a/b': must be a simple directory name without path separators or '..'"
    );
}
