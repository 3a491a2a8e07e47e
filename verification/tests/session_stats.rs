use c2rust_translate::stats::{canonicalize_stats_file_key, FileAttemptStat, FileResult, TranslationStats};

#[test]
fn stats_test_translation_stats_default() {
    let stats = TranslationStats::default();
    assert_eq!(stats.total_files, 0);
    assert_eq!(stats.success_first_try, 0);
    assert_eq!(stats.success_retry_1, 0);
    assert_eq!(stats.success_retry_2, 0);
    assert_eq!(stats.success_retry_3_plus, 0);
    assert_eq!(stats.restart_count, 0);
    assert!(stats.file_attempts.is_empty());
    assert!(stats.skipped_files.is_empty());
}

#[test]
fn stats_test_record_file_completion_first_try() {
    let mut stats = TranslationStats::new();
    stats.record_file_completion("foo.rs".to_string(), 1, false, 0);
    assert_eq!(stats.total_files, 1);
    assert_eq!(stats.success_first_try, 1);
    assert_eq!(stats.success_retry_1, 0);
    assert_eq!(stats.restart_count, 0);
    let entry = stats.file_attempts.get("src/foo.rs").unwrap();
    assert_eq!(entry.translation_attempts, 1);
    assert_eq!(entry.fix_attempts, 0);
    assert!(!entry.had_restart);
}

#[test]
fn stats_test_record_file_completion_retry_1() {
    let mut stats = TranslationStats::new();
    stats.record_file_completion("bar.rs".to_string(), 2, false, 3);
    assert_eq!(stats.total_files, 1);
    assert_eq!(stats.success_first_try, 0);
    assert_eq!(stats.success_retry_1, 1);
    let entry = stats.file_attempts.get("src/bar.rs").unwrap();
    assert_eq!(entry.translation_attempts, 2);
    assert_eq!(entry.fix_attempts, 3);
}

#[test]
fn stats_test_record_file_completion_retry_2() {
    let mut stats = TranslationStats::new();
    stats.record_file_completion("baz.rs".to_string(), 3, false, 5);
    assert_eq!(stats.success_retry_2, 1);
}

#[test]
fn stats_test_record_file_completion_retry_3_plus() {
    let mut stats = TranslationStats::new();
    stats.record_file_completion("qux.rs".to_string(), 4, false, 8);
    assert_eq!(stats.success_retry_3_plus, 1);
}

#[test]
fn stats_test_record_file_completion_with_restart() {
    let mut stats = TranslationStats::new();
    stats.record_file_completion("restart.rs".to_string(), 2, true, 2);
    assert_eq!(stats.restart_count, 1);
    let entry = stats.file_attempts.get("src/restart.rs").unwrap();
    assert!(entry.had_restart);
}

#[test]
fn stats_test_translation_stats_multiple_files() {
    let mut stats = TranslationStats::new();
    stats.record_file_completion("a.rs".to_string(), 1, false, 0);
    stats.record_file_completion("b.rs".to_string(), 2, true, 3);
    stats.record_file_completion("c.rs".to_string(), 3, false, 5);
    assert_eq!(stats.total_files, 3);
    assert_eq!(stats.success_first_try, 1);
    assert_eq!(stats.success_retry_1, 1);
    assert_eq!(stats.success_retry_2, 1);
    assert_eq!(stats.restart_count, 1);
    assert_eq!(stats.file_attempts.len(), 3);
}

#[test]
fn stats_test_record_file_skipped() {
    let mut stats = TranslationStats::new();
    assert!(stats.skipped_files.is_empty());
    stats.record_file_skipped("foo.rs".to_string());
    assert_eq!(stats.skipped_files.len(), 1);
    assert_eq!(stats.skipped_files[0], "src/foo.rs");
    stats.record_file_skipped("bar.rs".to_string());
    assert_eq!(stats.skipped_files.len(), 2);
    assert_eq!(stats.skipped_files[1], "src/bar.rs");
    stats.record_file_skipped("foo.rs".to_string());
    assert_eq!(stats.skipped_files.len(), 2);
}

#[test]
fn stats_test_record_file_translation_failed() {
    let mut stats = TranslationStats::new();
    assert!(stats.translation_failed_files.is_empty());
    assert!(stats.skipped_files.is_empty());
    stats.record_file_translation_failed("bad.rs".to_string());
    assert_eq!(stats.translation_failed_files.len(), 1);
    assert_eq!(stats.translation_failed_files[0], "src/bad.rs");
    stats.record_file_translation_failed("bad.rs".to_string());
    assert_eq!(stats.translation_failed_files.len(), 1);
    assert!(stats.skipped_files.is_empty());
}

#[test]
fn stats_test_get_completed_files() {
    let mut stats = TranslationStats::new();
    assert!(stats.get_completed_files().is_empty());
    stats.record_file_completion("a.rs".to_string(), 1, false, 0);
    stats.record_file_completion("b.rs".to_string(), 2, true, 3);
    let mut completed = stats.get_completed_files();
    completed.sort();
    assert_eq!(completed, vec!["src/a.rs", "src/b.rs"]);
}

#[test]
fn test_canonicalize_stats_file_key_prefixes_src() {
    assert_eq!(canonicalize_stats_file_key("mod_a/fun_done.rs"), "src/mod_a/fun_done.rs");
    assert_eq!(canonicalize_stats_file_key("src/mod_a/fun_done.rs"), "src/mod_a/fun_done.rs");
    assert_eq!(canonicalize_stats_file_key("./mod_a/fun_done.rs"), "src/mod_a/fun_done.rs");
    assert_eq!(canonicalize_stats_file_key(r"mod_a\fun_done.rs"), "src/mod_a/fun_done.rs");
}

#[test]
fn clearing_history_undoes_completion() {
    let mut stats = TranslationStats::new();
    stats.record_file_completion("a.rs".to_string(), 2, true, 1);
    stats.record_file_skipped("a.rs".to_string());
    stats.clear_target_history("src/a.rs");
    assert_eq!(stats.total_files, 0);
    assert_eq!(stats.success_retry_1, 0);
    assert_eq!(stats.restart_count, 0);
    assert!(stats.file_attempts.is_empty());
    assert!(stats.skipped_files.is_empty());
}

#[test]
fn test_clear_target_history_clears_legacy_key_via_canonical_target() {
    let mut stats = TranslationStats::new();
    stats.file_attempts.insert(
        "mod_a/fun_done.rs".to_string(),
        FileAttemptStat { translation_attempts: 1, fix_attempts: 0, had_restart: false },
    );
    stats.skipped_files.push("mod_a/fun_done.rs".to_string());
    stats.translation_failed_files.push("mod_a/fun_done.rs".to_string());
    stats.normalize_file_keys();

    stats.clear_target_history("src/mod_a/fun_done.rs");

    assert_eq!(stats.total_files, 0);
    assert!(stats.file_attempts.is_empty());
    assert!(stats.skipped_files.is_empty());
    assert!(stats.translation_failed_files.is_empty());
}

#[test]
fn normalizing_merges_legacy_and_canonical_keys() {
    let mut stats = TranslationStats::new();
    stats.file_attempts.insert(
        "mod_a/fun_done.rs".to_string(),
        FileAttemptStat { translation_attempts: 2, fix_attempts: 1, had_restart: false },
    );
    stats.file_attempts.insert(
        "src/mod_a/fun_done.rs".to_string(),
        FileAttemptStat { translation_attempts: 1, fix_attempts: 5, had_restart: true },
    );
    assert!(stats.normalize_file_keys());
    assert_eq!(stats.total_files, 1);
    assert_eq!(stats.success_retry_1, 1);
    assert_eq!(stats.restart_count, 1);
    let entry = stats.file_attempts.get("src/mod_a/fun_done.rs").unwrap();
    assert_eq!(entry.translation_attempts, 2);
    assert_eq!(entry.fix_attempts, 1);
    assert!(entry.had_restart);
    assert!(!stats.normalize_file_keys());
}

#[test]
fn test_reconcile_with_workspace_backfills_nonempty_translatable_files() {
    // The workspace holds mod_a/fun_done.rs and mod_a/var_done.rs (translated),
    // mod_a/fun_empty.rs (empty) and mod_a/decl_only.rs (not an item file);
    // the scan hands over the translated item files only.
    let mut stats = TranslationStats::new();
    let discovered = vec!["mod_a/fun_done.rs".to_string(), "mod_a/var_done.rs".to_string()];
    let changed = stats.reconcile_with_discovered(&discovered);

    assert!(changed);
    assert_eq!(stats.total_files, 2);
    assert_eq!(stats.success_first_try, 2);
    assert!(stats.file_attempts.contains_key("src/mod_a/fun_done.rs"));
    assert!(stats.file_attempts.contains_key("src/mod_a/var_done.rs"));
    assert!(!stats.file_attempts.contains_key("src/mod_a/fun_empty.rs"));
    assert!(!stats.file_attempts.contains_key("src/mod_a/decl_only.rs"));
}

#[test]
fn test_reconcile_with_workspace_preserves_existing_records() {
    let mut stats = TranslationStats::new();
    stats.record_file_completion("src/mod_a/fun_done.rs".to_string(), 2, true, 3);

    let discovered = vec!["mod_a/fun_done.rs".to_string()];
    let changed = stats.reconcile_with_discovered(&discovered);

    assert!(!changed);
    assert_eq!(stats.total_files, 1);
    assert_eq!(stats.success_retry_1, 1);
    let entry = stats.file_attempts.get("src/mod_a/fun_done.rs").unwrap();
    assert_eq!(entry.translation_attempts, 2);
    assert_eq!(entry.fix_attempts, 3);
    assert!(entry.had_restart);
}

#[test]
fn test_reconcile_with_workspace_merges_legacy_and_canonical_keys() {
    let mut stats = TranslationStats::new();
    stats.file_attempts.insert(
        "mod_a/fun_done.rs".to_string(),
        FileAttemptStat { translation_attempts: 2, fix_attempts: 3, had_restart: true },
    );
    stats.normalize_file_keys();

    let discovered = vec!["mod_a/fun_done.rs".to_string()];
    let changed = stats.reconcile_with_discovered(&discovered);

    assert!(!changed);
    assert_eq!(stats.total_files, 1);
    assert!(stats.file_attempts.contains_key("src/mod_a/fun_done.rs"));
    assert!(!stats.file_attempts.contains_key("mod_a/fun_done.rs"));
}

#[test]
fn reconcile_skips_files_listed_as_skipped() {
    let mut stats = TranslationStats::new();
    stats.record_file_completion("src/mod_a/fun_done.rs".to_string(), 3, true, 4);
    stats.record_file_skipped("mod_a/fun_skip.rs".to_string());
    let discovered = vec!["mod_a/fun_done.rs".to_string(), "mod_a/fun_skip.rs".to_string()];
    assert!(!stats.reconcile_with_discovered(&discovered));
    assert_eq!(stats.total_files, 1);
    assert_eq!(stats.success_retry_2, 1);
    assert_eq!(stats.file_attempts.get("src/mod_a/fun_done.rs").unwrap().translation_attempts, 3);
}

#[test]
fn file_results_go_to_their_records() {
    let mut stats = TranslationStats::new();
    stats.record_file_result(
        "src/fun_a.rs".to_string(),
        FileResult::Completed { attempts: 2, had_restart: true, fix_attempts: 5 },
    );
    stats.record_file_result("fun_b.rs".to_string(), FileResult::Skipped);
    stats.record_file_result("src/fun_c.rs".to_string(), FileResult::TranslationFailed);
    stats.record_file_result("fun_b.rs".to_string(), FileResult::Skipped);
    assert_eq!(stats.total_files, 1);
    assert_eq!(stats.success_retry_1, 1);
    assert_eq!(stats.restart_count, 1);
    assert_eq!(stats.file_attempts.get("src/fun_a.rs").unwrap().fix_attempts, 5);
    assert_eq!(stats.skipped_files, vec!["src/fun_b.rs".to_string()]);
    assert_eq!(stats.translation_failed_files, vec!["src/fun_c.rs".to_string()]);
}
