use c2rust_translate::interaction::ContinueChoice;
use c2rust_translate::stats::TranslationStats;
use c2rust_translate::verification::{
    max_fix_action, max_fix_first_step, resolve_auto_retry_outcome, retry_directly, AutoRetryOutcome,
    MaxFixAction, SkipFileSignal, TranslationFailedSignal,
};
use c2rust_translate::interaction::FailureChoice;
use c2rust_translate::workflow::{
    compute_resume_action, filter_target_files, files_to_isolate, final_interval_test_needed, other_skipped_files,
    pending_files, requeue_remaining, retry_input_mode, should_run_periodic_git_gc, validate_relative_stats_path,
    workspace_progress, ResumeAction, TranslationInputMode,
};

#[test]
fn test_compute_resume_action_skips_snapshot_when_preexisting_tree_is_clean() {
    let action = compute_resume_action(ContinueChoice::Continue, "default", false);
    match action {
        ResumeAction::Continue { snapshot_message } => {
            assert!(snapshot_message.is_none());
        }
        ResumeAction::Restart | ResumeAction::FixSkippedFiles => panic!("expected continue action"),
    }
}

#[test]
fn test_compute_resume_action_requests_snapshot_when_preexisting_tree_is_dirty() {
    let action = compute_resume_action(ContinueChoice::Continue, "default", true);
    match action {
        ResumeAction::Continue { snapshot_message } => {
            assert_eq!(
                snapshot_message.as_deref(),
                Some("Snapshot unfinished translation progress before resume (feature: default)")
            );
        }
        ResumeAction::Restart | ResumeAction::FixSkippedFiles => panic!("expected continue action"),
    }
}

#[test]
fn test_compute_resume_action_fix_skipped_files() {
    let action = compute_resume_action(ContinueChoice::FixSkippedFiles, "default", true);
    match action {
        ResumeAction::FixSkippedFiles => {}
        ResumeAction::Continue { .. } | ResumeAction::Restart => panic!("expected fix-skipped-files action"),
    }
}

#[test]
fn final_interval_test_conditions() {
    assert!(!final_interval_test_needed(true, 2));
    assert!(!final_interval_test_needed(false, 0));
    assert!(!final_interval_test_needed(true, 0));
    assert!(final_interval_test_needed(false, 2));
}

#[test]
fn periodic_gc_every_ten_files() {
    assert!(!should_run_periodic_git_gc(0));
    assert!(!should_run_periodic_git_gc(9));
    assert!(should_run_periodic_git_gc(10));
    assert!(should_run_periodic_git_gc(20));
}

#[test]
fn stash_paths_are_checked() {
    assert_eq!(validate_relative_stats_path("src/./a//b.rs").ok().unwrap(), "src/a/b.rs");
    assert_eq!(
        validate_relative_stats_path("/etc/x").err().unwrap().message(),
        "Skipped file path must be relative, got: /etc/x"
    );
    assert_eq!(
        validate_relative_stats_path("src/../x").err().unwrap().message(),
        "Skipped file path must not contain path traversal: src/../x"
    );
    assert_eq!(validate_relative_stats_path("./").err().unwrap().message(), "Skipped file path is empty: ./");
}

#[test]
fn failed_retry_requeues_remaining_files() {
    let mut stats = TranslationStats::new();
    stats.record_file_skipped("src/z.rs".to_string());
    let files = vec!["src/a.rs".to_string(), "src/b.rs".to_string(), "src/c.rs".to_string()];
    requeue_remaining(&mut stats, &files, 1);
    assert_eq!(stats.skipped_files, vec!["src/z.rs", "src/b.rs", "src/c.rs"]);
}

#[test]
fn isolation_and_pending_files() {
    let failed = vec!["src/a.rs".to_string(), "src/b.rs".to_string()];
    let retry = vec!["src/b.rs".to_string()];
    assert_eq!(files_to_isolate(&failed, &retry), vec!["src/a.rs"]);
    assert_eq!(other_skipped_files(&failed, "src/a.rs"), vec!["src/b.rs"]);
    let mut stats = TranslationStats::new();
    stats.record_file_skipped("src/a.rs".to_string());
    stats.record_file_translation_failed("src/c.rs".to_string());
    let empty = vec!["src/a.rs".to_string(), "src/b.rs".to_string(), "src/c.rs".to_string()];
    assert_eq!(pending_files(&empty, &stats), vec!["src/b.rs"]);
}

#[test]
fn targeted_rerun_selection() {
    let pending = vec!["src/a.rs".to_string(), "src/b.rs".to_string()];
    assert_eq!(filter_target_files(pending.clone(), Some("src/b.rs"), true).ok().unwrap(), vec!["src/b.rs"]);
    assert_eq!(filter_target_files(pending.clone(), None, false).ok().unwrap(), pending);
    assert!(filter_target_files(pending.clone(), Some("src/x.rs"), false).err().unwrap().message().contains("not found"));
    assert!(filter_target_files(pending, Some("src/x.rs"), true).err().unwrap().message().contains("excluded"));
}

#[test]
fn retry_modes_and_progress() {
    assert_eq!(retry_input_mode(true, false), TranslationInputMode::ReuseExistingRust);
    assert_eq!(retry_input_mode(false, false), TranslationInputMode::TranslateFromC);
    let p = workspace_progress(10, 4);
    assert_eq!((p.processed_count, p.total_count), (6, 10));
}

#[test]
fn auto_retry_decisions() {
    assert_eq!(resolve_auto_retry_outcome(false, true), None);
    assert_eq!(resolve_auto_retry_outcome(true, true), Some(AutoRetryOutcome::Skip));
    assert_eq!(resolve_auto_retry_outcome(true, false), Some(AutoRetryOutcome::Retry));
    assert_eq!(max_fix_first_step(true, false), MaxFixAction::RetryDirectly { auto: true });
    assert_eq!(max_fix_first_step(false, false), MaxFixAction::Prompt);
    assert_eq!(max_fix_action(FailureChoice::Skip), MaxFixAction::Skip);
    assert!(retry_directly(3, true).is_err());
    assert_eq!(retry_directly(1, false).ok().unwrap(), ((false, 0, true), 2));
    assert_eq!(SkipFileSignal.message(), "File skipped");
    assert_eq!(TranslationFailedSignal.message(), "Translation failed");
}
