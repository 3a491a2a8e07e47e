use c2rust_translate::builder::{code_analyse_failure_message, code_analyse_update_args};
use c2rust_translate::code_fix::{
    error_path_candidates, fix_c_string_slice_pointer_cast, fix_option_fn_unwrap_mismatch,
    fix_static_mut_array_pointer_access, local_repair, normalize_c_char_literal_ptrs, wrap_unsafe_call_from_e0133,
    Repair,
};
use c2rust_translate::config_file::run_config_command;
use c2rust_translate::display::{comparison_rows, format_line_number};
use c2rust_translate::git::{commit_outcome, feature_stage_path, gc_args, CommitOutcome};
use c2rust_translate::stats::TranslationStats;

fn updated(r: Repair) -> Option<String> {
    match r {
        Repair::Updated(s) => Some(s),
        _ => None,
    }
}

#[test]
fn c_string_slice_cast_is_repaired() {
    let src = r#"let p = unsafe { &c"hi".as_ptr() as *const [::core::ffi::c_char] }.as_ptr();"#;
    let out = updated(fix_c_string_slice_pointer_cast(src, "error: slice_ptr_get")).unwrap();
    assert_eq!(out, r#"let p = c"hi".as_ptr();"#);
    assert!(matches!(fix_c_string_slice_pointer_cast(src, "other error"), Repair::Unchanged));
}

#[test]
fn option_fn_unwrap_is_repaired() {
    let src = "let f = table.func.unwrap();";
    let err = "expected enum `Option<fn()>`, found fn pointer";
    assert_eq!(updated(fix_option_fn_unwrap_mismatch(src, err)).unwrap(), "let f = table.func;");
}

#[test]
fn static_array_access_is_repaired() {
    let src = "let p = BUF.as_mut_ptr(); let n = BUF.len();";
    let err = "warning: static_mut_refs\n expected `*const [u8; 16]`";
    assert_eq!(
        updated(fix_static_mut_array_pointer_access(src, err)).unwrap(),
        "let p = ::core::ptr::addr_of_mut!(BUF).cast(); let n = 16;"
    );
    assert!(matches!(local_repair(src, "unrelated"), Repair::Unchanged));
}

#[test]
fn c_char_literals_are_normalized() {
    let src = r#"f(b"hi\0".as_ptr() as *const ::core::ffi::c_char)"#;
    assert_eq!(updated(normalize_c_char_literal_ptrs(src)).unwrap(), r#"f(c"hi".as_ptr())"#);
}

#[test]
fn error_paths_in_order_of_appearance() {
    let msg = "error\n  --> src/b.rs:1:2\nnote at src/a.rs\n  --> src/b.rs:3:4";
    assert_eq!(error_path_candidates(msg), vec!["src/b.rs", "src/a.rs"]);
}

#[test]
fn config_command_sets_then_lists() {
    let mut content = String::new();
    let (wrote, listed) = run_config_command(&mut content, None, Some("build.target"), Some("t"), Some("build.target"))
        .ok()
        .unwrap();
    assert!(wrote);
    assert_eq!(listed, Some("t".to_string()));
    let (wrote, listed) = run_config_command(&mut content, Some("default"), None, None, None).ok().unwrap();
    assert!(!wrote);
    assert_eq!(listed, None);
}

#[test]
fn comparison_rows_pair_lines() {
    let rows = comparison_rows("ab\ncdef", "x", 2, 2);
    assert_eq!(rows.len(), 3);
    assert_eq!((rows[0].line_number, rows[0].c_text.as_str(), rows[0].rust_text.as_str()), (Some(1), "ab", "x"));
    assert_eq!((rows[1].line_number, rows[1].c_text.as_str(), rows[1].rust_text.as_str()), (Some(2), "cd", ""));
    assert_eq!((rows[2].line_number, rows[2].c_text.as_str(), rows[2].rust_text.as_str()), (None, "ef", ""));
}

#[test]
fn line_numbers_are_right_aligned() {
    assert_eq!(format_line_number(1, 7), "   ");
    let n = format_line_number(0, 7);
    assert!(n == "  7" || n == "\u{1b}[2m  7\u{1b}[0m");
}

#[test]
fn git_commit_outcomes() {
    assert_eq!(commit_outcome(true, Some(0), ""), CommitOutcome::Committed);
    assert_eq!(commit_outcome(false, Some(1), "nothing to commit, working tree clean"), CommitOutcome::NothingToCommit);
    assert_eq!(commit_outcome(false, Some(128), "fatal"), CommitOutcome::Failed);
    assert_eq!(feature_stage_path("default"), "default/rust/");
    assert_eq!(gc_args(true), vec!["gc", "--aggressive", "--prune=now"]);
}

#[test]
fn code_analysis_arguments() {
    assert_eq!(code_analyse_update_args("f", true), vec!["--update", "--feature", "f", "--build-success"]);
    assert_eq!(
        code_analyse_failure_message("f", false, "o", "e"),
        "code_analyse --update --feature f  failed:\nstdout: o\nstderr: e"
    );
}

#[test]
fn summary_ranking_and_retries() {
    let mut stats = TranslationStats::new();
    stats.record_file_completion("a.rs".to_string(), 1, false, 0);
    stats.record_file_completion("b.rs".to_string(), 3, false, 1);
    stats.record_file_completion("c.rs".to_string(), 3, true, 4);
    assert_eq!(stats.file_attempts.total_retries(), 4);
    let top = stats.file_attempts.ranked(2);
    assert_eq!(top.len(), 2);
    assert_eq!(top[0].0, "src/c.rs");
    assert_eq!(top[1].0, "src/b.rs");
}

const E0133: &str = "error[E0133]: call to unsafe function `foo` is unsafe and requires unsafe block\n  --> .c2rust\\default\\rust\\src\\fun_f.rs:2:13\n   |\n";

#[test]
fn e0133_call_is_wrapped() {
    let src = "fn f() {\n    let x = foo(1);\n    bar();\n}\n";
    let r = wrap_unsafe_call_from_e0133(src, E0133, Some(".c2rust/default/rust/src/fun_f.rs"));
    assert_eq!(
        updated(r).as_deref(),
        Some("fn f() {\n    let x = unsafe { foo(1) };\n    bar();\n}\n")
    );
}

#[test]
fn e0133_leaves_other_files_and_errors_alone() {
    let src = "fn f() {\n    let x = foo(1);\n}\n";
    assert!(matches!(
        wrap_unsafe_call_from_e0133(src, E0133, Some(".c2rust/default/rust/src/fun_g.rs")),
        Repair::Unchanged
    ));
    assert!(matches!(wrap_unsafe_call_from_e0133(src, E0133, None), Repair::Unchanged));
    assert!(matches!(
        wrap_unsafe_call_from_e0133(src, "error[E0308]: mismatched types", Some("src/fun_f.rs")),
        Repair::Unchanged
    ));
    let wrapped = "fn f() {\n    let x = unsafe { foo(1) };\n}\n";
    assert!(matches!(
        wrap_unsafe_call_from_e0133(wrapped, E0133, Some(".c2rust/default/rust/src/fun_f.rs")),
        Repair::Unchanged
    ));
}

#[test]
fn e0133_return_call_without_trailing_newline() {
    let src = "fn f() -> i32 {\n    return foo(2);\n}";
    let r = wrap_unsafe_call_from_e0133(src, E0133, Some("rust/src/fun_f.rs"));
    assert_eq!(updated(r).as_deref(), Some("fn f() -> i32 {\n    return unsafe { foo(2) };\n}"));
}
