use c2rust_translate::code_fix::error_path_candidates;
use c2rust_translate::display::adaptive_column_widths;
use c2rust_translate::files::pick_fallback_file;
use c2rust_translate::paths::{translate_script_dir, EnvValue};
use c2rust_translate::settings::test_interval_from;
use c2rust_translate::workflow::final_interval_test_needed;

#[test]
fn config_test_get_test_interval_default() {
    assert_eq!(test_interval_from(None), 1);
}

#[test]
fn config_test_get_test_interval_explicit_one() {
    assert_eq!(test_interval_from(Some("1")), 1);
}

#[test]
fn config_test_get_test_interval_five() {
    assert_eq!(test_interval_from(Some("5")), 5);
}

#[test]
fn config_test_get_test_interval_large_value() {
    assert_eq!(test_interval_from(Some("100")), 100);
}

#[test]
fn config_test_get_test_interval_zero_falls_back_to_default() {
    assert_eq!(test_interval_from(Some("0")), 1);
}

#[test]
fn config_test_get_test_interval_invalid_falls_back_to_default() {
    assert_eq!(test_interval_from(Some("abc")), 1);
}

#[test]
fn config_test_get_test_interval_empty_falls_back_to_default() {
    assert_eq!(test_interval_from(Some("")), 1);
}

#[test]
fn config_test_get_test_interval_whitespace_trimmed() {
    assert_eq!(test_interval_from(Some("  3  ")), 3);
}

#[test]
fn lib_test_get_test_interval_default() {
    assert_eq!(test_interval_from(None), 1);
}

#[test]
fn lib_test_get_test_interval_explicit_one() {
    assert_eq!(test_interval_from(Some("1")), 1);
}

#[test]
fn lib_test_get_test_interval_five() {
    assert_eq!(test_interval_from(Some("5")), 5);
}

#[test]
fn lib_test_get_test_interval_large_value() {
    assert_eq!(test_interval_from(Some("100")), 100);
}

#[test]
fn lib_test_get_test_interval_zero_falls_back_to_default() {
    assert_eq!(test_interval_from(Some("0")), 1);
}

#[test]
fn lib_test_get_test_interval_invalid_falls_back_to_default() {
    assert_eq!(test_interval_from(Some("abc")), 1);
}

#[test]
fn lib_test_get_test_interval_empty_falls_back_to_default() {
    assert_eq!(test_interval_from(Some("")), 1);
}

#[test]
fn lib_test_get_test_interval_whitespace_trimmed() {
    assert_eq!(test_interval_from(Some("  3  ")), 3);
}

#[test]
fn test_get_translate_script_dir_not_set() {
    let result = translate_script_dir(&EnvValue::Unset);
    assert!(result.is_err());
    let err_msg = result.err().unwrap().message();
    assert!(err_msg.contains("C2RUST_TRANSLATE_DIT"));
    assert!(err_msg.contains("not set"));
}

#[test]
fn test_get_translate_script_dir_empty() {
    let result = translate_script_dir(&EnvValue::Text(String::new()));
    assert!(result.is_err());
    let err_msg = result.err().unwrap().message();
    assert!(err_msg.contains("C2RUST_TRANSLATE_DIT"));
    assert!(err_msg.contains("empty"));
}

#[test]
fn test_get_translate_script_dir_whitespace() {
    let result = translate_script_dir(&EnvValue::Text("   ".to_string()));
    assert!(result.is_err());
    let err_msg = result.err().unwrap().message();
    assert!(err_msg.contains("C2RUST_TRANSLATE_DIT"));
    assert!(err_msg.contains("empty"));
}

#[test]
fn test_get_translate_script_dir_valid() {
    let result = translate_script_dir(&EnvValue::Text("/path/to/scripts".to_string()));
    assert!(result.is_ok());
    assert_eq!(result.ok().unwrap(), "/path/to/scripts");
}

#[test]
fn test_get_translate_script_dir_whitespace_trimming() {
    let result = translate_script_dir(&EnvValue::Text("  /path/to/scripts  ".to_string()));
    assert!(result.is_ok());
    assert_eq!(result.ok().unwrap(), "/path/to/scripts");
}

#[test]
fn test_final_interval_test_skipped_when_skip_test_true() {
    assert!(!final_interval_test_needed(true, 3));
}

#[test]
fn test_final_interval_test_skipped_when_no_pending_translations() {
    assert!(!final_interval_test_needed(false, 0));
}

#[test]
fn test_final_interval_test_skipped_when_both_skip_and_no_pending() {
    assert!(!final_interval_test_needed(true, 0));
}

#[test]
fn final_interval_test_runs_for_untested_translations() {
    assert!(final_interval_test_needed(false, 2));
}

#[test]
fn test_parse_error_pattern_extraction() {
    let error_msg = "error[E0308]: mismatched types
   --> src/var_test.rs:10:5
    |
10  |     let x: i32 = \"hello\";
    |     ^^^^^^ expected `i32`, found `&str`

error[E0425]: cannot find value `y` in this scope
  --> src/fun_helper.rs:20:9
   |
20 |         y
   |         ^ not found in this scope";
    let matches = error_path_candidates(error_msg);
    assert_eq!(matches.len(), 2);
    assert!(matches.contains(&"src/var_test.rs".to_string()));
    assert!(matches.contains(&"src/fun_helper.rs".to_string()));
}

#[test]
fn test_parse_error_pattern_warnings() {
    let error_msg = "warning: unused variable: `x`
  --> src/var_counter.rs:5:9
   |
5  |     let x = 42;
   |         ^ help: if this is intentional, prefix it with an underscore: `_x`";
    let matches = error_path_candidates(error_msg);
    assert_eq!(matches.len(), 1);
    assert_eq!(matches[0], "src/var_counter.rs");
}

#[test]
fn test_parse_error_multiple_files_same_error() {
    let error_msg = "error[E0308]: mismatched types
  --> src/var_main.rs:15:10
   |
15 |     foo(x);
   |          ^ expected `String`, found `i32`
   |
note: expected signature from here
  --> src/fun_foo.rs:3:1
   |
3  | fn foo(s: String) { }
   | ^^^^^^^^^^^^^^^^^";
    let matches = error_path_candidates(error_msg);
    assert!(matches.len() >= 2);
    assert!(matches.contains(&"src/var_main.rs".to_string()));
    assert!(matches.contains(&"src/fun_foo.rs".to_string()));
}

#[test]
fn scan_for_fallback_rs_file_returns_none_for_empty_dir() {
    let names: Vec<String> = Vec::new();
    assert!(pick_fallback_file(&names).is_none());
}

#[test]
fn scan_for_fallback_rs_file_returns_none_for_nonexistent_dir() {
    // A directory that does not exist lists no files, as an empty one does.
    let names: Vec<String> = Vec::new();
    assert!(pick_fallback_file(&names).is_none());
}

#[test]
fn test_get_adaptive_column_widths() {
    for detected in [None, Some(80), Some(200)] {
        let (c_width, rust_width) = adaptive_column_widths(detected);
        assert!(c_width > 0);
        assert!(rust_width > 0);
        assert_eq!(c_width, rust_width);
    }
}
