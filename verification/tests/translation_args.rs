use c2rust_translate::paths::{get_translate_script_full_path, join, stats_file_path, translate_script_dir, EnvValue};
use c2rust_translate::progress::ERROR_PREVIEW_LINES;
use c2rust_translate::translator::{build_fix_args, preview_line_count};

#[test]
fn test_build_fix_args() {
    let script = "/path/to/translate_and_fix.py";
    let config = "/project/.c2rust/config.toml";
    let c_code = "/project/feature/rust/code.c";
    let rust_code = "/project/feature/rust/code.rs";
    let output = "/project/feature/rust/code.rs";
    let error = "/tmp/error.txt";

    let args = build_fix_args(script, config, c_code, rust_code, output, error, None);
    assert_eq!(args.len(), 13);
    assert_eq!(args[0], script);
    assert_eq!(args[1], "--config");
    assert_eq!(args[2], config);
    assert_eq!(args[3], "--type");
    assert_eq!(args[4], "syntax_fix");
    assert_eq!(args[5], "--c_code");
    assert_eq!(args[6], c_code);
    assert_eq!(args[7], "--rust_code");
    assert_eq!(args[8], rust_code);
    assert_eq!(args[9], "--output");
    assert_eq!(args[10], output);
    assert_eq!(args[11], "--error");
    assert_eq!(args[12], error);

    let suggestion = "/project/c2rust.md";
    let args_with_suggestion = build_fix_args(script, config, c_code, rust_code, output, error, Some(suggestion));
    assert_eq!(args_with_suggestion.len(), 15);
    assert_eq!(args_with_suggestion[13], "--suggestion");
    assert_eq!(args_with_suggestion[14], suggestion);
}

#[test]
fn test_display_error_preview_no_truncation_when_lines_less_than_max() {
    let error_msg = "Error line 1\nError line 2\nError line 3";
    let total_lines = error_msg.lines().count();
    let display_lines = preview_line_count(total_lines, ERROR_PREVIEW_LINES, false);
    assert_eq!(display_lines, 3, "Should display all error lines when total < ERROR_PREVIEW_LINES");
    assert_eq!(total_lines, display_lines, "Should not show truncation message");
    let display_lines = preview_line_count(total_lines, ERROR_PREVIEW_LINES, true);
    assert_eq!(display_lines, 3, "Should display all error lines when total < ERROR_PREVIEW_LINES");
}

#[test]
fn long_previews_are_cut() {
    assert_eq!(preview_line_count(15, ERROR_PREVIEW_LINES, false), ERROR_PREVIEW_LINES);
    assert_eq!(preview_line_count(15, ERROR_PREVIEW_LINES, true), 15);
}

#[test]
fn script_location_from_environment() {
    assert_eq!(
        translate_script_dir(&EnvValue::Unset).err().unwrap().message(),
        "Environment variable C2RUST_TRANSLATE_DIT is not set. Please set it to the directory containing translate_and_fix.py script."
    );
    assert!(translate_script_dir(&EnvValue::Text("   ".to_string())).err().unwrap().message().contains("empty"));
    assert!(translate_script_dir(&EnvValue::NotUnicode).is_err());
    assert_eq!(translate_script_dir(&EnvValue::Text(" /path/to/scripts ".to_string())).ok().unwrap(), "/path/to/scripts");
    assert_eq!(
        get_translate_script_full_path(&EnvValue::Text("/path/to/scripts".to_string())).ok().unwrap(),
        "/path/to/scripts/translate_and_fix.py"
    );
}

#[test]
fn project_paths() {
    assert_eq!(join("/root", "a"), "/root/a");
    assert_eq!(join("/root/", "a"), "/root/a");
    assert_eq!(stats_file_path("/p", "f").ok().unwrap(), "/p/.c2rust/f/translation_stats.json");
    assert!(stats_file_path("/p", "../f").is_err());
}
