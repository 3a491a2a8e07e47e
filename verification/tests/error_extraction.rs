use c2rust_translate::errors::extract_error_for_file;

#[test]
fn extract_error_for_file_single_file() {
    let error_msg = "error[E0308]: mismatched types\n   --> src/var_test.rs:10:5\n    |\n10  |     let x: i32 = \"hello\";\n    |     ^^^^^^ expected `i32`, found `&str`\n\nerror[E0425]: cannot find value `y` in this scope\n  --> src/fun_helper.rs:20:9\n   |\n20 |         y\n   |         ^ not found in this scope";
    let result = extract_error_for_file(error_msg, "src/var_test.rs");
    assert!(result.contains("var_test.rs"));
    assert!(result.contains("E0308"));
    assert!(!result.contains("fun_helper.rs"));
}

#[test]
fn extract_error_for_file_fallback_on_no_match() {
    let error_msg = "error[E0308]: mismatched types\n   --> src/var_test.rs:10:5\n    |\n10  |     let x: i32 = \"hello\";";
    let result = extract_error_for_file(error_msg, "src/other_file.rs");
    assert_eq!(result, error_msg);
}

#[test]
fn extract_error_for_file_empty_filename() {
    let error_msg = "some error message";
    assert_eq!(extract_error_for_file(error_msg, ""), error_msg);
}

#[test]
fn extract_error_for_file_crlf_normalization() {
    let error_msg = "error[E0308]: mismatched types\r\n   --> src/var_test.rs:10:5\r\n    |\r\n\r\nerror[E0425]: cannot find value `y`\r\n  --> src/fun_helper.rs:20:9";
    let result = extract_error_for_file(error_msg, "src/var_test.rs");
    assert!(result.contains("var_test.rs"));
    assert!(!result.contains("fun_helper.rs"));
    assert!(!result.contains('\r'));
}

#[test]
fn extract_error_for_file_path_suffix_matching() {
    let error_msg = "error[E0425]: undeclared\n   --> src/a/mod.rs:5:3\n    |\n5   |   foo();\n\nerror[E0308]: mismatch\n   --> src/b/mod.rs:10:5\n    |\n10  |   bar();";
    let result_a = extract_error_for_file(error_msg, "src/a/mod.rs");
    assert!(result_a.contains("a/mod.rs"));
    assert!(!result_a.contains("b/mod.rs"));
    let result_b = extract_error_for_file(error_msg, "/abs/root/rust/src/b/mod.rs");
    assert!(result_b.contains("b/mod.rs"));
    assert!(!result_b.contains("a/mod.rs"));
}

#[test]
fn extract_error_keeps_all_blocks_of_the_file() {
    let error_msg = "e1\n --> src/x.rs:1:1\n\nother\n --> src/y.rs:2:2\n\ne3\n --> src/x.rs:3:3";
    assert_eq!(
        extract_error_for_file(error_msg, "src/x.rs"),
        "e1\n --> src/x.rs:1:1\n\ne3\n --> src/x.rs:3:3"
    );
}
