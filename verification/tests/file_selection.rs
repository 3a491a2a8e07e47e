use c2rust_translate::files::{extract_file_type, is_translatable_stem, pick_fallback_file};
use c2rust_translate::selection::parse_file_selection;
use std::path::PathBuf;

#[test]
fn file_scanner_test_extract_file_type_var() {
    let (file_type, name) = extract_file_type("var_counter").unwrap();
    assert_eq!(file_type, "var");
    assert_eq!(name, "counter");
}

#[test]
fn file_scanner_test_extract_file_type_fun() {
    let (file_type, name) = extract_file_type("fun_calculate").unwrap();
    assert_eq!(file_type, "fn");
    assert_eq!(name, "calculate");
}

#[test]
fn file_scanner_test_extract_file_type_invalid() {
    let result = extract_file_type("invalid_name");
    assert!(result.is_none());
}

#[test]
fn file_scanner_test_path_construction() {
    let feature = "my_feature";
    let feature_path = PathBuf::from(feature);
    let rust_dir = feature_path.join("rust");
    let expected = PathBuf::from("my_feature").join("rust");
    assert_eq!(rust_dir, expected);
}

#[test]
fn translatable_stems() {
    assert!(is_translatable_stem("var_x"));
    assert!(is_translatable_stem("fun_y"));
    assert!(!is_translatable_stem("other"));
}

#[test]
fn fallback_prefers_item_files() {
    let names = vec!["lib.rs".to_string(), "helper.rs".to_string(), "fun_a.rs".to_string()];
    assert_eq!(pick_fallback_file(&names), Some((2, "fun")));
    let names = vec!["main.rs".to_string(), "helper.rs".to_string()];
    assert_eq!(pick_fallback_file(&names), Some((1, "var")));
    let names = vec!["lib.rs".to_string()];
    assert_eq!(pick_fallback_file(&names), None);
}

struct TestCase {
    input: &'static str,
    total_files: usize,
    expected: Result<Vec<usize>, &'static str>,
}

#[test]
fn test_parse_file_selection() {
    let test_cases = vec![
        TestCase { input: "all", total_files: 5, expected: Ok(vec![0, 1, 2, 3, 4]) },
        TestCase { input: "ALL", total_files: 3, expected: Ok(vec![0, 1, 2]) },
        TestCase { input: "All", total_files: 3, expected: Ok(vec![0, 1, 2]) },
        TestCase { input: "3", total_files: 5, expected: Ok(vec![2]) },
        TestCase { input: "1,3,5", total_files: 5, expected: Ok(vec![0, 2, 4]) },
        TestCase { input: "2-4", total_files: 5, expected: Ok(vec![1, 2, 3]) },
        TestCase { input: "1,3-5,7", total_files: 10, expected: Ok(vec![0, 2, 3, 4, 6]) },
        TestCase { input: "1,2,1,3,2", total_files: 5, expected: Ok(vec![0, 1, 2]) },
        TestCase { input: " 1 , 3 , 5 ", total_files: 5, expected: Ok(vec![0, 2, 4]) },
        TestCase { input: " 2 - 4 ", total_files: 5, expected: Ok(vec![1, 2, 3]) },
        TestCase { input: "6", total_files: 5, expected: Err("out of bounds") },
        TestCase { input: "1,6", total_files: 5, expected: Err("out of bounds") },
        TestCase { input: "5-2", total_files: 5, expected: Err("is greater than") },
        TestCase { input: "abc", total_files: 5, expected: Err("") },
        TestCase { input: "", total_files: 5, expected: Err("No input provided") },
        TestCase { input: "   ", total_files: 5, expected: Err("No input provided") },
        TestCase { input: "-3", total_files: 5, expected: Err("ranges must have both start and end values") },
        TestCase { input: "1-", total_files: 5, expected: Err("ranges must have both start and end values") },
        TestCase { input: "-", total_files: 5, expected: Err("ranges must have both start and end values") },
        TestCase { input: "0", total_files: 5, expected: Err("") },
        TestCase { input: "1-10", total_files: 5, expected: Err("") },
    ];

    for (i, tc) in test_cases.iter().enumerate() {
        let result = parse_file_selection(tc.input, tc.total_files);
        match &tc.expected {
            Ok(expected_vec) => {
                assert!(result.is_ok(), "Test case #{}: expected Ok, got Err for input '{}'", i, tc.input);
                assert_eq!(&result.ok().unwrap(), expected_vec, "Test case #{}: mismatch for input '{}'", i, tc.input);
            }
            Err(expected_err) => {
                assert!(result.is_err(), "Test case #{}: expected Err, got Ok for input '{}'", i, tc.input);
                if !expected_err.is_empty() {
                    let err_msg = result.err().unwrap().message();
                    assert!(
                        err_msg.contains(expected_err),
                        "Test case #{}: error message '{}' doesn't contain '{}' for input '{}'",
                        i,
                        err_msg,
                        expected_err,
                        tc.input
                    );
                }
            }
        }
    }
}

#[test]
fn selection_error_messages() {
    assert_eq!(
        parse_file_selection("1-2-3", 5).err().unwrap().message(),
        "Invalid range format: 1-2-3. Expected format like '1-3'"
    );
    assert_eq!(parse_file_selection("x-2", 5).err().unwrap().message(), "Invalid number in range: x");
    assert_eq!(parse_file_selection("1-9", 5).err().unwrap().message(), "Range 1-9 is out of bounds (valid: 1-5)");
    assert_eq!(parse_file_selection("4-2", 5).err().unwrap().message(), "Invalid range: 4 is greater than 2");
    assert_eq!(parse_file_selection("y", 5).err().unwrap().message(), "Invalid number: y");
    assert_eq!(parse_file_selection("7", 5).err().unwrap().message(), "Number 7 is out of bounds (valid: 1-5)");
}
