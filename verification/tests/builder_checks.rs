use c2rust_translate::builder::{cargo_outcome, has_build_warnings, CargoStep};

#[test]
fn test_detect_warning_code_format() {
    let stderr = "warning[unused_variables]: unused variable `x`\n  --> src/foo.rs:5:9";
    assert!(has_build_warnings(stderr));
}

#[test]
fn test_detect_warning_colon_format() {
    let stderr = "warning: unused import: `std::fmt`\n  --> src/bar.rs:1:5";
    assert!(has_build_warnings(stderr));
}

#[test]
fn test_no_warnings_clean_output() {
    let stderr = "   Compiling myproject v0.1.0\n    Finished dev [unoptimized] target(s) in 1.23s";
    assert!(!has_build_warnings(stderr));
}

#[test]
fn cargo_failure_carries_label_and_output() {
    let r = cargo_outcome(CargoStep::Check, false, "boom".to_string(), true);
    assert_eq!(r.err().unwrap().message, "Check error: boom");
}

#[test]
fn cargo_warnings_reported_unless_suppressed() {
    let out = "warning: unused".to_string();
    assert_eq!(cargo_outcome(CargoStep::Build, true, out.clone(), false).ok().unwrap(), Some(out.clone()));
    assert_eq!(cargo_outcome(CargoStep::Build, true, out, true).ok().unwrap(), None);
}
