use c2rust_translate::display::{
    adaptive_column_widths, compute_column_widths, wrap_line, ResultType, DEFAULT_C_COLUMN_WIDTH,
    DEFAULT_RUST_COLUMN_WIDTH,
};

#[test]
fn test_result_type_variants() {
    let _ = ResultType::TestPass;
    let _ = ResultType::TestFail;
    let _ = ResultType::BuildFail;
}

#[test]
fn test_wrap_line_short() {
    let line = "short line";
    let wrapped = wrap_line(line, 20);
    assert_eq!(wrapped.len(), 1);
    assert_eq!(wrapped[0], "short line");
}

#[test]
fn test_wrap_line_exact_width() {
    let line = "exactly twenty chars";
    let wrapped = wrap_line(line, 20);
    assert_eq!(wrapped.len(), 1);
    assert_eq!(wrapped[0], "exactly twenty chars");
}

#[test]
fn test_wrap_line_long() {
    let line = "This is a very long line that needs to be wrapped into multiple lines";
    let wrapped = wrap_line(line, 20);
    assert!(wrapped.len() > 1);
    for segment in &wrapped {
        assert!(segment.chars().count() <= 20);
    }
}

#[test]
fn test_wrap_line_utf8() {
    let line = "这是一个很长的中文字符串需要换行显示";
    let wrapped = wrap_line(line, 10);
    assert!(wrapped.len() > 1);
    for segment in &wrapped {
        assert!(segment.chars().count() <= 10);
    }
}

#[test]
fn wrap_line_pieces_join_back() {
    let wrapped = wrap_line("abcdefg", 3);
    assert_eq!(wrapped, vec!["abc", "def", "g"]);
}

#[test]
fn test_compute_column_widths() {
    let (c_width, rust_width) = compute_column_widths(70);
    assert_eq!(c_width, DEFAULT_C_COLUMN_WIDTH);
    assert_eq!(rust_width, DEFAULT_RUST_COLUMN_WIDTH);

    let (c_width, rust_width) = compute_column_widths(93);
    assert_eq!(c_width, 40);
    assert_eq!(rust_width, 40);

    let (c_width, rust_width) = compute_column_widths(120);
    assert_eq!(c_width, 53);
    assert_eq!(rust_width, 53);

    let (c_width, rust_width) = compute_column_widths(100);
    assert_eq!(c_width, 43);
    assert_eq!(rust_width, 43);
    assert_eq!(c_width, rust_width);
}

#[test]
fn unknown_terminal_uses_defaults() {
    assert_eq!(adaptive_column_widths(None), (95, 95));
    assert_eq!(adaptive_column_widths(Some(120)), (53, 53));
}

#[test]
fn result_titles() {
    assert_eq!(ResultType::TestPass.title(), "Test Result");
    assert_eq!(ResultType::BuildFail.title(), "Build Result");
    assert!(ResultType::TestPass.is_success());
    assert!(!ResultType::TestFail.is_success());
}
