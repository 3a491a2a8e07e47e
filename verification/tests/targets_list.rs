use c2rust_translate::targets::{parse_target_selection, read_targets_list};

#[test]
fn test_parse_target_selection_valid() {
    assert_eq!(parse_target_selection("1", 3).ok().unwrap(), 0);
    assert_eq!(parse_target_selection("2", 3).ok().unwrap(), 1);
    assert_eq!(parse_target_selection("3", 3).ok().unwrap(), 2);
    assert_eq!(parse_target_selection("  2  ", 3).ok().unwrap(), 1);
}

#[test]
fn test_parse_target_selection_invalid() {
    assert!(parse_target_selection("0", 3).is_err());
    assert!(parse_target_selection("4", 3).is_err());
    assert!(parse_target_selection("abc", 3).is_err());
    assert!(parse_target_selection("", 3).is_err());
    assert!(parse_target_selection("  ", 3).is_err());
}

#[test]
fn target_selection_messages() {
    assert_eq!(parse_target_selection("", 3).err().unwrap().message(), "No input provided. Please select a target.");
    assert_eq!(parse_target_selection("abc", 3).err().unwrap().message(), "Invalid number: abc");
    assert_eq!(parse_target_selection("4", 3).err().unwrap().message(), "Selection 4 is out of bounds (valid: 1-3)");
}

#[test]
fn targets_list_basic() {
    let targets = read_targets_list("target1\ntarget2\ntarget3\n").ok().unwrap();
    assert_eq!(targets, vec!["target1", "target2", "target3"]);
}

#[test]
fn targets_list_with_duplicates() {
    let targets = read_targets_list("target1\ntarget2\ntarget1\ntarget3\ntarget2\n").ok().unwrap();
    assert_eq!(targets, vec!["target1", "target2", "target3"]);
}

#[test]
fn targets_list_with_empty_lines_and_comments() {
    let content = "# This is a comment\ntarget1\n\n  target2  \n# Another comment\ntarget3\n";
    let targets = read_targets_list(content).ok().unwrap();
    assert_eq!(targets, vec!["target1", "target2", "target3"]);
}

#[test]
fn targets_list_empty_or_only_comments() {
    assert_eq!(read_targets_list("").err().unwrap().message(), "No valid targets found in targets.list");
    assert!(read_targets_list("# Comment 1\n\n# Comment 2\n").is_err());
}
