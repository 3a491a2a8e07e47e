use c2rust_translate::hybrid::{
    build_target_from, check_command_dir, command_failure_message, config_value_from_output, prepare_command,
    HybridCommandType,
};

#[test]
fn test_hybrid_command_type_keys() {
    assert_eq!(HybridCommandType::Clean.cmd_key(), "clean.cmd");
    assert_eq!(HybridCommandType::Clean.dir_key(), "clean.dir");
    assert_eq!(HybridCommandType::Build.cmd_key(), "build.cmd");
    assert_eq!(HybridCommandType::Build.dir_key(), "build.dir");
    assert_eq!(HybridCommandType::Test.cmd_key(), "test.cmd");
    assert_eq!(HybridCommandType::Test.dir_key(), "test.dir");
}

#[test]
fn test_hybrid_command_type_as_str() {
    assert_eq!(HybridCommandType::Clean.as_str(), "clean");
    assert_eq!(HybridCommandType::Build.as_str(), "build");
    assert_eq!(HybridCommandType::Test.as_str(), "test");
}

#[test]
fn test_needs_ld_preload() {
    assert!(!HybridCommandType::Clean.needs_ld_preload());
    assert!(HybridCommandType::Build.needs_ld_preload());
    assert!(!HybridCommandType::Test.needs_ld_preload());
}

#[test]
fn command_directory_checks() {
    assert!(check_command_dir("build").is_ok());
    assert_eq!(
        check_command_dir("/abs").err().unwrap().message(),
        "Directory path from config must be relative, got: /abs"
    );
    assert_eq!(
        check_command_dir("a/../b").err().unwrap().message(),
        "Directory path from config cannot contain '..', got: a/../b"
    );
}

#[test]
fn command_lines_split_into_words() {
    let words = prepare_command("make -C 'my dir' all", "build").ok().unwrap().unwrap();
    assert_eq!(words, vec!["make", "-C", "my dir", "all"]);
    assert!(prepare_command("   ", "build").ok().unwrap().is_none());
    assert_eq!(
        prepare_command("make 'oops", "build").err().unwrap().message(),
        "Failed to parse command: make 'oops"
    );
    assert_eq!(prepare_command("'' x", "build").err().unwrap().message(), "Command cannot be empty");
}

#[test]
fn build_target_lookup() {
    assert_eq!(build_target_from(Ok("t".to_string())), (Some("t".to_string()), false));
    assert_eq!(build_target_from(Ok(String::new())), (None, false));
    assert_eq!(build_target_from(Err("Empty build.target value from config".to_string())), (None, false));
    assert_eq!(build_target_from(Err("boom".to_string())), (None, true));
}

#[test]
fn failure_message_keeps_three_lines() {
    assert_eq!(
        command_failure_message("make", "a\nb\nc\nd"),
        "Command 'make' failed with non-zero exit status. Stderr (first lines):\na\nb\nc"
    );
    assert_eq!(command_failure_message("make", ""), "Command 'make' failed with non-zero exit status");
}

#[test]
fn config_value_output() {
    assert_eq!(config_value_from_output("k", true, "  v \n", "").ok().unwrap(), "v");
    assert_eq!(config_value_from_output("k", true, "  ", "").err().unwrap().message(), "Empty k value from config");
    assert_eq!(config_value_from_output("k", false, "", "bad").err().unwrap().message(), "Failed to retrieve k: bad");
}
