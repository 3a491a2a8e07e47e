use c2rust_translate::config_file::{get_config_value, run_config_command, set_config_value};

#[test]
fn test_set_and_get_config_value() {
    let mut content = String::new();
    set_config_value(&mut content, "default", "build.target", "my_target").ok().unwrap();
    let value = get_config_value(&content, "default", "build.target").ok().unwrap();
    assert_eq!(value, "my_target");
}

#[test]
fn test_update_existing_value() {
    let mut content = String::new();
    set_config_value(&mut content, "default", "build.target", "target1").ok().unwrap();
    set_config_value(&mut content, "default", "build.target", "target2").ok().unwrap();
    let value = get_config_value(&content, "default", "build.target").ok().unwrap();
    assert_eq!(value, "target2");
}

#[test]
fn config_value_in_other_section_is_not_found() {
    let mut content = String::new();
    set_config_value(&mut content, "default", "build.target", "t").ok().unwrap();
    let err = get_config_value(&content, "default", "test.target").err().unwrap();
    assert_eq!(err.message(), "Key 'test.target' not found in feature 'default'");
}

#[test]
fn config_key_without_section_is_refused() {
    let content = String::new();
    let err = get_config_value(&content, "default", "target").err().unwrap();
    assert_eq!(err.message(), "Key must be in format 'section.key'");
}

#[test]
fn a_set_keeps_the_other_keys() {
    let mut content = String::from("# c2rust configuration\n");
    for (feature, key, value) in [
        ("default", "build.cmd", "make"),
        ("default", "build.dir", "build"),
        ("other", "build.cmd", "ninja"),
        ("default", "test.cmd", "make test"),
    ] {
        run_config_command(&mut content, Some(feature), Some(key), Some(value), None).ok().unwrap();
    }
    run_config_command(&mut content, Some("default"), Some("build.cmd"), Some("cmake"), None).ok().unwrap();
    let read = |c: &mut String, f: &str, k: &str| run_config_command(c, Some(f), None, None, Some(k)).ok().unwrap().1;
    assert_eq!(read(&mut content, "default", "build.cmd"), Some("cmake".to_string()));
    assert_eq!(read(&mut content, "default", "build.dir"), Some("build".to_string()));
    assert_eq!(read(&mut content, "other", "build.cmd"), Some("ninja".to_string()));
    assert_eq!(read(&mut content, "default", "test.cmd"), Some("make test".to_string()));
    for (i, ch) in content.char_indices() {
        if ch == '[' {
            assert!(i > 0 && content.as_bytes()[i - 1] == b'\n');
        }
    }
}
