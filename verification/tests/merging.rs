use c2rust_translate::merger::{build_merged_content, merge_contents, split_use_and_code, UseSet};

#[test]
fn test_split_use_and_code_basic() {
    let content = "use std::ffi::CStr;\nuse core::ffi::*;\n\nfn foo() {}\n";
    let (uses, body) = split_use_and_code(content);
    assert_eq!(uses, vec!["use std::ffi::CStr;", "use core::ffi::*;"]);
    assert!(body.contains("fn foo()"));
    assert!(!body.contains("use "));
}

#[test]
fn test_split_use_and_code_preserves_core_ffi_wildcard() {
    let content = "use core::ffi::*;\nuse std::os::raw::*;\n\nstatic X: i32 = 0;\n";
    let (uses, _body) = split_use_and_code(content);
    assert!(uses.contains(&"use core::ffi::*;".to_string()), "use core::ffi::*; must be preserved");
    assert!(uses.contains(&"use std::os::raw::*;".to_string()), "use std::os::raw::*; must be preserved");
}

#[test]
fn test_split_use_and_code_skips_leading_comments() {
    let content = "// generated\n\nuse core::ffi::*;\n\nfn bar() {}\n";
    let (uses, body) = split_use_and_code(content);
    assert_eq!(uses, vec!["use core::ffi::*;"]);
    assert!(body.contains("fn bar()"));
}

#[test]
fn test_split_use_and_code_does_not_extract_inline_use() {
    let content = "use core::ffi::*;\n\nfn foo() {\n    use std::mem;\n    let _ = mem::size_of::<i32>();\n}\n";
    let (uses, body) = split_use_and_code(content);
    assert_eq!(uses, vec!["use core::ffi::*;"]);
    assert!(body.contains("use std::mem;"));
}

#[test]
fn test_build_merged_content_preserves_core_ffi_wildcard() {
    let mut use_stmts = UseSet::new();
    use_stmts.insert("use core::ffi::*;".to_string());
    use_stmts.insert("use std::ffi::CStr;".to_string());
    let bodies = vec!["fn foo() {}".to_string()];
    let merged = build_merged_content(&use_stmts, &bodies);
    assert!(merged.contains("use core::ffi::*;"), "merged output must contain 'use core::ffi::*;'");
    assert!(merged.contains("use std::ffi::CStr;"));
    assert!(merged.contains("fn foo()"));
}

#[test]
fn test_build_merged_content_deduplicates_exact_duplicates() {
    let mut use_stmts = UseSet::new();
    use_stmts.insert("use core::ffi::*;".to_string());
    use_stmts.insert("use core::ffi::*;".to_string());
    let bodies = vec!["fn a() {}".to_string(), "fn b() {}".to_string()];
    let merged = build_merged_content(&use_stmts, &bodies);
    let occurrences = merged.matches("use core::ffi::*;").count();
    assert_eq!(occurrences, 1, "duplicate use statements must be deduplicated");
}

#[test]
fn test_build_merged_content_no_use_section() {
    let use_stmts = UseSet::new();
    let bodies = vec!["fn foo() {}".to_string()];
    let merged = build_merged_content(&use_stmts, &bodies);
    assert!(!merged.starts_with('\n'));
    assert!(merged.contains("fn foo()"));
}

#[test]
fn merged_file_layout() {
    let files = vec![
        "use core::ffi::*;\nuse std::ffi::CStr;\n\npub static FOO: i32 = 42;\n".to_string(),
        "use core::ffi::*;\n\npub fn bar() -> c_int { 0 }\n".to_string(),
        "// only a comment\n".to_string(),
    ];
    let merged = merge_contents(&files);
    assert_eq!(
        merged,
        "use core::ffi::*;\nuse std::ffi::CStr;\n\npub static FOO: i32 = 42;\n\npub fn bar() -> c_int { 0 }\n\n"
    );
}

#[test]
fn use_lines_sorted_like_a_btree_set() {
    let mut set = UseSet::new();
    set.insert("use b;".to_string());
    set.insert("use a;".to_string());
    set.insert("use ab;".to_string());
    assert_eq!(set.lines(), &vec!["use a;".to_string(), "use ab;".to_string(), "use b;".to_string()]);
    assert_eq!(set.len(), 3);
}
