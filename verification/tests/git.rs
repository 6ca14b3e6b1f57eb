use zc::git::{parent_branch, parse_type_kind_line, type_kinds, upstream_candidate};

#[test]
fn parses_type_names_after_declaration_keyword() {
    assert_eq!(
        parse_type_kind_line("deadbeef:path/file.rs:pub struct Widget<T> {"),
        Some(("Widget".to_string(), "struct".to_string()))
    );
    assert_eq!(
        parse_type_kind_line("deadbeef:path/file.rs:    pub enum State{Ready}"),
        Some(("State".to_string(), "enum".to_string()))
    );
    assert_eq!(
        parse_type_kind_line("deadbeef:path/file.rs:pub trait Service: Send"),
        Some(("Service".to_string(), "trait".to_string()))
    );
    assert_eq!(
        parse_type_kind_line("deadbeef:path/file.rs:pub union Bits;"),
        Some(("Bits".to_string(), "union".to_string()))
    );
}

#[test]
fn rejects_lines_without_a_name_after_the_keyword() {
    assert_eq!(parse_type_kind_line("path.rs:pub struct"), None);
    assert_eq!(parse_type_kind_line("path.rs:pub fn structish()"), None);
    assert_eq!(parse_type_kind_line("path.rs:pub enum {"), None);
}

#[test]
fn the_parent_branch_prefers_a_distinct_upstream() {
    assert_eq!(parent_branch("", "origin/x", true, true), "main");
    assert_eq!(parent_branch("main", "origin/dev", true, true), "main");
    assert_eq!(parent_branch("feature", "origin/feature", true, true), "main");
    assert_eq!(parent_branch("feature", "origin/dev", true, true), "origin/dev");
    assert_eq!(parent_branch("feature", "origin/dev", false, true), "dev");
    assert_eq!(parent_branch("feature", "origin/dev", false, false), "main");
    assert_eq!(upstream_candidate("feature", "feature"), "");
}

#[test]
fn type_kinds_keep_each_name_once_with_its_greatest_keyword() {
    let output = "abc:src/a.rs:pub struct Widget {\nabc:src/b.rs:    pub enum Mode {\nabc:src/c.rs:pub trait Widget {\nnot a declaration\nabc:src/a.rs:pub struct Widget;\n";
    let mut kinds = type_kinds(output);
    kinds.sort();
    assert_eq!(
        kinds,
        vec![
            ("Mode".to_string(), "enum".to_string()),
            ("Widget".to_string(), "trait".to_string()),
        ]
    );
    assert!(type_kinds("").is_empty());
}

#[test]
fn only_a_named_branch_other_than_main_asks_for_its_upstream() {
    assert!(!zc::git::needs_upstream(""));
    assert!(!zc::git::needs_upstream("main"));
    assert!(zc::git::needs_upstream("feature/x"));
}
