use zc::deps::{diff, feature_diff};
use zc::model::{Bump, DepKind, DepRecord};
use zc::table::table_from;

fn dep(
    ver: &str,
    kind: DepKind,
    optional: bool,
    default_features: bool,
    features: &[&str],
) -> DepRecord {
    DepRecord {
        ver: ver.to_string(),
        kind,
        optional,
        default_features,
        features: features
            .iter()
            .map(|feature| (*feature).to_string())
            .collect(),
    }
}

#[test]
fn feature_delta_puts_default_first_and_sorts_set_difference() {
    let old = vec!["zeta".to_string(), "foo".to_string(), "foo".to_string()];
    let new = vec!["async-std".to_string(), "alpha".to_string()];

    assert_eq!(
        feature_diff(true, false, &old, &new),
        "-default!,+alpha,+async-std,-foo,-zeta"
    );
}

#[test]
fn added_hyphenated_feature_is_not_a_removed_feature() {
    let base = table_from(vec![(
        "dep".to_string(),
        dep("1.0", DepKind::Runtime, false, true, &[]),
    )]);
    let head = table_from(vec![(
        "dep".to_string(),
        dep("1.1", DepKind::Runtime, false, true, &["async-std"]),
    )]);

    let result = diff(&base, &head);

    assert_eq!(result.changed[0].features, "+async-std");
    assert_eq!(result.breaking, 0);
}

#[test]
fn breaking_count_is_limited_to_non_optional_runtime_breakage() {
    let base = table_from(vec![
        (
            "removed-runtime".to_string(),
            dep("1", DepKind::Runtime, false, true, &[]),
        ),
        (
            "removed-optional".to_string(),
            dep("1", DepKind::Runtime, true, true, &[]),
        ),
        (
            "major-runtime".to_string(),
            dep("1", DepKind::Runtime, false, true, &[]),
        ),
        (
            "major-build".to_string(),
            dep("1", DepKind::Build, false, true, &[]),
        ),
        (
            "lost-feature".to_string(),
            dep("1", DepKind::Runtime, false, true, &["std"]),
        ),
        (
            "lost-default".to_string(),
            dep("1", DepKind::Runtime, false, true, &[]),
        ),
        (
            "added-feature".to_string(),
            dep("1", DepKind::Runtime, false, true, &[]),
        ),
    ]);
    let head = table_from(vec![
        (
            "major-runtime".to_string(),
            dep("2", DepKind::Runtime, false, true, &[]),
        ),
        (
            "major-build".to_string(),
            dep("2", DepKind::Build, false, true, &[]),
        ),
        (
            "lost-feature".to_string(),
            dep("1", DepKind::Runtime, false, true, &[]),
        ),
        (
            "lost-default".to_string(),
            dep("1", DepKind::Runtime, false, false, &[]),
        ),
        (
            "added-feature".to_string(),
            dep("1", DepKind::Runtime, false, true, &["foo-bar"]),
        ),
    ]);

    let result = diff(&base, &head);

    assert_eq!(result.breaking, 4);
}

#[test]
fn stronger_kind_wins_and_kind_ties_use_head_optionality() {
    let base = table_from(vec![
        (
            "stronger-old".to_string(),
            dep("1", DepKind::Runtime, false, true, &[]),
        ),
        (
            "tie".to_string(),
            dep("1", DepKind::Runtime, false, true, &[]),
        ),
    ]);
    let head = table_from(vec![
        (
            "stronger-old".to_string(),
            dep("1", DepKind::Build, false, false, &[]),
        ),
        (
            "tie".to_string(),
            dep("2", DepKind::Runtime, true, true, &[]),
        ),
    ]);

    let result = diff(&base, &head);

    assert_eq!(result.changed[0].kind, "runtime");
    assert_eq!(result.changed[1].kind, "runtime-opt");
    assert_eq!(result.breaking, 1);
}

#[test]
fn removed_changed_and_added_are_reported_in_name_order() {
    let base = table_from(vec![
        ("b".to_string(), dep("1", DepKind::Dev, false, true, &[])),
        ("a".to_string(), dep("1", DepKind::Runtime, false, true, &[])),
        ("c".to_string(), dep("0.1", DepKind::Runtime, false, true, &[])),
    ]);
    let head = table_from(vec![
        ("d".to_string(), dep("3", DepKind::Build, false, true, &[])),
        ("c".to_string(), dep("0.2", DepKind::Runtime, false, true, &[])),
    ]);
    let result = diff(&base, &head);
    let removed: Vec<&str> = result.removed.iter().map(|d| d.name.as_str()).collect();
    assert_eq!(removed, vec!["a", "b"]);
    assert!(result.removed[0].breaking);
    assert!(!result.removed[1].breaking);
    assert_eq!(result.removed[1].kind, "dev");
    assert_eq!(result.changed.len(), 1);
    assert_eq!(result.changed[0].bump, Bump::Major);
    assert!(result.changed[0].breaking);
    assert_eq!(result.added[0].name, "d");
    assert_eq!(result.added[0].kind, "build");
    assert_eq!(result.breaking, 2);
}

#[test]
fn a_later_entry_replaces_an_earlier_one_with_the_same_name() {
    let table = table_from(vec![
        ("x".to_string(), dep("1", DepKind::Dev, false, true, &[])),
        ("x".to_string(), dep("2", DepKind::Dev, false, true, &[])),
    ]);
    assert_eq!(table.len(), 1);
    assert_eq!(table[0].1.ver, "2");
}

#[test]
fn unchanged_features_render_an_empty_delta() {
    let same = vec!["std".to_string(), String::new()];
    assert_eq!(feature_diff(true, true, &same, &same), "");
    assert_eq!(feature_diff(false, true, &[], &[]), "+default!");
}

#[test]
fn the_delta_is_empty_exactly_when_flag_and_named_features_agree() {
    let old = vec!["std".to_string(), String::new(), "std".to_string()];
    let new = vec!["std".to_string()];
    assert_eq!(feature_diff(false, false, &old, &new), "");
    assert_ne!(feature_diff(false, false, &old, &["alloc".to_string()]), "");
    assert_ne!(feature_diff(true, false, &old, &new), "");
}
