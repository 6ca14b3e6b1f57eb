use zc::cargo_meta::{
    classify_per_crate_deps, classify_workspace_deps, dependency_kind, parse_kind, parse_scope,
    scope_tag, strip_caret, workspace_crate_names, Dependency, Metadata, Package,
};
use zc::model::{DepKind, Scope};

fn dependency(name: &str, rename: Option<&str>, req: &str, kind: Option<&str>) -> Dependency {
    Dependency {
        name: name.to_string(),
        rename: rename.map(str::to_string),
        req: Some(req.to_string()),
        kind: kind.map(str::to_string),
        optional: None,
        uses_default_features: None,
        features: None,
    }
}

fn package(id: &str, name: &str, rust_version: Option<&str>, dependencies: Vec<Dependency>) -> Package {
    Package {
        id: id.to_string(),
        name: name.to_string(),
        rust_version: rust_version.map(str::to_string),
        dependencies,
    }
}

fn metadata() -> Metadata {
    let mut serde_build = dependency("serde", None, "^1.0", Some("build"));
    serde_build.optional = Some(true);
    serde_build.features = Some(vec!["derive".to_string()]);
    let mut serde_runtime = dependency("serde", None, "1.0.100", None);
    serde_runtime.optional = Some(true);
    serde_runtime.uses_default_features = Some(false);
    serde_runtime.features = Some(vec!["std".to_string(), "alloc".to_string()]);
    let mut serde_again = dependency("serde", None, "1", Some("normal"));
    serde_again.optional = Some(false);
    serde_again.uses_default_features = Some(false);
    Metadata {
        packages: vec![
            package(
                "beta 0.1",
                "beta",
                Some("1.75"),
                vec![
                    serde_build,
                    dependency("alpha", None, "0.1", None),
                    dependency("quickcheck", None, "1", Some("dev")),
                ],
            ),
            package(
                "alpha 0.1",
                "alpha",
                None,
                vec![
                    serde_runtime,
                    serde_again,
                    dependency("hex-literal", Some("hexlit"), "^0.4", None),
                ],
            ),
            package("zebra-test 0.1", "zebra-test", None, vec![dependency("proptest", None, "1", None)]),
        ],
        workspace_members: vec![
            "beta 0.1".to_string(),
            "alpha 0.1".to_string(),
            "zebra-test 0.1".to_string(),
        ],
    }
}

#[test]
fn member_names_are_sorted() {
    assert_eq!(workspace_crate_names(&metadata()), vec!["alpha", "beta", "zebra-test"]);
}

#[test]
fn workspace_table_merges_usages_and_skips_members_and_test_crates() {
    let table = classify_workspace_deps(&metadata());
    let names: Vec<&str> = table.iter().map(|(name, _)| name.as_str()).collect();
    assert_eq!(names, vec!["hexlit (pkg: hex-literal)", "quickcheck", "serde"]);
    let serde = &table[2].1;
    assert_eq!(serde.ver, "1.0");
    assert_eq!(serde.kind, DepKind::Runtime);
    assert!(!serde.optional);
    assert!(serde.default_features);
    assert_eq!(serde.features, vec!["alloc", "derive", "std"]);
    assert_eq!(table[0].1.ver, "0.4");
    assert_eq!(table[1].1.kind, DepKind::Dev);
}

#[test]
fn per_crate_rows_are_sorted_with_msrv_rows_and_runtime_or_build_dependencies() {
    let rows = classify_per_crate_deps(&metadata());
    let keys: Vec<(&str, &str, &str)> = rows
        .iter()
        .map(|row| (row.crate_name.as_str(), row.dep.as_str(), row.req.as_str()))
        .collect();
    assert_eq!(
        keys,
        vec![
            ("alpha", "hexlit", "0.4"),
            ("alpha", "serde", "1.0.100"),
            ("alpha", "~msrv", "-"),
            ("beta", "alpha", "0.1"),
            ("beta", "serde", "1.0"),
            ("beta", "~msrv", "1.75"),
        ]
    );
    assert_eq!(rows[3].scope, Scope::Internal);
    assert_eq!(rows[4].scope, Scope::External);
    assert_eq!(rows[0].pkg, "hex-literal");
    assert_eq!(rows[2].scope, Scope::Msrv);
}

#[test]
fn kinds_carets_and_cache_tags() {
    assert_eq!(dependency_kind(&None), DepKind::Runtime);
    assert_eq!(dependency_kind(&Some("build".to_string())), DepKind::Build);
    assert_eq!(dependency_kind(&Some("dev".to_string())), DepKind::Dev);
    assert_eq!(dependency_kind(&Some("weird".to_string())), DepKind::Runtime);
    assert_eq!(strip_caret("^1.2"), "1.2");
    assert_eq!(strip_caret("=1.2"), "=1.2");
    assert_eq!(parse_kind("unused"), Some(DepKind::Unused));
    assert_eq!(parse_kind("other"), None);
    assert_eq!(parse_scope(scope_tag(Scope::Msrv)), Some(Scope::Msrv));
    assert_eq!(parse_scope("x"), None);
}

#[test]
fn every_kind_and_scope_reads_back_from_its_cache_tag() {
    for kind in [DepKind::Runtime, DepKind::Build, DepKind::Dev, DepKind::Unused] {
        assert_eq!(parse_kind(kind.as_str()), Some(kind));
    }
    for scope in [Scope::Internal, Scope::External, Scope::Msrv] {
        assert_eq!(parse_scope(scope_tag(scope)), Some(scope));
    }
}

#[test]
fn the_strongest_kind_wins_with_its_own_optionality() {
    let mut md = metadata();
    md.packages[0].dependencies.push(dependency("quickcheck", None, "1", Some("build")));
    let table = classify_workspace_deps(&md);
    let quickcheck = table.iter().find(|(name, _)| name == "quickcheck").expect("declared");
    assert_eq!(quickcheck.1.kind, DepKind::Build);
}
