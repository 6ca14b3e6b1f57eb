use zc::model::{PerCrateDep, Scope};
use zc::pubdep::{candidates, findings, reachable, PubdepTables};

fn row(crate_name: &str, dep: &str, req: &str, scope: Scope, pkg: &str) -> PerCrateDep {
    PerCrateDep {
        crate_name: crate_name.into(),
        dep: dep.into(),
        req: req.into(),
        scope,
        pkg: pkg.into(),
    }
}

#[test]
fn tables_skip_msrv_and_preserve_head_external_order() {
    let base = vec![
        row("demo", "renamed", "1", Scope::External, "real-package"),
        row("demo", "rust-version", "1.82", Scope::Msrv, ""),
    ];
    let head = vec![
        row("demo", "second", "2", Scope::External, "second"),
        row("demo", "renamed", "2", Scope::External, "real-package"),
        row("demo", "inside", "0.1", Scope::Internal, "inside"),
        row("demo", "rust-version", "1.83", Scope::Msrv, ""),
    ];

    let tables = PubdepTables::build(&base, &head);
    assert_eq!(tables.req(false, "demo", "renamed").as_deref(), Some("1"));
    assert_eq!(tables.req(true, "demo", "inside").as_deref(), Some("0.1"));
    assert_eq!(tables.req(true, "demo", "rust-version"), None);
    assert_eq!(tables.externals("demo"), ["second", "renamed"]);
    assert_eq!(tables.package("demo", "renamed").as_deref(), Some("real-package"));
}

#[test]
fn reachability_matches_identifier_roots_and_cargo_renames() {
    let surface = "pub fn demo::one() -> renamed_dep::Type\n\
                   pub fn demo::two() -> real_package::Other\n\
                   pub fn demo::three() -> prefixrenamed_dep::Nope\n";

    assert!(reachable(surface, "renamed-dep", "unrelated"));
    assert!(reachable(surface, "alias", "real-package"));
    assert!(!reachable(surface, "prefix", "missing"));
    assert!(!reachable("xrenamed_dep::Type", "renamed-dep", "missing"));
    assert!(reachable("renamed_dep::Type", "renamed-dep", "missing"));
}

#[test]
fn only_major_or_unclassifiable_reachable_changes_are_findings() {
    let base = vec![
        row("demo", "major", "1", Scope::External, "major"),
        row("demo", "minor", "1.1", Scope::External, "minor"),
        row("demo", "hidden", "1", Scope::External, "hidden"),
    ];
    let head = vec![
        row("demo", "major", "2", Scope::External, "major-pkg"),
        row("demo", "minor", "1.2", Scope::External, "minor"),
        row("demo", "hidden", "2", Scope::External, "hidden"),
    ];
    let tables = PubdepTables::build(&base, &head);
    let found = candidates(&tables, "demo");
    assert_eq!(
        found,
        vec![
            ("major".to_string(), "1".to_string(), "2".to_string()),
            ("hidden".to_string(), "1".to_string(), "2".to_string()),
        ]
    );
    let result = findings(&tables, "demo", &found, "pub fn demo::f() -> major_pkg::T\n");
    assert_eq!(result.len(), 1);
    assert_eq!(result[0].dep, "major");
    assert_eq!(result[0].old, "1");
    assert_eq!(result[0].new, "2");
    assert!(findings(&tables, "demo", &found, "").is_empty());
}
