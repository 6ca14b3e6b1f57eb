use zc::changelog_out::{
    append_section, changed_crate_names, dependency_markdown, emit, fold_public_dependency_notes,
};
use zc::model::{
    CrateResult, CrateStatus, DepDiff, PerCrateDep, PubdepFinding, Refs, Report, Scope,
};

fn dep(crate_name: &str, name: &str, req: &str, scope: Scope) -> PerCrateDep {
    PerCrateDep {
        crate_name: crate_name.to_string(),
        dep: name.to_string(),
        req: req.to_string(),
        scope,
        pkg: name.to_string(),
    }
}

fn get<'a>(table: &'a [(String, Vec<String>)], name: &str) -> Option<&'a Vec<String>> {
    table.iter().find(|(key, _)| key == name).map(|(_, lines)| lines)
}

#[test]
fn dependency_markdown_matches_changelog_wording_and_order() {
    let base = vec![
        dep("alpha", "external", "1", Scope::External),
        dep("alpha", "internal", "1", Scope::Internal),
        dep("alpha", "removed", "3", Scope::External),
        dep("alpha", "~msrv", "1.75", Scope::Msrv),
        dep("beta", "~msrv", "1.70", Scope::Msrv),
    ];
    let head = vec![
        dep("alpha", "external", "2", Scope::External),
        dep("alpha", "internal", "2", Scope::Internal),
        dep("alpha", "~msrv", "1.81", Scope::Msrv),
        dep("beta", "~msrv", "-", Scope::Msrv),
    ];

    let markdown = dependency_markdown(&base, &head);
    assert_eq!(
        get(&markdown.changed, "alpha"),
        Some(&vec![
            "- MSRV is now 1.81.".to_string(),
            "- Migrated to `external 2`.".to_string(),
            "- `internal` dependency bumped to `2`.".to_string(),
        ])
    );
    assert_eq!(
        get(&markdown.removed, "alpha"),
        Some(&vec!["- `removed` dependency.".to_string()])
    );
    assert!(get(&markdown.removed, "beta").is_none());
    assert!(get(&markdown.changed, "beta").is_none());
}

fn result(name: &str, added: &[&str], pubdep: Vec<PubdepFinding>) -> CrateResult {
    CrateResult {
        name: name.to_string(),
        removed: 0,
        changed: 0,
        added: added.len(),
        removed_lines: Vec::new(),
        changed_lines: Vec::new(),
        added_lines: added.iter().map(|line| (*line).to_string()).collect(),
        status: CrateStatus::Clean,
        error: None,
        pubdep,
    }
}

fn report(crates: Vec<CrateResult>) -> Report {
    Report {
        refs: Refs {
            baseline: "base".to_string(),
            baseline_label: "main".to_string(),
            baseline_sha: "1".repeat(40),
            baseline_short: "1111111".to_string(),
            head_ref: "HEAD".to_string(),
            head_label: "HEAD".to_string(),
            head_sha: "2".repeat(40),
            head_short: "2222222".to_string(),
            head_is_worktree_snapshot: false,
        },
        deps: DepDiff::default(),
        crates,
        crate_count: 1,
        values: Vec::new(),
        docs: Vec::new(),
        removed_total: 0,
        changed_total: 0,
        added_total: 0,
        changed_crate_count: 0,
        error_crate_count: 0,
        pubdep_break_total: 0,
        pubdep_review_total: 0,
    }
}

#[test]
fn a_major_public_dependency_bump_folds_into_its_migration_line() {
    let crates = vec![result(
        "alpha",
        &[],
        vec![PubdepFinding {
            dep: "external".to_string(),
            old: "1".to_string(),
            new: "2".to_string(),
        }],
    )];
    let (lines, extra) = fold_public_dependency_notes(
        &crates,
        "alpha",
        vec!["- Migrated to `external 2`.".to_string()],
    );
    assert_eq!(
        lines,
        vec![
            "- Migrated to `external 2`; its types appear in this crate's public API, so \
             downstream users must upgrade `external` in lockstep."
                .to_string()
        ]
    );
    assert!(extra.is_empty());
    let (lines, extra) = fold_public_dependency_notes(&crates, "alpha", Vec::new());
    assert!(lines.is_empty());
    assert_eq!(
        extra,
        vec![
            "- Public dependency `external` changed to `2`; its types appear in this crate's \
             public API, so downstream users must upgrade `external` in lockstep."
                .to_string()
        ]
    );
}

#[test]
fn sections_are_skipped_when_empty() {
    let mut out: Vec<char> = Vec::new();
    append_section(&mut out, "Added", &vec![Vec::new(), Vec::new()]);
    assert!(out.is_empty());
    append_section(&mut out, "Added", &vec![vec!["- `x`".to_string()], Vec::new()]);
    assert_eq!(out.iter().collect::<String>(), "### Added\n- `x`\n\n");
}

#[test]
fn the_document_has_a_heading_per_crate_with_something_to_record() {
    let report = report(vec![
        result("quiet", &[], Vec::new()),
        result("loud-crate", &["pub fn loud_crate::go()"], Vec::new()),
    ]);
    let base = vec![dep("quiet", "old", "1", Scope::External)];
    let head: Vec<PerCrateDep> = Vec::new();
    let document = emit(&report, &base, &head, &Vec::new(), &Vec::new())
        .expect("the changelog patterns compile");
    assert_eq!(
        document,
        "## quiet\n\n### Removed\n- `old` dependency.\n\n## loud-crate\n\n### Added\n- `go`\n\n"
    );
    assert_eq!(changed_crate_names(&report), vec!["loud-crate".to_string()]);
}
