use zc::model::{CrateResult, CrateStatus, DepDiff, GroupMode, Refs, Report, Section};
use zc::render::{header, render_items, verdict, via_suffix};
use zc::style::Style;

fn refs() -> Refs {
    Refs {
        baseline: "base-ref".to_string(),
        baseline_label: "merge-base(main, HEAD)".to_string(),
        baseline_sha: "1".repeat(40),
        baseline_short: "1111111".to_string(),
        head_ref: "HEAD".to_string(),
        head_label: "working tree".to_string(),
        head_sha: "2".repeat(40),
        head_short: "2222222".to_string(),
        head_is_worktree_snapshot: true,
    }
}

fn report() -> Report {
    Report {
        refs: refs(),
        deps: DepDiff::default(),
        crates: vec![CrateResult {
            name: "sample".to_string(),
            removed: 0,
            changed: 0,
            added: 0,
            removed_lines: Vec::new(),
            changed_lines: Vec::new(),
            added_lines: Vec::new(),
            status: CrateStatus::Clean,
            error: None,
            pubdep: Vec::new(),
        }],
        crate_count: 1,
        values: Vec::new(),
        docs: Vec::new(),
        removed_total: 0,
        changed_total: 0,
        added_total: 0,
        changed_crate_count: 0,
        error_crate_count: 0,
        pubdep_break_total: 0,
        pubdep_review_total: 0,
    }
}

#[test]
fn via_suffix_matches_lock_output() {
    let style = Style {
        dim: "<d>",
        reset: "</>",
        ..Style::default()
    };
    assert_eq!(
        via_suffix(&style, Some("direct-a,direct-b")),
        " <d>via direct-a,direct-b</>"
    );
    assert_eq!(via_suffix(&style, Some("")), "");
    assert_eq!(via_suffix(&style, None), "");
}

#[test]
fn header_names_both_refs_with_their_short_shas() {
    let lines = header(&Style::plain(), &refs());
    assert_eq!(
        lines,
        vec![
            "Comparing public API: merge-base(main, HEAD) (1111111) -> working tree (2222222)"
                .to_string(),
            String::new(),
        ]
    );
}

#[test]
fn a_clean_report_has_an_ok_verdict() {
    let lines = verdict(&Style::plain(), &report());
    assert_eq!(lines, vec!["OK: no breaking changes.".to_string()]);
}

#[test]
fn a_breaking_report_lists_each_cause() {
    let mut r = report();
    r.removed_total = 2;
    r.changed_total = 1;
    r.added_total = 3;
    r.deps.breaking = 1;
    let lines = verdict(&Style::plain(), &r);
    assert_eq!(
        lines,
        vec![
            "BREAKING: api: 2 removed / 1 changed; runtime-deps: 1 breaking.".to_string(),
            "(also 3 new API items, additive only)".to_string(),
        ]
    );
}

#[test]
fn flat_items_are_indented_and_marked_by_section() {
    let lines = vec!["pub fn demo::a()".to_string(), String::new()];
    let out = render_items(
        &Style::plain(),
        &lines,
        Section::Removed,
        GroupMode::Flat,
        "demo",
        &Vec::new(),
    );
    assert_eq!(out, Some(vec!["    - pub fn demo::a()".to_string()]));
}
