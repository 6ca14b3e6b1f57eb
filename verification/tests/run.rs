use zc::api::{crate_result, CrateEvent};
use zc::json::derived;
use zc::model::{
    CrateResult, CrateStatus, DepDiff, DepKind, DepRecord, ErrorStage, FailOn, GroupMode, Options,
    PubdepFinding, Refs, Report,
};
use zc::render::no_changes;
use zc::run::{
    build_report, direct_names, error_message, finish, merge_base_head, merge_base_label,
    nothing_changed, ref_plan, usage_message, Finish,
};
use zc::style::Style;

fn refs() -> Refs {
    Refs {
        baseline: "base".to_string(),
        baseline_label: "main".to_string(),
        baseline_sha: "1".repeat(40),
        baseline_short: "1111111".to_string(),
        head_ref: "HEAD".to_string(),
        head_label: "HEAD".to_string(),
        head_sha: "2".repeat(40),
        head_short: "2222222".to_string(),
        head_is_worktree_snapshot: false,
    }
}

fn crate_with(name: &str, removed: usize, changed: usize, added: usize, status: CrateStatus) -> CrateResult {
    CrateResult {
        name: name.to_string(),
        removed,
        changed,
        added,
        removed_lines: Vec::new(),
        changed_lines: Vec::new(),
        added_lines: Vec::new(),
        status,
        error: None,
        pubdep: Vec::new(),
    }
}

fn finding(dep: &str, old: &str, new: &str) -> PubdepFinding {
    PubdepFinding { dep: dep.to_string(), old: old.to_string(), new: new.to_string() }
}

fn options(json: bool, changelog: bool) -> Options {
    Options {
        with_lock: false,
        with_values: false,
        json_mode: json,
        changelog_mode: changelog,
        group_mode: GroupMode::Mod,
        fail_on: FailOn::Breaking,
        report_path: None,
        changelog_path: None,
    }
}

fn record() -> DepRecord {
    DepRecord {
        ver: "1".to_string(),
        kind: DepKind::Runtime,
        optional: false,
        default_features: true,
        features: Vec::new(),
    }
}

#[test]
fn two_refs_are_compared_as_given() {
    let plan = ref_plan(&vec!["v1".to_string(), "v2".to_string()], true);
    assert_eq!(plan.baseline, Some("v1".to_string()));
    assert_eq!(plan.head_ref, "v2");
    assert_eq!(plan.head_label, "v2");
    assert!(!plan.use_merge_base);
}

#[test]
fn one_ref_uses_the_merge_base_with_the_working_tree_when_dirty() {
    let dirty = ref_plan(&vec!["main".to_string()], true);
    assert_eq!(dirty.baseline, Some("main".to_string()));
    assert_eq!(dirty.head_ref, "");
    assert_eq!(dirty.head_label, "working tree");
    assert!(dirty.use_merge_base);
    let clean = ref_plan(&vec!["main".to_string()], false);
    assert_eq!(clean.head_ref, "HEAD");
    assert_eq!(clean.head_label, "HEAD");
    assert!(clean.use_merge_base);
}

#[test]
fn no_ref_compares_a_dirty_tree_with_head_and_a_clean_one_with_the_parent_branch() {
    let dirty = ref_plan(&Vec::new(), true);
    assert_eq!(dirty.baseline, Some("HEAD".to_string()));
    assert_eq!(dirty.head_ref, "");
    assert!(!dirty.use_merge_base);
    let clean = ref_plan(&Vec::new(), false);
    assert_eq!(clean.baseline, None);
    assert_eq!(clean.head_ref, "HEAD");
    assert!(clean.use_merge_base);
}

#[test]
fn the_merge_base_is_labelled_with_both_refs() {
    assert_eq!(merge_base_label("main", "working tree"), "merge-base(main, working tree)");
    assert_eq!(merge_base_head(""), "HEAD");
    assert_eq!(merge_base_head("v2"), "v2");
}

#[test]
fn diagnostics_point_to_help_only_for_usage_errors() {
    let s = Style { red: "<r>", reset: "</>", ..Style::default() };
    assert_eq!(error_message(&s, "boom"), "<r>error:</> boom");
    assert_eq!(usage_message(&s, "bad"), "<r>error:</> bad (run with --help for usage)");
}

#[test]
fn renamed_dependencies_make_their_package_direct_too() {
    let base = vec![("alias (pkg: real-name))".to_string(), record())];
    let head = vec![("serde".to_string(), record())];
    let crates = vec!["my-crate".to_string()];
    assert_eq!(
        direct_names(&base, &head, &crates),
        vec![
            "alias (pkg: real-name))".to_string(),
            "real-name".to_string(),
            "serde".to_string(),
            "my-crate".to_string(),
        ]
    );
}

#[test]
fn report_totals_sum_crates_and_split_findings_by_class() {
    let mut a = crate_with("a", 2, 1, 3, CrateStatus::Clean);
    a.pubdep = vec![finding("x", "1.0", "2.0"), finding("y", "1.0", "1.1")];
    let b = crate_with("b", 0, 0, 0, CrateStatus::Error);
    let c = crate_with("c", 0, 0, 1, CrateStatus::Clean);
    let r = build_report(refs(), DepDiff::default(), vec![a, b, c], 3, Vec::new(), Vec::new());
    assert_eq!(r.removed_total, 2);
    assert_eq!(r.changed_total, 1);
    assert_eq!(r.added_total, 4);
    assert_eq!(r.changed_crate_count, 2);
    assert_eq!(r.error_crate_count, 1);
    assert_eq!(r.pubdep_break_total, 1);
    assert_eq!(r.pubdep_review_total, 1);
    assert_eq!(r.crate_count, 3);
    assert!(!nothing_changed(&r));
}

fn empty_report() -> Report {
    build_report(refs(), DepDiff::default(), Vec::new(), 0, Vec::new(), Vec::new())
}

#[test]
fn what_follows_the_summary_depends_on_the_mode_and_the_report() {
    let quiet = empty_report();
    assert!(nothing_changed(&quiet));
    assert_eq!(finish(&options(false, false), &quiet), Finish::NoChanges);
    assert_eq!(finish(&options(true, false), &quiet), Finish::Json);
    assert_eq!(finish(&options(false, true), &quiet), Finish::Changelog);
    assert_eq!(finish(&options(true, true), &quiet), Finish::Changelog);

    let failed = build_report(
        refs(),
        DepDiff::default(),
        vec![crate_with("b", 0, 0, 0, CrateStatus::Error)],
        1,
        Vec::new(),
        Vec::new(),
    );
    assert_eq!(finish(&options(false, true), &failed), Finish::ChangelogErrors);
    assert_eq!(finish(&options(false, false), &failed), Finish::DetailsThenErrors);

    let changed = build_report(
        refs(),
        DepDiff::default(),
        vec![crate_with("a", 1, 0, 0, CrateStatus::Clean)],
        1,
        Vec::new(),
        Vec::new(),
    );
    assert_eq!(finish(&options(false, false), &changed), Finish::DetailsThenVerdict);
}

#[test]
fn no_changes_still_names_a_breaking_dependency() {
    let mut r = empty_report();
    assert_eq!(
        no_changes(&Style::plain(), &r),
        vec![String::new(), "  No public API changes.".to_string()]
    );
    r.deps.breaking = 2;
    assert_eq!(
        no_changes(&Style::plain(), &r),
        vec![
            String::new(),
            "  No public API changes.".to_string(),
            String::new(),
            "BREAKING: runtime-deps: 2 breaking.".to_string(),
        ]
    );
}

#[test]
fn a_failed_stage_is_recorded_with_its_refs() {
    let features = vec!["--all-features".to_string()];
    let r = crate_result(&refs(), &features, "demo", CrateEvent::HeadFailed("error: x".into()), Vec::new());
    assert_eq!(r.status, CrateStatus::Error);
    let e = r.error.expect("a failed crate carries its error");
    assert_eq!(e.stage, ErrorStage::HeadBuild);
    assert_eq!(e.ref_label, "HEAD");
    let d = crate_result(&refs(), &features, "demo", CrateEvent::DiffFailed("boom".into()), Vec::new());
    let e = d.error.expect("a failed crate carries its error");
    assert_eq!(e.ref_label, "main..HEAD");
    assert_eq!(e.ref_sha, format!("{}..{}", "1".repeat(40), "2".repeat(40)));
}

#[test]
fn a_diffed_crate_counts_its_sections() {
    let out = "Removed items from the public API\n=================================\n-pub fn demo::gone()\n\nChanged items in the public API\n===============================\n\nAdded items to the public API\n=============================\n+pub fn demo::new()\n+pub fn demo::newer()\n";
    let r = crate_result(
        &refs(),
        &Vec::new(),
        "demo",
        CrateEvent::Diffed(out.to_string()),
        vec![finding("x", "1", "2")],
    );
    assert_eq!(r.status, CrateStatus::Clean);
    assert_eq!(r.removed, 1);
    assert_eq!(r.added, 2);
    assert_eq!(r.pubdep.len(), 1);
}

#[test]
fn the_json_document_derives_verdict_totals_and_classed_breaks() {
    let mut a = crate_with("a", 1, 2, 3, CrateStatus::Clean);
    a.pubdep = vec![finding("x", "1.0", "2.0"), finding("y", "1.0", "1.1")];
    let r = build_report(refs(), DepDiff::default(), vec![a], 1, Vec::new(), Vec::new());
    let d = derived(&r);
    assert_eq!(d.verdict, "breaking");
    assert_eq!(d.totals.api_breaking, 3);
    assert_eq!(d.totals.added, 3);
    assert_eq!(d.totals.public_dep_breaking, 1);
    assert_eq!(d.public_dep_breaks.len(), 2);
    assert_eq!(d.public_dep_breaks[0].class, "breaking");
    assert_eq!(d.public_dep_breaks[1].class, "review");
    assert_eq!(d.public_dep_breaks[1].crate_name, "a");
    assert_eq!(derived(&empty_report()).verdict, "ok");
}

#[test]
fn a_quiet_run_breaks_only_on_a_dependency() {
    let mut r = empty_report();
    assert_eq!(derived(&r).verdict, "ok");
    r.deps.breaking = 1;
    assert!(nothing_changed(&r));
    assert_eq!(derived(&r).verdict, "breaking");
}
