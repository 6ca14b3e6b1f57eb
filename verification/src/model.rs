//! Shared data model. Every module of the library speaks these types.

use vstd::prelude::*;

use crate::text::{ends_with, extend_chars, chars_of, string_of, str_eq};

verus! {

/// Exit code: no breaking change (or the policy ignores it).
pub const EXIT_OK: i32 = 0;

/// Exit code: a breaking change the policy fails on.
pub const EXIT_BREAKING: i32 = 1;

/// Exit code: the analysis was inconclusive for at least one crate.
pub const EXIT_ANALYSIS: i32 = 2;

/// Exit code: the command line or the environment is unusable.
pub const EXIT_USAGE: i32 = 64;

/// Test-only crates: `zebra-test`, or any name ending in `-test`.
pub open spec fn spec_is_test_crate(name: Seq<char>) -> bool {
    name == "zebra-test"@ || ends_with(name, "-test"@)
}

/// Crate names whose dependencies are excluded from workspace dependency classification.
pub fn is_test_crate(name: &str) -> (r: bool)
    ensures
        r == spec_is_test_crate(name@),
{
    let n = chars_of(name);
    let suffix = chars_of("-test");
    str_eq(name, "zebra-test") || crate::text::has_suffix(&n, &suffix)
}

/// Per-crate item grouping for the detailed diff sections.
#[derive(Clone, Copy, PartialEq, Eq, Structural, Debug)]
pub enum GroupMode {
    /// Cluster by owning module, with type sub-headers (default).
    Mod,
    /// One tagged header per type; members keep their `Type::` prefix.
    Type,
    /// Ungrouped, fully qualified, one item per line.
    Flat,
}

/// Which outcomes make the run fail (`--fail-on`).
#[derive(Clone, Copy, PartialEq, Eq, Structural, Debug)]
pub enum FailOn {
    /// Any breaking change, of the API, a runtime dependency, a value or a public dependency.
    Breaking,
    /// Only public API and public-dependency breaks.
    ApiBreaking,
    /// Only an inconclusive analysis.
    Error,
    /// Never (`none`).
    Never,
}

/// The documented `--fail-on` spellings.
pub open spec fn spec_fail_on(value: Seq<char>) -> Option<FailOn> {
    if value == "breaking"@ {
        Some(FailOn::Breaking)
    } else if value == "api-breaking"@ {
        Some(FailOn::ApiBreaking)
    } else if value == "error"@ {
        Some(FailOn::Error)
    } else if value == "none"@ {
        Some(FailOn::Never)
    } else {
        None
    }
}

impl FailOn {
    /// Parses one of `breaking`, `api-breaking`, `error`, `none`, exactly.
    pub fn parse(value: &str) -> (r: Option<FailOn>)
        ensures
            r == spec_fail_on(value@),
    {
        if str_eq(value, "breaking") {
            Some(FailOn::Breaking)
        } else if str_eq(value, "api-breaking") {
            Some(FailOn::ApiBreaking)
        } else if str_eq(value, "error") {
            Some(FailOn::Error)
        } else if str_eq(value, "none") {
            Some(FailOn::Never)
        } else {
            None
        }
    }

    /// Whether an API break fails the run under this policy.
    pub open spec fn spec_fails_on_api_break(self) -> bool {
        self is Breaking || self is ApiBreaking
    }

    /// Whether an API break fails the run under this policy.
    pub fn fails_on_api_break(self) -> (r: bool)
        ensures
            r == self.spec_fails_on_api_break(),
    {
        match self {
            FailOn::Breaking | FailOn::ApiBreaking => true,
            FailOn::Error | FailOn::Never => false,
        }
    }

    /// The exit code this policy gives a finished report.
    pub open spec fn spec_exit_code(self, report: Report) -> i32 {
        match self {
            FailOn::Breaking => report.spec_verdict().spec_exit_code(),
            FailOn::ApiBreaking => if report.error_crate_count > 0 {
                EXIT_ANALYSIS
            } else if report.removed_total + report.changed_total + report.pubdep_break_total
                > 0 {
                EXIT_BREAKING
            } else {
                EXIT_OK
            },
            FailOn::Error => if report.error_crate_count > 0 {
                EXIT_ANALYSIS
            } else {
                EXIT_OK
            },
            FailOn::Never => EXIT_OK,
        }
    }

    /// The exit code this policy gives a finished report.
    pub fn exit_code(self, report: &Report) -> (r: i32)
        ensures
            r == self.spec_exit_code(*report),
    {
        match self {
            FailOn::Breaking => report.verdict().exit_code(),
            FailOn::ApiBreaking => {
                if report.error_crate_count > 0 {
                    EXIT_ANALYSIS
                } else if report.removed_total > 0 || report.changed_total > 0
                    || report.pubdep_break_total > 0 {
                    EXIT_BREAKING
                } else {
                    EXIT_OK
                }
            },
            FailOn::Error => {
                if report.error_crate_count > 0 {
                    EXIT_ANALYSIS
                } else {
                    EXIT_OK
                }
            },
            FailOn::Never => EXIT_OK,
        }
    }
}

/// Command-line options.
#[derive(Clone, Debug)]
pub struct Options {
    pub with_lock: bool,
    pub with_values: bool,
    pub json_mode: bool,
    pub changelog_mode: bool,
    pub group_mode: GroupMode,
    pub fail_on: FailOn,
    /// Path the JSON report is written to, besides the selected stdout output.
    pub report_path: Option<String>,
    /// Path the changelog draft is written to, besides the selected stdout output.
    pub changelog_path: Option<String>,
}

/// The two ends of the comparison, fully resolved.
#[derive(Clone, Debug)]
pub struct Refs {
    /// Baseline ref as resolved (may be a merge-base SHA).
    pub baseline: String,
    /// Display label, e.g. `merge-base(main, HEAD)`.
    pub baseline_label: String,
    pub baseline_sha: String,
    pub baseline_short: String,
    /// Head ref; a synthesized snapshot commit when the working tree is dirty.
    pub head_ref: String,
    /// Display label, e.g. `working tree`.
    pub head_label: String,
    pub head_sha: String,
    pub head_short: String,
    pub head_is_worktree_snapshot: bool,
}

impl Refs {
    /// A rustdoc JSON result for a ref may be cached unless it is the working-tree snapshot,
    /// which is not content-addressed by its SHA in any stable way.
    pub fn api_json_cacheable(&self, ref_sha: &str) -> (r: bool)
        ensures
            r == (!self.head_is_worktree_snapshot || ref_sha@ != self.head_sha@),
    {
        !self.head_is_worktree_snapshot || !str_eq(ref_sha, self.head_sha.as_str())
    }
}

/// Strongest dependency kind a crate is used with across the workspace.
#[derive(Clone, Copy, PartialEq, Eq, Structural, Debug)]
pub enum DepKind {
    Runtime,
    Build,
    Dev,
    Unused,
}

impl DepKind {
    /// Rank for "strongest kind wins" comparisons.
    pub open spec fn spec_rank(self) -> u8 {
        match self {
            DepKind::Runtime => 3,
            DepKind::Build => 2,
            DepKind::Dev => 1,
            DepKind::Unused => 0,
        }
    }

    /// Rank for "strongest kind wins" comparisons.
    pub fn rank(self) -> (r: u8)
        ensures
            r == self.spec_rank(),
    {
        match self {
            DepKind::Runtime => 3,
            DepKind::Build => 2,
            DepKind::Dev => 1,
            DepKind::Unused => 0,
        }
    }

    /// The kind's name.
    pub open spec fn spec_str(self) -> Seq<char> {
        match self {
            DepKind::Runtime => "runtime"@,
            DepKind::Build => "build"@,
            DepKind::Dev => "dev"@,
            DepKind::Unused => "unused"@,
        }
    }

    /// The kind's name.
    pub fn as_str(self) -> (r: &'static str)
        ensures
            r@ == self.spec_str(),
    {
        match self {
            DepKind::Runtime => "runtime",
            DepKind::Build => "build",
            DepKind::Dev => "dev",
            DepKind::Unused => "unused",
        }
    }
}

/// A kind label including optionality: `runtime-opt` for an optional runtime dependency.
pub open spec fn spec_kind_label(kind: DepKind, optional: bool) -> Seq<char> {
    if optional && kind == DepKind::Runtime {
        "runtime-opt"@
    } else {
        kind.spec_str()
    }
}

/// A kind label including optionality: `runtime-opt` for an optional runtime dependency.
pub fn kind_label(kind: DepKind, optional: bool) -> (r: String)
    ensures
        r@ == spec_kind_label(kind, optional),
{
    if optional && kind == DepKind::Runtime {
        let v = chars_of("runtime-opt");
        string_of(&v)
    } else {
        let v = chars_of(kind.as_str());
        string_of(&v)
    }
}

/// Rank of a rendered kind label, so old and new labels compare directly.
pub open spec fn spec_label_rank(label: Seq<char>) -> u8 {
    if label == "runtime"@ || label == "runtime-opt"@ {
        3
    } else if label == "build"@ {
        2
    } else if label == "dev"@ {
        1
    } else {
        0
    }
}

/// Rank of a rendered kind label, so old and new labels compare directly.
pub fn label_rank(label: &str) -> (r: u8)
    ensures
        r == spec_label_rank(label@),
{
    if str_eq(label, "runtime") || str_eq(label, "runtime-opt") {
        3
    } else if str_eq(label, "build") {
        2
    } else if str_eq(label, "dev") {
        1
    } else {
        0
    }
}

/// One workspace dependency at one ref, keyed elsewhere by its display name (the Cargo
/// rename if any, formatted `foo (pkg: bar)`).
#[derive(Clone, Debug, PartialEq, Eq)]
pub struct DepRecord {
    /// Version requirement from Cargo.toml, leading `^` stripped.
    pub ver: String,
    pub kind: DepKind,
    /// True when every max-kind usage is optional.
    pub optional: bool,
    /// True when any usage enables default features.
    pub default_features: bool,
    /// Sorted union of explicitly enabled features.
    pub features: Vec<String>,
}

/// The view of a list of strings.
pub open spec fn strings_view(v: Seq<String>) -> Seq<Seq<char>> {
    v.map_values(|s: String| s@)
}

impl DepRecord {
    /// Two records are the same when every field is.
    pub open spec fn same(self, other: DepRecord) -> bool {
        &&& self.ver@ == other.ver@
        &&& self.kind == other.kind
        &&& self.optional == other.optional
        &&& self.default_features == other.default_features
        &&& strings_view(self.features@) == strings_view(other.features@)
    }

    /// Field-wise equality.
    pub fn equals(&self, other: &DepRecord) -> (r: bool)
        ensures
            r == self.same(*other),
    {
        if !str_eq(self.ver.as_str(), other.ver.as_str()) || self.kind != other.kind
            || self.optional != other.optional || self.default_features
            != other.default_features {
            return false;
        }
        strings_eq(&self.features, &other.features)
    }
}

/// Element-wise equality of two string lists.
pub fn strings_eq(a: &Vec<String>, b: &Vec<String>) -> (r: bool)
    ensures
        r == (strings_view(a@) == strings_view(b@)),
{
    if a.len() != b.len() {
        assert(strings_view(a@).len() != strings_view(b@).len());
        return false;
    }
    let mut i: usize = 0;
    while i < a.len()
        invariant
            a.len() == b.len(),
            i <= a.len(),
            forall|j: int| 0 <= j < i ==> a@[j]@ == b@[j]@,
        decreases a.len() - i,
    {
        if !str_eq(a[i].as_str(), b[i].as_str()) {
            assert(strings_view(a@)[i as int] != strings_view(b@)[i as int]);
            return false;
        }
        i += 1;
    }
    assert(strings_view(a@) =~= strings_view(b@));
    true
}

/// Semver-compatibility class of a requirement change, under Cargo's caret rules.
#[derive(Clone, Copy, PartialEq, Eq, Structural, Debug)]
pub enum Bump {
    Major,
    Minor,
    Patch,
    /// The requirement changed without moving the version it starts at, so the text alone
    /// cannot say whether a consumer is affected.
    Unknown,
}

impl Bump {
    /// The class's name.
    pub open spec fn spec_str(self) -> Seq<char> {
        match self {
            Bump::Major => "major"@,
            Bump::Minor => "minor"@,
            Bump::Patch => "patch"@,
            Bump::Unknown => "unknown"@,
        }
    }

    /// The class's name.
    pub fn as_str(self) -> (r: &'static str)
        ensures
            r@ == self.spec_str(),
    {
        match self {
            Bump::Major => "major",
            Bump::Minor => "minor",
            Bump::Patch => "patch",
            Bump::Unknown => "unknown",
        }
    }
}

/// A workspace dependency present only at the baseline.
#[derive(Clone, Debug)]
pub struct DepRemoved {
    pub name: String,
    pub version: String,
    pub kind: String,
    /// Counted in `DepDiff::breaking`.
    pub breaking: bool,
}

/// A workspace dependency whose record changed.
#[derive(Clone, Debug)]
pub struct DepChanged {
    pub name: String,
    pub old: String,
    pub new: String,
    pub bump: Bump,
    pub kind: String,
    /// Rendered feature delta, e.g. `-default!,+std,-foo` (empty when unchanged).
    pub features: String,
    /// Counted in `DepDiff::breaking`.
    pub breaking: bool,
}

/// A workspace dependency present only at the head.
#[derive(Clone, Debug)]
pub struct DepAdded {
    pub name: String,
    pub version: String,
    pub kind: String,
}

/// Workspace dependency diff plus its breaking count.
#[derive(Clone, Debug, Default)]
pub struct DepDiff {
    pub removed: Vec<DepRemoved>,
    pub changed: Vec<DepChanged>,
    pub added: Vec<DepAdded>,
    /// Only runtime (non-optional) deps that are removed, major-bumped, or lose features.
    pub breaking: usize,
}

/// Scope of a per-crate dependency row.
#[derive(Clone, Copy, PartialEq, Eq, Structural, Debug)]
pub enum Scope {
    /// The dependency is itself a workspace member.
    Internal,
    External,
    /// Pseudo-row carrying the crate's `rust-version`.
    Msrv,
}

/// One (workspace crate, direct runtime or build dependency) pair at a ref.
#[derive(Clone, Debug)]
pub struct PerCrateDep {
    pub crate_name: String,
    /// Display key: the Cargo rename if any, else the real crate name.
    pub dep: String,
    pub req: String,
    pub scope: Scope,
    /// Real package name (rustdoc renders foreign paths by this).
    pub pkg: String,
}

/// Transitive (Cargo.lock) diff.
#[derive(Clone, Debug, Default)]
pub struct LockDiff {
    /// `(name, versions)`, versions comma-joined when a crate is locked at several.
    pub removed: Vec<(String, String)>,
    /// `(name, old versions, new versions)`.
    pub changed: Vec<(String, String, String)>,
    pub added: Vec<(String, String)>,
    /// Reverse attribution: transitive crate and the direct deps pulling it in, already
    /// truncated to three with `...(+N)`; each crate once.
    pub via: Vec<(String, String)>,
}

/// Outcome of one crate's analysis.
#[derive(Clone, Copy, PartialEq, Eq, Structural, Debug)]
pub enum CrateStatus {
    /// The diff completed.
    Clean,
    Error,
}

impl CrateStatus {
    /// The status's name in the machine-readable report.
    pub open spec fn spec_str(self) -> Seq<char> {
        match self {
            CrateStatus::Clean => "ok"@,
            CrateStatus::Error => "error"@,
        }
    }

    /// The status's name in the machine-readable report.
    pub fn as_str(self) -> (r: &'static str)
        ensures
            r@ == self.spec_str(),
    {
        match self {
            CrateStatus::Clean => "ok",
            CrateStatus::Error => "error",
        }
    }
}

/// Stage at which per-crate analysis failed.
#[derive(Clone, Copy, PartialEq, Eq, Structural, Debug)]
pub enum ErrorStage {
    BaselineBuild,
    HeadBuild,
    Diff,
}

impl ErrorStage {
    /// The stage's name.
    pub open spec fn spec_str(self) -> Seq<char> {
        match self {
            ErrorStage::BaselineBuild => "baseline_build"@,
            ErrorStage::HeadBuild => "head_build"@,
            ErrorStage::Diff => "diff"@,
        }
    }

    /// The stage's name.
    pub fn as_str(self) -> (r: &'static str)
        ensures
            r@ == self.spec_str(),
    {
        match self {
            ErrorStage::BaselineBuild => "baseline_build",
            ErrorStage::HeadBuild => "head_build",
            ErrorStage::Diff => "diff",
        }
    }
}

/// A per-crate analysis failure, as surfaced in the human report and in `--json`.
#[derive(Clone, Debug)]
pub struct ApiError {
    pub stage: ErrorStage,
    /// Ref label, or `base..head` for the diff stage.
    pub ref_label: String,
    pub ref_sha: String,
    pub command: String,
    /// Last 80 lines of stderr.
    pub stderr: String,
    pub hint: String,
}

/// A dependency that both changed incompatibly (or unclearly) and is reachable in the
/// crate's public API.
#[derive(Clone, Debug)]
pub struct PubdepFinding {
    pub dep: String,
    pub old: String,
    pub new: String,
}

/// Everything known about one workspace crate after the API diff.
#[derive(Clone, Debug)]
pub struct CrateResult {
    pub name: String,
    pub removed: usize,
    pub changed: usize,
    pub added: usize,
    /// Bare signature lines.
    pub removed_lines: Vec<String>,
    /// Alternating `  - <old>` / `  + <new>` lines.
    pub changed_lines: Vec<String>,
    pub added_lines: Vec<String>,
    pub status: CrateStatus,
    pub error: Option<ApiError>,
    pub pubdep: Vec<PubdepFinding>,
}

/// Every `-` replaced by `_`.
pub open spec fn underscored(s: Seq<char>) -> Seq<char> {
    s.map_values(|c: char| if c == '-' { '_' } else { c })
}

/// Every `-` replaced by `_`.
pub fn underscore(s: &str) -> (r: String)
    ensures
        r@ == underscored(s@),
{
    let cs = chars_of(s);
    let mut out: Vec<char> = Vec::new();
    let mut i: usize = 0;
    while i < cs.len()
        invariant
            i <= cs.len(),
            cs@ == s@,
            out@ == underscored(cs@.take(i as int)),
        decreases cs.len() - i,
    {
        out.push(if cs[i] == '-' { '_' } else { cs[i] });
        assert(underscored(cs@.take(i + 1)) == underscored(cs@.take(i as int)).push(
            if cs@[i as int] == '-' { '_' } else { cs@[i as int] },
        ));
        i += 1;
    }
    assert(cs@.take(cs.len() as int) == cs@);
    string_of(&out)
}

impl CrateResult {
    /// Number of changed items.
    pub open spec fn spec_total(self) -> int {
        self.removed + self.changed + self.added
    }

    /// Number of changed items.
    pub fn total(&self) -> (r: usize)
        requires
            self.spec_total() <= usize::MAX,
        ensures
            r == self.spec_total(),
    {
        self.removed + self.changed + self.added
    }

    /// The crate's lib path prefix, e.g. `zebra-state` becomes `zebra_state`.
    pub fn prefix(&self) -> (r: String)
        ensures
            r@ == underscored(self.name@),
    {
        underscore(self.name.as_str())
    }
}

/// A `pub const` or `pub static` whose evaluated value changed.
#[derive(Clone, Debug)]
pub struct ValueChange {
    pub crate_name: String,
    pub path: String,
    pub ty: String,
    pub old: String,
    pub new: String,
}

/// A public item whose doc text changed.
#[derive(Clone, Debug)]
pub struct DocChange {
    pub crate_name: String,
    pub path: String,
}

/// One record in the grouped item stream consumed by the human renderer.
#[derive(Clone, Debug, PartialEq, Eq)]
pub enum GroupRecord {
    /// Flat `--by-type` header: type path and resolved kind.
    TypeHeader { name: String, kind: String },
    /// Nested-mode module header.
    ModHeader(String),
    /// Nested-mode type sub-header (name relative to its module) and resolved kind.
    TypeSub { name: String, kind: String },
    /// Item directly under a `TypeHeader` or `ModHeader`.
    Item(String),
    /// Item under a `TypeSub` (deeper indent).
    DeepItem(String),
    /// Divider introducing trait impls on external types.
    ExtDivider,
}

/// A grouped record as plain values.
pub enum RecordView {
    TypeHeader(Seq<char>, Seq<char>),
    ModHeader(Seq<char>),
    TypeSub(Seq<char>, Seq<char>),
    Item(Seq<char>),
    DeepItem(Seq<char>),
    ExtDivider,
}

impl View for GroupRecord {
    type V = RecordView;

    open spec fn view(&self) -> RecordView {
        match self {
            GroupRecord::TypeHeader { name, kind } => RecordView::TypeHeader(name@, kind@),
            GroupRecord::ModHeader(m) => RecordView::ModHeader(m@),
            GroupRecord::TypeSub { name, kind } => RecordView::TypeSub(name@, kind@),
            GroupRecord::Item(t) => RecordView::Item(t@),
            GroupRecord::DeepItem(t) => RecordView::DeepItem(t@),
            GroupRecord::ExtDivider => RecordView::ExtDivider,
        }
    }
}

/// The plain values of a record stream.
pub open spec fn records_view(v: Seq<GroupRecord>) -> Seq<RecordView> {
    v.map_values(|r: GroupRecord| r@)
}

/// Appends a record to a stream.
pub fn push_record(out: &mut Vec<GroupRecord>, r: GroupRecord)
    ensures
        records_view(final(out)@) == records_view(old(out)@).push(r@),
{
    let ghost before = out@;
    out.push(r);
    assert(records_view(out@) =~= records_view(before).push(r@));
}

/// Which diff bucket a section renders.
#[derive(Clone, Copy, PartialEq, Eq, Structural, Debug)]
pub enum Section {
    Removed,
    Changed,
    Added,
}

/// Overall verdict.
#[derive(Clone, Copy, PartialEq, Eq, Structural, Debug)]
pub enum Verdict {
    /// Nothing breaking (`ok`).
    Clean,
    Breaking,
    Error,
}

impl Verdict {
    /// The verdict's name.
    pub open spec fn spec_str(self) -> Seq<char> {
        match self {
            Verdict::Clean => "ok"@,
            Verdict::Breaking => "breaking"@,
            Verdict::Error => "error"@,
        }
    }

    /// The verdict's name.
    pub fn as_str(self) -> (r: &'static str)
        ensures
            r@ == self.spec_str(),
    {
        match self {
            Verdict::Clean => "ok",
            Verdict::Breaking => "breaking",
            Verdict::Error => "error",
        }
    }

    /// The exit code of a verdict.
    pub open spec fn spec_exit_code(self) -> i32 {
        match self {
            Verdict::Clean => EXIT_OK,
            Verdict::Breaking => EXIT_BREAKING,
            Verdict::Error => EXIT_ANALYSIS,
        }
    }

    /// The exit code of a verdict.
    pub fn exit_code(self) -> (r: i32)
        ensures
            r == self.spec_exit_code(),
    {
        match self {
            Verdict::Clean => EXIT_OK,
            Verdict::Breaking => EXIT_BREAKING,
            Verdict::Error => EXIT_ANALYSIS,
        }
    }
}

/// Aggregated analysis state, assembled by the program and consumed by the renderers.
#[derive(Clone, Debug)]
pub struct Report {
    pub refs: Refs,
    pub deps: DepDiff,
    pub crates: Vec<CrateResult>,
    pub crate_count: usize,
    pub values: Vec<ValueChange>,
    pub docs: Vec<DocChange>,
    pub removed_total: usize,
    pub changed_total: usize,
    pub added_total: usize,
    pub changed_crate_count: usize,
    pub error_crate_count: usize,
    pub pubdep_break_total: usize,
    pub pubdep_review_total: usize,
}

impl Report {
    /// Removed plus changed API items.
    pub fn api_breaking(&self) -> (r: usize)
        requires
            self.removed_total + self.changed_total <= usize::MAX,
        ensures
            r == self.removed_total + self.changed_total,
    {
        self.removed_total + self.changed_total
    }

    /// Any API, runtime-dependency, value or public-dependency break.
    pub open spec fn spec_any_breaking(self) -> bool {
        self.removed_total + self.changed_total > 0 || self.deps.breaking > 0 || self.values.len()
            > 0 || self.pubdep_break_total > 0
    }

    /// Any API, runtime-dependency, value or public-dependency break.
    pub fn any_breaking(&self) -> (r: bool)
        ensures
            r == self.spec_any_breaking(),
    {
        self.removed_total > 0 || self.changed_total > 0 || self.deps.breaking > 0
            || self.values.len() > 0 || self.pubdep_break_total > 0
    }

    /// An analysis error outranks a break, which outranks a clean result.
    pub open spec fn spec_verdict(self) -> Verdict {
        if self.error_crate_count > 0 {
            Verdict::Error
        } else if self.spec_any_breaking() {
            Verdict::Breaking
        } else {
            Verdict::Clean
        }
    }

    /// An analysis error outranks a break, which outranks a clean result.
    pub fn verdict(&self) -> (r: Verdict)
        ensures
            r == self.spec_verdict(),
    {
        if self.error_crate_count > 0 {
            Verdict::Error
        } else if self.any_breaking() {
            Verdict::Breaking
        } else {
            Verdict::Clean
        }
    }
}

/// The exit code never claims a failure that the report does not hold: under every policy
/// a clean, error-free report exits with `EXIT_OK`, an inconclusive analysis never exits
/// `EXIT_BREAKING`, and `none` always exits `EXIT_OK`.
pub proof fn law_exit_code_policy(report: Report, fail_on: FailOn)
    ensures
        report.spec_verdict() == Verdict::Clean ==> fail_on.spec_exit_code(report) == EXIT_OK,
        report.error_crate_count > 0 ==> fail_on.spec_exit_code(report) != EXIT_BREAKING,
        fail_on == FailOn::Never ==> fail_on.spec_exit_code(report) == EXIT_OK,
        fail_on == FailOn::Breaking ==> fail_on.spec_exit_code(report)
            == report.spec_verdict().spec_exit_code(),
{
}

/// The policies are ordered: whatever fails under `api-breaking` or `error` also fails
/// under `breaking`, with the same code.
pub proof fn law_breaking_is_strictest(report: Report, fail_on: FailOn)
    ensures
        fail_on.spec_exit_code(report) != EXIT_OK ==> FailOn::Breaking.spec_exit_code(report)
            == fail_on.spec_exit_code(report),
{
}

/// The verdict and the default policy's exit code from the report's counts: any error crate
/// makes the verdict `error` (exit 2); otherwise a removed or changed API item, a breaking
/// runtime-dependency change, a changed const/static value or a public-dependency break makes
/// it `breaking` (exit 1); otherwise it is `ok` (exit 0).
pub proof fn law_verdict_from_counts(report: Report)
    ensures
        report.spec_any_breaking() <==> (report.removed_total > 0 || report.changed_total > 0
            || report.deps.breaking > 0 || report.values@.len() > 0 || report.pubdep_break_total > 0),
        report.error_crate_count > 0 ==> report.spec_verdict() == Verdict::Error
            && FailOn::Breaking.spec_exit_code(report) == 2,
        report.error_crate_count == 0 && (report.removed_total > 0 || report.changed_total > 0
            || report.deps.breaking > 0 || report.values@.len() > 0 || report.pubdep_break_total > 0)
            ==> report.spec_verdict() == Verdict::Breaking && report.spec_verdict().spec_str() == "breaking"@
            && FailOn::Breaking.spec_exit_code(report) == 1,
        report.error_crate_count == 0 && report.removed_total == 0 && report.changed_total == 0
            && report.deps.breaking == 0 && report.values@.len() == 0 && report.pubdep_break_total == 0
            ==> report.spec_verdict() == Verdict::Clean && report.spec_verdict().spec_str() == "ok"@
            && FailOn::Breaking.spec_exit_code(report) == 0,
{
}

/// The other policies' exit codes from the report's counts: `api-breaking` fails (exit 1)
/// only on removed or changed API items or public-dependency breaks, not on dependency or
/// value changes; `error` fails (exit 2) only on error crates; `none` never fails; an error
/// crate gives exit 2 under `api-breaking` too.
pub proof fn law_policy_exit_codes(report: Report)
    ensures
        report.error_crate_count > 0 ==> FailOn::ApiBreaking.spec_exit_code(report) == 2
            && FailOn::Error.spec_exit_code(report) == 2,
        report.error_crate_count == 0 ==> FailOn::Error.spec_exit_code(report) == 0,
        report.error_crate_count == 0 ==> (FailOn::ApiBreaking.spec_exit_code(report) == 1 <==> (
        report.removed_total > 0 || report.changed_total > 0 || report.pubdep_break_total > 0)),
        report.error_crate_count == 0 ==> (FailOn::ApiBreaking.spec_exit_code(report) == 0 <==> !(
        report.removed_total > 0 || report.changed_total > 0 || report.pubdep_break_total > 0)),
        FailOn::Never.spec_exit_code(report) == 0,
{
}

} // verus!
