//! The decisions of one run, apart from the git and cargo work they steer: which refs are
//! compared, which dependency names count as direct, the report's totals, and what follows
//! the summary.

use vstd::prelude::*;

use crate::api::sviews;
use crate::model::{
    Bump, CrateResult, CrateStatus, DepDiff, DepRecord, DocChange, Options, PubdepFinding, Refs,
    Report, ValueChange, Verdict,
};
use crate::style::Style;
use crate::table::table_keys;
use crate::text::{chars_of, contains, find, first_at, occurs_at, push_str_chars, slice_chars, string_of};
use crate::version_req::{classify_bump, spec_classify_bump};

verus! {

/// Where the compared refs come from, before git resolves them.
pub struct RefPlan {
    /// The baseline ref; `None` when it is the parent branch, which git detects.
    pub baseline: Option<String>,
    /// The head ref; empty when the head is the working tree, which is snapshotted.
    pub head_ref: String,
    /// How the head is named in the output.
    pub head_label: String,
    /// Whether the baseline is replaced by its merge-base with the head.
    pub use_merge_base: bool,
}

/// A ref plan as plain values.
pub open spec fn plan_view(p: RefPlan) -> (Option<Seq<char>>, Seq<char>, Seq<char>, bool) {
    (
        match p.baseline {
            Some(b) => Some(b@),
            None => None,
        },
        p.head_ref@,
        p.head_label@,
        p.use_merge_base,
    )
}

/// The ref plan for at most two positional refs and whether the working tree is dirty:
/// two refs are compared as given; one ref is compared, through its merge-base, with the
/// working tree when dirty and with `HEAD` otherwise; with none, a dirty tree is compared
/// with `HEAD` and a clean one with the parent branch through its merge-base.
pub open spec fn spec_ref_plan(pos: Seq<Seq<char>>, dirty: bool) -> (Option<Seq<char>>, Seq<char>, Seq<char>, bool) {
    if pos.len() == 2 {
        (Some(pos[0]), pos[1], pos[1], false)
    } else if pos.len() == 1 && dirty {
        (Some(pos[0]), Seq::empty(), "working tree"@, true)
    } else if pos.len() == 1 {
        (Some(pos[0]), "HEAD"@, "HEAD"@, true)
    } else if dirty {
        (Some("HEAD"@), Seq::empty(), "working tree"@, false)
    } else {
        (None, "HEAD"@, "HEAD"@, true)
    }
}

/// What the plan does with the refs given: a given baseline ref is always the baseline;
/// with two refs the second is the head, by its own name, compared directly; with fewer, the
/// head is the working tree when it is dirty and `HEAD` otherwise; one ref is always
/// compared through its merge-base with the head; with none, a dirty tree is compared with
/// `HEAD` directly and a clean one with the parent branch (left for git to find) through
/// its merge-base.
pub proof fn law_ref_plan(pos: Seq<Seq<char>>, dirty: bool)
    requires
        pos.len() <= 2,
    ensures
        ({
            let (base, head, label, merge) = spec_ref_plan(pos, dirty);
            &&& pos.len() >= 1 ==> base == Some(pos[0])
            &&& pos.len() == 2 ==> head == pos[1] && label == pos[1] && !merge
            &&& pos.len() < 2 && dirty ==> head.len() == 0 && label == "working tree"@
            &&& pos.len() < 2 && !dirty ==> head == "HEAD"@ && label == "HEAD"@
            &&& pos.len() == 1 ==> merge
            &&& pos.len() == 0 && dirty ==> base == Some("HEAD"@) && !merge
            &&& pos.len() == 0 && !dirty ==> base is None && merge
        }),
{
}

fn empty_string() -> (r: String)
    ensures
        r@ == Seq::<char>::empty(),
{
    let e: Vec<char> = Vec::new();
    string_of(&e)
}

/// Plans which refs are compared from the positional arguments (at most two, as the
/// command line allows) and whether the working tree is dirty.
pub fn ref_plan(positional: &Vec<String>, dirty: bool) -> (r: RefPlan)
    requires
        positional.len() <= 2,
    ensures
        plan_view(r) == spec_ref_plan(sviews(positional@), dirty),
{
    let ghost pos = sviews(positional@);
    if positional.len() == 2 {
        assert(pos[0] == positional@[0]@ && pos[1] == positional@[1]@);
        RefPlan {
            baseline: Some(crate::text::copy_str(positional[0].as_str())),
            head_ref: crate::text::copy_str(positional[1].as_str()),
            head_label: crate::text::copy_str(positional[1].as_str()),
            use_merge_base: false,
        }
    } else if positional.len() == 1 {
        assert(pos[0] == positional@[0]@);
        if dirty {
            RefPlan {
                baseline: Some(crate::text::copy_str(positional[0].as_str())),
                head_ref: empty_string(),
                head_label: crate::text::copy_str("working tree"),
                use_merge_base: true,
            }
        } else {
            RefPlan {
                baseline: Some(crate::text::copy_str(positional[0].as_str())),
                head_ref: crate::text::copy_str("HEAD"),
                head_label: crate::text::copy_str("HEAD"),
                use_merge_base: true,
            }
        }
    } else if dirty {
        RefPlan {
            baseline: Some(crate::text::copy_str("HEAD")),
            head_ref: empty_string(),
            head_label: crate::text::copy_str("working tree"),
            use_merge_base: false,
        }
    } else {
        RefPlan { baseline: None, head_ref: crate::text::copy_str("HEAD"), head_label: crate::text::copy_str("HEAD"), use_merge_base: true }
    }
}

/// The baseline's label once it is replaced by a merge-base.
pub open spec fn spec_merge_base_label(baseline_label: Seq<char>, head_label: Seq<char>) -> Seq<char> {
    "merge-base("@ + baseline_label + ", "@ + head_label + ")"@
}

/// The baseline's label once it is replaced by a merge-base, e.g. `merge-base(main, HEAD)`.
pub fn merge_base_label(baseline_label: &str, head_label: &str) -> (r: String)
    ensures
        r@ == spec_merge_base_label(baseline_label@, head_label@),
{
    let mut l = chars_of("merge-base(");
    push_str_chars(&mut l, baseline_label);
    push_str_chars(&mut l, ", ");
    push_str_chars(&mut l, head_label);
    push_str_chars(&mut l, ")");
    string_of(&l)
}

/// The ref the merge-base is taken with: `HEAD` while the working tree stands for the head.
pub fn merge_base_head(head_ref: &str) -> (r: String)
    ensures
        r@ == (if head_ref@.len() == 0 {
            "HEAD"@
        } else {
            head_ref@
        }),
{
    if chars_of(head_ref).len() == 0 {
        crate::text::copy_str("HEAD")
    } else {
        crate::text::copy_str(head_ref)
    }
}

/// `error:` in red, then the message.
pub open spec fn error_line(style: Style, message: Seq<char>) -> Seq<char> {
    style.red@ + "error:"@ + style.reset@ + " "@ + message
}

/// A fatal diagnostic: `error:` in red, then the message.
pub fn error_message(style: &Style, message: &str) -> (r: String)
    ensures
        r@ == error_line(*style, message@),
{
    let mut l = chars_of(style.red);
    push_str_chars(&mut l, "error:");
    push_str_chars(&mut l, style.reset);
    push_str_chars(&mut l, " ");
    push_str_chars(&mut l, message);
    string_of(&l)
}

/// A usage diagnostic: the error line, then the pointer to `--help`.
pub fn usage_message(style: &Style, message: &str) -> (r: String)
    ensures
        r@ == crate::cli::usage_error(*style, message@),
{
    let mut l = chars_of(style.red);
    push_str_chars(&mut l, "error:");
    push_str_chars(&mut l, style.reset);
    push_str_chars(&mut l, " ");
    push_str_chars(&mut l, message);
    push_str_chars(&mut l, " (run with --help for usage)");
    string_of(&l)
}

/// `s` without its trailing `)` characters (`trim_end_matches(')')`).
pub open spec fn strip_close(s: Seq<char>) -> Seq<char>
    decreases s.len(),
{
    if s.len() > 0 && s.last() == ')' {
        strip_close(s.drop_last())
    } else {
        s
    }
}

/// The package a renamed dependency key `alias (pkg: real)` stands for.
pub open spec fn pkg_real(name: Seq<char>) -> Option<Seq<char>> {
    if contains(name, " (pkg: "@) {
        let i = choose|i: int| first_at(name, " (pkg: "@, i);
        Some(strip_close(name.skip(i + 7)))
    } else {
        None
    }
}

/// The names a list of dependency keys makes direct: each key, then the package it
/// renames, if any.
pub open spec fn key_names(keys: Seq<Seq<char>>) -> Seq<Seq<char>>
    decreases keys.len(),
{
    if keys.len() == 0 {
        Seq::empty()
    } else {
        key_names(keys.drop_last()) + seq![keys.last()] + match pkg_real(keys.last()) {
            Some(r) => seq![r],
            None => Seq::empty(),
        }
    }
}

fn strip_close_chars(s: &Vec<char>) -> (r: Vec<char>)
    ensures
        r@ == strip_close(s@),
{
    let mut b: usize = s.len();
    assert(s@.subrange(0, b as int) == s@);
    while b > 0 && s[b - 1] == ')'
        invariant
            b <= s.len(),
            strip_close(s@.subrange(0, b as int)) == strip_close(s@),
        decreases b,
    {
        assert(s@.subrange(0, b as int).drop_last() == s@.subrange(0, b - 1));
        b -= 1;
    }
    slice_chars(s, 0, b)
}

fn real_name(key: &str) -> (r: Option<String>)
    ensures
        match r {
            Some(x) => pkg_real(key@) == Some(x@),
            None => pkg_real(key@) is None,
        },
{
    let k = chars_of(key);
    let pat = chars_of(" (pkg: ");
    proof {
        reveal_strlit(" (pkg: ");
    }
    assert(pat@.len() == 7);
    match find(&k, &pat) {
        Some(i) => {
            assert(first_at(k@, pat@, i as int));
            assert(i + 7 <= k.len());
            let ghost j = choose|j: int| first_at(key@, " (pkg: "@, j);
            assert(occurs_at(key@, " (pkg: "@, i as int));
            assert(j == i) by {
                if j < i {
                    assert(!occurs_at(key@, " (pkg: "@, j));
                } else if i < j {
                    assert(!occurs_at(key@, " (pkg: "@, i as int));
                }
            }
            let rest = slice_chars(&k, i + 7, k.len());
            assert(rest@ == key@.skip(i + 7));
            Some(string_of(&strip_close_chars(&rest)))
        },
        None => None,
    }
}

fn push_string(out: &mut Vec<String>, s: String)
    ensures
        sviews(final(out)@) == sviews(old(out)@).push(s@),
{
    let ghost before = out@;
    out.push(s);
    assert(sviews(out@) =~= sviews(before).push(s@));
}

fn add_key_names<V>(out: &mut Vec<String>, keys: &Vec<(String, V)>)
    ensures
        sviews(final(out)@) == sviews(old(out)@) + key_names(table_keys(keys@)),
{
    let ghost ks = table_keys(keys@);
    let ghost start = sviews(out@);
    let mut i: usize = 0;
    assert(ks.take(0) =~= Seq::<Seq<char>>::empty());
    assert(start + key_names(ks.take(0)) =~= start);
    while i < keys.len()
        invariant
            i <= keys.len(),
            ks == table_keys(keys@),
            sviews(out@) == start + key_names(ks.take(i as int)),
        decreases keys.len() - i,
    {
        assert(ks.take(i + 1).drop_last() =~= ks.take(i as int));
        assert(ks.take(i + 1).last() == keys@[i as int].0@);
        let ghost before = sviews(out@);
        let key = &keys[i].0;
        push_string(out, crate::text::copy_str(key.as_str()));
        match real_name(key.as_str()) {
            Some(r) => {
                push_string(out, r);
            },
            None => {},
        }
        assert(sviews(out@) =~= start + key_names(ks.take(i + 1)));
        i += 1;
    }
    assert(ks.take(keys.len() as int) =~= ks);
}

/// The names the transitive diff treats as direct: every workspace dependency key at
/// either ref with the package it renames, then every workspace crate.
pub fn direct_names(
    base: &Vec<(String, DepRecord)>,
    head: &Vec<(String, DepRecord)>,
    crates: &Vec<String>,
) -> (r: Vec<String>)
    ensures
        sviews(r@) == key_names(table_keys(base@)) + key_names(table_keys(head@)) + sviews(crates@),
{
    let mut out: Vec<String> = Vec::new();
    assert(sviews(out@) =~= Seq::<Seq<char>>::empty());
    add_key_names(&mut out, base);
    add_key_names(&mut out, head);
    let ghost mid = sviews(out@);
    let mut i: usize = 0;
    while i < crates.len()
        invariant
            i <= crates.len(),
            sviews(out@) == mid + sviews(crates@).take(i as int),
        decreases crates.len() - i,
    {
        push_string(&mut out, crate::text::copy_str(crates[i].as_str()));
        assert(sviews(crates@).take(i + 1) =~= sviews(crates@).take(i as int).push(crates@[i as int]@));
        i += 1;
    }
    assert(sviews(crates@).take(crates.len() as int) =~= sviews(crates@));
    out
}

/// The sum of `f` over the crates.
pub open spec fn sum_of(cs: Seq<CrateResult>, f: spec_fn(CrateResult) -> nat) -> nat
    decreases cs.len(),
{
    if cs.len() == 0 {
        0
    } else {
        sum_of(cs.drop_last(), f) + f(cs.last())
    }
}

proof fn lemma_sum_prefix(cs: Seq<CrateResult>, f: spec_fn(CrateResult) -> nat, i: int)
    requires
        0 <= i <= cs.len(),
    ensures
        sum_of(cs.take(i), f) <= sum_of(cs, f),
    decreases cs.len(),
{
    if i < cs.len() {
        assert(cs.drop_last().take(i) =~= cs.take(i));
        lemma_sum_prefix(cs.drop_last(), f, i);
    } else {
        assert(cs.take(i) =~= cs);
    }
}

/// A crate's removed items.
pub open spec fn removed_of(c: CrateResult) -> nat {
    c.removed as nat
}

/// A crate's changed items.
pub open spec fn changed_of(c: CrateResult) -> nat {
    c.changed as nat
}

/// A crate's added items.
pub open spec fn added_of(c: CrateResult) -> nat {
    c.added as nat
}

/// One for a crate with any API change.
pub open spec fn changed_crate(c: CrateResult) -> nat {
    if c.spec_total() > 0 {
        1
    } else {
        0
    }
}

/// One for a crate whose analysis failed.
pub open spec fn error_crate(c: CrateResult) -> nat {
    if c.status == CrateStatus::Error {
        1
    } else {
        0
    }
}

/// How many findings have a provably incompatible (major) requirement change.
pub open spec fn major_findings(fs: Seq<PubdepFinding>) -> nat
    decreases fs.len(),
{
    if fs.len() == 0 {
        0
    } else {
        major_findings(fs.drop_last()) + if spec_classify_bump(fs.last().old@, fs.last().new@) == Bump::Major {
            1nat
        } else {
            0nat
        }
    }
}

/// A crate's public-dependency breaks.
pub open spec fn breaks_of(c: CrateResult) -> nat {
    major_findings(c.pubdep@)
}

/// A crate's public-dependency review items: the findings that are not breaks.
pub open spec fn reviews_of(c: CrateResult) -> nat {
    (c.pubdep@.len() - major_findings(c.pubdep@)) as nat
}

proof fn lemma_major_le(fs: Seq<PubdepFinding>)
    ensures
        major_findings(fs) <= fs.len(),
    decreases fs.len(),
{
    if fs.len() > 0 {
        lemma_major_le(fs.drop_last());
    }
}

fn count_major(fs: &Vec<PubdepFinding>) -> (r: usize)
    ensures
        r == major_findings(fs@),
        r <= fs.len(),
{
    let mut n: usize = 0;
    let mut j: usize = 0;
    while j < fs.len()
        invariant
            j <= fs.len(),
            n == major_findings(fs@.take(j as int)),
            n <= j,
        decreases fs.len() - j,
    {
        assert(fs@.take(j + 1).drop_last() =~= fs@.take(j as int));
        if classify_bump(fs[j].old.as_str(), fs[j].new.as_str()) == Bump::Major {
            n += 1;
        }
        j += 1;
    }
    assert(fs@.take(fs.len() as int) =~= fs@);
    n
}

/// The totals of a report drawn from its crates, with the fields it is built from.
pub open spec fn is_report(
    r: Report,
    refs: Refs,
    deps: DepDiff,
    crates: Seq<CrateResult>,
    crate_count: usize,
    values: Seq<ValueChange>,
    docs: Seq<DocChange>,
) -> bool {
    &&& r.refs == refs
    &&& r.deps == deps
    &&& r.crates@ == crates
    &&& r.crate_count == crate_count
    &&& r.values@ == values
    &&& r.docs@ == docs
    &&& r.removed_total == sum_of(crates, |c: CrateResult| removed_of(c))
    &&& r.changed_total == sum_of(crates, |c: CrateResult| changed_of(c))
    &&& r.added_total == sum_of(crates, |c: CrateResult| added_of(c))
    &&& r.changed_crate_count == sum_of(crates, |c: CrateResult| changed_crate(c))
    &&& r.error_crate_count == sum_of(crates, |c: CrateResult| error_crate(c))
    &&& r.pubdep_break_total == sum_of(crates, |c: CrateResult| breaks_of(c))
    &&& r.pubdep_review_total == sum_of(crates, |c: CrateResult| reviews_of(c))
}

/// Builds the report: the removed, changed and added totals, how many crates changed and
/// how many failed, and the public-dependency findings split into breaks (a provably
/// incompatible requirement change) and review items (every other one). The totals must
/// fit in `usize`.
pub fn build_report(
    refs: Refs,
    deps: DepDiff,
    crates: Vec<CrateResult>,
    crate_count: usize,
    values: Vec<ValueChange>,
    docs: Vec<DocChange>,
) -> (r: Report)
    requires
        sum_of(crates@, |c: CrateResult| removed_of(c)) <= usize::MAX,
        sum_of(crates@, |c: CrateResult| changed_of(c)) <= usize::MAX,
        sum_of(crates@, |c: CrateResult| added_of(c)) <= usize::MAX,
        sum_of(crates@, |c: CrateResult| breaks_of(c)) <= usize::MAX,
        sum_of(crates@, |c: CrateResult| reviews_of(c)) <= usize::MAX,
        forall|k: int| 0 <= k < crates@.len() ==> #[trigger] crates@[k].spec_total() <= usize::MAX,
    ensures
        is_report(r, refs, deps, crates@, crate_count, values@, docs@),
{
    let ghost cs = crates@;
    let mut removed: usize = 0;
    let mut changed: usize = 0;
    let mut added: usize = 0;
    let mut changed_crates: usize = 0;
    let mut error_crates: usize = 0;
    let mut breaks: usize = 0;
    let mut reviews: usize = 0;
    let mut i: usize = 0;
    while i < crates.len()
        invariant
            i <= crates.len(),
            cs == crates@,
            sum_of(cs, |c: CrateResult| removed_of(c)) <= usize::MAX,
            sum_of(cs, |c: CrateResult| changed_of(c)) <= usize::MAX,
            sum_of(cs, |c: CrateResult| added_of(c)) <= usize::MAX,
            sum_of(cs, |c: CrateResult| breaks_of(c)) <= usize::MAX,
            sum_of(cs, |c: CrateResult| reviews_of(c)) <= usize::MAX,
            forall|k: int| 0 <= k < cs.len() ==> #[trigger] cs[k].spec_total() <= usize::MAX,
            removed == sum_of(cs.take(i as int), |c: CrateResult| removed_of(c)),
            changed == sum_of(cs.take(i as int), |c: CrateResult| changed_of(c)),
            added == sum_of(cs.take(i as int), |c: CrateResult| added_of(c)),
            changed_crates == sum_of(cs.take(i as int), |c: CrateResult| changed_crate(c)),
            error_crates == sum_of(cs.take(i as int), |c: CrateResult| error_crate(c)),
            breaks == sum_of(cs.take(i as int), |c: CrateResult| breaks_of(c)),
            reviews == sum_of(cs.take(i as int), |c: CrateResult| reviews_of(c)),
            changed_crates <= i,
            error_crates <= i,
        decreases crates.len() - i,
    {
        let ghost next = cs.take(i + 1);
        assert(next.drop_last() =~= cs.take(i as int));
        assert(next.last() == cs[i as int]);
        proof {
            lemma_sum_prefix(cs, |c: CrateResult| removed_of(c), i + 1);
            lemma_sum_prefix(cs, |c: CrateResult| changed_of(c), i + 1);
            lemma_sum_prefix(cs, |c: CrateResult| added_of(c), i + 1);
            lemma_sum_prefix(cs, |c: CrateResult| breaks_of(c), i + 1);
            lemma_sum_prefix(cs, |c: CrateResult| reviews_of(c), i + 1);
        }
        let c = &crates[i];
        assert(sum_of(next, |c: CrateResult| removed_of(c)) == sum_of(cs.take(i as int), |c: CrateResult| removed_of(c)) + c.removed);
        assert(sum_of(next, |c: CrateResult| changed_of(c)) == sum_of(cs.take(i as int), |c: CrateResult| changed_of(c)) + c.changed);
        assert(sum_of(next, |c: CrateResult| added_of(c)) == sum_of(cs.take(i as int), |c: CrateResult| added_of(c)) + c.added);
        assert(sum_of(next, |c: CrateResult| changed_crate(c)) == sum_of(cs.take(i as int), |c: CrateResult| changed_crate(c)) + changed_crate(*c));
        assert(sum_of(next, |c: CrateResult| error_crate(c)) == sum_of(cs.take(i as int), |c: CrateResult| error_crate(c)) + error_crate(*c));
        assert(sum_of(next, |c: CrateResult| breaks_of(c)) == sum_of(cs.take(i as int), |c: CrateResult| breaks_of(c)) + breaks_of(*c));
        assert(sum_of(next, |c: CrateResult| reviews_of(c)) == sum_of(cs.take(i as int), |c: CrateResult| reviews_of(c)) + reviews_of(*c));
        removed = removed + c.removed;
        changed = changed + c.changed;
        added = added + c.added;
        if c.total() > 0 {
            changed_crates = changed_crates + 1;
        }
        if c.status == CrateStatus::Error {
            error_crates = error_crates + 1;
        }
        let major = count_major(&c.pubdep);
        breaks = breaks + major;
        reviews = reviews + (c.pubdep.len() - major);
        i += 1;
    }
    assert(cs.take(crates.len() as int) =~= cs);
    Report {
        refs,
        deps,
        crates,
        crate_count,
        values,
        docs,
        removed_total: removed,
        changed_total: changed,
        added_total: added,
        changed_crate_count: changed_crates,
        error_crate_count: error_crates,
        pubdep_break_total: breaks,
        pubdep_review_total: reviews,
    }
}

/// Nothing to report: no API item, value or doc change, no failed crate and no
/// public-dependency finding.
pub open spec fn spec_nothing_changed(r: Report) -> bool {
    r.removed_total + r.changed_total + r.added_total + r.values@.len() + r.docs@.len() == 0
        && r.error_crate_count == 0 && r.pubdep_break_total == 0 && r.pubdep_review_total == 0
}

/// Whether the run has nothing to report beyond the dependency section.
pub fn nothing_changed(r: &Report) -> (b: bool)
    ensures
        b == spec_nothing_changed(*r),
{
    r.removed_total == 0 && r.changed_total == 0 && r.added_total == 0 && r.values.len() == 0
        && r.docs.len() == 0 && r.error_crate_count == 0 && r.pubdep_break_total == 0
        && r.pubdep_review_total == 0
}

/// What the run prints after the summary.
#[derive(Clone, Copy, PartialEq, Eq, Structural, Debug)]
pub enum Finish {
    /// `No public API changes.`, and the dependency verdict if a dependency breaks.
    NoChanges,
    /// The changelog mode with a failed crate: the analysis errors instead of a draft.
    ChangelogErrors,
    /// The changelog draft.
    Changelog,
    /// The JSON report.
    Json,
    /// The detailed diffs, then the analysis errors.
    DetailsThenErrors,
    /// The detailed diffs, then the verdict.
    DetailsThenVerdict,
}

/// What follows the summary: in the terminal mode a run with nothing to report says so;
/// the changelog mode drafts a changelog unless a crate failed; the JSON mode prints the
/// report; otherwise the details come, then the errors if a crate failed, else the verdict.
pub open spec fn spec_finish(opts: Options, r: Report) -> Finish {
    let document_mode = opts.json_mode || opts.changelog_mode;
    if spec_nothing_changed(r) && !document_mode {
        Finish::NoChanges
    } else if opts.changelog_mode {
        if r.error_crate_count > 0 {
            Finish::ChangelogErrors
        } else {
            Finish::Changelog
        }
    } else if opts.json_mode {
        Finish::Json
    } else if r.error_crate_count > 0 {
        Finish::DetailsThenErrors
    } else {
        Finish::DetailsThenVerdict
    }
}

/// Decides what follows the summary.
pub fn finish(opts: &Options, r: &Report) -> (f: Finish)
    ensures
        f == spec_finish(*opts, *r),
{
    let document_mode = opts.json_mode || opts.changelog_mode;
    if nothing_changed(r) && !document_mode {
        Finish::NoChanges
    } else if opts.changelog_mode {
        if r.error_crate_count > 0 {
            Finish::ChangelogErrors
        } else {
            Finish::Changelog
        }
    } else if opts.json_mode {
        Finish::Json
    } else if r.error_crate_count > 0 {
        Finish::DetailsThenErrors
    } else {
        Finish::DetailsThenVerdict
    }
}

/// Whether the run drafts a changelog: in the changelog mode, or when a changelog file is
/// asked for; never when a crate failed, since a failed analysis yields no draft.
pub open spec fn spec_drafts_changelog(opts: Options, r: Report) -> bool {
    (opts.changelog_mode || opts.changelog_path is Some) && r.error_crate_count == 0
}

/// Decides whether the run drafts a changelog.
pub fn drafts_changelog(opts: &Options, r: &Report) -> (b: bool)
    ensures
        b == spec_drafts_changelog(*opts, *r),
{
    (opts.changelog_mode || opts.changelog_path.is_some()) && r.error_crate_count == 0
}

/// A run with nothing to report still carries the dependency outcome; its report is never
/// an error, and it breaks exactly when a runtime dependency breaks.
pub proof fn law_quiet_run_verdict(r: Report)
    requires
        spec_nothing_changed(r),
    ensures
        r.spec_verdict() != Verdict::Error,
        (r.spec_verdict() == Verdict::Breaking) <==> r.deps.breaking > 0,
{
}

/// A report built from crates that all analyzed cleanly and changed nothing, with no value,
/// doc or public-dependency change, has nothing to report.
pub proof fn law_quiet_crates_make_a_quiet_report(
    r: Report,
    refs: Refs,
    deps: DepDiff,
    crates: Seq<CrateResult>,
    crate_count: usize,
)
    requires
        is_report(r, refs, deps, crates, crate_count, Seq::empty(), Seq::empty()),
        forall|k: int| 0 <= k < crates.len() ==> (#[trigger] crates[k]).spec_total() == 0
            && crates[k].status == CrateStatus::Clean && crates[k].pubdep@.len() == 0,
    ensures
        spec_nothing_changed(r),
{
    lemma_quiet_sums(crates);
}

proof fn lemma_quiet_sums(crates: Seq<CrateResult>)
    requires
        forall|k: int| 0 <= k < crates.len() ==> (#[trigger] crates[k]).spec_total() == 0
            && crates[k].status == CrateStatus::Clean && crates[k].pubdep@.len() == 0,
    ensures
        sum_of(crates, |c: CrateResult| removed_of(c)) == 0,
        sum_of(crates, |c: CrateResult| changed_of(c)) == 0,
        sum_of(crates, |c: CrateResult| added_of(c)) == 0,
        sum_of(crates, |c: CrateResult| error_crate(c)) == 0,
        sum_of(crates, |c: CrateResult| breaks_of(c)) == 0,
        sum_of(crates, |c: CrateResult| reviews_of(c)) == 0,
    decreases crates.len(),
{
    if crates.len() > 0 {
        let init = crates.drop_last();
        assert(forall|k: int| 0 <= k < init.len() ==> (#[trigger] init[k]) == crates[k]);
        lemma_quiet_sums(init);
        let c = crates.last();
        assert(crates[crates.len() - 1] == c);
        assert(c.pubdep@ =~= Seq::<PubdepFinding>::empty());
    }
}

} // verus!
