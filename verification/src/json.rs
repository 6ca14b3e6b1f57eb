//! What the machine-readable report derives from a report: the verdict, the totals block
//! and the public-dependency breaks with their class. Every other field of the document is
//! a field of the report as it stands.

use vstd::prelude::*;

use crate::model::{Bump, CrateResult, PubdepFinding, Report};
use crate::text::{chars_of, string_of};
use crate::version_req::{classify_bump, spec_classify_bump};

verus! {

/// The document's `totals` block.
#[derive(Clone, Copy, Debug, PartialEq, Eq, Structural)]
pub struct Totals {
    pub removed: usize,
    pub changed: usize,
    pub added: usize,
    pub api_breaking: usize,
    pub dep_breaking: usize,
    pub error_crates: usize,
    pub value_changed: usize,
    pub doc_changed: usize,
    pub public_dep_breaking: usize,
}

/// One entry of the document's `public_dep_breaks` list.
#[derive(Clone, Debug)]
pub struct PublicDepBreak {
    pub crate_name: String,
    pub dep: String,
    pub old: String,
    pub new: String,
    /// `breaking` for a provably incompatible requirement change, else `review`.
    pub class: &'static str,
}

/// The parts of the document drawn from the report rather than copied from it.
#[derive(Clone, Debug)]
pub struct Derived {
    pub verdict: &'static str,
    pub totals: Totals,
    pub public_dep_breaks: Vec<PublicDepBreak>,
}

/// The class of a public-dependency finding.
pub open spec fn break_class(old: Seq<char>, new: Seq<char>) -> Seq<char> {
    if spec_classify_bump(old, new) == Bump::Major {
        "breaking"@
    } else {
        "review"@
    }
}

/// A break entry as plain values: crate, dependency, old and new requirement, class.
pub type BreakView = (Seq<char>, Seq<char>, Seq<char>, Seq<char>, Seq<char>);

/// The view of a break entry.
pub open spec fn break_view(b: PublicDepBreak) -> BreakView {
    (b.crate_name@, b.dep@, b.old@, b.new@, b.class@)
}

/// The views of break entries.
pub open spec fn break_views(v: Seq<PublicDepBreak>) -> Seq<BreakView> {
    v.map_values(|b: PublicDepBreak| break_view(b))
}

/// The break entries of one crate's findings, in finding order.
pub open spec fn crate_breaks(name: Seq<char>, fs: Seq<PubdepFinding>) -> Seq<BreakView> {
    fs.map_values(|f: PubdepFinding| (name, f.dep@, f.old@, f.new@, break_class(f.old@, f.new@)))
}

/// The break entries of every crate, in crate order.
pub open spec fn all_breaks(cs: Seq<CrateResult>) -> Seq<BreakView>
    decreases cs.len(),
{
    if cs.len() == 0 {
        Seq::empty()
    } else {
        all_breaks(cs.drop_last()) + crate_breaks(cs.last().name@, cs.last().pubdep@)
    }
}

/// The document's totals: the report's counters, with API-breaking items as removed plus
/// changed and the value and doc counts as the lengths of their lists.
pub fn totals(report: &Report) -> (t: Totals)
    requires
        report.removed_total + report.changed_total <= usize::MAX,
    ensures
        t.removed == report.removed_total,
        t.changed == report.changed_total,
        t.added == report.added_total,
        t.api_breaking == report.removed_total + report.changed_total,
        t.dep_breaking == report.deps.breaking,
        t.error_crates == report.error_crate_count,
        t.value_changed == report.values@.len(),
        t.doc_changed == report.docs@.len(),
        t.public_dep_breaking == report.pubdep_break_total,
{
    Totals {
        removed: report.removed_total,
        changed: report.changed_total,
        added: report.added_total,
        api_breaking: report.api_breaking(),
        dep_breaking: report.deps.breaking,
        error_crates: report.error_crate_count,
        value_changed: report.values.len(),
        doc_changed: report.docs.len(),
        public_dep_breaking: report.pubdep_break_total,
    }
}

/// Every public-dependency finding of every crate, in crate and finding order, with its
/// class.
pub fn public_dep_breaks(crates: &Vec<CrateResult>) -> (r: Vec<PublicDepBreak>)
    ensures
        break_views(r@) == all_breaks(crates@),
{
    let mut out: Vec<PublicDepBreak> = Vec::new();
    let mut i: usize = 0;
    assert(break_views(out@) =~= all_breaks(crates@.take(0)));
    while i < crates.len()
        invariant
            i <= crates.len(),
            break_views(out@) == all_breaks(crates@.take(i as int)),
        decreases crates.len() - i,
    {
        assert(crates@.take(i + 1).drop_last() =~= crates@.take(i as int));
        let c = &crates[i];
        let ghost start = break_views(out@);
        let mut j: usize = 0;
        while j < c.pubdep.len()
            invariant
                j <= c.pubdep.len(),
                break_views(out@) == start + crate_breaks(c.name@, c.pubdep@.take(j as int)),
            decreases c.pubdep.len() - j,
        {
            let f = &c.pubdep[j];
            let class: &'static str = if classify_bump(f.old.as_str(), f.new.as_str()) == Bump::Major {
                "breaking"
            } else {
                "review"
            };
            let b = PublicDepBreak {
                crate_name: crate::text::copy_str(c.name.as_str()),
                dep: crate::text::copy_str(f.dep.as_str()),
                old: crate::text::copy_str(f.old.as_str()),
                new: crate::text::copy_str(f.new.as_str()),
                class,
            };
            let ghost before = out@;
            out.push(b);
            assert(break_views(out@) =~= break_views(before).push(break_view(b)));
            assert(c.pubdep@.take(j + 1) =~= c.pubdep@.take(j as int).push(*f));
            assert(crate_breaks(c.name@, c.pubdep@.take(j + 1)) =~= crate_breaks(
                c.name@,
                c.pubdep@.take(j as int),
            ).push(break_view(b)));
            j += 1;
        }
        assert(c.pubdep@.take(c.pubdep.len() as int) =~= c.pubdep@);
        assert(crates@.take(i + 1).last() == *c);
        assert(break_views(out@) =~= all_breaks(crates@.take(i + 1)));
        i += 1;
    }
    assert(crates@.take(crates.len() as int) =~= crates@);
    out
}

/// The derived parts of the document: the verdict's name, the totals and the
/// public-dependency breaks.
pub fn derived(report: &Report) -> (d: Derived)
    requires
        report.removed_total + report.changed_total <= usize::MAX,
    ensures
        d.verdict@ == report.spec_verdict().spec_str(),
        d.totals.removed == report.removed_total,
        d.totals.changed == report.changed_total,
        d.totals.added == report.added_total,
        d.totals.api_breaking == report.removed_total + report.changed_total,
        d.totals.dep_breaking == report.deps.breaking,
        d.totals.error_crates == report.error_crate_count,
        d.totals.value_changed == report.values@.len(),
        d.totals.doc_changed == report.docs@.len(),
        d.totals.public_dep_breaking == report.pubdep_break_total,
        break_views(d.public_dep_breaks@) == all_breaks(report.crates@),
{
    Derived {
        verdict: report.verdict().as_str(),
        totals: totals(report),
        public_dep_breaks: public_dep_breaks(&report.crates),
    }
}

} // verus!
