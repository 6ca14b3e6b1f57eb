//! Reachable public dependencies whose version requirements changed incompatibly.
//!
//! A crate's external dependency is a candidate when its requirement changed by a major
//! bump or in a way that cannot be classified; a candidate is a finding when the crate's full
//! head API names one of its paths.

use vstd::prelude::*;

use crate::api::sviews;
use crate::model::{underscore, underscored, Bump, PerCrateDep, PubdepFinding, Scope};
use crate::pattern::{escape, regex_compiles, regex_escape, regex_is_match, Pattern};
use crate::text::{chars_of, push_str_chars, str_eq, string_of};
use crate::version_req::{classify_bump, spec_classify_bump};

verus! {

/// A (crate, key, value) row as plain values.
pub type Row3 = (Seq<char>, Seq<char>, Seq<char>);

/// The plain values of rows.
pub open spec fn row3s(v: Seq<(String, String, String)>) -> Seq<Row3> {
    v.map_values(|e: (String, String, String)| (e.0@, e.1@, e.2@))
}

/// The value of a crate's key (a later row replaces an earlier one, as a map insert does).
pub open spec fn row_get(rows: Seq<Row3>, c: Seq<char>, k: Seq<char>) -> Option<Seq<char>>
    decreases rows.len(),
{
    if rows.len() == 0 {
        None
    } else if rows.last().0 == c && rows.last().1 == k {
        Some(rows.last().2)
    } else {
        row_get(rows.drop_last(), c, k)
    }
}

/// Per-crate dependency requirements at both refs, head-side package names, and each
/// crate's head external dependencies in order.
pub struct PubdepTables {
    pub base: Vec<(String, String, String)>,
    pub head: Vec<(String, String, String)>,
    pub packages: Vec<(String, String, String)>,
    pub external: Vec<(String, String)>,
}

/// The (crate, dependency, requirement) rows of the dependencies that are not the MSRV row.
pub open spec fn req_rows(rows: Seq<PerCrateDep>) -> Seq<Row3>
    decreases rows.len(),
{
    if rows.len() == 0 {
        Seq::empty()
    } else {
        let r = rows.last();
        req_rows(rows.drop_last()) + if r.scope != Scope::Msrv {
            seq![(r.crate_name@, r.dep@, r.req@)]
        } else {
            Seq::empty()
        }
    }
}

/// The (crate, dependency, package) rows of the dependencies that are not the MSRV row.
pub open spec fn pkg_rows(rows: Seq<PerCrateDep>) -> Seq<Row3>
    decreases rows.len(),
{
    if rows.len() == 0 {
        Seq::empty()
    } else {
        let r = rows.last();
        pkg_rows(rows.drop_last()) + if r.scope != Scope::Msrv {
            seq![(r.crate_name@, r.dep@, r.pkg@)]
        } else {
            Seq::empty()
        }
    }
}

/// The (crate, dependency) pairs of the external dependencies.
pub open spec fn ext_rows(rows: Seq<PerCrateDep>) -> Seq<(Seq<char>, Seq<char>)>
    decreases rows.len(),
{
    if rows.len() == 0 {
        Seq::empty()
    } else {
        let r = rows.last();
        ext_rows(rows.drop_last()) + if r.scope == Scope::External {
            seq![(r.crate_name@, r.dep@)]
        } else {
            Seq::empty()
        }
    }
}

/// The external dependencies of a crate, in head order.
pub open spec fn externals_of(ext: Seq<(Seq<char>, Seq<char>)>, c: Seq<char>) -> Seq<Seq<char>>
    decreases ext.len(),
{
    if ext.len() == 0 {
        Seq::empty()
    } else {
        externals_of(ext.drop_last(), c) + if ext.last().0 == c {
            seq![ext.last().1]
        } else {
            Seq::empty()
        }
    }
}

fn push_row3(v: &mut Vec<(String, String, String)>, a: String, b: String, c: String)
    ensures
        row3s(final(v)@) == row3s(old(v)@).push((a@, b@, c@)),
{
    let ghost before = v@;
    let ghost e = (a@, b@, c@);
    v.push((a, b, c));
    assert(row3s(v@) =~= row3s(before).push(e));
}

fn row_get_exec(rows: &Vec<(String, String, String)>, c: &str, k: &str) -> (r: Option<String>)
    ensures
        match r {
            Some(v) => row_get(row3s(rows@), c@, k@) == Some(v@),
            None => row_get(row3s(rows@), c@, k@) is None,
        },
{
    let ghost rv = row3s(rows@);
    let mut i: usize = rows.len();
    assert(rv.take(i as int) =~= rv);
    while i > 0
        invariant
            i <= rows.len(),
            rv == row3s(rows@),
            row_get(rv, c@, k@) == row_get(rv.take(i as int), c@, k@),
        decreases i,
    {
        assert(rv.take(i as int).last() == rv[i - 1]);
        if str_eq(rows[i - 1].0.as_str(), c) && str_eq(rows[i - 1].1.as_str(), k) {
            return Some(rows[i - 1].2.clone());
        }
        assert(rv.take(i as int).drop_last() =~= rv.take(i - 1));
        i -= 1;
    }
    None
}

impl PubdepTables {
    /// Builds the tables; the MSRV rows are left out.
    pub fn build(base: &Vec<PerCrateDep>, head: &Vec<PerCrateDep>) -> (r: PubdepTables)
        ensures
            row3s(r.base@) == req_rows(base@),
            row3s(r.head@) == req_rows(head@),
            row3s(r.packages@) == pkg_rows(head@),
            crate::group::pviews(r.external@) == ext_rows(head@),
    {
        let mut t = PubdepTables {
            base: Vec::new(),
            head: Vec::new(),
            packages: Vec::new(),
            external: Vec::new(),
        };
        let mut i: usize = 0;
        assert(row3s(t.base@) =~= req_rows(base@.take(0)));
        while i < base.len()
            invariant
                i <= base.len(),
                row3s(t.base@) == req_rows(base@.take(i as int)),
                t.head@.len() == 0,
                t.packages@.len() == 0,
                t.external@.len() == 0,
            decreases base.len() - i,
        {
            assert(base@.take(i + 1).drop_last() =~= base@.take(i as int));
            assert(base@.take(i + 1).last() == base@[i as int]);
            let r = &base[i];
            if r.scope != Scope::Msrv {
                push_row3(&mut t.base, r.crate_name.clone(), r.dep.clone(), r.req.clone());
            } else {
                assert(row3s(t.base@) =~= req_rows(base@.take(i as int)) + Seq::<Row3>::empty());
            }
            i += 1;
        }
        assert(base@.take(base.len() as int) =~= base@);
        let mut j: usize = 0;
        assert(row3s(t.head@) =~= req_rows(head@.take(0)));
        assert(row3s(t.packages@) =~= pkg_rows(head@.take(0)));
        assert(crate::group::pviews(t.external@) =~= ext_rows(head@.take(0)));
        while j < head.len()
            invariant
                j <= head.len(),
                row3s(t.base@) == req_rows(base@),
                row3s(t.head@) == req_rows(head@.take(j as int)),
                row3s(t.packages@) == pkg_rows(head@.take(j as int)),
                crate::group::pviews(t.external@) == ext_rows(head@.take(j as int)),
            decreases head.len() - j,
        {
            assert(head@.take(j + 1).drop_last() =~= head@.take(j as int));
            assert(head@.take(j + 1).last() == head@[j as int]);
            let r = &head[j];
            if r.scope != Scope::Msrv {
                push_row3(&mut t.head, r.crate_name.clone(), r.dep.clone(), r.req.clone());
                push_row3(&mut t.packages, r.crate_name.clone(), r.dep.clone(), r.pkg.clone());
            } else {
                assert(row3s(t.head@) =~= req_rows(head@.take(j as int)) + Seq::<Row3>::empty());
                assert(row3s(t.packages@) =~= pkg_rows(head@.take(j as int)) + Seq::<Row3>::empty());
            }
            if r.scope == Scope::External {
                let ghost before = t.external@;
                t.external.push((r.crate_name.clone(), r.dep.clone()));
                assert(crate::group::pviews(t.external@) =~= crate::group::pviews(before).push(
                    (r.crate_name@, r.dep@),
                ));
            } else {
                assert(crate::group::pviews(t.external@) =~= ext_rows(head@.take(j as int))
                    + Seq::<(Seq<char>, Seq<char>)>::empty());
            }
            j += 1;
        }
        assert(head@.take(head.len() as int) =~= head@);
        t
    }

    /// The requirement of a crate's dependency at the head (`head_side`) or the baseline.
    pub fn req(&self, head_side: bool, crate_name: &str, dep: &str) -> (r: Option<String>)
        ensures
            match r {
                Some(v) => row_get(row3s(if head_side { self.head@ } else { self.base@ }), crate_name@, dep@)
                    == Some(v@),
                None => row_get(row3s(if head_side { self.head@ } else { self.base@ }), crate_name@, dep@)
                    is None,
            },
    {
        if head_side {
            row_get_exec(&self.head, crate_name, dep)
        } else {
            row_get_exec(&self.base, crate_name, dep)
        }
    }

    /// The package a crate's head dependency resolves to.
    pub fn package(&self, crate_name: &str, dep: &str) -> (r: Option<String>)
        ensures
            match r {
                Some(v) => row_get(row3s(self.packages@), crate_name@, dep@) == Some(v@),
                None => row_get(row3s(self.packages@), crate_name@, dep@) is None,
            },
    {
        row_get_exec(&self.packages, crate_name, dep)
    }

    /// A crate's head external dependencies, in order.
    pub fn externals(&self, crate_name: &str) -> (r: Vec<String>)
        ensures
            sviews(r@) == externals_of(crate::group::pviews(self.external@), crate_name@),
    {
        let ghost ev = crate::group::pviews(self.external@);
        let mut out: Vec<String> = Vec::new();
        let mut i: usize = 0;
        assert(sviews(out@) =~= externals_of(ev.take(0), crate_name@));
        while i < self.external.len()
            invariant
                i <= self.external.len(),
                ev == crate::group::pviews(self.external@),
                sviews(out@) == externals_of(ev.take(i as int), crate_name@),
            decreases self.external.len() - i,
        {
            assert(ev.take(i + 1).drop_last() =~= ev.take(i as int));
            assert(ev.take(i + 1).last() == ev[i as int]);
            if str_eq(self.external[i].0.as_str(), crate_name) {
                let ghost before = out@;
                out.push(self.external[i].1.clone());
                assert(sviews(out@) =~= sviews(before).push(ev[i as int].1));
            } else {
                assert(sviews(out@) =~= externals_of(ev.take(i as int), crate_name@) + Seq::<Seq<char>>::empty());
            }
            i += 1;
        }
        assert(ev.take(self.external.len() as int) =~= ev);
        out
    }
}

/// Whether a requirement change is a candidate: both sides known and non-empty, different,
/// and a major bump or unclassifiable.
pub open spec fn is_candidate(old: Seq<char>, new: Seq<char>) -> bool {
    old.len() > 0 && new.len() > 0 && old != new && (spec_classify_bump(old, new) == Bump::Major
        || spec_classify_bump(old, new) == Bump::Unknown)
}

/// The candidate (dependency, old, new) triples of a crate, in head external order.
pub open spec fn candidates_of(
    base: Seq<Row3>,
    head: Seq<Row3>,
    deps: Seq<Seq<char>>,
    c: Seq<char>,
) -> Seq<Row3>
    decreases deps.len(),
{
    if deps.len() == 0 {
        Seq::empty()
    } else {
        let d = deps.last();
        candidates_of(base, head, deps.drop_last(), c) + match (
            row_get(base, c, d),
            row_get(head, c, d),
        ) {
            (Some(old), Some(new)) => if is_candidate(old, new) {
                seq![(d, old, new)]
            } else {
                Seq::empty()
            },
            _ => Seq::empty(),
        }
    }
}

/// The external dependencies of a crate whose requirement changed incompatibly or in a way
/// that cannot be classified, as (dependency, old, new).
pub fn candidates(tables: &PubdepTables, crate_name: &str) -> (r: Vec<(String, String, String)>)
    ensures
        row3s(r@) == candidates_of(
            row3s(tables.base@),
            row3s(tables.head@),
            externals_of(crate::group::pviews(tables.external@), crate_name@),
            crate_name@,
        ),
{
    let deps = tables.externals(crate_name);
    let ghost dv = sviews(deps@);
    let ghost bv = row3s(tables.base@);
    let ghost hv = row3s(tables.head@);
    let mut out: Vec<(String, String, String)> = Vec::new();
    let mut i: usize = 0;
    assert(row3s(out@) =~= candidates_of(bv, hv, dv.take(0), crate_name@));
    while i < deps.len()
        invariant
            i <= deps.len(),
            dv == sviews(deps@),
            bv == row3s(tables.base@),
            hv == row3s(tables.head@),
            row3s(out@) == candidates_of(bv, hv, dv.take(i as int), crate_name@),
        decreases deps.len() - i,
    {
        assert(dv.take(i + 1).drop_last() =~= dv.take(i as int));
        assert(dv.take(i + 1).last() == dv[i as int]);
        let d = deps[i].as_str();
        let old = tables.req(false, crate_name, d);
        let new = tables.req(true, crate_name, d);
        match (old, new) {
            (Some(o), Some(n)) => {
                let oc = chars_of(o.as_str());
                let nc = chars_of(n.as_str());
                let keep = oc.len() > 0 && nc.len() > 0 && !str_eq(o.as_str(), n.as_str()) && match classify_bump(
                    o.as_str(),
                    n.as_str(),
                ) {
                    Bump::Major => true,
                    Bump::Unknown => true,
                    _ => false,
                };
                if keep {
                    push_row3(&mut out, deps[i].clone(), o, n);
                } else {
                    assert(row3s(out@) =~= candidates_of(bv, hv, dv.take(i as int), crate_name@) + Seq::<Row3>::empty());
                }
            },
            _ => {
                assert(row3s(out@) =~= candidates_of(bv, hv, dv.take(i as int), crate_name@) + Seq::<Row3>::empty());
            },
        }
        i += 1;
    }
    assert(dv.take(deps.len() as int) =~= dv);
    out
}

/// The pattern of a path rooted at the dependency or its package, with `-` as `_`.
pub open spec fn reach_pattern(dep: Seq<char>, pkg: Seq<char>) -> Seq<char> {
    "(^|[^A-Za-z0-9_])("@ + regex_escape(underscored(dep)) + "|"@ + regex_escape(underscored(pkg))
        + ")::"@
}

/// Whether an API surface names a path of the dependency (by its key or its package).
pub open spec fn spec_reachable(surface: Seq<char>, dep: Seq<char>, pkg: Seq<char>) -> bool {
    regex_compiles(reach_pattern(dep, pkg)) && regex_is_match(reach_pattern(dep, pkg), surface)
}

/// Whether the API surface names a path rooted at the dependency or its package.
pub fn reachable(surface: &str, dep: &str, pkg: &str) -> (r: bool)
    ensures
        r == spec_reachable(surface@, dep@, pkg@),
{
    let d = underscore(dep);
    let p = underscore(pkg);
    let mut pattern = chars_of("(^|[^A-Za-z0-9_])(");
    push_str_chars(&mut pattern, escape(d.as_str()).as_str());
    push_str_chars(&mut pattern, "|");
    push_str_chars(&mut pattern, escape(p.as_str()).as_str());
    push_str_chars(&mut pattern, ")::");
    let pattern = string_of(&pattern);
    match Pattern::compile(pattern.as_str()) {
        Some(re) => re.is_match(surface),
        None => false,
    }
}

/// The package a candidate is looked for by: its head package if known and non-empty, else
/// the dependency key.
pub open spec fn package_of(packages: Seq<Row3>, c: Seq<char>, d: Seq<char>) -> Seq<char> {
    match row_get(packages, c, d) {
        Some(p) => if p.len() > 0 {
            p
        } else {
            d
        },
        None => d,
    }
}

/// The candidates whose paths the surface names, as findings.
pub open spec fn findings_of(packages: Seq<Row3>, c: Seq<char>, cands: Seq<Row3>, surface: Seq<char>) -> Seq<
    Row3,
>
    decreases cands.len(),
{
    if cands.len() == 0 {
        Seq::empty()
    } else {
        let k = cands.last();
        findings_of(packages, c, cands.drop_last(), surface) + if spec_reachable(
            surface,
            k.0,
            package_of(packages, c, k.0),
        ) {
            seq![k]
        } else {
            Seq::empty()
        }
    }
}

/// The plain values of findings.
pub open spec fn finding_views(v: Seq<PubdepFinding>) -> Seq<Row3> {
    v.map_values(|f: PubdepFinding| (f.dep@, f.old@, f.new@))
}

/// The findings of a crate from its candidates and its full head API surface (the output of
/// `cargo public-api -ss`); none when the surface is empty.
pub fn findings(
    tables: &PubdepTables,
    crate_name: &str,
    candidates: &Vec<(String, String, String)>,
    surface: &str,
) -> (r: Vec<PubdepFinding>)
    ensures
        finding_views(r@) == if surface@.len() == 0 {
            Seq::empty()
        } else {
            findings_of(row3s(tables.packages@), crate_name@, row3s(candidates@), surface@)
        },
{
    let mut out: Vec<PubdepFinding> = Vec::new();
    if chars_of(surface).len() == 0 {
        assert(finding_views(out@) =~= Seq::<Row3>::empty());
        return out;
    }
    let ghost cv = row3s(candidates@);
    let ghost pv = row3s(tables.packages@);
    let mut i: usize = 0;
    assert(finding_views(out@) =~= findings_of(pv, crate_name@, cv.take(0), surface@));
    while i < candidates.len()
        invariant
            i <= candidates.len(),
            cv == row3s(candidates@),
            pv == row3s(tables.packages@),
            finding_views(out@) == findings_of(pv, crate_name@, cv.take(i as int), surface@),
        decreases candidates.len() - i,
    {
        assert(cv.take(i + 1).drop_last() =~= cv.take(i as int));
        assert(cv.take(i + 1).last() == cv[i as int]);
        let dep = candidates[i].0.as_str();
        let pkg = match tables.package(crate_name, dep) {
            Some(p) => if chars_of(p.as_str()).len() > 0 {
                p
            } else {
                candidates[i].0.clone()
            },
            None => candidates[i].0.clone(),
        };
        if reachable(surface, dep, pkg.as_str()) {
            let ghost before = out@;
            out.push(
                PubdepFinding {
                    dep: candidates[i].0.clone(),
                    old: candidates[i].1.clone(),
                    new: candidates[i].2.clone(),
                },
            );
            assert(finding_views(out@) =~= finding_views(before).push(cv[i as int]));
        } else {
            assert(finding_views(out@) =~= findings_of(pv, crate_name@, cv.take(i as int), surface@)
                + Seq::<Row3>::empty());
        }
        i += 1;
    }
    assert(cv.take(candidates.len() as int) =~= cv);
    out
}

/// A crate's public-dependency candidates, per dependency of its head external list whose
/// requirement both refs record: `(dependency, old, new)` is a candidate exactly when both
/// requirements are non-empty and differ and the change is a major bump or cannot be
/// classified (`Unknown`); a minor or patch change never is.
pub proof fn law_candidate_changes(
    base: Seq<Row3>,
    head: Seq<Row3>,
    deps: Seq<Seq<char>>,
    c: Seq<char>,
    d: Seq<char>,
)
    requires
        deps.contains(d),
        row_get(base, c, d) is Some,
        row_get(head, c, d) is Some,
    ensures
        ({
            let old = row_get(base, c, d)->Some_0;
            let new = row_get(head, c, d)->Some_0;
            let bump = spec_classify_bump(old, new);
            candidates_of(base, head, deps, c).contains((d, old, new)) <==> (old.len() > 0 && new.len() > 0
                && old != new && (bump == Bump::Major || bump == Bump::Unknown))
        }),
    decreases deps.len(),
{
    let old = row_get(base, c, d)->Some_0;
    let new = row_get(head, c, d)->Some_0;
    let cs = candidates_of(base, head, deps, c);
    let init = deps.drop_last();
    let prev = candidates_of(base, head, init, c);
    let last = deps.last();
    let tail: Seq<Row3> = match (row_get(base, c, last), row_get(head, c, last)) {
        (Some(o), Some(n)) => if is_candidate(o, n) {
            seq![(last, o, n)]
        } else {
            Seq::empty()
        },
        _ => Seq::empty(),
    };
    assert(cs == prev + tail);
    if init.contains(d) {
        law_candidate_changes(base, head, init, c, d);
    } else {
        assert(last == d) by {
            let i = choose|i: int| 0 <= i < deps.len() && deps[i] == d;
            if i < deps.len() - 1 {
                assert(init[i] == d);
            }
        }
        lemma_candidates_name(base, head, init, c, d);
    }
    assert(cs.contains((d, old, new)) <==> prev.contains((d, old, new)) || tail.contains((d, old, new))) by {
        if cs.contains((d, old, new)) {
            let k = choose|k: int| 0 <= k < cs.len() && cs[k] == (d, old, new);
            if k < prev.len() {
                assert(prev[k] == cs[k]);
            } else {
                assert(tail[k - prev.len()] == cs[k]);
            }
        }
        if prev.contains((d, old, new)) {
            let k = choose|k: int| 0 <= k < prev.len() && prev[k] == (d, old, new);
            assert(cs[k] == prev[k]);
        }
        if tail.contains((d, old, new)) {
            let k = choose|k: int| 0 <= k < tail.len() && tail[k] == (d, old, new);
            assert(cs[k + prev.len()] == tail[k]);
        }
    }
    if last == d {
        if tail.contains((d, old, new)) {
            assert(tail.len() > 0);
        }
        if is_candidate(old, new) {
            assert(tail[0] == (d, old, new));
        }
    } else {
        if tail.contains((d, old, new)) {
            let k = choose|k: int| 0 <= k < tail.len() && tail[k] == (d, old, new);
            assert(tail[k].0 == last);
        }
    }
}

/// A dependency missing from the list has no candidate.
proof fn lemma_candidates_name(base: Seq<Row3>, head: Seq<Row3>, deps: Seq<Seq<char>>, c: Seq<char>, d: Seq<char>)
    requires
        !deps.contains(d),
    ensures
        forall|k: int| 0 <= k < candidates_of(base, head, deps, c).len() ==> (#[trigger] candidates_of(base, head, deps, c)[k]).0 != d,
    decreases deps.len(),
{
    if deps.len() > 0 {
        let init = deps.drop_last();
        assert(!init.contains(d)) by {
            if init.contains(d) {
                let i = choose|i: int| 0 <= i < init.len() && init[i] == d;
                assert(deps[i] == d);
            }
        }
        assert(deps.last() != d) by {
            assert(deps[deps.len() - 1] == deps.last());
        }
        lemma_candidates_name(base, head, init, c, d);
        let cs = candidates_of(base, head, deps, c);
        let prev = candidates_of(base, head, init, c);
        assert forall|k: int| 0 <= k < cs.len() implies (#[trigger] cs[k]).0 != d by {
            if k < prev.len() {
                assert(cs[k] == prev[k]);
            }
        }
    }
}

/// The findings of a crate are its candidates whose dependency the API surface names (by
/// key or package): every finding is such a candidate, and every such candidate is a finding.
pub proof fn law_findings_are_reachable_candidates(
    packages: Seq<Row3>,
    c: Seq<char>,
    cands: Seq<Row3>,
    surface: Seq<char>,
)
    ensures
        forall|k: int| 0 <= k < findings_of(packages, c, cands, surface).len() ==> {
            let f = #[trigger] findings_of(packages, c, cands, surface)[k];
            cands.contains(f) && spec_reachable(surface, f.0, package_of(packages, c, f.0))
        },
        forall|j: int| 0 <= j < cands.len() && spec_reachable(surface, (#[trigger] cands[j]).0, package_of(packages, c, cands[j].0))
            ==> findings_of(packages, c, cands, surface).contains(cands[j]),
    decreases cands.len(),
{
    if cands.len() > 0 {
        let init = cands.drop_last();
        law_findings_are_reachable_candidates(packages, c, init, surface);
        let fs = findings_of(packages, c, cands, surface);
        let prev = findings_of(packages, c, init, surface);
        let last = cands.last();
        let n = cands.len() - 1;
        assert(last == cands[n]);
        assert forall|k: int| 0 <= k < fs.len() implies {
            let f = #[trigger] fs[k];
            cands.contains(f) && spec_reachable(surface, f.0, package_of(packages, c, f.0))
        } by {
            if k < prev.len() {
                assert(fs[k] == prev[k]);
                let f = prev[k];
                let i = choose|i: int| 0 <= i < init.len() && init[i] == f;
                assert(cands[i] == f);
            } else {
                assert(fs[k] == last);
            }
        }
        assert forall|j: int| 0 <= j < cands.len() && spec_reachable(surface, (#[trigger] cands[j]).0, package_of(packages, c, cands[j].0))
            implies fs.contains(cands[j]) by {
            if j < n {
                assert(init[j] == cands[j]);
                let k = choose|k: int| 0 <= k < prev.len() && prev[k] == cands[j];
                assert(fs[k] == prev[k]);
            } else {
                assert(fs[prev.len() as int] == last);
            }
        }
    }
}

/// Every candidate is a dependency of the list with the requirements both refs record for it.
pub proof fn law_candidates_sound(base: Seq<Row3>, head: Seq<Row3>, deps: Seq<Seq<char>>, c: Seq<char>)
    ensures
        forall|k: int| 0 <= k < candidates_of(base, head, deps, c).len() ==> {
            let t = #[trigger] candidates_of(base, head, deps, c)[k];
            deps.contains(t.0) && row_get(base, c, t.0) == Some(t.1) && row_get(head, c, t.0) == Some(t.2)
        },
    decreases deps.len(),
{
    if deps.len() > 0 {
        let init = deps.drop_last();
        law_candidates_sound(base, head, init, c);
        let cs = candidates_of(base, head, deps, c);
        let prev = candidates_of(base, head, init, c);
        let last = deps.last();
        assert(last == deps[deps.len() - 1]);
        assert forall|k: int| 0 <= k < cs.len() implies {
            let t = #[trigger] cs[k];
            deps.contains(t.0) && row_get(base, c, t.0) == Some(t.1) && row_get(head, c, t.0) == Some(t.2)
        } by {
            if k < prev.len() {
                assert(cs[k] == prev[k]);
                let i = choose|i: int| 0 <= i < init.len() && init[i] == prev[k].0;
                assert(deps[i] == init[i]);
            }
        }
    }
}

} // verus!
