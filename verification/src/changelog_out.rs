//! Librustzcash-style changelog document: per crate, the added, changed and removed API
//! items with the dependency changes that a changelog records.

use vstd::prelude::*;

use crate::changelog::{render_with, spec_render, tviews, ChangelogPatterns, TraitRow};
use crate::api::sviews;
use crate::group::firsts;
use crate::model::{underscored, Bump, CrateResult, PerCrateDep, PubdepFinding, Report, Scope, Section};
use crate::text::{chars_of, contains, extend_chars, first_at, find, has, occurs_at, push_str_chars, slice_chars, str_eq, string_of};
use crate::version_req::{classify_bump, spec_classify_bump};

verus! {

/// A per-crate dependency row as plain values: crate, dependency, requirement, scope.
pub type DepView = (Seq<char>, Seq<char>, Seq<char>, Scope);

/// The plain values of per-crate dependency rows.
pub open spec fn dviews(v: Seq<PerCrateDep>) -> Seq<DepView> {
    v.map_values(|d: PerCrateDep| (d.crate_name@, d.dep@, d.req@, d.scope))
}

/// The baseline requirement of a crate's dependency (a later row replaces an earlier one).
pub open spec fn base_req(base: Seq<DepView>, c: Seq<char>, d: Seq<char>) -> Option<Seq<char>>
    decreases base.len(),
{
    if base.len() == 0 {
        None
    } else if base.last().0 == c && base.last().1 == d {
        Some(base.last().2)
    } else {
        base_req(base.drop_last(), c, d)
    }
}

/// Whether the head has a row for a crate's dependency.
pub open spec fn head_has(head: Seq<DepView>, c: Seq<char>, d: Seq<char>) -> bool {
    exists|k: int| 0 <= k < head.len() && (#[trigger] head[k]).0 == c && head[k].1 == d
}

/// The changelog line of a changed requirement: the MSRV, a bumped workspace dependency, or
/// a migrated external one. A removed MSRV (`-`) has none.
pub open spec fn dep_line(row: DepView) -> Option<Seq<char>> {
    match row.3 {
        Scope::Msrv => if row.2 != "-"@ {
            Some("- MSRV is now "@ + row.2 + "."@)
        } else {
            None
        },
        Scope::Internal => Some("- `"@ + row.1 + "` dependency bumped to `"@ + row.2 + "`."@),
        Scope::External => Some("- Migrated to `"@ + row.1 + " "@ + row.2 + "`."@),
    }
}

/// The changed-dependency lines of a crate, in head order, with the MSRV line first.
pub open spec fn changed_lines_for(base: Seq<DepView>, head: Seq<DepView>, c: Seq<char>) -> Seq<
    Seq<char>,
>
    decreases head.len(),
{
    if head.len() == 0 {
        Seq::empty()
    } else {
        let acc = changed_lines_for(base, head.drop_last(), c);
        let row = head.last();
        match (base_req(base, row.0, row.1), dep_line(row)) {
            (Some(old), Some(line)) => if row.0 == c && old != row.2 {
                if row.3 == Scope::Msrv {
                    seq![line] + acc
                } else {
                    acc.push(line)
                }
            } else {
                acc
            },
            _ => acc,
        }
    }
}

/// The removed-dependency lines of a crate, in baseline order.
pub open spec fn removed_lines_for(base: Seq<DepView>, head: Seq<DepView>, c: Seq<char>) -> Seq<
    Seq<char>,
>
    decreases base.len(),
{
    if base.len() == 0 {
        Seq::empty()
    } else {
        let row = base.last();
        removed_lines_for(base.drop_last(), head, c) + if row.0 == c && row.1 != "~msrv"@
            && !head_has(head, row.0, row.1) {
            seq!["- `"@ + row.1 + "` dependency."@]
        } else {
            Seq::empty()
        }
    }
}

/// A crate and its lines, as plain values.
pub type EntryView = (Seq<char>, Seq<Seq<char>>);

/// The plain values of per-crate line lists.
pub open spec fn eviews(v: Seq<(String, Vec<String>)>) -> Seq<EntryView> {
    v.map_values(|e: (String, Vec<String>)| (e.0@, sviews(e.1@)))
}

/// The crates of rows, with repeats.
pub open spec fn crates_of(rows: Seq<DepView>) -> Seq<Seq<char>> {
    rows.map_values(|r: DepView| r.0)
}

/// Changed-dependency lines of each crate that has some, crates in first-appearance order.
pub open spec fn changed_entries(base: Seq<DepView>, head: Seq<DepView>, names: Seq<Seq<char>>) -> Seq<
    EntryView,
>
    decreases names.len(),
{
    if names.len() == 0 {
        Seq::empty()
    } else {
        let lines = changed_lines_for(base, head, names.last());
        changed_entries(base, head, names.drop_last()) + if lines.len() > 0 {
            seq![(names.last(), lines)]
        } else {
            Seq::empty()
        }
    }
}

/// Removed-dependency lines of each crate that has some, crates in first-appearance order.
pub open spec fn removed_entries(base: Seq<DepView>, head: Seq<DepView>, names: Seq<Seq<char>>) -> Seq<
    EntryView,
>
    decreases names.len(),
{
    if names.len() == 0 {
        Seq::empty()
    } else {
        let lines = removed_lines_for(base, head, names.last());
        removed_entries(base, head, names.drop_last()) + if lines.len() > 0 {
            seq![(names.last(), lines)]
        } else {
            Seq::empty()
        }
    }
}

/// The dependency part of the changelog: per crate, changed and removed dependency lines.
pub struct DependencyMarkdown {
    pub changed: Vec<(String, Vec<String>)>,
    pub removed: Vec<(String, Vec<String>)>,
}

fn push_line(out: &mut Vec<String>, s: String)
    ensures
        sviews(final(out)@) == sviews(old(out)@).push(s@),
        final(out)@.len() == old(out)@.len() + 1,
{
    let ghost before = out@;
    out.push(s);
    assert(sviews(out@) =~= sviews(before).push(s@));
}

fn cat3(a: &str, b: &str, c: &str) -> (r: String)
    ensures
        r@ == a@ + b@ + c@,
{
    let mut v = chars_of(a);
    push_str_chars(&mut v, b);
    push_str_chars(&mut v, c);
    string_of(&v)
}

fn cat5(a: &str, b: &str, c: &str, d: &str, e: &str) -> (r: String)
    ensures
        r@ == a@ + b@ + c@ + d@ + e@,
{
    let mut v = chars_of(a);
    push_str_chars(&mut v, b);
    push_str_chars(&mut v, c);
    push_str_chars(&mut v, d);
    push_str_chars(&mut v, e);
    string_of(&v)
}

fn find_base_req(base: &Vec<PerCrateDep>, c: &str, d: &str) -> (r: Option<String>)
    ensures
        match r {
            Some(s) => base_req(dviews(base@), c@, d@) == Some(s@),
            None => base_req(dviews(base@), c@, d@) is None,
        },
{
    let ghost bv = dviews(base@);
    let mut i: usize = base.len();
    assert(bv.take(i as int) =~= bv);
    while i > 0
        invariant
            i <= base.len(),
            bv == dviews(base@),
            base_req(bv, c@, d@) == base_req(bv.take(i as int), c@, d@),
        decreases i,
    {
        assert(bv.take(i as int).last() == bv[i - 1]);
        if str_eq(base[i - 1].crate_name.as_str(), c) && str_eq(base[i - 1].dep.as_str(), d) {
            return Some(base[i - 1].req.clone());
        }
        assert(bv.take(i as int).drop_last() =~= bv.take(i - 1));
        i -= 1;
    }
    None
}

fn find_head(head: &Vec<PerCrateDep>, c: &str, d: &str) -> (r: bool)
    ensures
        r == head_has(dviews(head@), c@, d@),
{
    let ghost hv = dviews(head@);
    let mut i: usize = 0;
    while i < head.len()
        invariant
            i <= head.len(),
            hv == dviews(head@),
            forall|k: int| 0 <= k < i ==> !((#[trigger] hv[k]).0 == c@ && hv[k].1 == d@),
        decreases head.len() - i,
    {
        if str_eq(head[i].crate_name.as_str(), c) && str_eq(head[i].dep.as_str(), d) {
            assert(hv[i as int].0 == c@ && hv[i as int].1 == d@);
            return true;
        }
        i += 1;
    }
    false
}

fn dep_line_exec(row: &PerCrateDep) -> (r: Option<String>)
    ensures
        match r {
            Some(s) => dep_line((row.crate_name@, row.dep@, row.req@, row.scope)) == Some(s@),
            None => dep_line((row.crate_name@, row.dep@, row.req@, row.scope)) is None,
        },
{
    match row.scope {
        Scope::Msrv => if !str_eq(row.req.as_str(), "-") {
            Some(cat3("- MSRV is now ", row.req.as_str(), "."))
        } else {
            None
        },
        Scope::Internal => Some(
            cat5("- `", row.dep.as_str(), "` dependency bumped to `", row.req.as_str(), "`."),
        ),
        Scope::External => Some(
            cat5("- Migrated to `", row.dep.as_str(), " ", row.req.as_str(), "`."),
        ),
    }
}


/// The changed-dependency lines of a crate.
pub fn changed_lines(base: &Vec<PerCrateDep>, head: &Vec<PerCrateDep>, crate_name: &str) -> (r: Vec<
    String,
>)
    ensures
        sviews(r@) == changed_lines_for(dviews(base@), dviews(head@), crate_name@),
{
    let ghost bv = dviews(base@);
    let ghost hv = dviews(head@);
    let mut out: Vec<String> = Vec::new();
    let mut i: usize = 0;
    assert(sviews(out@) =~= changed_lines_for(bv, hv.take(0), crate_name@));
    while i < head.len()
        invariant
            i <= head.len(),
            bv == dviews(base@),
            hv == dviews(head@),
            sviews(out@) == changed_lines_for(bv, hv.take(i as int), crate_name@),
        decreases head.len() - i,
    {
        assert(hv.take(i + 1).drop_last() =~= hv.take(i as int));
        assert(hv.take(i + 1).last() == hv[i as int]);
        let row = &head[i];
        let old = find_base_req(base, row.crate_name.as_str(), row.dep.as_str());
        let line = dep_line_exec(row);
        match (old, line) {
            (Some(o), Some(l)) => {
                if str_eq(row.crate_name.as_str(), crate_name) && !str_eq(o.as_str(), row.req.as_str()) {
                    if row.scope == Scope::Msrv {
                        let ghost before = out@;
                        out.insert(0, l);
                        assert(sviews(out@) =~= seq![out@[0]@] + sviews(before));
                    } else {
                        push_line(&mut out, l);
                    }
                }
            },
            _ => {},
        }
        i += 1;
    }
    assert(hv.take(head.len() as int) =~= hv);
    out
}

/// The removed-dependency lines of a crate.
pub fn removed_lines(base: &Vec<PerCrateDep>, head: &Vec<PerCrateDep>, crate_name: &str) -> (r: Vec<
    String,
>)
    ensures
        sviews(r@) == removed_lines_for(dviews(base@), dviews(head@), crate_name@),
{
    let ghost bv = dviews(base@);
    let mut out: Vec<String> = Vec::new();
    let mut i: usize = 0;
    assert(sviews(out@) =~= removed_lines_for(bv.take(0), dviews(head@), crate_name@));
    while i < base.len()
        invariant
            i <= base.len(),
            bv == dviews(base@),
            sviews(out@) == removed_lines_for(bv.take(i as int), dviews(head@), crate_name@),
        decreases base.len() - i,
    {
        assert(bv.take(i + 1).drop_last() =~= bv.take(i as int));
        assert(bv.take(i + 1).last() == bv[i as int]);
        let row = &base[i];
        if str_eq(row.crate_name.as_str(), crate_name) && !str_eq(row.dep.as_str(), "~msrv")
            && !find_head(head, row.crate_name.as_str(), row.dep.as_str()) {
            push_line(&mut out, cat3("- `", row.dep.as_str(), "` dependency."));
        } else {
            assert(sviews(out@) =~= removed_lines_for(bv.take(i as int), dviews(head@), crate_name@)
                + Seq::<Seq<char>>::empty());
        }
        i += 1;
    }
    assert(bv.take(base.len() as int) =~= bv);
    out
}

fn crate_names(rows: &Vec<PerCrateDep>) -> (r: Vec<String>)
    ensures
        sviews(r@) == crates_of(dviews(rows@)),
{
    let ghost rv = dviews(rows@);
    let mut out: Vec<String> = Vec::new();
    let mut i: usize = 0;
    while i < rows.len()
        invariant
            i <= rows.len(),
            rv == dviews(rows@),
            sviews(out@) == crates_of(rv).take(i as int),
        decreases rows.len() - i,
    {
        push_line(&mut out, rows[i].crate_name.clone());
        assert(crates_of(rv).take(i + 1) =~= crates_of(rv).take(i as int).push(rv[i as int].0));
        i += 1;
    }
    assert(crates_of(rv).take(rows.len() as int) =~= crates_of(rv));
    out
}

fn push_entry(v: &mut Vec<(String, Vec<String>)>, name: String, lines: Vec<String>)
    ensures
        eviews(final(v)@) == eviews(old(v)@).push((name@, sviews(lines@))),
{
    let ghost before = v@;
    let ghost e = (name@, sviews(lines@));
    v.push((name, lines));
    assert(eviews(v@) =~= eviews(before).push(e));
}

/// The dependency lines of the changelog: for each crate with some, in the order crates
/// first appear, its changed dependencies (head rows) and its removed ones (baseline rows).
pub fn dependency_markdown(base: &Vec<PerCrateDep>, head: &Vec<PerCrateDep>) -> (r:
    DependencyMarkdown)
    ensures
        eviews(r.changed@) == changed_entries(
            dviews(base@),
            dviews(head@),
            firsts(crates_of(dviews(head@))),
        ),
        eviews(r.removed@) == removed_entries(
            dviews(base@),
            dviews(head@),
            firsts(crates_of(dviews(base@))),
        ),
{
    let ghost bv = dviews(base@);
    let ghost hv = dviews(head@);
    let heads = crate::group::firsts_exec(&crate_names(head));
    let ghost nv = sviews(heads@);
    let mut changed: Vec<(String, Vec<String>)> = Vec::new();
    let mut i: usize = 0;
    assert(eviews(changed@) =~= changed_entries(bv, hv, nv.take(0)));
    while i < heads.len()
        invariant
            i <= heads.len(),
            bv == dviews(base@),
            hv == dviews(head@),
            nv == sviews(heads@),
            eviews(changed@) == changed_entries(bv, hv, nv.take(i as int)),
        decreases heads.len() - i,
    {
        assert(nv.take(i + 1).drop_last() =~= nv.take(i as int));
        assert(nv.take(i + 1).last() == nv[i as int]);
        let lines = changed_lines(base, head, heads[i].as_str());
        if lines.len() > 0 {
            push_entry(&mut changed, heads[i].clone(), lines);
        } else {
            assert(eviews(changed@) =~= changed_entries(bv, hv, nv.take(i as int)) + Seq::<EntryView>::empty());
        }
        i += 1;
    }
    assert(nv.take(heads.len() as int) =~= nv);
    let bases = crate::group::firsts_exec(&crate_names(base));
    let ghost mv = sviews(bases@);
    let mut removed: Vec<(String, Vec<String>)> = Vec::new();
    let mut j: usize = 0;
    assert(eviews(removed@) =~= removed_entries(bv, hv, mv.take(0)));
    while j < bases.len()
        invariant
            j <= bases.len(),
            bv == dviews(base@),
            hv == dviews(head@),
            mv == sviews(bases@),
            eviews(removed@) == removed_entries(bv, hv, mv.take(j as int)),
        decreases bases.len() - j,
    {
        assert(mv.take(j + 1).drop_last() =~= mv.take(j as int));
        assert(mv.take(j + 1).last() == mv[j as int]);
        let lines = removed_lines(base, head, bases[j].as_str());
        if lines.len() > 0 {
            push_entry(&mut removed, bases[j].clone(), lines);
        } else {
            assert(eviews(removed@) =~= removed_entries(bv, hv, mv.take(j as int)) + Seq::<EntryView>::empty());
        }
        j += 1;
    }
    assert(mv.take(bases.len() as int) =~= mv);
    DependencyMarkdown { changed, removed }
}


/// A public-dependency finding as plain values: dependency, old and new requirement.
pub type FindingView = (Seq<char>, Seq<char>, Seq<char>);

/// The plain values of findings.
pub open spec fn fviews(v: Seq<PubdepFinding>) -> Seq<FindingView> {
    v.map_values(|f: PubdepFinding| (f.dep@, f.old@, f.new@))
}

/// The findings of every result named `c`, in report order.
pub open spec fn findings_for(crates: Seq<CrateResult>, c: Seq<char>) -> Seq<FindingView>
    decreases crates.len(),
{
    if crates.len() == 0 {
        Seq::empty()
    } else {
        findings_for(crates.drop_last(), c) + if crates.last().name@ == c {
            fviews(crates.last().pubdep@)
        } else {
            Seq::empty()
        }
    }
}

/// What a public dependency's change means downstream: a major bump forces users to
/// upgrade in lockstep; anything else asks them to check.
pub open spec fn pubdep_note(f: FindingView) -> Seq<char> {
    if spec_classify_bump(f.1, f.2) == Bump::Major {
        "its types appear in this crate's public API, so downstream users must upgrade `"@ + f.0
            + "` in lockstep."@
    } else {
        "its types appear in this crate's public API, so check whether downstream users are affected."@
    }
}

/// The migration line a finding folds into.
pub open spec fn migrated_line(f: FindingView) -> Seq<char> {
    "- Migrated to `"@ + f.0 + " "@ + f.2 + "`."@
}

/// The first occurrence of `from` replaced by `to` (`str::replacen` once).
pub open spec fn replace_first(s: Seq<char>, from: Seq<char>, to: Seq<char>) -> Seq<char> {
    if contains(s, from) {
        let i = choose|i: int| first_at(s, from, i);
        s.take(i) + to + s.skip(i + from.len())
    } else {
        s
    }
}

/// Position of the first line at or after `i` that contains `p`, or -1.
pub open spec fn line_with(lines: Seq<Seq<char>>, p: Seq<char>, i: int) -> int
    decreases lines.len() - i,
{
    if i < 0 || i >= lines.len() {
        -1
    } else if contains(lines[i], p) {
        i
    } else {
        line_with(lines, p, i + 1)
    }
}

/// The line of its own a finding gets when no migration line names it.
pub open spec fn standalone_line(f: FindingView) -> Seq<char> {
    "- Public dependency `"@ + f.0 + "` changed to `"@ + f.2 + "`; "@ + pubdep_note(f)
}

/// One finding: folded into its migration line with the note, or else a line of its own.
pub open spec fn fold_step(st: (Seq<Seq<char>>, Seq<Seq<char>>), f: FindingView) -> (
    Seq<Seq<char>>,
    Seq<Seq<char>>,
) {
    let migrated = migrated_line(f);
    let k = line_with(st.0, migrated, 0);
    if k >= 0 {
        (
            st.0.update(
                k,
                replace_first(st.0[k], migrated, "- Migrated to `"@ + f.0 + " "@ + f.2 + "`; "@ + pubdep_note(f)),
            ),
            st.1,
        )
    } else {
        (st.0, st.1.push(standalone_line(f)))
    }
}

/// A crate's changed-dependency lines with its findings folded in, and the findings that
/// had no migration line.
pub open spec fn fold_notes(lines: Seq<Seq<char>>, findings: Seq<FindingView>) -> (
    Seq<Seq<char>>,
    Seq<Seq<char>>,
)
    decreases findings.len(),
{
    if findings.len() == 0 {
        (lines, Seq::empty())
    } else {
        fold_step(fold_notes(lines, findings.drop_last()), findings.last())
    }
}

proof fn lemma_first_at_unique(s: Seq<char>, p: Seq<char>, i: int)
    requires
        first_at(s, p, i),
    ensures
        contains(s, p),
        (choose|j: int| first_at(s, p, j)) == i,
{
    let j = choose|j: int| first_at(s, p, j);
    assert(first_at(s, p, j));
    if j < i {
        assert(!occurs_at(s, p, j));
    }
    if j > i {
        assert(!occurs_at(s, p, i));
    }
}

fn replace_first_exec(s: &str, from: &str, to: &str) -> (r: String)
    ensures
        r@ == replace_first(s@, from@, to@),
{
    let cs = chars_of(s);
    let fc = chars_of(from);
    match find(&cs, &fc) {
        Some(i) => {
            proof {
                lemma_first_at_unique(cs@, fc@, i as int);
            }
            assert(occurs_at(cs@, fc@, i as int));
            assert(i + fc.len() <= cs.len());
            let mut out = slice_chars(&cs, 0, i);
            assert(out@ =~= cs@.take(i as int));
            push_str_chars(&mut out, to);
            let rest = slice_chars(&cs, i + fc.len(), cs.len());
            extend_chars(&mut out, &rest);
            string_of(&out)
        },
        None => string_of(&cs),
    }
}

fn note_exec(f: &PubdepFinding) -> (r: String)
    ensures
        r@ == pubdep_note((f.dep@, f.old@, f.new@)),
{
    match classify_bump(f.old.as_str(), f.new.as_str()) {
        Bump::Major => cat3(
            "its types appear in this crate's public API, so downstream users must upgrade `",
            f.dep.as_str(),
            "` in lockstep.",
        ),
        _ => string_of(
            &chars_of(
                "its types appear in this crate's public API, so check whether downstream users are affected.",
            ),
        ),
    }
}

fn fold_one(lines: &mut Vec<String>, extra: &mut Vec<String>, f: &PubdepFinding)
    ensures
        (sviews(final(lines)@), sviews(final(extra)@)) == fold_step(
            (sviews(old(lines)@), sviews(old(extra)@)),
            (f.dep@, f.old@, f.new@),
        ),
{
    let ghost fv = (f.dep@, f.old@, f.new@);
    let ghost lv = sviews(lines@);
    let note = note_exec(f);
    let migrated = cat5("- Migrated to `", f.dep.as_str(), " ", f.new.as_str(), "`.");
    let mc = chars_of(migrated.as_str());
    let mut k: usize = 0;
    while k < lines.len()
        invariant
            k <= lines.len(),
            lv == sviews(lines@),
            lines@ == old(lines)@,
            extra@ == old(extra)@,
            fv == (f.dep@, f.old@, f.new@),
            note@ == pubdep_note(fv),
            migrated@ == migrated_line(fv),
            mc@ == migrated_line(fv),
            line_with(lv, mc@, 0) == line_with(lv, mc@, k as int),
        decreases lines.len() - k,
    {
        if has(&chars_of(lines[k].as_str()), &mc) {
            assert(lv[k as int] == lines@[k as int]@);
            assert(line_with(lv, mc@, k as int) == k);
            let mut rep = chars_of(cat5("- Migrated to `", f.dep.as_str(), " ", f.new.as_str(), "`; ").as_str());
            push_str_chars(&mut rep, note.as_str());
            let replaced = replace_first_exec(lines[k].as_str(), migrated.as_str(), string_of(&rep).as_str());
            let ghost before = lines@;
            lines.set(k, replaced);
            assert(sviews(lines@) =~= sviews(before).update(k as int, replaced@));
            return;
        }
        k += 1;
    }
    let mut line = chars_of(cat5("- Public dependency `", f.dep.as_str(), "` changed to `", f.new.as_str(), "`; ").as_str());
    push_str_chars(&mut line, note.as_str());
    push_line(extra, string_of(&line));
}

/// A crate's changed-dependency lines with its public-dependency findings folded in, and the
/// findings that had no migration line of their own.
pub fn fold_public_dependency_notes(crates: &Vec<CrateResult>, crate_name: &str, lines: Vec<String>) -> (r: (
    Vec<String>,
    Vec<String>,
))
    ensures
        (sviews(r.0@), sviews(r.1@)) == fold_notes(sviews(lines@), findings_for(crates@, crate_name@)),
{
    let ghost l0 = sviews(lines@);
    let mut lines = lines;
    let mut extra: Vec<String> = Vec::new();
    let ghost mut done: Seq<FindingView> = Seq::empty();
    let mut c: usize = 0;
    assert(sviews(extra@) =~= Seq::<Seq<char>>::empty());
    assert(findings_for(crates@.take(0), crate_name@) =~= Seq::<FindingView>::empty());
    while c < crates.len()
        invariant
            c <= crates.len(),
            (sviews(lines@), sviews(extra@)) == fold_notes(l0, findings_for(crates@.take(c as int), crate_name@)),
        decreases crates.len() - c,
    {
        assert(crates@.take(c + 1).drop_last() =~= crates@.take(c as int));
        assert(crates@.take(c + 1).last() == crates@[c as int]);
        let ghost prev = findings_for(crates@.take(c as int), crate_name@);
        if str_eq(crates[c].name.as_str(), crate_name) {
            let ghost fs = fviews(crates@[c as int].pubdep@);
            let mut j: usize = 0;
            assert(prev + fs.take(0) =~= prev);
            while j < crates[c].pubdep.len()
                invariant
                    c < crates.len(),
                    j <= crates@[c as int].pubdep@.len(),
                    fs == fviews(crates@[c as int].pubdep@),
                    (sviews(lines@), sviews(extra@)) == fold_notes(l0, prev + fs.take(j as int)),
                decreases crates@[c as int].pubdep@.len() - j,
            {
                assert((prev + fs.take(j + 1)).drop_last() =~= prev + fs.take(j as int));
                assert((prev + fs.take(j + 1)).last() == fs[j as int]);
                fold_one(&mut lines, &mut extra, &crates[c].pubdep[j]);
                j += 1;
            }
            assert(fs.take(crates@[c as int].pubdep@.len() as int) =~= fs);
        } else {
            assert(prev + Seq::<FindingView>::empty() =~= prev);
        }
        c += 1;
    }
    assert(crates@.take(crates.len() as int) =~= crates@);
    (lines, extra)
}


/// Lines, each followed by a newline.
pub open spec fn lines_text(lines: Seq<Seq<char>>) -> Seq<char>
    decreases lines.len(),
{
    if lines.len() == 0 {
        Seq::empty()
    } else {
        lines_text(lines.drop_last()) + lines.last() + "\n"@
    }
}

/// The lines of every part, in order.
pub open spec fn parts_text(parts: Seq<Seq<Seq<char>>>) -> Seq<char>
    decreases parts.len(),
{
    if parts.len() == 0 {
        Seq::empty()
    } else {
        parts_text(parts.drop_last()) + lines_text(parts.last())
    }
}

/// A `###` section holding the parts' lines and a blank line, or nothing if every part is
/// empty.
pub open spec fn section_text(heading: Seq<char>, parts: Seq<Seq<Seq<char>>>) -> Seq<char> {
    if forall|k: int| 0 <= k < parts.len() ==> (#[trigger] parts[k]).len() == 0 {
        Seq::empty()
    } else {
        "### "@ + heading + "\n"@ + parts_text(parts) + "\n"@
    }
}

/// The plain values of line lists.
pub open spec fn lviews(parts: Seq<Vec<String>>) -> Seq<Seq<Seq<char>>> {
    parts.map_values(|v: Vec<String>| sviews(v@))
}

fn push_lines(out: &mut Vec<char>, lines: &Vec<String>)
    ensures
        final(out)@ == old(out)@ + lines_text(sviews(lines@)),
{
    let ghost lv = sviews(lines@);
    let mut i: usize = 0;
    assert(old(out)@ + lines_text(lv.take(0)) =~= old(out)@);
    while i < lines.len()
        invariant
            i <= lines.len(),
            lv == sviews(lines@),
            out@ == old(out)@ + lines_text(lv.take(i as int)),
        decreases lines.len() - i,
    {
        assert(lv.take(i + 1).drop_last() =~= lv.take(i as int));
        assert(lv.take(i + 1).last() == lines@[i as int]@);
        push_str_chars(out, lines[i].as_str());
        push_str_chars(out, "\n");
        assert(out@ =~= old(out)@ + lines_text(lv.take(i + 1)));
        i += 1;
    }
    assert(lv.take(lines.len() as int) =~= lv);
}

/// Appends a section of the document: a `###` heading, the parts' lines and a blank line,
/// unless every part is empty.
pub fn append_section(out: &mut Vec<char>, heading: &str, parts: &Vec<Vec<String>>)
    ensures
        final(out)@ == old(out)@ + section_text(heading@, lviews(parts@)),
{
    let ghost pv = lviews(parts@);
    let mut any = false;
    let mut k: usize = 0;
    while k < parts.len()
        invariant
            k <= parts.len(),
            pv == lviews(parts@),
            any <==> exists|j: int| 0 <= j < k && (#[trigger] pv[j]).len() > 0,
        decreases parts.len() - k,
    {
        if parts[k].len() > 0 {
            assert(pv[k as int].len() > 0);
            any = true;
        }
        k += 1;
    }
    if !any {
        assert(section_text(heading@, pv) =~= Seq::<char>::empty());
        assert(out@ =~= old(out)@ + section_text(heading@, pv));
        return;
    }
    push_str_chars(out, "### ");
    push_str_chars(out, heading);
    push_str_chars(out, "\n");
    let ghost head = out@;
    let mut i: usize = 0;
    assert(head + parts_text(pv.take(0)) =~= head);
    while i < parts.len()
        invariant
            i <= parts.len(),
            pv == lviews(parts@),
            out@ == head + parts_text(pv.take(i as int)),
        decreases parts.len() - i,
    {
        assert(pv.take(i + 1).drop_last() =~= pv.take(i as int));
        assert(pv.take(i + 1).last() == pv[i as int]);
        push_lines(out, &parts[i]);
        assert(out@ =~= head + parts_text(pv.take(i + 1)));
        i += 1;
    }
    assert(pv.take(parts.len() as int) =~= pv);
    push_str_chars(out, "\n");
    assert(out@ =~= old(out)@ + section_text(heading@, pv));
}

/// The trait map of a crate (a later entry replaces an earlier one), empty if none.
pub open spec fn crate_traits(maps: Seq<(String, Vec<(String, String, String)>)>, name: Seq<char>) -> Seq<
    TraitRow,
>
    decreases maps.len(),
{
    if maps.len() == 0 {
        Seq::empty()
    } else if maps.last().0@ == name {
        tviews(maps.last().1@)
    } else {
        crate_traits(maps.drop_last(), name)
    }
}

fn find_traits<'a>(
    maps: &'a Vec<(String, Vec<(String, String, String)>)>,
    name: &str,
    empty: &'a Vec<(String, String, String)>,
) -> (r: &'a Vec<(String, String, String)>)
    requires
        empty@.len() == 0,
    ensures
        tviews(r@) == crate_traits(maps@, name@),
{
    let mut i: usize = maps.len();
    assert(maps@.take(i as int) =~= maps@);
    while i > 0
        invariant
            i <= maps.len(),
            crate_traits(maps@, name@) == crate_traits(maps@.take(i as int), name@),
        decreases i,
    {
        assert(maps@.take(i as int).last() == maps@[i - 1]);
        if str_eq(maps[i - 1].0.as_str(), name) {
            return &maps[i - 1].1;
        }
        assert(maps@.take(i as int).drop_last() =~= maps@.take(i - 1));
        i -= 1;
    }
    assert(tviews(empty@) =~= Seq::<TraitRow>::empty());
    empty
}

/// A crate's heading and its Added, Changed and Removed sections, or nothing if there is
/// nothing to record.
pub open spec fn assemble(
    name: Seq<char>,
    added: Seq<Seq<char>>,
    dep_changed: Seq<Seq<char>>,
    pubdep: Seq<Seq<char>>,
    changed_api: Seq<Seq<char>>,
    removed_api: Seq<Seq<char>>,
    dep_removed: Seq<Seq<char>>,
) -> Seq<char> {
    let has_changed = dep_changed.len() > 0 || pubdep.len() > 0 || changed_api.len() > 0;
    let has_removed = removed_api.len() > 0 || dep_removed.len() > 0;
    if added.len() == 0 && !has_changed && !has_removed {
        Seq::empty()
    } else {
        "## "@ + name + "\n\n"@ + section_text("Added"@, seq![added]) + (if has_changed {
            section_text("Changed"@, seq![dep_changed, pubdep, changed_api])
        } else {
            Seq::empty()
        }) + (if has_removed {
            section_text("Removed"@, seq![removed_api, dep_removed])
        } else {
            Seq::empty()
        })
    }
}

/// The rendered API lines of a crate's section, if it has changes of that kind.
pub open spec fn api_part(
    count: usize,
    lines: Seq<String>,
    section: Section,
    name: Seq<char>,
    traits: Seq<(String, Vec<(String, String, String)>)>,
) -> Seq<Seq<char>> {
    if count > 0 {
        spec_render(sviews(lines), section, underscored(name), crate_traits(traits, name))
    } else {
        Seq::empty()
    }
}

/// A crate's part of the changelog: its API changes rendered per section, its changed
/// dependencies with the public-dependency notes folded in, and its removed dependencies.
#[verifier::opaque]
pub open spec fn crate_doc(
    cr: CrateResult,
    crates: Seq<CrateResult>,
    base: Seq<DepView>,
    head: Seq<DepView>,
    head_traits: Seq<(String, Vec<(String, String, String)>)>,
    base_traits: Seq<(String, Vec<(String, String, String)>)>,
) -> Seq<char> {
    let folded = fold_notes(changed_lines_for(base, head, cr.name@), findings_for(crates, cr.name@));
    assemble(
        cr.name@,
        api_part(cr.added, cr.added_lines@, Section::Added, cr.name@, head_traits),
        folded.0,
        folded.1,
        api_part(cr.changed, cr.changed_lines@, Section::Changed, cr.name@, head_traits),
        api_part(cr.removed, cr.removed_lines@, Section::Removed, cr.name@, base_traits),
        removed_lines_for(base, head, cr.name@),
    )
}

/// The document for the first crates of the report.
pub open spec fn document(
    done: Seq<CrateResult>,
    crates: Seq<CrateResult>,
    base: Seq<DepView>,
    head: Seq<DepView>,
    head_traits: Seq<(String, Vec<(String, String, String)>)>,
    base_traits: Seq<(String, Vec<(String, String, String)>)>,
) -> Seq<char>
    decreases done.len(),
{
    if done.len() == 0 {
        Seq::empty()
    } else {
        document(done.drop_last(), crates, base, head, head_traits, base_traits) + crate_doc(
            done.last(),
            crates,
            base,
            head,
            head_traits,
            base_traits,
        )
    }
}

fn api_part_exec(
    p: &ChangelogPatterns,
    count: usize,
    lines: &Vec<String>,
    section: Section,
    name: &str,
    traits: &Vec<(String, Vec<(String, String, String)>)>,
) -> (r: Vec<String>)
    requires
        p.wf(),
    ensures
        sviews(r@) == api_part(count, lines@, section, name@, traits@),
{
    if count == 0 {
        let v: Vec<String> = Vec::new();
        assert(sviews(v@) =~= Seq::<Seq<char>>::empty());
        return v;
    }
    let prefix = crate::model::underscore(name);
    let empty: Vec<(String, String, String)> = Vec::new();
    let t = find_traits(traits, name, &empty);
    render_with(p, lines, section, prefix.as_str(), t)
}

fn assemble_exec(
    out: &mut Vec<char>,
    name: &str,
    added: Vec<String>,
    dep_changed: Vec<String>,
    pubdep: Vec<String>,
    changed_api: Vec<String>,
    removed_api: Vec<String>,
    dep_removed: Vec<String>,
)
    ensures
        final(out)@ == old(out)@ + assemble(
            name@,
            sviews(added@),
            sviews(dep_changed@),
            sviews(pubdep@),
            sviews(changed_api@),
            sviews(removed_api@),
            sviews(dep_removed@),
        ),
{
    let ghost av = sviews(added@);
    let ghost cv = sviews(changed_api@);
    let ghost rv = sviews(removed_api@);
    let ghost dcv = sviews(dep_changed@);
    let ghost pv = sviews(pubdep@);
    let ghost drv = sviews(dep_removed@);
    let has_changed = dep_changed.len() > 0 || pubdep.len() > 0 || changed_api.len() > 0;
    let has_removed = removed_api.len() > 0 || dep_removed.len() > 0;
    assert(av.len() == added@.len() && cv.len() == changed_api@.len() && rv.len() == removed_api@.len());
    assert(dcv.len() == dep_changed@.len() && pv.len() == pubdep@.len() && drv.len() == dep_removed@.len());
    if added.len() == 0 && !has_changed && !has_removed {
        assert(out@ =~= old(out)@ + Seq::<char>::empty());
        return;
    }
    push_str_chars(out, "## ");
    push_str_chars(out, name);
    push_str_chars(out, "\n\n");
    let added_parts = vec![added];
    assert(lviews(added_parts@) =~= seq![av]);
    append_section(out, "Added", &added_parts);
    let ghost after_added = out@;
    if has_changed {
        let changed_parts = vec![dep_changed, pubdep, changed_api];
        assert(lviews(changed_parts@) =~= seq![dcv, pv, cv]);
        append_section(out, "Changed", &changed_parts);
    }
    if has_removed {
        let removed_parts = vec![removed_api, dep_removed];
        assert(lviews(removed_parts@) =~= seq![rv, drv]);
        append_section(out, "Removed", &removed_parts);
    }
    assert(out@ =~= old(out)@ + assemble(name@, av, dcv, pv, cv, rv, drv));
}

fn crate_doc_exec(
    out: &mut Vec<char>,
    p: &ChangelogPatterns,
    cr: &CrateResult,
    crates: &Vec<CrateResult>,
    base: &Vec<PerCrateDep>,
    head: &Vec<PerCrateDep>,
    head_traits: &Vec<(String, Vec<(String, String, String)>)>,
    base_traits: &Vec<(String, Vec<(String, String, String)>)>,
)
    requires
        p.wf(),
    ensures
        final(out)@ == old(out)@ + crate_doc(
            *cr,
            crates@,
            dviews(base@),
            dviews(head@),
            head_traits@,
            base_traits@,
        ),
{
    proof {
        reveal(crate_doc);
    }
    let name = cr.name.as_str();
    let added = api_part_exec(p, cr.added, &cr.added_lines, Section::Added, name, head_traits);
    let changed_api = api_part_exec(p, cr.changed, &cr.changed_lines, Section::Changed, name, head_traits);
    let removed_api = api_part_exec(p, cr.removed, &cr.removed_lines, Section::Removed, name, base_traits);
    let dep_lines = changed_lines(base, head, name);
    let (dep_changed, pubdep) = fold_public_dependency_notes(crates, name, dep_lines);
    let dep_removed = removed_lines(base, head, name);
    assemble_exec(out, name, added, dep_changed, pubdep, changed_api, removed_api, dep_removed);
}

/// The changelog document: per crate of the report, in order, its API changes rendered as a
/// changelog with its dependency changes; `None` only if a fixed pattern of the changelog
/// does not compile. The trait maps give, per crate, the head and baseline trait
/// implementations of members.
pub fn emit(
    report: &Report,
    base: &Vec<PerCrateDep>,
    head: &Vec<PerCrateDep>,
    head_traits: &Vec<(String, Vec<(String, String, String)>)>,
    base_traits: &Vec<(String, Vec<(String, String, String)>)>,
) -> (r: Option<String>)
    ensures
        r is Some <==> crate::changelog::changelog_patterns_compile(),
        r matches Some(d) ==> d@ == document(
            report.crates@,
            report.crates@,
            dviews(base@),
            dviews(head@),
            head_traits@,
            base_traits@,
        ),
{
    let p = match ChangelogPatterns::compile() {
        Some(p) => p,
        None => return None,
    };
    let crates = &report.crates;
    let mut out: Vec<char> = Vec::new();
    let mut i: usize = 0;
    assert(out@ =~= document(crates@.take(0), crates@, dviews(base@), dviews(head@), head_traits@, base_traits@));
    while i < crates.len()
        invariant
            p.wf(),
            i <= crates.len(),
            out@ == document(crates@.take(i as int), crates@, dviews(base@), dviews(head@), head_traits@, base_traits@),
        decreases crates.len() - i,
    {
        assert(crates@.take(i + 1).drop_last() =~= crates@.take(i as int));
        assert(crates@.take(i + 1).last() == crates@[i as int]);
        crate_doc_exec(&mut out, &p, &crates[i], crates, base, head, head_traits, base_traits);
        i += 1;
    }
    assert(crates@.take(crates.len() as int) =~= crates@);
    Some(string_of(&out))
}

/// The crates whose API changed, in report order: those whose head trait map the
/// changelog needs.
pub fn changed_crate_names(report: &Report) -> (r: Vec<String>)
    ensures
        sviews(r@) == names_where(report.crates@, false),
{
    names_of(&report.crates, false)
}

/// The crates that lost API items, in report order: those whose baseline trait map the
/// changelog needs.
pub fn removed_crate_names(report: &Report) -> (r: Vec<String>)
    ensures
        sviews(r@) == names_where(report.crates@, true),
{
    names_of(&report.crates, true)
}

/// The names of the crates with a change (`removed_only` false) or with a removal (`true`).
pub open spec fn names_where(crates: Seq<CrateResult>, removed_only: bool) -> Seq<Seq<char>>
    decreases crates.len(),
{
    if crates.len() == 0 {
        Seq::empty()
    } else {
        let c = crates.last();
        names_where(crates.drop_last(), removed_only) + if (removed_only && c.removed > 0) || (
        !removed_only && (c.removed > 0 || c.changed > 0 || c.added > 0)) {
            seq![c.name@]
        } else {
            Seq::empty()
        }
    }
}

fn names_of(crates: &Vec<CrateResult>, removed_only: bool) -> (r: Vec<String>)
    ensures
        sviews(r@) == names_where(crates@, removed_only),
{
    let mut out: Vec<String> = Vec::new();
    let mut i: usize = 0;
    assert(sviews(out@) =~= names_where(crates@.take(0), removed_only));
    while i < crates.len()
        invariant
            i <= crates.len(),
            sviews(out@) == names_where(crates@.take(i as int), removed_only),
        decreases crates.len() - i,
    {
        assert(crates@.take(i + 1).drop_last() =~= crates@.take(i as int));
        assert(crates@.take(i + 1).last() == crates@[i as int]);
        let c = &crates[i];
        if (removed_only && c.removed > 0) || (!removed_only && (c.removed > 0 || c.changed > 0
            || c.added > 0)) {
            push_line(&mut out, c.name.clone());
        } else {
            assert(sviews(out@) =~= names_where(crates@.take(i as int), removed_only) + Seq::<Seq<char>>::empty());
        }
        i += 1;
    }
    assert(crates@.take(crates.len() as int) =~= crates@);
    out
}

/// Where `p` occurs in `s`, it has a first occurrence, no later than any.
proof fn lemma_first_occurrence(s: Seq<char>, p: Seq<char>, w: int)
    requires
        occurs_at(s, p, w),
    ensures
        exists|i: int| i <= w && first_at(s, p, i),
    decreases w,
{
    if exists|j: int| 0 <= j < w && occurs_at(s, p, j) {
        let j = choose|j: int| 0 <= j < w && occurs_at(s, p, j);
        lemma_first_occurrence(s, p, j);
    } else {
        assert(first_at(s, p, w));
    }
}

/// `line_with` finds the first line at or after `i` that contains `p`.
proof fn lemma_line_with(lines: Seq<Seq<char>>, p: Seq<char>, i: int)
    requires
        0 <= i,
    ensures
        line_with(lines, p, i) == -1 ==> forall|j: int| i <= j < lines.len() ==> !contains(#[trigger] lines[j], p),
        line_with(lines, p, i) != -1 ==> i <= line_with(lines, p, i) < lines.len() && contains(
            lines[line_with(lines, p, i)],
            p,
        ) && forall|j: int| i <= j < line_with(lines, p, i) ==> !contains(#[trigger] lines[j], p),
    decreases lines.len() - i,
{
    if i < lines.len() && !contains(lines[i], p) {
        lemma_line_with(lines, p, i + 1);
    }
}

/// A public dependency that a crate bumped across a major version, and whose migration
/// line ("- Migrated to `D N`.") the crate's changed-dependency lines hold, is folded into
/// the first line holding it: there the first occurrence of the migration text becomes
/// "- Migrated to `D N`; its types appear in this crate's public API, so downstream users
/// must upgrade `D` in lockstep.", every other line stays as it was, and the finding gets no
/// line of its own.
proof fn lemma_migration_step(
    lines: Seq<Seq<char>>,
    findings: Seq<FindingView>,
    f: FindingView,
)
    requires
        spec_classify_bump(f.1, f.2) == Bump::Major,
        exists|i: int|
            0 <= i < fold_notes(lines, findings).0.len() && contains(
                #[trigger] fold_notes(lines, findings).0[i],
                migrated_line(f),
            ),
    ensures
        ({
            let before = fold_notes(lines, findings);
            let after = fold_notes(lines, findings.push(f));
            let m = migrated_line(f);
            let to = "- Migrated to `"@ + f.0 + " "@ + f.2
                + "`; its types appear in this crate's public API, so downstream users must upgrade `"@
                + f.0 + "` in lockstep."@;
            exists|k: int, i: int|
                #![trigger before.0[k], first_at(before.0[k], m, i)]
                0 <= k < before.0.len() && contains(before.0[k], m) && (forall|j: int|
                    0 <= j < k ==> !contains(#[trigger] before.0[j], m)) && first_at(before.0[k], m, i)
                    && after.0 == before.0.update(k, before.0[k].take(i) + to + before.0[k].skip(i + m.len()))
                    && after.1 == before.1
        }),
{
    let before = fold_notes(lines, findings);
    let m = migrated_line(f);
    assert(findings.push(f).drop_last() == findings);
    lemma_line_with(before.0, m, 0);
    let k = line_with(before.0, m, 0);
    let i0 = choose|i: int| 0 <= i < before.0.len() && contains(before.0[i], m);
    assert(k != -1);
    let w = choose|j: int| occurs_at(before.0[k], m, j);
    lemma_first_occurrence(before.0[k], m, w);
    let i = choose|i: int| first_at(before.0[k], m, i);
    lemma_first_at_unique(before.0[k], m, i);
    let to = "- Migrated to `"@ + f.0 + " "@ + f.2
        + "`; its types appear in this crate's public API, so downstream users must upgrade `"@
        + f.0 + "` in lockstep."@;
    assert(("- Migrated to `"@ + f.0 + " "@ + f.2 + "`; "@ + pubdep_note(f)) =~= to) by {
        reveal_strlit("`; ");
        reveal_strlit("its types appear in this crate's public API, so downstream users must upgrade `");
        reveal_strlit("`; its types appear in this crate's public API, so downstream users must upgrade `");
    }
}

/// The lines of their own that the findings after `q` add: folding them keeps the lines
/// there were and adds only lines of findings after `q`.
proof fn lemma_extras_after(lines: Seq<Seq<char>>, findings: Seq<FindingView>, q: int, m: int)
    requires
        0 <= q < m <= findings.len(),
    ensures
        ({
            let before = fold_notes(lines, findings.take(q + 1)).1;
            let now = fold_notes(lines, findings.take(m)).1;
            &&& before.len() <= now.len()
            &&& now.take(before.len() as int) == before
            &&& forall|i: int| before.len() <= i < now.len() ==> exists|j: int|
                q < j < m && #[trigger] now[i] == standalone_line(findings[j])
        }),
    decreases m - q,
{
    let before = fold_notes(lines, findings.take(q + 1)).1;
    if m == q + 1 {
        assert(before.take(before.len() as int) =~= before);
    } else {
        lemma_extras_after(lines, findings, q, m - 1);
        let prev = fold_notes(lines, findings.take(m - 1));
        let now = fold_notes(lines, findings.take(m)).1;
        assert(findings.take(m).drop_last() =~= findings.take(m - 1));
        assert(findings.take(m).last() == findings[m - 1]);
        let f = findings[m - 1];
        if line_with(prev.0, migrated_line(f), 0) >= 0 {
            assert(now == prev.1);
        } else {
            assert(now == prev.1.push(standalone_line(f)));
            assert(now.take(before.len() as int) =~= prev.1.take(before.len() as int));
            assert forall|i: int| before.len() <= i < now.len() implies exists|j: int|
                q < j < m && #[trigger] now[i] == standalone_line(findings[j]) by {
                if i < prev.1.len() {
                    assert(now[i] == prev.1[i]);
                } else {
                    assert(now[i] == standalone_line(findings[m - 1]));
                }
            }
        }
    }
}

/// A public dependency that a crate bumped across a major version, and whose migration
/// line ("- Migrated to `D N`.") the crate's changed-dependency lines hold when its turn
/// comes, is folded into the first line holding it: there the first occurrence of the
/// migration text becomes "- Migrated to `D N`; its types appear in this crate's public
/// API, so downstream users must upgrade `D` in lockstep.", every other line stays as it
/// was, and the finding gets no line of its own: every line of its own that the crate ends
/// up with was there before it or belongs to a later finding.
pub proof fn law_migration_note_folds_in(lines: Seq<Seq<char>>, findings: Seq<FindingView>, q: int)
    requires
        0 <= q < findings.len(),
        spec_classify_bump(findings[q].1, findings[q].2) == Bump::Major,
        exists|i: int|
            0 <= i < fold_notes(lines, findings.take(q)).0.len() && contains(
                #[trigger] fold_notes(lines, findings.take(q)).0[i],
                migrated_line(findings[q]),
            ),
    ensures
        ({
            let f = findings[q];
            let before = fold_notes(lines, findings.take(q));
            let after = fold_notes(lines, findings.take(q + 1));
            let m = migrated_line(f);
            let to = "- Migrated to `"@ + f.0 + " "@ + f.2
                + "`; its types appear in this crate's public API, so downstream users must upgrade `"@
                + f.0 + "` in lockstep."@;
            exists|k: int, i: int|
                #![trigger before.0[k], first_at(before.0[k], m, i)]
                0 <= k < before.0.len() && contains(before.0[k], m) && (forall|j: int|
                    0 <= j < k ==> !contains(#[trigger] before.0[j], m)) && first_at(before.0[k], m, i)
                    && after.0 == before.0.update(k, before.0[k].take(i) + to + before.0[k].skip(i + m.len()))
                    && after.1 == before.1
        }),
        ({
            let before = fold_notes(lines, findings.take(q)).1;
            let fin = fold_notes(lines, findings).1;
            &&& before.len() <= fin.len()
            &&& fin.take(before.len() as int) == before
            &&& forall|i: int| before.len() <= i < fin.len() ==> exists|j: int|
                q < j < findings.len() && #[trigger] fin[i] == standalone_line(findings[j])
        }),
{
    assert(findings.take(q).push(findings[q]) =~= findings.take(q + 1));
    lemma_migration_step(lines, findings.take(q), findings[q]);
    lemma_extras_after(lines, findings, q, findings.len() as int);
    assert(findings.take(findings.len() as int) =~= findings);
}

} // verus!
