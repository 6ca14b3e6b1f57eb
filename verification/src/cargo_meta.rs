//! Workspace dependency tables from `cargo metadata`: the merged external dependency table
//! of the whole workspace and each member crate's direct dependencies.

use vstd::prelude::*;

use crate::api::sviews;
use crate::model::{spec_is_test_crate, is_test_crate, DepKind, DepRecord, PerCrateDep, Scope};
use crate::order::{
    chars_lt, insert_key, insert_sorted, key_lt, keys_eq, keys_lt, keys_sorted, kview, kviews,
    lemma_key_irreflexive, lemma_key_total, lemma_key_transitive, lemma_lt_asymmetric,
    lemma_lt_irreflexive, lemma_lt_total, lemma_lt_transitive, lemma_sorted_of, seq_lt,
    sorted_of, sorted_strict, vviews,
};
use crate::text::{chars_of, push_str_chars, starts_with, str_eq, string_of};

verus! {

/// What the library reads of `cargo metadata --format-version 1` output.
pub struct Metadata {
    pub packages: Vec<Package>,
    pub workspace_members: Vec<String>,
}

/// A package of the metadata.
pub struct Package {
    pub id: String,
    pub name: String,
    pub rust_version: Option<String>,
    pub dependencies: Vec<Dependency>,
}

/// A declared dependency of a package.
pub struct Dependency {
    pub name: String,
    pub rename: Option<String>,
    pub req: Option<String>,
    pub kind: Option<String>,
    pub optional: Option<bool>,
    pub uses_default_features: Option<bool>,
    pub features: Option<Vec<String>>,
}

/// The plain value of an optional string.
pub open spec fn opt_view(o: Option<String>) -> Option<Seq<char>> {
    match o {
        Some(s) => Some(s@),
        None => None,
    }
}

/// A package is a workspace member.
pub open spec fn is_member(md: Metadata, p: Package) -> bool {
    sviews(md.workspace_members@).contains(p.id@)
}

/// The dependency's key: its Cargo rename, else its name.
pub open spec fn dep_key(d: Dependency) -> Seq<char> {
    match d.rename {
        Some(r) => r@,
        None => d.name@,
    }
}

/// A requirement without a leading `^`.
pub open spec fn spec_strip_caret(req: Seq<char>) -> Seq<char> {
    if starts_with(req, "^"@) {
        req.skip(1)
    } else {
        req
    }
}

/// The requirement of a dependency, `-` when it has none, without a leading `^`.
pub open spec fn req_of(d: Dependency) -> Seq<char> {
    spec_strip_caret(
        match d.req {
            Some(r) => r@,
            None => "-"@,
        },
    )
}

/// The kind of a dependency: runtime unless it is a build or dev dependency.
pub open spec fn spec_dependency_kind(kind: Option<Seq<char>>) -> DepKind {
    match kind {
        Some(k) => if k == "build"@ {
            DepKind::Build
        } else if k == "dev"@ {
            DepKind::Dev
        } else {
            DepKind::Runtime
        },
        None => DepKind::Runtime,
    }
}

/// A requirement without a leading `^`.
pub fn strip_caret(req: &str) -> (r: String)
    ensures
        r@ == spec_strip_caret(req@),
{
    let cs = chars_of(req);
    proof {
        reveal_strlit("^");
    }
    if cs.len() > 0 && cs[0] == '^' {
        assert(cs@.take(1) =~= "^"@);
        assert(starts_with(cs@, "^"@));
        string_of(&crate::text::slice_chars(&cs, 1, cs.len()))
    } else {
        assert(!starts_with(cs@, "^"@)) by {
            if cs.len() > 0 {
                assert(cs@.take(1)[0] == cs@[0]);
                assert("^"@[0] == '^');
            }
        }
        string_of(&cs)
    }
}

/// The kind of a dependency from its `kind` field.
pub fn dependency_kind(kind: &Option<String>) -> (r: DepKind)
    ensures
        r == spec_dependency_kind(opt_view(*kind)),
{
    match kind {
        Some(k) => if str_eq(k.as_str(), "build") {
            DepKind::Build
        } else if str_eq(k.as_str(), "dev") {
            DepKind::Dev
        } else {
            DepKind::Runtime
        },
        None => DepKind::Runtime,
    }
}

fn member_exec(md: &Metadata, p: &Package) -> (r: bool)
    ensures
        r == is_member(*md, *p),
{
    let ghost mv = sviews(md.workspace_members@);
    let mut i: usize = 0;
    while i < md.workspace_members.len()
        invariant
            i <= md.workspace_members.len(),
            mv == sviews(md.workspace_members@),
            forall|k: int| 0 <= k < i ==> mv[k] != p.id@,
        decreases md.workspace_members.len() - i,
    {
        if str_eq(md.workspace_members[i].as_str(), p.id.as_str()) {
            assert(mv[i as int] == p.id@);
            return true;
        }
        i += 1;
    }
    false
}

/// The names of the member packages, in package order.
pub open spec fn member_names(md: Metadata, pk: Seq<Package>) -> Seq<Seq<char>>
    decreases pk.len(),
{
    if pk.len() == 0 {
        Seq::empty()
    } else {
        member_names(md, pk.drop_last()) + if is_member(md, pk.last()) {
            seq![pk.last().name@]
        } else {
            Seq::empty()
        }
    }
}

/// Every element sorts no later than every later one.
pub open spec fn sorted_le(s: Seq<Seq<char>>) -> bool {
    forall|i: int, j: int| 0 <= i < j < s.len() ==> !seq_lt(#[trigger] s[j], #[trigger] s[i])
}

fn insert_le(list: &mut Vec<String>, x: String)
    requires
        sorted_le(sviews(old(list)@)),
    ensures
        sorted_le(sviews(final(list)@)),
        sviews(final(list)@).to_multiset() == sviews(old(list)@).to_multiset().insert(x@),
{
    let ghost before = sviews(list@);
    let xc = chars_of(x.as_str());
    let mut p: usize = 0;
    while p < list.len() && !chars_lt(&xc, &chars_of(list[p].as_str()))
        invariant
            p <= list.len(),
            sviews(list@) == before,
            xc@ == x@,
            forall|i: int| 0 <= i < p ==> !seq_lt(x@, #[trigger] before[i]),
        decreases list.len() - p,
    {
        p += 1;
    }
    let ghost xv = x@;
    list.insert(p, x);
    proof {
        let after = sviews(list@);
        assert(after =~= before.insert(p as int, xv));
        vstd::seq_lib::to_multiset_insert(before, p as int, xv);
        assert forall|i: int, j: int| 0 <= i < j < after.len() implies !seq_lt(
            #[trigger] after[j],
            #[trigger] after[i],
        ) by {
            if j < p {
                assert(after[i] == before[i] && after[j] == before[j]);
            } else if j == p {
                assert(after[i] == before[i]);
                assert(!seq_lt(xv, before[i]));
            } else if i == p {
                assert(after[j] == before[j - 1]);
                if p < before.len() {
                    assert(seq_lt(xv, before[p as int]));
                    if seq_lt(before[j - 1], xv) {
                        if j - 1 > p {
                            assert(!seq_lt(before[j - 1], before[p as int]));
                            lemma_lt_transitive(before[j - 1], xv, before[p as int]);
                        } else {
                            lemma_lt_asymmetric(before[j - 1], xv);
                        }
                    }
                }
            } else if i < p {
                assert(after[i] == before[i] && after[j] == before[j - 1]);
            } else {
                assert(after[i] == before[i - 1] && after[j] == before[j - 1]);
            }
        }
    }
}

/// The names of the workspace members, sorted (`cargo metadata --no-deps`).
pub fn workspace_crate_names(md: &Metadata) -> (r: Vec<String>)
    ensures
        sorted_le(sviews(r@)),
        sviews(r@).to_multiset() == member_names(*md, md.packages@).to_multiset(),
{
    let mut out: Vec<String> = Vec::new();
    let mut i: usize = 0;
    assert(sviews(out@).to_multiset() =~= member_names(*md, md.packages@.take(0)).to_multiset()) by {
        assert(sviews(out@) =~= Seq::<Seq<char>>::empty());
        assert(member_names(*md, md.packages@.take(0)) =~= Seq::<Seq<char>>::empty());
    }
    while i < md.packages.len()
        invariant
            i <= md.packages.len(),
            sorted_le(sviews(out@)),
            sviews(out@).to_multiset() == member_names(*md, md.packages@.take(i as int)).to_multiset(),
        decreases md.packages.len() - i,
    {
        assert(md.packages@.take(i + 1).drop_last() =~= md.packages@.take(i as int));
        assert(md.packages@.take(i + 1).last() == md.packages@[i as int]);
        let ghost prev = member_names(*md, md.packages@.take(i as int));
        if member_exec(md, &md.packages[i]) {
            insert_le(&mut out, md.packages[i].name.clone());
            proof {
                vstd::seq_lib::to_multiset_build(prev, md.packages@[i as int].name@);
                assert(member_names(*md, md.packages@.take(i + 1)) =~= prev.push(md.packages@[i as int].name@));
            }
        } else {
            assert(member_names(*md, md.packages@.take(i + 1)) =~= prev);
        }
        i += 1;
    }
    assert(md.packages@.take(md.packages.len() as int) =~= md.packages@);
    out
}


/// A per-crate row as plain values: crate, dependency key, requirement, scope, package.
pub type PerView = (Seq<char>, Seq<char>, Seq<char>, Scope, Seq<char>);

/// The plain values of a per-crate row.
pub open spec fn per_view(d: PerCrateDep) -> PerView {
    (d.crate_name@, d.dep@, d.req@, d.scope, d.pkg@)
}

/// The plain values of per-crate rows.
pub open spec fn per_views(v: Seq<PerCrateDep>) -> Seq<PerView> {
    v.map_values(|d: PerCrateDep| per_view(d))
}

/// The member packages that are not test crates, in order.
pub open spec fn analysed(md: Metadata, pk: Seq<Package>) -> Seq<Package>
    decreases pk.len(),
{
    if pk.len() == 0 {
        Seq::empty()
    } else {
        analysed(md, pk.drop_last()) + if is_member(md, pk.last()) && !spec_is_test_crate(
            pk.last().name@,
        ) {
            seq![pk.last()]
        } else {
            Seq::empty()
        }
    }
}

/// A crate's MSRV row: its `rust-version`, or `-`.
pub open spec fn msrv_row(p: Package) -> PerView {
    (
        p.name@,
        "~msrv"@,
        match p.rust_version {
            Some(v) => v@,
            None => "-"@,
        },
        Scope::Msrv,
        "-"@,
    )
}

/// The MSRV rows of packages.
pub open spec fn msrv_rows(ps: Seq<Package>) -> Seq<PerView>
    decreases ps.len(),
{
    if ps.len() == 0 {
        Seq::empty()
    } else {
        msrv_rows(ps.drop_last()).push(msrv_row(ps.last()))
    }
}

/// A dependency counts for the per-crate table: a runtime (`normal` or unset) or build
/// dependency.
pub open spec fn counts(kind: Option<Seq<char>>) -> bool {
    match kind {
        Some(k) => k == "normal"@ || k == "build"@,
        None => true,
    }
}

/// The row of a package's dependency: internal when it names a workspace member.
pub open spec fn dep_row(md: Metadata, p: Package, d: Dependency) -> PerView {
    (
        p.name@,
        dep_key(d),
        req_of(d),
        if member_names(md, md.packages@).contains(d.name@) {
            Scope::Internal
        } else {
            Scope::External
        },
        d.name@,
    )
}

/// The rows of a package's counted dependencies.
pub open spec fn dep_rows(md: Metadata, p: Package, ds: Seq<Dependency>) -> Seq<PerView>
    decreases ds.len(),
{
    if ds.len() == 0 {
        Seq::empty()
    } else {
        dep_rows(md, p, ds.drop_last()) + if counts(opt_view(ds.last().kind)) {
            seq![dep_row(md, p, ds.last())]
        } else {
            Seq::empty()
        }
    }
}

/// The dependency rows of packages.
pub open spec fn all_dep_rows(md: Metadata, ps: Seq<Package>) -> Seq<PerView>
    decreases ps.len(),
{
    if ps.len() == 0 {
        Seq::empty()
    } else {
        all_dep_rows(md, ps.drop_last()) + dep_rows(md, ps.last(), ps.last().dependencies@)
    }
}

/// Every candidate row, in the order they are offered: the MSRV rows, then the dependency
/// rows.
pub open spec fn candidate_rows(md: Metadata) -> Seq<PerView> {
    let ps = analysed(md, md.packages@);
    msrv_rows(ps) + all_dep_rows(md, ps)
}

/// The (crate, dependency) key of a row.
pub open spec fn row_key(r: PerView) -> Seq<Seq<char>> {
    seq![r.0, r.1]
}

/// The first row with a key.
pub open spec fn first_with(rows: Seq<PerView>, k: Seq<Seq<char>>) -> Option<PerView>
    decreases rows.len(),
{
    if rows.len() == 0 {
        None
    } else if row_key(rows[0]) == k {
        Some(rows[0])
    } else {
        first_with(rows.skip(1), k)
    }
}

fn names_exec(md: &Metadata) -> (r: Vec<String>)
    ensures
        sviews(r@) == member_names(*md, md.packages@),
{
    let mut out: Vec<String> = Vec::new();
    let mut i: usize = 0;
    assert(sviews(out@) =~= member_names(*md, md.packages@.take(0)));
    while i < md.packages.len()
        invariant
            i <= md.packages.len(),
            sviews(out@) == member_names(*md, md.packages@.take(i as int)),
        decreases md.packages.len() - i,
    {
        assert(md.packages@.take(i + 1).drop_last() =~= md.packages@.take(i as int));
        assert(md.packages@.take(i + 1).last() == md.packages@[i as int]);
        if member_exec(md, &md.packages[i]) {
            let ghost before = out@;
            out.push(md.packages[i].name.clone());
            assert(sviews(out@) =~= sviews(before).push(md.packages@[i as int].name@));
        } else {
            assert(sviews(out@) =~= member_names(*md, md.packages@.take(i as int)) + Seq::<Seq<char>>::empty());
        }
        i += 1;
    }
    assert(md.packages@.take(md.packages.len() as int) =~= md.packages@);
    out
}

fn contains_name(v: &Vec<String>, x: &str) -> (r: bool)
    ensures
        r == sviews(v@).contains(x@),
{
    let ghost sv = sviews(v@);
    let mut i: usize = 0;
    while i < v.len()
        invariant
            i <= v.len(),
            sv == sviews(v@),
            forall|k: int| 0 <= k < i ==> sv[k] != x@,
        decreases v.len() - i,
    {
        if str_eq(v[i].as_str(), x) {
            assert(sv[i as int] == x@);
            return true;
        }
        i += 1;
    }
    false
}

fn push_per(out: &mut Vec<PerCrateDep>, d: PerCrateDep)
    ensures
        per_views(final(out)@) == per_views(old(out)@).push(per_view(d)),
{
    let ghost before = out@;
    let ghost dv = per_view(d);
    out.push(d);
    assert(per_views(out@) =~= per_views(before).push(dv));
}

fn opt_string(o: &Option<String>, default: &str) -> (r: String)
    ensures
        r@ == match opt_view(*o) {
            Some(v) => v,
            None => default@,
        },
{
    match o {
        Some(v) => v.clone(),
        None => string_of(&chars_of(default)),
    }
}

fn dep_key_exec(d: &Dependency) -> (r: String)
    ensures
        r@ == dep_key(*d),
{
    match &d.rename {
        Some(r) => r.clone(),
        None => d.name.clone(),
    }
}

fn candidates_exec(md: &Metadata) -> (r: Vec<PerCrateDep>)
    ensures
        per_views(r@) == candidate_rows(*md),
{
    let names = names_exec(md);
    let ghost pk = md.packages@;
    let mut out: Vec<PerCrateDep> = Vec::new();
    let mut i: usize = 0;
    assert(per_views(out@) =~= msrv_rows(analysed(*md, pk.take(0))));
    while i < md.packages.len()
        invariant
            i <= md.packages.len(),
            pk == md.packages@,
            per_views(out@) == msrv_rows(analysed(*md, pk.take(i as int))),
        decreases md.packages.len() - i,
    {
        assert(pk.take(i + 1).drop_last() =~= pk.take(i as int));
        assert(pk.take(i + 1).last() == pk[i as int]);
        let p = &md.packages[i];
        if member_exec(md, p) && !is_test_crate(p.name.as_str()) {
            proof {
                reveal_strlit("~msrv");
                reveal_strlit("-");
            }
            push_per(
                &mut out,
                PerCrateDep {
                    crate_name: p.name.clone(),
                    dep: string_of(&chars_of("~msrv")),
                    req: opt_string(&p.rust_version, "-"),
                    scope: Scope::Msrv,
                    pkg: string_of(&chars_of("-")),
                },
            );
            let ghost prev = analysed(*md, pk.take(i as int));
            assert(analysed(*md, pk.take(i + 1)) =~= prev.push(pk[i as int]));
            assert(prev.push(pk[i as int]).drop_last() =~= prev);
            assert(msrv_rows(prev.push(pk[i as int])) == msrv_rows(prev).push(msrv_row(pk[i as int])));
        } else {
            assert(analysed(*md, pk.take(i + 1)) =~= analysed(*md, pk.take(i as int)));
        }
        i += 1;
    }
    assert(pk.take(pk.len() as int) =~= pk);
    let ghost msrv = per_views(out@);
    let mut j: usize = 0;
    assert(per_views(out@) =~= msrv + all_dep_rows(*md, analysed(*md, pk.take(0))));
    while j < md.packages.len()
        invariant
            j <= md.packages.len(),
            pk == md.packages@,
            sviews(names@) == member_names(*md, md.packages@),
            per_views(out@) == msrv + all_dep_rows(*md, analysed(*md, pk.take(j as int))),
        decreases md.packages.len() - j,
    {
        assert(pk.take(j + 1).drop_last() =~= pk.take(j as int));
        assert(pk.take(j + 1).last() == pk[j as int]);
        let p = &md.packages[j];
        if member_exec(md, p) && !is_test_crate(p.name.as_str()) {
            let ghost base = per_views(out@);
            let ghost ds = p.dependencies@;
            let mut k: usize = 0;
            assert(per_views(out@) =~= base + dep_rows(*md, *p, ds.take(0)));
            while k < p.dependencies.len()
                invariant
                    k <= p.dependencies.len(),
                    ds == p.dependencies@,
                    sviews(names@) == member_names(*md, md.packages@),
                    per_views(out@) == base + dep_rows(*md, *p, ds.take(k as int)),
                decreases p.dependencies.len() - k,
            {
                assert(ds.take(k + 1).drop_last() =~= ds.take(k as int));
                assert(ds.take(k + 1).last() == ds[k as int]);
                let d = &p.dependencies[k];
                let counted = match &d.kind {
                    Some(kd) => str_eq(kd.as_str(), "normal") || str_eq(kd.as_str(), "build"),
                    None => true,
                };
                if counted {
                    let raw = opt_string(&d.req, "-");
                    let scope = if contains_name(&names, d.name.as_str()) {
                        Scope::Internal
                    } else {
                        Scope::External
                    };
                    push_per(
                        &mut out,
                        PerCrateDep {
                            crate_name: p.name.clone(),
                            dep: dep_key_exec(d),
                            req: strip_caret(raw.as_str()),
                            scope,
                            pkg: d.name.clone(),
                        },
                    );
                } else {
                    assert(per_views(out@) =~= base + dep_rows(*md, *p, ds.take(k as int)) + Seq::<PerView>::empty());
                }
                assert(per_views(out@) =~= base + dep_rows(*md, *p, ds.take(k + 1)));
                k += 1;
            }
            assert(ds.take(ds.len() as int) =~= ds);
            let ghost prev = analysed(*md, pk.take(j as int));
            assert(analysed(*md, pk.take(j + 1)) =~= prev.push(pk[j as int]));
            assert(prev.push(pk[j as int]).drop_last() =~= prev);
            assert(all_dep_rows(*md, analysed(*md, pk.take(j + 1))) =~= all_dep_rows(*md, analysed(*md, pk.take(j as int))) + dep_rows(*md, pk[j as int], ds));
            assert(per_views(out@) =~= msrv + all_dep_rows(*md, analysed(*md, pk.take(j + 1))));
        } else {
            assert(analysed(*md, pk.take(j + 1)) =~= analysed(*md, pk.take(j as int)));
        }
        j += 1;
    }
    out
}


/// The keys of rows.
pub open spec fn row_keys(rows: Seq<PerView>) -> Seq<Seq<Seq<char>>> {
    rows.map_values(|r: PerView| row_key(r))
}

fn key_of(d: &PerCrateDep) -> (r: Vec<Vec<char>>)
    ensures
        kview(r) == row_key(per_view(*d)),
{
    let r = vec![chars_of(d.crate_name.as_str()), chars_of(d.dep.as_str())];
    assert(kview(r) =~= row_key(per_view(*d)));
    r
}

fn first_index(cands: &Vec<PerCrateDep>, k: &Vec<Vec<char>>) -> (r: Option<usize>)
    ensures
        match r {
            Some(j) => j < cands.len() && first_with(per_views(cands@), kview(*k)) == Some(
                per_views(cands@)[j as int],
            ) && row_key(per_views(cands@)[j as int]) == kview(*k),
            None => forall|j: int| 0 <= j < cands.len() ==> row_key(#[trigger] per_views(cands@)[j]) != kview(*k),
        },
{
    let ghost cv = per_views(cands@);
    let mut j: usize = 0;
    assert(cv.skip(0) =~= cv);
    while j < cands.len()
        invariant
            j <= cands.len(),
            cv == per_views(cands@),
            first_with(cv, kview(*k)) == first_with(cv.skip(j as int), kview(*k)),
            forall|i: int| 0 <= i < j ==> row_key(#[trigger] cv[i]) != kview(*k),
        decreases cands.len() - j,
    {
        assert(cv.skip(j as int)[0] == cv[j as int]);
        let kj = key_of(&cands[j]);
        if crate::order::keys_eq(&kj, k) {
            return Some(j);
        }
        assert(cv.skip(j as int).skip(1) =~= cv.skip(j + 1));
        j += 1;
    }
    None
}

fn copy_per(d: &PerCrateDep) -> (r: PerCrateDep)
    ensures
        per_view(r) == per_view(*d),
{
    PerCrateDep {
        crate_name: d.crate_name.clone(),
        dep: d.dep.clone(),
        req: d.req.clone(),
        scope: d.scope,
        pkg: d.pkg.clone(),
    }
}

/// Each workspace member's direct runtime and build dependencies, and its MSRV row, as one
/// table sorted by (crate, dependency): the first row offered for a key is kept, MSRV rows
/// first, then dependencies in manifest order.
pub fn classify_per_crate_deps(md: &Metadata) -> (r: Vec<PerCrateDep>)
    ensures
        keys_sorted(row_keys(per_views(r@))),
        forall|i: int|
            0 <= i < r@.len() ==> first_with(candidate_rows(*md), row_key(#[trigger] per_views(r@)[i]))
                == Some(per_views(r@)[i]),
        forall|j: int|
            0 <= j < candidate_rows(*md).len() ==> exists|i: int|
                0 <= i < r@.len() && row_key(#[trigger] per_views(r@)[i]) == row_key(
                    #[trigger] candidate_rows(*md)[j],
                ),
        forall|i: int| 0 <= i < r@.len() ==> #[trigger] per_crate_row_of(*md, per_views(r@)[i]),
        forall|q: int| 0 <= q < analysed(*md, md.packages@).len() ==> #[trigger] has_msrv_row(*md, per_views(r@), q),
{
    let cands = candidates_exec(md);
    let ghost cv = per_views(cands@);
    let mut keys: Vec<Vec<Vec<char>>> = Vec::new();
    let mut i: usize = 0;
    assert(kviews(keys@).to_set() =~= row_keys(cv.take(0)).to_set());
    while i < cands.len()
        invariant
            i <= cands.len(),
            cv == per_views(cands@),
            keys_sorted(kviews(keys@)),
            kviews(keys@).to_set() == row_keys(cv.take(i as int)).to_set(),
        decreases cands.len() - i,
    {
        let k = key_of(&cands[i]);
        insert_key(&mut keys, k);
        assert(row_keys(cv.take(i + 1)) =~= row_keys(cv.take(i as int)).push(row_key(cv[i as int])));
        proof {
            row_keys(cv.take(i as int)).lemma_push_to_set_commute(row_key(cv[i as int]));
        }
        i += 1;
    }
    assert(cv.take(cands.len() as int) =~= cv);
    let ghost kv = kviews(keys@);
    let mut out: Vec<PerCrateDep> = Vec::new();
    let mut m: usize = 0;
    while m < keys.len()
        invariant
            m <= keys.len(),
            cv == per_views(cands@),
            kv == kviews(keys@),
            keys_sorted(kv),
            kv.to_set() == row_keys(cv).to_set(),
            out@.len() == m,
            forall|a: int| 0 <= a < m ==> row_key(#[trigger] per_views(out@)[a]) == kv[a],
            forall|a: int| 0 <= a < m ==> first_with(cv, row_key(#[trigger] per_views(out@)[a])) == Some(
                per_views(out@)[a],
            ),
        decreases keys.len() - m,
    {
        assert(kv.to_set().contains(kv[m as int]));
        assert(row_keys(cv).to_set().contains(kview(keys@[m as int])));
        match first_index(&cands, &keys[m]) {
            Some(j) => {
                let ghost before = out@;
                let c = copy_per(&cands[j]);
                out.push(c);
                assert(per_views(out@) =~= per_views(before).push(cv[j as int]));
            },
            None => {
                proof {
                    let w = choose|w: int| 0 <= w < row_keys(cv).len() && row_keys(cv)[w] == kview(keys@[m as int]);
                    assert(row_key(cv[w]) == kview(keys@[m as int]));
                    assert(false);
                }
            },
        }
        m += 1;
    }
    assert(row_keys(per_views(out@)) =~= kv);
    assert forall|j: int| 0 <= j < cv.len() implies exists|a: int|
        0 <= a < out@.len() && row_key(#[trigger] per_views(out@)[a]) == row_key(#[trigger] cv[j]) by {
        assert(row_keys(cv)[j] == row_key(cv[j]));
        assert(kv.to_set().contains(row_key(cv[j])));
        let a = choose|a: int| 0 <= a < kv.len() && kv[a] == row_key(cv[j]);
        assert(row_key(per_views(out@)[a]) == kv[a]);
    }
    proof {
        let ov = per_views(out@);
        assert forall|i: int| 0 <= i < out@.len() implies #[trigger] per_crate_row_of(*md, ov[i]) by {
            law_per_crate_row_origin(*md, ov[i]);
        }
        let ps = analysed(*md, md.packages@);
        lemma_msrv_rows(ps);
        assert forall|q: int| 0 <= q < ps.len() implies #[trigger] has_msrv_row(*md, ov, q) by {
            assert(cv[q] == msrv_rows(ps)[q]);
            let a = choose|a: int| 0 <= a < out@.len() && row_key(#[trigger] ov[a]) == row_key(cv[q]);
            lemma_first_with_before(cv, q);
            let j = choose|j: int| 0 <= j <= q && first_with(cv, row_key(cv[q])) == Some(cv[j]) && row_key(cv[j]) == row_key(cv[q]);
            assert(cv[j] == msrv_rows(ps)[j]);
            assert(row_key(cv[j])[0] == ps[j].name@);
            assert(row_key(cv[q])[0] == ps[q].name@);
        }
    }
    out
}


/// The dependencies declared by the packages that are not test crates, in order.
pub open spec fn uses(pk: Seq<Package>) -> Seq<Dependency>
    decreases pk.len(),
{
    if pk.len() == 0 {
        Seq::empty()
    } else {
        uses(pk.drop_last()) + if spec_is_test_crate(pk.last().name@) {
            Seq::empty()
        } else {
            pk.last().dependencies@
        }
    }
}

/// The keys of dependencies.
pub open spec fn use_keys(us: Seq<Dependency>) -> Seq<Seq<char>> {
    us.map_values(|d: Dependency| dep_key(d))
}

/// The first dependency with a key: the declaration the table takes the package and
/// requirement from.
pub open spec fn first_use(us: Seq<Dependency>, k: Seq<char>) -> Option<Dependency>
    decreases us.len(),
{
    if us.len() == 0 {
        None
    } else if dep_key(us[0]) == k {
        Some(us[0])
    } else {
        first_use(us.skip(1), k)
    }
}

/// A usage's strength merged over declarations: kind, optional, default features, features.
pub type AggView = (DepKind, bool, bool, Set<Seq<char>>);

/// The features a declaration enables.
pub open spec fn feature_set(d: Dependency) -> Set<Seq<char>> {
    match d.features {
        Some(f) => sviews(f@).to_set(),
        None => Set::empty(),
    }
}

/// Whether a declaration is optional (not when unset).
pub open spec fn usage_optional(d: Dependency) -> bool {
    match d.optional {
        Some(b) => b,
        None => false,
    }
}

/// Whether a declaration uses default features (yes when unset).
pub open spec fn usage_default(d: Dependency) -> bool {
    match d.uses_default_features {
        Some(b) => b,
        None => true,
    }
}

/// One more declaration merged in: the stronger kind wins with its optionality, equal kinds
/// are optional only if both are, default features if any declaration uses them, and the
/// union of the features.
pub open spec fn merge(a: Option<AggView>, d: Dependency) -> AggView {
    let kind = spec_dependency_kind(opt_view(d.kind));
    match a {
        None => (kind, usage_optional(d), usage_default(d), feature_set(d)),
        Some(a) => {
            let (k, o) = if kind.spec_rank() > a.0.spec_rank() {
                (kind, usage_optional(d))
            } else if kind == a.0 {
                (a.0, a.1 && usage_optional(d))
            } else {
                (a.0, a.1)
            };
            (k, o, a.2 || usage_default(d), a.3.union(feature_set(d)))
        },
    }
}

/// The merged usage of every declaration with the key.
pub open spec fn aggregate(us: Seq<Dependency>, k: Seq<char>) -> Option<AggView>
    decreases us.len(),
{
    if us.len() == 0 {
        None
    } else if dep_key(us.last()) == k {
        Some(merge(aggregate(us.drop_last(), k), us.last()))
    } else {
        aggregate(us.drop_last(), k)
    }
}

/// The display name of a dependency: its key, and its package where the key renames it.
pub open spec fn display(k: Seq<char>, pkg: Seq<char>) -> Seq<char> {
    if k == pkg {
        k
    } else {
        k + " (pkg: "@ + pkg + ")"@
    }
}

/// A dependency record as plain values.
pub type RecordView = (Seq<char>, DepKind, bool, bool, Seq<Seq<char>>);

/// The plain values of a record.
pub open spec fn record_view(r: DepRecord) -> RecordView {
    (r.ver@, r.kind, r.optional, r.default_features, crate::model::strings_view(r.features@))
}

/// The plain values of a table's entries.
pub open spec fn entry_views(t: Seq<(String, DepRecord)>) -> Seq<(Seq<char>, RecordView)> {
    t.map_values(|e: (String, DepRecord)| (e.0@, record_view(e.1)))
}

/// The table's entries for keys taken in order: each declared dependency that is not a
/// workspace member, under its display name, with its first requirement and merged usage.
pub open spec fn ws_entries(md: Metadata, us: Seq<Dependency>, keys: Seq<Seq<char>>) -> Seq<
    (Seq<char>, RecordView),
>
    decreases keys.len(),
{
    if keys.len() == 0 {
        Seq::empty()
    } else {
        let prev = ws_entries(md, us, keys.drop_last());
        let k = keys.last();
        match first_use(us, k) {
            None => prev,
            Some(d) => if member_names(md, md.packages@).contains(d.name@) {
                prev
            } else {
                let a = match aggregate(us, k) {
                    Some(a) => a,
                    None => (DepKind::Unused, false, true, Set::empty()),
                };
                prev.push((display(k, d.name@), (req_of(d), a.0, a.1, a.2, sorted_of(a.3))))
            },
        }
    }
}

/// The last entry with a name, as plain values.
pub open spec fn view_lookup(t: Seq<(Seq<char>, RecordView)>, name: Seq<char>) -> Option<RecordView>
    decreases t.len(),
{
    if t.len() == 0 {
        None
    } else if t.last().0 == name {
        Some(t.last().1)
    } else {
        view_lookup(t.drop_last(), name)
    }
}

proof fn lemma_view_lookup(t: Seq<(String, DepRecord)>, name: Seq<char>)
    ensures
        view_lookup(entry_views(t), name) == match crate::table::lookup(t, name) {
            Some(r) => Some(record_view(r)),
            None => None,
        },
    decreases t.len(),
{
    if t.len() > 0 {
        assert(entry_views(t).drop_last() =~= entry_views(t.drop_last()));
        lemma_view_lookup(t.drop_last(), name);
    }
}

fn use_positions(md: &Metadata) -> (r: Vec<(usize, usize)>)
    ensures
        r@.len() == uses(md.packages@).len(),
        forall|i: int|
            0 <= i < r@.len() ==> (#[trigger] r@[i]).0 < md.packages@.len() && r@[i].1
                < md.packages@[r@[i].0 as int].dependencies@.len() && md.packages@[r@[i].0 as int].dependencies@[r@[i].1 as int]
                == uses(md.packages@)[i],
{
    let ghost pk = md.packages@;
    let mut out: Vec<(usize, usize)> = Vec::new();
    let mut i: usize = 0;
    while i < md.packages.len()
        invariant
            i <= md.packages.len(),
            pk == md.packages@,
            out@.len() == uses(pk.take(i as int)).len(),
            forall|a: int|
                0 <= a < out@.len() ==> (#[trigger] out@[a]).0 < pk.len() && out@[a].1
                    < pk[out@[a].0 as int].dependencies@.len() && pk[out@[a].0 as int].dependencies@[out@[a].1 as int]
                    == uses(pk.take(i as int))[a],
        decreases md.packages.len() - i,
    {
        assert(pk.take(i + 1).drop_last() =~= pk.take(i as int));
        assert(pk.take(i + 1).last() == pk[i as int]);
        let ghost prev = uses(pk.take(i as int));
        if !is_test_crate(md.packages[i].name.as_str()) {
            let ghost ds = pk[i as int].dependencies@;
            let mut j: usize = 0;
            while j < md.packages[i].dependencies.len()
                invariant
                    i < md.packages.len(),
                    j <= ds.len(),
                    pk == md.packages@,
                    ds == pk[i as int].dependencies@,
                    out@.len() == prev.len() + j,
                    forall|a: int|
                        0 <= a < out@.len() ==> (#[trigger] out@[a]).0 < pk.len() && out@[a].1
                            < pk[out@[a].0 as int].dependencies@.len() && pk[out@[a].0 as int].dependencies@[out@[a].1 as int]
                            == (prev + ds)[a],
                decreases ds.len() - j,
            {
                out.push((i, j));
                j += 1;
            }
            assert(uses(pk.take(i + 1)) =~= prev + ds);
        } else {
            assert(uses(pk.take(i + 1)) =~= prev);
        }
        i += 1;
    }
    assert(pk.take(pk.len() as int) =~= pk);
    out
}


fn sorted_keys(md: &Metadata, pos: &Vec<(usize, usize)>) -> (r: Vec<Vec<char>>)
    requires
        pos@.len() == uses(md.packages@).len(),
        forall|i: int|
            0 <= i < pos@.len() ==> (#[trigger] pos@[i]).0 < md.packages@.len() && pos@[i].1
                < md.packages@[pos@[i].0 as int].dependencies@.len() && md.packages@[pos@[i].0 as int].dependencies@[pos@[i].1 as int]
                == uses(md.packages@)[i],
    ensures
        vviews(r@) == sorted_of(use_keys(uses(md.packages@)).to_set()),
{
    let ghost us = uses(md.packages@);
    let mut keys: Vec<Vec<char>> = Vec::new();
    let mut i: usize = 0;
    assert(vviews(keys@).to_set() =~= use_keys(us.take(0)).to_set());
    while i < pos.len()
        invariant
            i <= pos.len(),
            us == uses(md.packages@),
            pos@.len() == us.len(),
            forall|a: int|
                0 <= a < pos@.len() ==> (#[trigger] pos@[a]).0 < md.packages@.len() && pos@[a].1
                    < md.packages@[pos@[a].0 as int].dependencies@.len() && md.packages@[pos@[a].0 as int].dependencies@[pos@[a].1 as int]
                    == us[a],
            sorted_strict(vviews(keys@)),
            vviews(keys@).to_set() == use_keys(us.take(i as int)).to_set(),
        decreases pos.len() - i,
    {
        let (p, j) = pos[i];
        let d = &md.packages[p].dependencies[j];
        assert(*d == us[i as int]);
        let k = chars_of(dep_key_exec(d).as_str());
        insert_sorted(&mut keys, k);
        proof {
            assert(use_keys(us.take(i + 1)) =~= use_keys(us.take(i as int)).push(dep_key(us[i as int])));
            use_keys(us.take(i as int)).lemma_push_to_set_commute(dep_key(us[i as int]));
        }
        i += 1;
    }
    assert(us.take(pos.len() as int) =~= us);
    proof {
        lemma_sorted_of(vviews(keys@));
    }
    keys
}

fn first_use_exec(md: &Metadata, pos: &Vec<(usize, usize)>, k: &str) -> (r: Option<usize>)
    requires
        pos@.len() == uses(md.packages@).len(),
        forall|i: int|
            0 <= i < pos@.len() ==> (#[trigger] pos@[i]).0 < md.packages@.len() && pos@[i].1
                < md.packages@[pos@[i].0 as int].dependencies@.len() && md.packages@[pos@[i].0 as int].dependencies@[pos@[i].1 as int]
                == uses(md.packages@)[i],
    ensures
        match r {
            Some(i) => i < pos@.len() && first_use(uses(md.packages@), k@) == Some(uses(md.packages@)[i as int]),
            None => first_use(uses(md.packages@), k@) is None,
        },
{
    let ghost us = uses(md.packages@);
    let mut i: usize = 0;
    assert(us.skip(0) =~= us);
    while i < pos.len()
        invariant
            i <= pos.len(),
            us == uses(md.packages@),
            pos@.len() == us.len(),
            forall|a: int|
                0 <= a < pos@.len() ==> (#[trigger] pos@[a]).0 < md.packages@.len() && pos@[a].1
                    < md.packages@[pos@[a].0 as int].dependencies@.len() && md.packages@[pos@[a].0 as int].dependencies@[pos@[a].1 as int]
                    == us[a],
            first_use(us, k@) == first_use(us.skip(i as int), k@),
        decreases pos.len() - i,
    {
        let (p, j) = pos[i];
        let d = &md.packages[p].dependencies[j];
        assert(us.skip(i as int)[0] == us[i as int]);
        if str_eq(dep_key_exec(d).as_str(), k) {
            return Some(i);
        }
        assert(us.skip(i as int).skip(1) =~= us.skip(i + 1));
        i += 1;
    }
    None
}

/// The plain values of a merged usage being built.
pub open spec fn agg_view(found: bool, kind: DepKind, opt: bool, def: bool, feats: Seq<Vec<char>>) -> Option<
    AggView,
> {
    if found {
        Some((kind, opt, def, vviews(feats).to_set()))
    } else {
        None
    }
}

fn aggregate_exec(md: &Metadata, pos: &Vec<(usize, usize)>, k: &str) -> (r: (bool, DepKind, bool, bool, Vec<Vec<char>>))
    requires
        pos@.len() == uses(md.packages@).len(),
        forall|i: int|
            0 <= i < pos@.len() ==> (#[trigger] pos@[i]).0 < md.packages@.len() && pos@[i].1
                < md.packages@[pos@[i].0 as int].dependencies@.len() && md.packages@[pos@[i].0 as int].dependencies@[pos@[i].1 as int]
                == uses(md.packages@)[i],
    ensures
        agg_view(r.0, r.1, r.2, r.3, r.4@) == aggregate(uses(md.packages@), k@),
        sorted_strict(vviews(r.4@)),
        !r.0 ==> r.4@.len() == 0,
{
    let ghost us = uses(md.packages@);
    let mut found = false;
    let mut kind = DepKind::Unused;
    let mut opt = false;
    let mut def = true;
    let mut feats: Vec<Vec<char>> = Vec::new();
    let mut i: usize = 0;
    while i < pos.len()
        invariant
            i <= pos.len(),
            us == uses(md.packages@),
            pos@.len() == us.len(),
            forall|a: int|
                0 <= a < pos@.len() ==> (#[trigger] pos@[a]).0 < md.packages@.len() && pos@[a].1
                    < md.packages@[pos@[a].0 as int].dependencies@.len() && md.packages@[pos@[a].0 as int].dependencies@[pos@[a].1 as int]
                    == us[a],
            sorted_strict(vviews(feats@)),
            !found ==> feats@.len() == 0,
            agg_view(found, kind, opt, def, feats@) == aggregate(us.take(i as int), k@),
        decreases pos.len() - i,
    {
        assert(us.take(i + 1).drop_last() =~= us.take(i as int));
        assert(us.take(i + 1).last() == us[i as int]);
        let (p, j) = pos[i];
        let d = &md.packages[p].dependencies[j];
        assert(*d == us[i as int]);
        if str_eq(dep_key_exec(d).as_str(), k) {
            let uk = dependency_kind(&d.kind);
            let uo = match d.optional {
                Some(b) => b,
                None => false,
            };
            let ud = match d.uses_default_features {
                Some(b) => b,
                None => true,
            };
            let ghost old_set = if found { vviews(feats@).to_set() } else { Set::<Seq<char>>::empty() };
            if !found {
                feats = Vec::new();
                assert(vviews(feats@).to_set() =~= Set::<Seq<char>>::empty());
                kind = uk;
                opt = uo;
                def = ud;
                found = true;
            } else {
                if uk.rank() > kind.rank() {
                    kind = uk;
                    opt = uo;
                } else if uk == kind {
                    opt = opt && uo;
                }
                def = def || ud;
            }
            match &d.features {
                Some(fs) => {
                    let ghost fv = sviews(fs@);
                    let mut t: usize = 0;
                    assert(vviews(feats@).to_set() =~= old_set.union(fv.take(0).to_set()));
                    while t < fs.len()
                        invariant
                            t <= fs.len(),
                            fv == sviews(fs@),
                            sorted_strict(vviews(feats@)),
                            vviews(feats@).to_set() == old_set.union(fv.take(t as int).to_set()),
                        decreases fs.len() - t,
                    {
                        insert_sorted(&mut feats, chars_of(fs[t].as_str()));
                        proof {
                            assert(fv.take(t + 1) =~= fv.take(t as int).push(fv[t as int]));
                            fv.take(t as int).lemma_push_to_set_commute(fv[t as int]);
                        }
                        assert(vviews(feats@).to_set() =~= old_set.union(fv.take(t + 1).to_set()));
                        t += 1;
                    }
                    assert(fv.take(fs.len() as int) =~= fv);
                },
                None => {
                    assert(vviews(feats@).to_set() =~= old_set.union(Set::<Seq<char>>::empty()));
                },
            }
            assert(agg_view(found, kind, opt, def, feats@) == Some(merge(aggregate(us.take(i as int), k@), us[i as int])));
        }
        i += 1;
    }
    assert(us.take(pos.len() as int) =~= us);
    (found, kind, opt, def, feats)
}

fn push_entry(v: &mut Vec<(String, DepRecord)>, name: String, rec: DepRecord)
    ensures
        entry_views(final(v)@) == entry_views(old(v)@).push((name@, record_view(rec))),
{
    let ghost before = v@;
    let ghost e = (name@, record_view(rec));
    v.push((name, rec));
    assert(entry_views(v@) =~= entry_views(before).push(e));
}

/// The merged external dependency table of the workspace: every dependency declared by a
/// package that is not a test crate, except workspace members, under its display name,
/// with the requirement of its first declaration and its usage merged over all of them.
pub fn classify_workspace_deps(md: &Metadata) -> (r: Vec<(String, DepRecord)>)
    ensures
        crate::table::is_table(r@),
        forall|name: Seq<char>|
            #[trigger] view_lookup(entry_views(r@), name) == view_lookup(
                ws_entries(*md, uses(md.packages@), sorted_of(use_keys(uses(md.packages@)).to_set())),
                name,
            ),
{
    let ghost us = uses(md.packages@);
    let pos = use_positions(md);
    let keys = sorted_keys(md, &pos);
    let ghost kv = vviews(keys@);
    let names = names_exec(md);
    let mut entries: Vec<(String, DepRecord)> = Vec::new();
    let mut m: usize = 0;
    assert(entry_views(entries@) =~= ws_entries(*md, us, kv.take(0)));
    while m < keys.len()
        invariant
            m <= keys.len(),
            us == uses(md.packages@),
            kv == vviews(keys@),
            pos@.len() == us.len(),
            forall|a: int|
                0 <= a < pos@.len() ==> (#[trigger] pos@[a]).0 < md.packages@.len() && pos@[a].1
                    < md.packages@[pos@[a].0 as int].dependencies@.len() && md.packages@[pos@[a].0 as int].dependencies@[pos@[a].1 as int]
                    == us[a],
            sviews(names@) == member_names(*md, md.packages@),
            entry_views(entries@) == ws_entries(*md, us, kv.take(m as int)),
        decreases keys.len() - m,
    {
        assert(kv.take(m + 1).drop_last() =~= kv.take(m as int));
        assert(kv.take(m + 1).last() == kv[m as int]);
        let k = string_of(&keys[m]);
        match first_use_exec(md, &pos, k.as_str()) {
            None => {},
            Some(i) => {
                let (p, j) = pos[i];
                let d = &md.packages[p].dependencies[j];
                if !contains_name(&names, d.name.as_str()) {
                    let (found, kind, opt, def, feats) = aggregate_exec(md, &pos, k.as_str());
                    let mut features: Vec<String> = Vec::new();
                    let mut t: usize = 0;
                    while t < feats.len()
                        invariant
                            t <= feats.len(),
                            crate::model::strings_view(features@) == vviews(feats@).take(t as int),
                        decreases feats.len() - t,
                    {
                        let ghost before = features@;
                        features.push(string_of(&feats[t]));
                        assert(crate::model::strings_view(features@) =~= crate::model::strings_view(before).push(feats@[t as int]@));
                        assert(vviews(feats@).take(t + 1) =~= vviews(feats@).take(t as int).push(feats@[t as int]@));
                        t += 1;
                    }
                    assert(vviews(feats@).take(feats.len() as int) =~= vviews(feats@));
                    proof {
                        lemma_sorted_of(vviews(feats@));
                        if !found {
                            assert(vviews(feats@).to_set() =~= Set::<Seq<char>>::empty()) by {
                                assert(feats@.len() == 0);
                            }
                        }
                    }
                    let raw = opt_string(&d.req, "-");
                    let rec = DepRecord {
                        ver: strip_caret(raw.as_str()),
                        kind: if found { kind } else { DepKind::Unused },
                        optional: if found { opt } else { false },
                        default_features: if found { def } else { true },
                        features,
                    };
                    let mut shown = chars_of(k.as_str());
                    if !str_eq(k.as_str(), d.name.as_str()) {
                        push_str_chars(&mut shown, " (pkg: ");
                        push_str_chars(&mut shown, d.name.as_str());
                        push_str_chars(&mut shown, ")");
                    }
                    push_entry(&mut entries, string_of(&shown), rec);
                }
            },
        }
        m += 1;
    }
    assert(kv.take(keys.len() as int) =~= kv);
    let r = crate::table::table_from(entries);
    proof {
        assert forall|name: Seq<char>|
            #[trigger] view_lookup(entry_views(r@), name) == view_lookup(
                ws_entries(*md, us, kv),
                name,
            ) by {
            lemma_view_lookup(r@, name);
            lemma_view_lookup(entries@, name);
        }
    }
    r
}


/// The dependency kind named by a cache tag (`runtime`, `build`, `dev`, `unused`).
pub fn parse_kind(tag: &str) -> (r: Option<DepKind>)
    ensures
        match r {
            Some(k) => k.spec_str() == tag@,
            None => tag@ != "runtime"@ && tag@ != "build"@ && tag@ != "dev"@ && tag@ != "unused"@,
        },
{
    if str_eq(tag, "runtime") {
        Some(DepKind::Runtime)
    } else if str_eq(tag, "build") {
        Some(DepKind::Build)
    } else if str_eq(tag, "dev") {
        Some(DepKind::Dev)
    } else if str_eq(tag, "unused") {
        Some(DepKind::Unused)
    } else {
        None
    }
}

/// The cache tag of a per-crate scope.
pub open spec fn spec_scope_tag(scope: Scope) -> Seq<char> {
    match scope {
        Scope::Internal => "int"@,
        Scope::External => "ext"@,
        Scope::Msrv => "msrv"@,
    }
}

/// The cache tag of a per-crate scope (`int`, `ext`, `msrv`).
pub fn scope_tag(scope: Scope) -> (r: &'static str)
    ensures
        r@ == spec_scope_tag(scope),
{
    match scope {
        Scope::Internal => "int",
        Scope::External => "ext",
        Scope::Msrv => "msrv",
    }
}

/// The per-crate scope named by a cache tag.
pub fn parse_scope(tag: &str) -> (r: Option<Scope>)
    ensures
        match r {
            Some(s) => spec_scope_tag(s) == tag@,
            None => tag@ != "int"@ && tag@ != "ext"@ && tag@ != "msrv"@,
        },
{
    if str_eq(tag, "int") {
        Some(Scope::Internal)
    } else if str_eq(tag, "ext") {
        Some(Scope::External)
    } else if str_eq(tag, "msrv") {
        Some(Scope::Msrv)
    } else {
        None
    }
}

/// The dependency caches read back what they wrote: every kind is written as one of the
/// four tags `parse_kind` reads, every scope as one of the three `parse_scope` reads, and
/// no two kinds or two scopes share a tag, so the tag read names the kind or scope written.
pub proof fn law_cache_tags_round_trip(k: DepKind, k2: DepKind, s: Scope, s2: Scope)
    ensures
        k.spec_str() == "runtime"@ || k.spec_str() == "build"@ || k.spec_str() == "dev"@
            || k.spec_str() == "unused"@,
        k.spec_str() == k2.spec_str() ==> k == k2,
        spec_scope_tag(s) == "int"@ || spec_scope_tag(s) == "ext"@ || spec_scope_tag(s) == "msrv"@,
        spec_scope_tag(s) == spec_scope_tag(s2) ==> s == s2,
{
    reveal_strlit("runtime");
    reveal_strlit("build");
    reveal_strlit("dev");
    reveal_strlit("unused");
    reveal_strlit("int");
    reveal_strlit("ext");
    reveal_strlit("msrv");
    if k.spec_str() == k2.spec_str() && k != k2 {
        assert(k.spec_str()[0] == k2.spec_str()[0]);
        assert(k.spec_str().len() == k2.spec_str().len());
    }
    if spec_scope_tag(s) == spec_scope_tag(s2) && s != s2 {
        assert(spec_scope_tag(s)[0] == spec_scope_tag(s2)[0]);
        assert(spec_scope_tag(s).len() == spec_scope_tag(s2).len());
    }
}

/// The kind a declaration is used with.
pub open spec fn use_kind(d: Dependency) -> DepKind {
    spec_dependency_kind(opt_view(d.kind))
}

/// What the merged usage of a key says of the declarations with that key: its kind is the
/// kind of one of them and ranks at least as high as each; it is optional exactly when every
/// declaration of that kind is; it uses default features exactly when one of them does; and
/// its features are all of theirs.
pub open spec fn strongest_usage(us: Seq<Dependency>, k: Seq<char>, a: AggView) -> bool {
    &&& exists|i: int| 0 <= i < us.len() && dep_key(#[trigger] us[i]) == k && use_kind(us[i]) == a.0
    &&& forall|i: int| 0 <= i < us.len() && dep_key(#[trigger] us[i]) == k ==> use_kind(us[i]).spec_rank() <= a.0.spec_rank()
    &&& a.1 <==> forall|i: int| 0 <= i < us.len() && dep_key(#[trigger] us[i]) == k && use_kind(us[i]) == a.0 ==> usage_optional(us[i])
    &&& a.2 <==> exists|i: int| 0 <= i < us.len() && dep_key(#[trigger] us[i]) == k && usage_default(us[i])
    &&& forall|f: Seq<char>| #[trigger] a.3.contains(f) <==> exists|i: int| 0 <= i < us.len() && dep_key(#[trigger] us[i]) == k && feature_set(us[i]).contains(f)
}

/// Each workspace dependency is classified by the strongest kind it is used with
/// (runtime over build over dev): the merged usage of a declared key is the strongest of
/// its declarations, optional only when every declaration of that kind is, with default
/// features when any declaration asks for them and the union of their features; a key
/// nobody declares has no usage.
pub proof fn law_strongest_kind_wins(us: Seq<Dependency>, k: Seq<char>)
    ensures
        match aggregate(us, k) {
            Some(a) => strongest_usage(us, k, a),
            None => forall|i: int| 0 <= i < us.len() ==> dep_key(#[trigger] us[i]) != k,
        },
    decreases us.len(),
{
    if us.len() > 0 {
        let init = us.drop_last();
        let n = us.len() - 1;
        let d = us[n];
        law_strongest_kind_wins(init, k);
        assert(forall|i: int| 0 <= i < init.len() ==> #[trigger] init[i] == us[i]);
        assert(us.last() == d);
        if dep_key(d) != k {
            assert(aggregate(us, k) == aggregate(init, k));
            match aggregate(init, k) {
                Some(a) => {
                    lemma_strongest_extend_other(init, us, k, a);
                },
                None => {
                    assert forall|i: int| 0 <= i < us.len() implies dep_key(#[trigger] us[i]) != k by {
                        if i < n {
                            assert(init[i] == us[i]);
                        }
                    }
                },
            }
        } else {
            assert(aggregate(us, k) == Some(merge(aggregate(init, k), d)));
            match aggregate(init, k) {
                None => {
                    lemma_strongest_first(init, us, k);
                },
                Some(a0) => {
                    lemma_strongest_merge(init, us, k, a0);
                },
            }
        }
    }
}

proof fn lemma_strongest_extend_other(init: Seq<Dependency>, us: Seq<Dependency>, k: Seq<char>, a: AggView)
    requires
        us.len() == init.len() + 1,
        forall|i: int| 0 <= i < init.len() ==> #[trigger] init[i] == us[i],
        dep_key(us[init.len() as int]) != k,
        strongest_usage(init, k, a),
    ensures
        strongest_usage(us, k, a),
{
    let n = init.len() as int;
    let wi = choose|i: int| 0 <= i < init.len() && dep_key(#[trigger] init[i]) == k && use_kind(init[i]) == a.0;
    assert(us[wi] == init[wi]);
    assert forall|i: int| 0 <= i < us.len() && dep_key(#[trigger] us[i]) == k implies use_kind(us[i]).spec_rank() <= a.0.spec_rank() by {
        assert(i < n);
        assert(init[i] == us[i]);
    }
    assert((forall|i: int| 0 <= i < us.len() && dep_key(#[trigger] us[i]) == k && use_kind(us[i]) == a.0 ==> usage_optional(us[i])) <==> (forall|i: int| 0 <= i < init.len() && dep_key(#[trigger] init[i]) == k && use_kind(init[i]) == a.0 ==> usage_optional(init[i]))) by {
        if forall|i: int| 0 <= i < init.len() && dep_key(#[trigger] init[i]) == k && use_kind(init[i]) == a.0 ==> usage_optional(init[i]) {
            assert forall|i: int| 0 <= i < us.len() && dep_key(#[trigger] us[i]) == k && use_kind(us[i]) == a.0 implies usage_optional(us[i]) by {
                assert(i < n);
                assert(init[i] == us[i]);
            }
        }
        if forall|i: int| 0 <= i < us.len() && dep_key(#[trigger] us[i]) == k && use_kind(us[i]) == a.0 ==> usage_optional(us[i]) {
            assert forall|i: int| 0 <= i < init.len() && dep_key(#[trigger] init[i]) == k && use_kind(init[i]) == a.0 implies usage_optional(init[i]) by {
                assert(init[i] == us[i]);
            }
        }
    }
    assert((exists|i: int| 0 <= i < us.len() && dep_key(#[trigger] us[i]) == k && usage_default(us[i])) <==> (exists|i: int| 0 <= i < init.len() && dep_key(#[trigger] init[i]) == k && usage_default(init[i]))) by {
        if exists|i: int| 0 <= i < us.len() && dep_key(#[trigger] us[i]) == k && usage_default(us[i]) {
            let di = choose|i: int| 0 <= i < us.len() && dep_key(#[trigger] us[i]) == k && usage_default(us[i]);
            assert(di < n);
            assert(init[di] == us[di]);
        }
        if exists|i: int| 0 <= i < init.len() && dep_key(#[trigger] init[i]) == k && usage_default(init[i]) {
            let di = choose|i: int| 0 <= i < init.len() && dep_key(#[trigger] init[i]) == k && usage_default(init[i]);
            assert(us[di] == init[di]);
        }
    }
    assert forall|f: Seq<char>| #[trigger] a.3.contains(f) <==> exists|i: int| 0 <= i < us.len() && dep_key(#[trigger] us[i]) == k && feature_set(us[i]).contains(f) by {
        if a.3.contains(f) {
            let fi = choose|i: int| 0 <= i < init.len() && dep_key(#[trigger] init[i]) == k && feature_set(init[i]).contains(f);
            assert(us[fi] == init[fi]);
        }
        if exists|i: int| 0 <= i < us.len() && dep_key(#[trigger] us[i]) == k && feature_set(us[i]).contains(f) {
            let fi = choose|i: int| 0 <= i < us.len() && dep_key(#[trigger] us[i]) == k && feature_set(us[i]).contains(f);
            assert(fi < n);
            assert(init[fi] == us[fi]);
        }
    }
}

proof fn lemma_strongest_first(init: Seq<Dependency>, us: Seq<Dependency>, k: Seq<char>)
    requires
        us.len() == init.len() + 1,
        forall|i: int| 0 <= i < init.len() ==> #[trigger] init[i] == us[i],
        dep_key(us[init.len() as int]) == k,
        forall|i: int| 0 <= i < init.len() ==> dep_key(#[trigger] init[i]) != k,
    ensures
        strongest_usage(us, k, merge(None, us[init.len() as int])),
{
    let n = init.len() as int;
    let d = us[n];
    let a = merge(None, d);
    assert(forall|i: int| 0 <= i < us.len() && dep_key(#[trigger] us[i]) == k ==> i == n) by {
        assert forall|i: int| 0 <= i < us.len() && dep_key(#[trigger] us[i]) == k implies i == n by {
            if i < n {
                assert(init[i] == us[i]);
            }
        }
    }
    assert(dep_key(us[n]) == k && use_kind(us[n]) == a.0);
    assert forall|f: Seq<char>| #[trigger] a.3.contains(f) <==> exists|i: int| 0 <= i < us.len() && dep_key(#[trigger] us[i]) == k && feature_set(us[i]).contains(f) by {
        if a.3.contains(f) {
            assert(dep_key(us[n]) == k && feature_set(us[n]).contains(f));
        }
    }
    if a.2 {
        assert(dep_key(us[n]) == k && usage_default(us[n]));
    }
}

proof fn lemma_strongest_merge(init: Seq<Dependency>, us: Seq<Dependency>, k: Seq<char>, a0: AggView)
    requires
        us.len() == init.len() + 1,
        forall|i: int| 0 <= i < init.len() ==> #[trigger] init[i] == us[i],
        dep_key(us[init.len() as int]) == k,
        strongest_usage(init, k, a0),
    ensures
        strongest_usage(us, k, merge(Some(a0), us[init.len() as int])),
{
    let n = init.len() as int;
    let d = us[n];
    let kd = use_kind(d);
    let a = merge(Some(a0), d);
    let wi = choose|i: int| 0 <= i < init.len() && dep_key(#[trigger] init[i]) == k && use_kind(init[i]) == a0.0;
    assert(us[wi] == init[wi]);
    assert(kd.spec_rank() != a0.0.spec_rank() ==> kd != a0.0);
    assert(kd != a0.0 ==> kd.spec_rank() != a0.0.spec_rank());
    // kind: one of the declarations, at least as strong as each
    assert(dep_key(us[n]) == k && use_kind(us[n]) == kd);
    assert forall|i: int| 0 <= i < us.len() && dep_key(#[trigger] us[i]) == k implies use_kind(us[i]).spec_rank() <= a.0.spec_rank() by {
        if i < n {
            assert(init[i] == us[i]);
        }
    }
    // optional
    assert(a.1 <==> forall|i: int| 0 <= i < us.len() && dep_key(#[trigger] us[i]) == k && use_kind(us[i]) == a.0 ==> usage_optional(us[i])) by {
        if kd.spec_rank() > a0.0.spec_rank() {
            assert forall|i: int| 0 <= i < us.len() && dep_key(#[trigger] us[i]) == k && use_kind(us[i]) == a.0 implies i == n by {
                if i < n {
                    assert(init[i] == us[i]);
                    assert(use_kind(init[i]).spec_rank() <= a0.0.spec_rank());
                }
            }
        } else if kd == a0.0 {
            if a.1 {
                assert forall|i: int| 0 <= i < us.len() && dep_key(#[trigger] us[i]) == k && use_kind(us[i]) == a.0 implies usage_optional(us[i]) by {
                    if i < n {
                        assert(init[i] == us[i]);
                    }
                }
            } else if !a0.1 {
                let oi = choose|i: int| !(0 <= i < init.len() && dep_key(#[trigger] init[i]) == k && use_kind(init[i]) == a0.0 ==> usage_optional(init[i]));
                assert(us[oi] == init[oi]);
            }
        } else {
            if a.1 {
                assert forall|i: int| 0 <= i < us.len() && dep_key(#[trigger] us[i]) == k && use_kind(us[i]) == a.0 implies usage_optional(us[i]) by {
                    if i < n {
                        assert(init[i] == us[i]);
                    }
                }
            } else {
                let oi = choose|i: int| !(0 <= i < init.len() && dep_key(#[trigger] init[i]) == k && use_kind(init[i]) == a0.0 ==> usage_optional(init[i]));
                assert(us[oi] == init[oi]);
            }
        }
    }
    // default features
    assert(a.2 <==> exists|i: int| 0 <= i < us.len() && dep_key(#[trigger] us[i]) == k && usage_default(us[i])) by {
        if a0.2 {
            let di = choose|i: int| 0 <= i < init.len() && dep_key(#[trigger] init[i]) == k && usage_default(init[i]);
            assert(us[di] == init[di]);
        }
        if usage_default(d) {
            assert(dep_key(us[n]) == k && usage_default(us[n]));
        }
        if exists|i: int| 0 <= i < us.len() && dep_key(#[trigger] us[i]) == k && usage_default(us[i]) {
            let di = choose|i: int| 0 <= i < us.len() && dep_key(#[trigger] us[i]) == k && usage_default(us[i]);
            if di < n {
                assert(init[di] == us[di]);
            }
        }
    }
    // features
    assert forall|f: Seq<char>| #[trigger] a.3.contains(f) <==> exists|i: int| 0 <= i < us.len() && dep_key(#[trigger] us[i]) == k && feature_set(us[i]).contains(f) by {
        if a0.3.contains(f) {
            let fi = choose|i: int| 0 <= i < init.len() && dep_key(#[trigger] init[i]) == k && feature_set(init[i]).contains(f);
            assert(us[fi] == init[fi]);
        }
        if feature_set(d).contains(f) {
            assert(dep_key(us[n]) == k && feature_set(us[n]).contains(f));
        }
        if exists|i: int| 0 <= i < us.len() && dep_key(#[trigger] us[i]) == k && feature_set(us[i]).contains(f) {
            let fi = choose|i: int| 0 <= i < us.len() && dep_key(#[trigger] us[i]) == k && feature_set(us[i]).contains(f);
            if fi < n {
                assert(init[fi] == us[fi]);
            }
        }
    }
}

/// A declared key has a first declaration, and it carries the key.
proof fn lemma_first_use(us: Seq<Dependency>, k: Seq<char>)
    requires
        use_keys(us).contains(k),
    ensures
        first_use(us, k) is Some,
        dep_key(first_use(us, k)->Some_0) == k,
    decreases us.len(),
{
    let i = choose|i: int| 0 <= i < use_keys(us).len() && use_keys(us)[i] == k;
    if dep_key(us[0]) != k {
        assert(i > 0);
        assert(use_keys(us.skip(1))[i - 1] == k);
        lemma_first_use(us.skip(1), k);
    }
}

/// The display name the first declaration of a key gives it.
pub open spec fn display_of(us: Seq<Dependency>, k: Seq<char>) -> Seq<char> {
    display(k, first_use(us, k)->Some_0.name@)
}

/// The entry a kept key gets: the first declaration's requirement and the merged usage.
pub open spec fn entry_of(us: Seq<Dependency>, k: Seq<char>) -> RecordView {
    let a = aggregate(us, k)->Some_0;
    (req_of(first_use(us, k)->Some_0), a.0, a.1, a.2, sorted_of(a.3))
}

/// Whether a key's first declaration names a workspace member.
pub open spec fn names_member(md: Metadata, us: Seq<Dependency>, k: Seq<char>) -> bool {
    member_names(md, md.packages@).contains(first_use(us, k)->Some_0.name@)
}

proof fn lemma_ws_entries_lookup(md: Metadata, us: Seq<Dependency>, ks: Seq<Seq<char>>, k: Seq<char>)
    requires
        use_keys(us).contains(k),
        forall|i: int| 0 <= i < ks.len() ==> use_keys(us).contains(#[trigger] ks[i]),
        forall|i: int, j: int| 0 <= i < j < ks.len() ==> #[trigger] ks[i] != #[trigger] ks[j],
        forall|k2: Seq<char>| use_keys(us).contains(k2) && k2 != k ==> #[trigger] display_of(us, k2) != display_of(us, k),
    ensures
        view_lookup(ws_entries(md, us, ks), display_of(us, k)) == if ks.contains(k) && !names_member(md, us, k) {
            Some(entry_of(us, k))
        } else {
            None
        },
    decreases ks.len(),
{
    if ks.len() > 0 {
        let d = ks.drop_last();
        let kl = ks.last();
        assert(kl == ks[ks.len() - 1]);
        assert forall|i: int| 0 <= i < d.len() implies use_keys(us).contains(#[trigger] d[i]) by {
            assert(d[i] == ks[i]);
        }
        assert forall|i: int, j: int| 0 <= i < j < d.len() implies #[trigger] d[i] != #[trigger] d[j] by {
            assert(d[i] == ks[i] && d[j] == ks[j]);
        }
        lemma_ws_entries_lookup(md, us, d, k);
        lemma_first_use(us, kl);
        let name = display_of(us, k);
        let prev = ws_entries(md, us, d);
        let t = ws_entries(md, us, ks);
        assert(ks.drop_last() == d);
        let fd = first_use(us, kl)->Some_0;
        if member_names(md, md.packages@).contains(fd.name@) {
            assert(t == prev);
        } else {
            let ag = match aggregate(us, kl) {
                Some(a) => a,
                None => (DepKind::Unused, false, true, Set::empty()),
            };
            let e = (display(kl, fd.name@), (req_of(fd), ag.0, ag.1, ag.2, sorted_of(ag.3)));
            assert(t == prev.push(e));
            assert(t.drop_last() =~= prev);
            assert(t.last() == e);
        }
        if kl == k {
            assert(!d.contains(k)) by {
                if d.contains(k) {
                    let i = choose|i: int| 0 <= i < d.len() && d[i] == k;
                    assert(ks[i] == ks[ks.len() - 1]);
                }
            }
            assert(ks.contains(k));
            law_strongest_kind_wins(us, k);
            if aggregate(us, k) is None {
                let i = choose|i: int| 0 <= i < use_keys(us).len() && use_keys(us)[i] == k;
                assert(dep_key(us[i]) == k);
            }
        } else {
            assert(display_of(us, kl) != name);
            assert(ks.contains(k) <==> d.contains(k)) by {
                if ks.contains(k) {
                    let i = choose|i: int| 0 <= i < ks.len() && ks[i] == k;
                    assert(i < ks.len() - 1);
                    assert(d[i] == k);
                }
                if d.contains(k) {
                    let i = choose|i: int| 0 <= i < d.len() && d[i] == k;
                    assert(ks[i] == k);
                }
            }
        }
    }
}

/// The workspace dependency table, per declared key: the key's first declaration (among the
/// packages that are not test crates) names the real package and gives the requirement,
/// without a leading `^` (`-` when there is none); the key is in the table exactly when that
/// package is not a workspace member, under its display name (the key, or the key with the
/// package in brackets when it renames one), and its usage is the strongest of its
/// declarations as `law_strongest_kind_wins` states, with its features sorted. Display
/// names of different keys are taken to differ, as Cargo's dependency names do.
pub proof fn law_workspace_entry(md: Metadata, k: Seq<char>)
    requires
        use_keys(uses(md.packages@)).contains(k),
        forall|k2: Seq<char>|
            use_keys(uses(md.packages@)).contains(k2) && k2 != k ==> #[trigger] display_of(
                uses(md.packages@),
                k2,
            ) != display_of(uses(md.packages@), k),
    ensures
        ({
            let us = uses(md.packages@);
            let t = ws_entries(md, us, sorted_of(use_keys(us).to_set()));
            let d = first_use(us, k)->Some_0;
            let a = aggregate(us, k)->Some_0;
            &&& first_use(us, k) is Some
            &&& dep_key(d) == k
            &&& aggregate(us, k) is Some
            &&& strongest_usage(us, k, a)
            &&& view_lookup(t, display(k, d.name@)) == if member_names(md, md.packages@).contains(
                d.name@,
            ) {
                None
            } else {
                Some((req_of(d), a.0, a.1, a.2, sorted_of(a.3)))
            }
        }),
{
    let us = uses(md.packages@);
    let keys = sorted_of(use_keys(us).to_set());
    crate::order::lemma_sorted_of_seq(use_keys(us));
    lemma_first_use(us, k);
    law_strongest_kind_wins(us, k);
    if aggregate(us, k) is None {
        let i = choose|i: int| 0 <= i < use_keys(us).len() && use_keys(us)[i] == k;
        assert(dep_key(us[i]) == k);
    }
    assert forall|i: int| 0 <= i < keys.len() implies use_keys(us).contains(#[trigger] keys[i]) by {
        assert(keys.to_set().contains(keys[i]));
    }
    assert forall|i: int, j: int| 0 <= i < j < keys.len() implies #[trigger] keys[i] != #[trigger] keys[j] by {
        crate::order::lemma_lt_irreflexive(keys[i]);
    }
    assert(keys.contains(k)) by {
        assert(use_keys(us).to_set().contains(k));
    }
    lemma_ws_entries_lookup(md, us, keys, k);
}

/// What `first_with` finds is one of the rows, with the key asked for.
proof fn lemma_first_with_found(rows: Seq<PerView>, k: Seq<Seq<char>>)
    ensures
        first_with(rows, k) is Some ==> rows.contains(first_with(rows, k)->Some_0)
            && row_key(first_with(rows, k)->Some_0) == k,
    decreases rows.len(),
{
    if rows.len() > 0 && row_key(rows[0]) != k {
        lemma_first_with_found(rows.skip(1), k);
        if first_with(rows, k) is Some {
            let x = first_with(rows, k)->Some_0;
            let i = choose|i: int| 0 <= i < rows.skip(1).len() && rows.skip(1)[i] == x;
            assert(rows[i + 1] == x);
        }
    }
}

/// `first_with` finds the row at `i` when no earlier row has its key.
proof fn lemma_first_with_at(rows: Seq<PerView>, i: int)
    requires
        0 <= i < rows.len(),
        forall|j: int| 0 <= j < i ==> row_key(#[trigger] rows[j]) != row_key(rows[i]),
    ensures
        first_with(rows, row_key(rows[i])) == Some(rows[i]),
    decreases i,
{
    if i > 0 {
        let t = rows.skip(1);
        assert(row_key(rows[0]) != row_key(rows[i]));
        assert forall|j: int| 0 <= j < i - 1 implies row_key(#[trigger] t[j]) != row_key(t[i - 1]) by {
            assert(t[j] == rows[j + 1]);
        }
        lemma_first_with_at(t, i - 1);
        assert(t[i - 1] == rows[i]);
    }
}

/// The MSRV rows are those of the packages, in order.
proof fn lemma_msrv_rows(ps: Seq<Package>)
    ensures
        msrv_rows(ps).len() == ps.len(),
        forall|i: int| 0 <= i < ps.len() ==> #[trigger] msrv_rows(ps)[i] == msrv_row(ps[i]),
    decreases ps.len(),
{
    if ps.len() > 0 {
        lemma_msrv_rows(ps.drop_last());
        assert forall|i: int| 0 <= i < ps.len() implies #[trigger] msrv_rows(ps)[i] == msrv_row(ps[i]) by {
            if i < ps.len() - 1 {
                assert(ps.drop_last()[i] == ps[i]);
            }
        }
    }
}

/// A package's dependency row comes from one of its counted dependencies.
pub open spec fn is_dep_row_of(md: Metadata, p: Package, r: PerView) -> bool {
    exists|j: int|
        0 <= j < p.dependencies@.len() && counts(opt_view(p.dependencies@[j].kind)) && r
            == dep_row(md, p, #[trigger] p.dependencies@[j])
}

proof fn lemma_dep_rows(md: Metadata, p: Package, ds: Seq<Dependency>)
    requires
        forall|j: int| 0 <= j < ds.len() ==> p.dependencies@.contains(#[trigger] ds[j]),
    ensures
        forall|i: int| 0 <= i < dep_rows(md, p, ds).len() ==> #[trigger] is_dep_row_of(
            md,
            p,
            dep_rows(md, p, ds)[i],
        ),
    decreases ds.len(),
{
    if ds.len() > 0 {
        let d = ds.drop_last();
        assert forall|j: int| 0 <= j < d.len() implies p.dependencies@.contains(#[trigger] d[j]) by {
            assert(d[j] == ds[j]);
        }
        lemma_dep_rows(md, p, d);
        let rs = dep_rows(md, p, ds);
        let prev = dep_rows(md, p, d);
        assert forall|i: int| 0 <= i < rs.len() implies #[trigger] is_dep_row_of(md, p, rs[i]) by {
            if i < prev.len() {
                assert(rs[i] == prev[i]);
                assert(is_dep_row_of(md, p, prev[i]));
            } else {
                let x = ds.last();
                assert(x == ds[ds.len() - 1]);
                assert(p.dependencies@.contains(x));
                let j = choose|j: int| 0 <= j < p.dependencies@.len() && p.dependencies@[j] == x;
                assert(rs[i] == dep_row(md, p, p.dependencies@[j]));
            }
        }
    }
}

/// A row is the row of a counted dependency of one of the packages.
pub open spec fn dep_row_sourced(md: Metadata, ps: Seq<Package>, r: PerView) -> bool {
    exists|q: int| 0 <= q < ps.len() && #[trigger] is_dep_row_of(md, ps[q], r)
}

proof fn lemma_all_dep_rows(md: Metadata, ps: Seq<Package>)
    ensures
        forall|i: int| 0 <= i < all_dep_rows(md, ps).len() ==> dep_row_sourced(md, ps, #[trigger] all_dep_rows(md, ps)[i]),
    decreases ps.len(),
{
    if ps.len() > 0 {
        let d = ps.drop_last();
        lemma_all_dep_rows(md, d);
        let p = ps.last();
        assert forall|j: int| 0 <= j < p.dependencies@.len() implies p.dependencies@.contains(#[trigger] p.dependencies@[j]) by {}
        lemma_dep_rows(md, p, p.dependencies@);
        let rs = all_dep_rows(md, ps);
        let prev = all_dep_rows(md, d);
        let mine = dep_rows(md, p, p.dependencies@);
        assert forall|i: int| 0 <= i < rs.len() implies dep_row_sourced(md, ps, #[trigger] rs[i]) by {
            if i < prev.len() {
                assert(rs[i] == prev[i]);
                assert(dep_row_sourced(md, d, prev[i]));
                let q = choose|q: int| 0 <= q < d.len() && is_dep_row_of(md, d[q], prev[i]);
                assert(ps[q] == d[q]);
            } else {
                assert(rs[i] == mine[i - prev.len()]);
                assert(is_dep_row_of(md, p, mine[i - prev.len()]));
                assert(ps[ps.len() - 1] == p);
            }
        }
    }
}

/// Every row of the per-crate table belongs to an analysed crate (a workspace member that
/// is not a test crate): it is that crate's MSRV row (`~msrv`, its `rust-version` or `-`,
/// scope `msrv`, package `-`), or the row of one of its runtime or build dependencies (key,
/// requirement without a leading `^`, internal exactly when the dependency names a member,
/// its package); development dependencies give no row.
pub proof fn law_per_crate_row_origin(md: Metadata, row: PerView)
    requires
        first_with(candidate_rows(md), row_key(row)) == Some(row),
    ensures
        ({
            let ps = analysed(md, md.packages@);
            ||| exists|q: int| 0 <= q < ps.len() && row == msrv_row(#[trigger] ps[q])
            ||| dep_row_sourced(md, ps, row)
        }),
{
    let ps = analysed(md, md.packages@);
    let c = candidate_rows(md);
    lemma_first_with_found(c, row_key(row));
    lemma_msrv_rows(ps);
    lemma_all_dep_rows(md, ps);
    let i = choose|i: int| 0 <= i < c.len() && c[i] == row;
    let m = msrv_rows(ps);
    if i < m.len() {
        assert(c[i] == m[i]);
        assert(row == msrv_row(ps[i]));
    } else {
        assert(c[i] == all_dep_rows(md, ps)[i - m.len()]);
        assert(dep_row_sourced(md, ps, all_dep_rows(md, ps)[i - m.len()]));
    }
}

/// Each analysed crate keeps its MSRV row: MSRV rows are offered before any dependency row,
/// so the first row under (crate, `~msrv`) is the crate's own. Crate names are taken to be
/// distinct, as Cargo requires of workspace members.
pub proof fn law_msrv_row_kept(md: Metadata, q: int)
    requires
        0 <= q < analysed(md, md.packages@).len(),
        forall|a: int, b: int|
            0 <= a < b < analysed(md, md.packages@).len() ==> (#[trigger] analysed(md, md.packages@)[a]).name@
                != (#[trigger] analysed(md, md.packages@)[b]).name@,
    ensures
        first_with(
            candidate_rows(md),
            seq![analysed(md, md.packages@)[q].name@, "~msrv"@],
        ) == Some(msrv_row(analysed(md, md.packages@)[q])),
{
    let ps = analysed(md, md.packages@);
    let c = candidate_rows(md);
    lemma_msrv_rows(ps);
    let m = msrv_rows(ps);
    assert(c[q] == m[q]);
    assert(row_key(c[q]) =~= seq![ps[q].name@, "~msrv"@]);
    assert forall|j: int| 0 <= j < q implies row_key(#[trigger] c[j]) != row_key(c[q]) by {
        assert(c[j] == m[j]);
        assert(row_key(c[j])[0] == ps[j].name@);
        assert(row_key(c[q])[0] == ps[q].name@);
    }
    lemma_first_with_at(c, q);
}

/// A per-crate row belongs to an analysed crate: its MSRV row, or the row of one of its
/// runtime or build dependencies.
pub open spec fn per_crate_row_of(md: Metadata, row: PerView) -> bool {
    let ps = analysed(md, md.packages@);
    ||| exists|q: int| 0 <= q < ps.len() && row == msrv_row(#[trigger] ps[q])
    ||| dep_row_sourced(md, ps, row)
}

/// The rows hold an MSRV row for the analysed crate at `q`: the MSRV row of a crate of its
/// name.
pub open spec fn has_msrv_row(md: Metadata, rows: Seq<PerView>, q: int) -> bool {
    let ps = analysed(md, md.packages@);
    exists|i: int, q2: int|
        0 <= i < rows.len() && 0 <= q2 < ps.len() && ps[q2].name@ == ps[q].name@ && #[trigger] rows[i]
            == #[trigger] msrv_row(ps[q2])
}

/// `first_with` finds a row no later than any row with the key.
proof fn lemma_first_with_before(rows: Seq<PerView>, q: int)
    requires
        0 <= q < rows.len(),
    ensures
        exists|j: int|
            0 <= j <= q && first_with(rows, row_key(rows[q])) == Some(#[trigger] rows[j]) && row_key(rows[j])
                == row_key(rows[q]),
    decreases q,
{
    if row_key(rows[0]) == row_key(rows[q]) {
        assert(first_with(rows, row_key(rows[q])) == Some(rows[0]));
    } else {
        let t = rows.skip(1);
        assert(t[q - 1] == rows[q]);
        lemma_first_with_before(t, q - 1);
        let j = choose|j: int| 0 <= j <= q - 1 && first_with(t, row_key(t[q - 1])) == Some(#[trigger] t[j]) && row_key(t[j]) == row_key(t[q - 1]);
        assert(t[j] == rows[j + 1]);
    }
}

/// A key kept in the workspace table: declared, and its first declaration does not name a
/// workspace member.
pub open spec fn kept_key(md: Metadata, us: Seq<Dependency>, k: Seq<char>) -> bool {
    first_use(us, k) is Some && !member_names(md, md.packages@).contains(first_use(us, k)->Some_0.name@)
}

/// The last of `ks` that is kept and shows `name`.
pub open spec fn last_kept(md: Metadata, us: Seq<Dependency>, ks: Seq<Seq<char>>, name: Seq<char>) -> Option<
    Seq<char>,
>
    decreases ks.len(),
{
    if ks.len() == 0 {
        None
    } else if kept_key(md, us, ks.last()) && display_of(us, ks.last()) == name {
        Some(ks.last())
    } else {
        last_kept(md, us, ks.drop_last(), name)
    }
}

/// A key with a first declaration is declared.
proof fn lemma_first_use_declared(us: Seq<Dependency>, k: Seq<char>)
    requires
        first_use(us, k) is Some,
    ensures
        use_keys(us).contains(k),
    decreases us.len(),
{
    if dep_key(us[0]) == k {
        assert(use_keys(us)[0] == k);
    } else {
        lemma_first_use_declared(us.skip(1), k);
        let i = choose|i: int| 0 <= i < use_keys(us.skip(1)).len() && use_keys(us.skip(1))[i] == k;
        assert(use_keys(us)[i + 1] == k);
    }
}

proof fn lemma_ws_lookup_last(md: Metadata, us: Seq<Dependency>, ks: Seq<Seq<char>>, name: Seq<char>)
    ensures
        view_lookup(ws_entries(md, us, ks), name) == match last_kept(md, us, ks, name) {
            Some(k) => Some(entry_of(us, k)),
            None => None,
        },
    decreases ks.len(),
{
    if ks.len() > 0 {
        let d = ks.drop_last();
        let kl = ks.last();
        lemma_ws_lookup_last(md, us, d, name);
        let prev = ws_entries(md, us, d);
        let t = ws_entries(md, us, ks);
        match first_use(us, kl) {
            None => {
                assert(t == prev);
            },
            Some(fd) => {
                if member_names(md, md.packages@).contains(fd.name@) {
                    assert(t == prev);
                } else {
                    lemma_first_use_declared(us, kl);
                    law_strongest_kind_wins(us, kl);
                    if aggregate(us, kl) is None {
                        let i = choose|i: int| 0 <= i < use_keys(us).len() && use_keys(us)[i] == kl;
                        assert(dep_key(us[i]) == kl);
                    }
                    let e = (display(kl, fd.name@), entry_of(us, kl));
                    assert(t == prev.push(e));
                    assert(t.drop_last() =~= prev);
                    assert(t.last() == e);
                }
            },
        }
    }
}

proof fn lemma_last_kept_sorted(md: Metadata, us: Seq<Dependency>, ks: Seq<Seq<char>>, name: Seq<char>)
    requires
        crate::order::sorted_strict(ks),
    ensures
        match last_kept(md, us, ks, name) {
            Some(k) => ks.contains(k) && kept_key(md, us, k) && display_of(us, k) == name && forall|i: int|
                0 <= i < ks.len() && kept_key(md, us, #[trigger] ks[i]) && display_of(us, ks[i]) == name
                    ==> ks[i] == k || seq_lt(ks[i], k),
            None => forall|i: int|
                0 <= i < ks.len() ==> !(kept_key(md, us, #[trigger] ks[i]) && display_of(us, ks[i]) == name),
        },
    decreases ks.len(),
{
    if ks.len() > 0 {
        let d = ks.drop_last();
        let n = ks.len() - 1;
        assert(ks.last() == ks[n]);
        assert forall|a: int, b: int| 0 <= a < b < d.len() implies seq_lt(#[trigger] d[a], #[trigger] d[b]) by {
            assert(d[a] == ks[a] && d[b] == ks[b]);
        }
        lemma_last_kept_sorted(md, us, d, name);
        assert forall|i: int| 0 <= i < d.len() implies #[trigger] d[i] == ks[i] by {}
        if kept_key(md, us, ks.last()) && display_of(us, ks.last()) == name {
            assert forall|i: int|
                0 <= i < ks.len() && kept_key(md, us, #[trigger] ks[i]) && display_of(us, ks[i]) == name
                    implies ks[i] == ks.last() || seq_lt(ks[i], ks.last()) by {
                if i < n {
                    assert(seq_lt(ks[i], ks[n]));
                }
            }
        } else {
            match last_kept(md, us, d, name) {
                Some(k) => {
                    let j = choose|j: int| 0 <= j < d.len() && d[j] == k;
                    assert(ks[j] == k);
                    assert forall|i: int|
                        0 <= i < ks.len() && kept_key(md, us, #[trigger] ks[i]) && display_of(us, ks[i]) == name
                            implies ks[i] == k || seq_lt(ks[i], k) by {
                        assert(i < n);
                        assert(d[i] == ks[i]);
                    }
                },
                None => {
                    assert forall|i: int| 0 <= i < ks.len() implies !(kept_key(md, us, #[trigger] ks[i]) && display_of(us, ks[i]) == name) by {
                        if i < n {
                            assert(d[i] == ks[i]);
                        }
                    }
                },
            }
        }
    }
}

/// The workspace dependency table, looked up by any name: when no declared key is kept
/// (its first declaration, among the packages that are not test crates, names a package that
/// is not a workspace member) under that display name (the key, or the key with the package
/// in brackets when it renames one), the name is not in the table. Otherwise the name holds
/// the entry of the key that shows it and sorts last among those that do (the one key, when
/// display names differ, as Cargo's do): the requirement of that key's first declaration
/// without a leading `^` (`-` when there is none), and its usage merged over all its
/// declarations as `strongest_usage` states, with its features sorted.
pub proof fn law_workspace_lookup(md: Metadata, name: Seq<char>)
    ensures
        ({
            let us = uses(md.packages@);
            let t = ws_entries(md, us, sorted_of(use_keys(us).to_set()));
            let shown = |k: Seq<char>| use_keys(us).contains(k) && kept_key(md, us, k) && display_of(us, k) == name;
            &&& (forall|k: Seq<char>| !#[trigger] shown(k)) ==> view_lookup(t, name) is None
            &&& (exists|k: Seq<char>| #[trigger] shown(k)) ==> exists|k: Seq<char>| {
                &&& #[trigger] shown(k)
                &&& forall|k2: Seq<char>| #[trigger] shown(k2) ==> k2 == k || seq_lt(k2, k)
                &&& dep_key(first_use(us, k)->Some_0) == k
                &&& aggregate(us, k) is Some
                &&& strongest_usage(us, k, aggregate(us, k)->Some_0)
                &&& view_lookup(t, name) == Some(entry_of(us, k))
            }
        }),
{
    let us = uses(md.packages@);
    let keys = sorted_of(use_keys(us).to_set());
    let shown = |k: Seq<char>| use_keys(us).contains(k) && kept_key(md, us, k) && display_of(us, k) == name;
    crate::order::lemma_sorted_of_seq(use_keys(us));
    lemma_ws_lookup_last(md, us, keys, name);
    lemma_last_kept_sorted(md, us, keys, name);
    assert forall|k: Seq<char>| use_keys(us).contains(k) implies keys.contains(k) by {
        assert(use_keys(us).to_set().contains(k));
    }
    assert forall|i: int| 0 <= i < keys.len() implies use_keys(us).contains(#[trigger] keys[i]) by {
        assert(keys.to_set().contains(keys[i]));
    }
    match last_kept(md, us, keys, name) {
        Some(k) => {
            let j = choose|j: int| 0 <= j < keys.len() && keys[j] == k;
            assert(use_keys(us).contains(keys[j]));
            assert(shown(k));
            lemma_first_use(us, k);
            law_strongest_kind_wins(us, k);
            if aggregate(us, k) is None {
                let i = choose|i: int| 0 <= i < use_keys(us).len() && use_keys(us)[i] == k;
                assert(dep_key(us[i]) == k);
            }
            assert forall|k2: Seq<char>| #[trigger] shown(k2) implies k2 == k || seq_lt(k2, k) by {
                assert(keys.contains(k2));
                let i = choose|i: int| 0 <= i < keys.len() && keys[i] == k2;
                assert(kept_key(md, us, keys[i]) && display_of(us, keys[i]) == name);
            }
        },
        None => {
            assert forall|k: Seq<char>| !#[trigger] shown(k) by {
                if shown(k) {
                    assert(keys.contains(k));
                    let i = choose|i: int| 0 <= i < keys.len() && keys[i] == k;
                    assert(kept_key(md, us, keys[i]) && display_of(us, keys[i]) == name);
                }
            }
        },
    }
}

} // verus!
