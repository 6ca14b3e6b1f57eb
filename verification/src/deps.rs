//! Workspace dependency classification.

use vstd::prelude::*;

use crate::model::{
    spec_kind_label, spec_label_rank, kind_label, label_rank, Bump, DepAdded, DepChanged, DepDiff,
    DepRecord, DepRemoved,
};
use crate::order::{
    lemma_lt_prefix, lemma_lt_transitive, lemma_sorted_of, nonempty_set, seq_lt, sorted_minus, sorted_nonempty,
    sorted_of, sorted_strict, vviews,
};
use crate::table::{is_table, lemma_lookup, lemma_table_lookup, lookup, table_keys};
use crate::text::{chars_of, join, join_chars, split, split_chars, string_of, str_eq};
use crate::version_req::{classify_bump, spec_classify_bump};

verus! {

/// The strings of `s` with the character `c` put in front.
pub open spec fn signed(c: char, s: Set<Seq<char>>) -> Set<Seq<char>> {
    Set::new(|t: Seq<char>| t.len() > 0 && t[0] == c && s.contains(t.skip(1)))
}

/// The default-features token, when default features were toggled.
pub open spec fn default_token(old_def: bool, new_def: bool) -> Seq<Seq<char>> {
    if old_def != new_def {
        seq![if old_def { "-default!"@ } else { "+default!"@ }]
    } else {
        Seq::empty()
    }
}

/// The feature delta: the default-features token first, then `-f` for every non-empty
/// feature lost and `+f` for every non-empty feature gained, sorted, comma-joined.
pub open spec fn spec_feature_diff(
    old_def: bool,
    new_def: bool,
    old: Seq<String>,
    new: Seq<String>,
) -> Seq<char> {
    let o = nonempty_set(old);
    let n = nonempty_set(new);
    join(
        default_token(old_def, new_def) + sorted_of(
            signed('+', n.difference(o)).union(signed('-', o.difference(n))),
        ),
        ","@,
    )
}

fn prefixed(c: char, list: &Vec<Vec<char>>) -> (r: Vec<Vec<char>>)
    requires
        sorted_strict(vviews(list@)),
    ensures
        sorted_strict(vviews(r@)),
        vviews(r@).to_set() == signed(c, vviews(list@).to_set()),
        forall|k: int| 0 <= k < r@.len() ==> (#[trigger] r@[k]@).len() > 0 && r@[k]@[0] == c,
{
    let ghost l = vviews(list@);
    let mut out: Vec<Vec<char>> = Vec::new();
    let mut i: usize = 0;
    while i < list.len()
        invariant
            i <= list.len(),
            l == vviews(list@),
            sorted_strict(l),
            out@.len() == i,
            forall|k: int| 0 <= k < i ==> (#[trigger] out@[k])@ == seq![c] + l[k],
        decreases list.len() - i,
    {
        let mut t: Vec<char> = Vec::new();
        t.push(c);
        crate::text::extend_chars(&mut t, &list[i]);
        out.push(t);
        i += 1;
    }
    proof {
        let o = vviews(out@);
        assert forall|a: int, b: int| 0 <= a < b < o.len() implies seq_lt(#[trigger] o[a], #[trigger] o[b]) by {
            lemma_lt_prefix(seq![c], l[a], l[b]);
            assert(o[a] == seq![c] + l[a]);
            assert(o[b] == seq![c] + l[b]);
        }
        assert forall|t: Seq<char>| #[trigger] o.to_set().contains(t) <==> signed(c, l.to_set()).contains(t) by {
            if o.to_set().contains(t) {
                let k = choose|k: int| 0 <= k < o.len() && o[k] == t;
                assert(out@[k]@ == seq![c] + l[k]);
                assert(t.skip(1) =~= l[k]);
            }
            if signed(c, l.to_set()).contains(t) {
                let k = choose|k: int| 0 <= k < l.len() && l[k] == t.skip(1);
                assert(t =~= seq![c] + l[k]);
                assert(o[k] == t);
            }
        }
        assert(o.to_set() =~= signed(c, l.to_set()));
        assert forall|k: int| 0 <= k < out@.len() implies (#[trigger] out@[k]@).len() > 0 && out@[k]@[0] == c by {
            assert(out@[k]@ == seq![c] + l[k]);
        }
    }
    out
}

/// Pieces that are all non-empty join to the empty string only when there are none.
proof fn lemma_join_empty(parts: Seq<Seq<char>>, sep: Seq<char>)
    requires
        forall|k: int| 0 <= k < parts.len() ==> (#[trigger] parts[k]).len() > 0,
    ensures
        join(parts, sep).len() == 0 <==> parts.len() == 0,
    decreases parts.len(),
{
    if parts.len() >= 2 {
        assert(parts.last() == parts[parts.len() - 1]);
    } else if parts.len() == 1 {
        assert(parts[0].len() > 0);
    }
}

/// Render changes to default features and the explicit feature set. The delta is empty
/// exactly when the default-features flag is unchanged and the two lists name the same
/// non-empty features.
pub fn feature_diff(old_def: bool, new_def: bool, old: &[String], new: &[String]) -> (r: String)
    ensures
        r@ == spec_feature_diff(old_def, new_def, old@, new@),
        r@.len() == 0 <==> (old_def == new_def && nonempty_set(old@) == nonempty_set(new@)),
{
    let mut delta: Vec<Vec<char>> = Vec::new();
    if old_def != new_def {
        delta.push(if old_def { chars_of("-default!") } else { chars_of("+default!") });
    }
    let ghost head = vviews(delta@);
    assert(head == default_token(old_def, new_def));
    let o = sorted_nonempty(old);
    let n = sorted_nonempty(new);
    let gained = sorted_minus(&n, &o);
    let lost = sorted_minus(&o, &n);
    let plus = prefixed('+', &gained);
    let minus = prefixed('-', &lost);
    let ghost p = vviews(plus@);
    let ghost m = vviews(minus@);
    let mut i: usize = 0;
    while i < plus.len()
        invariant
            i <= plus.len(),
            p == vviews(plus@),
            vviews(delta@) == head + p.take(i as int),
        decreases plus.len() - i,
    {
        let ghost before = delta@;
        delta.push(crate::text::copy_chars(&plus[i]));
        assert(vviews(delta@) =~= vviews(before).push(p[i as int]));
        assert(p.take(i + 1) == p.take(i as int).push(p[i as int]));
        i += 1;
    }
    let mut j: usize = 0;
    while j < minus.len()
        invariant
            j <= minus.len(),
            m == vviews(minus@),
            vviews(delta@) == head + p + m.take(j as int),
        decreases minus.len() - j,
    {
        let ghost before = delta@;
        delta.push(crate::text::copy_chars(&minus[j]));
        assert(vviews(delta@) =~= vviews(before).push(m[j as int]));
        assert(m.take(j + 1) == m.take(j as int).push(m[j as int]));
        j += 1;
    }
    proof {
        assert(p.take(p.len() as int) == p);
        assert(m.take(m.len() as int) == m);
        let q = p + m;
        assert forall|a: int, b: int| 0 <= a < b < q.len() implies seq_lt(#[trigger] q[a], #[trigger] q[b]) by {
            if b < p.len() {
            } else if a >= p.len() {
                assert(q[a] == m[a - p.len()] && q[b] == m[b - p.len()]);
            } else {
                assert(q[a] == p[a] && q[b] == m[b - p.len()]);
                assert(plus@[a]@ == p[a]);
                assert(minus@[b - p.len()]@ == m[b - p.len()]);
                assert(q[a][0] == '+' && q[b][0] == '-');
            }
        }
        assert forall|e: Seq<char>| #[trigger] q.to_set().contains(e) <==> p.to_set().union(m.to_set()).contains(e) by {
            if q.to_set().contains(e) {
                let k = choose|k: int| 0 <= k < q.len() && q[k] == e;
                if k < p.len() {
                    assert(p[k] == e);
                } else {
                    assert(m[k - p.len()] == e);
                }
            }
            if p.to_set().contains(e) {
                let k = choose|k: int| 0 <= k < p.len() && p[k] == e;
                assert(q[k] == e);
            }
            if m.to_set().contains(e) {
                let k = choose|k: int| 0 <= k < m.len() && m[k] == e;
                assert(q[k + p.len()] == e);
            }
        }
        assert(q.to_set() =~= p.to_set().union(m.to_set()));
        lemma_sorted_of(q);
        assert(vviews(delta@) =~= head + q);
        let parts = head + q;
        let os = nonempty_set(old@);
        let ns = nonempty_set(new@);
        assert forall|k: int| 0 <= k < parts.len() implies (#[trigger] parts[k]).len() > 0 by {
            if k < head.len() {
                reveal_strlit("-default!");
                reveal_strlit("+default!");
            } else if k < head.len() + p.len() {
                assert(parts[k] == p[k - head.len()]);
                assert(plus@[k - head.len()]@ == p[k - head.len()]);
            } else {
                assert(parts[k] == m[k - head.len() - p.len()]);
                assert(minus@[k - head.len() - p.len()]@ == m[k - head.len() - p.len()]);
            }
        }
        lemma_join_empty(parts, ","@);
        if parts.len() == 0 {
            assert(p.len() == 0 && m.len() == 0);
            assert forall|e: Seq<char>| os.contains(e) <==> ns.contains(e) by {
                if os.contains(e) && !ns.contains(e) {
                    assert(os.difference(ns).contains(e));
                    assert(signed('-', os.difference(ns)).contains(seq!['-'] + e)) by {
                        assert((seq!['-'] + e).skip(1) =~= e);
                    }
                    assert(m.to_set().contains(seq!['-'] + e));
                }
                if ns.contains(e) && !os.contains(e) {
                    assert(ns.difference(os).contains(e));
                    assert(signed('+', ns.difference(os)).contains(seq!['+'] + e)) by {
                        assert((seq!['+'] + e).skip(1) =~= e);
                    }
                    assert(p.to_set().contains(seq!['+'] + e));
                }
            }
            assert(os =~= ns);
        }
        if old_def == new_def && os == ns {
            assert(ns.difference(os) =~= Set::empty());
            assert(os.difference(ns) =~= Set::empty());
            if p.len() > 0 {
                assert(p.to_set().contains(p[0]));
            }
            if m.len() > 0 {
                assert(m.to_set().contains(m[0]));
            }
        }
    }
    let joined = join_chars(&delta, &chars_of(","));
    assert(vviews(delta@) == delta@.map_values(|x: Vec<char>| x@));
    string_of(&joined)
}

/// The view of a removed dependency: name, version, kind label, whether it is breaking.
pub open spec fn removed_view(d: DepRemoved) -> (Seq<char>, Seq<char>, Seq<char>, bool) {
    (d.name@, d.version@, d.kind@, d.breaking)
}

/// The view of a changed dependency: name, old and new requirement, class, kind label,
/// feature delta, whether it is breaking.
pub open spec fn changed_view(d: DepChanged) -> (
    Seq<char>,
    Seq<char>,
    Seq<char>,
    Bump,
    Seq<char>,
    Seq<char>,
    bool,
) {
    (d.name@, d.old@, d.new@, d.bump, d.kind@, d.features@, d.breaking)
}

/// The view of an added dependency: name, version, kind label.
pub open spec fn added_view(d: DepAdded) -> (Seq<char>, Seq<char>, Seq<char>) {
    (d.name@, d.version@, d.kind@)
}

/// A feature delta loses something: one of its comma-separated tokens starts with `-`.
pub open spec fn loses_feature(features: Seq<char>) -> bool {
    exists|k: int|
        0 <= k < split(features, ',').len() && (#[trigger] split(features, ',')[k]).len() > 0
            && split(features, ',')[k][0] == '-'
}

/// The stronger of the two kind labels, the head's on a tie.
pub open spec fn stronger_label(old: DepRecord, new: DepRecord) -> Seq<char> {
    if spec_label_rank(spec_kind_label(new.kind, new.optional)) >= spec_label_rank(
        spec_kind_label(old.kind, old.optional),
    ) {
        spec_kind_label(new.kind, new.optional)
    } else {
        spec_kind_label(old.kind, old.optional)
    }
}

/// The row a changed dependency gets.
pub open spec fn spec_changed_row(name: Seq<char>, old: DepRecord, new: DepRecord) -> (
    Seq<char>,
    Seq<char>,
    Seq<char>,
    Bump,
    Seq<char>,
    Seq<char>,
    bool,
) {
    let bump = spec_classify_bump(old.ver@, new.ver@);
    let label = stronger_label(old, new);
    let features = spec_feature_diff(
        old.default_features,
        new.default_features,
        old.features@,
        new.features@,
    );
    (
        name,
        old.ver@,
        new.ver@,
        bump,
        label,
        features,
        label == "runtime"@ && (bump == Bump::Major || loses_feature(features)),
    )
}

/// Baseline entries missing at the head, in baseline order.
pub open spec fn spec_removed(base: Seq<(String, DepRecord)>, head: Seq<(String, DepRecord)>) -> Seq<
    (Seq<char>, Seq<char>, Seq<char>, bool),
>
    decreases base.len(),
{
    if base.len() == 0 {
        Seq::empty()
    } else {
        let init = spec_removed(base.drop_last(), head);
        let (name, old) = base.last();
        if lookup(head, name@) is Some {
            init
        } else {
            let label = spec_kind_label(old.kind, old.optional);
            init.push((name@, old.ver@, label, label == "runtime"@))
        }
    }
}

/// Entries at both refs whose records differ, in baseline order.
#[verifier::opaque]
pub open spec fn spec_changed(base: Seq<(String, DepRecord)>, head: Seq<(String, DepRecord)>) -> Seq<
    (Seq<char>, Seq<char>, Seq<char>, Bump, Seq<char>, Seq<char>, bool),
>
    decreases base.len(),
{
    if base.len() == 0 {
        Seq::empty()
    } else {
        let init = spec_changed(base.drop_last(), head);
        let (name, old) = base.last();
        match lookup(head, name@) {
            Some(new) => if old.same(new) {
                init
            } else {
                init.push(spec_changed_row(name@, old, new))
            },
            None => init,
        }
    }
}

/// Head entries missing at the baseline, in head order.
pub open spec fn spec_added(base: Seq<(String, DepRecord)>, head: Seq<(String, DepRecord)>) -> Seq<
    (Seq<char>, Seq<char>, Seq<char>),
>
    decreases head.len(),
{
    if head.len() == 0 {
        Seq::empty()
    } else {
        let init = spec_added(base, head.drop_last());
        let (name, new) = head.last();
        if lookup(base, name@) is Some {
            init
        } else {
            init.push((name@, new.ver@, spec_kind_label(new.kind, new.optional)))
        }
    }
}

/// Number of removed rows marked breaking.
pub open spec fn count_removed_breaking(s: Seq<(Seq<char>, Seq<char>, Seq<char>, bool)>) -> nat
    decreases s.len(),
{
    if s.len() == 0 {
        0
    } else {
        count_removed_breaking(s.drop_last()) + if s.last().3 { 1nat } else { 0nat }
    }
}

/// Number of changed rows marked breaking.
pub open spec fn count_changed_breaking(
    s: Seq<(Seq<char>, Seq<char>, Seq<char>, Bump, Seq<char>, Seq<char>, bool)>,
) -> nat
    decreases s.len(),
{
    if s.len() == 0 {
        0
    } else {
        count_changed_breaking(s.drop_last()) + if s.last().6 { 1nat } else { 0nat }
    }
}

fn find_entry(t: &Vec<(String, DepRecord)>, name: &str) -> (r: Option<usize>)
    ensures
        match r {
            Some(i) => i < t@.len() && lookup(t@, name@) == Some(t@[i as int].1) && t@[i as int].0@
                == name@,
            None => lookup(t@, name@) is None,
        },
{
    let mut i: usize = t.len();
    assert(t@.take(t.len() as int) == t@);
    while i > 0
        invariant
            i <= t.len(),
            lookup(t@, name@) == lookup(t@.take(i as int), name@),
        decreases i,
    {
        assert(t@.take(i as int).drop_last() == t@.take(i - 1));
        if str_eq(t[i - 1].0.as_str(), name) {
            return Some(i - 1);
        }
        i -= 1;
    }
    None
}

fn has_minus_token(features: &String) -> (r: bool)
    ensures
        r == loses_feature(features@),
{
    let cs = chars_of(features.as_str());
    let tokens = split_chars(&cs, ',');
    let mut k: usize = 0;
    while k < tokens.len()
        invariant
            k <= tokens.len(),
            cs@ == features@,
            tokens@.len() == split(cs@, ',').len(),
            forall|j: int| 0 <= j < tokens@.len() ==> #[trigger] tokens@[j]@ == split(cs@, ',')[j],
            forall|j: int|
                0 <= j < k ==> !((#[trigger] split(cs@, ',')[j]).len() > 0 && split(cs@, ',')[j][0]
                    == '-'),
        decreases tokens.len() - k,
    {
        if tokens[k].len() > 0 && tokens[k][0] == '-' {
            assert(split(cs@, ',')[k as int][0] == '-');
            return true;
        }
        k += 1;
    }
    false
}

/// Compare workspace dependencies and classify consumer-visible breakage.
///
/// Both tables are sorted by name with each name once, as a `BTreeMap` iterates; every
/// output list is then in name order.
pub fn diff(base: &Vec<(String, DepRecord)>, head: &Vec<(String, DepRecord)>) -> (r: DepDiff)
    requires
        is_table(base@),
        is_table(head@),
    ensures
        r.removed@.map_values(|d: DepRemoved| removed_view(d)) == spec_removed(base@, head@),
        r.changed@.map_values(|d: DepChanged| changed_view(d)) == spec_changed(base@, head@),
        r.added@.map_values(|d: DepAdded| added_view(d)) == spec_added(base@, head@),
        r.breaking == count_removed_breaking(spec_removed(base@, head@)) + count_changed_breaking(
            spec_changed(base@, head@),
        ),
        r.breaking == spec_removed(base@, head@).filter(
            |x: (Seq<char>, Seq<char>, Seq<char>, bool)| x.2 == "runtime"@,
        ).len() + spec_changed(base@, head@).filter(
            |c: (Seq<char>, Seq<char>, Seq<char>, Bump, Seq<char>, Seq<char>, bool)|
                c.4 == "runtime"@ && (c.3 == Bump::Major || loses_feature(c.5)),
        ).len(),
{
    proof {
        reveal(spec_changed);
    }
    let mut removed: Vec<DepRemoved> = Vec::new();
    let mut changed: Vec<DepChanged> = Vec::new();
    let mut added: Vec<DepAdded> = Vec::new();
    let mut breaking: usize = 0;
    let mut i: usize = 0;
    while i < base.len()
        invariant
            i <= base.len(),
            removed@.map_values(|d: DepRemoved| removed_view(d)) == spec_removed(
                base@.take(i as int),
                head@,
            ),
            changed@.map_values(|d: DepChanged| changed_view(d)) == spec_changed(
                base@.take(i as int),
                head@,
            ),
            breaking == count_removed_breaking(spec_removed(base@.take(i as int), head@))
                + count_changed_breaking(spec_changed(base@.take(i as int), head@)),
            breaking <= i,
        decreases base.len() - i,
    {
        proof {
            reveal(spec_changed);
        }
        assert(base@.take(i + 1).drop_last() == base@.take(i as int));
        let name = &base[i].0;
        let old = &base[i].1;
        match find_entry(head, name.as_str()) {
            None => {
                let label = kind_label(old.kind, old.optional);
                let is_breaking = str_eq(label.as_str(), "runtime");
                if is_breaking {
                    breaking += 1;
                }
                let row = DepRemoved {
                    name: name.clone(),
                    version: old.ver.clone(),
                    kind: label,
                    breaking: is_breaking,
                };
                let ghost before = removed@;
                let ghost prev = spec_removed(base@.take(i as int), head@);
                assert(spec_removed(base@.take(i + 1), head@).drop_last() == prev);
                removed.push(row);
                assert(removed@.map_values(|d: DepRemoved| removed_view(d)) =~= before.map_values(
                    |d: DepRemoved| removed_view(d),
                ).push(removed_view(row)));
            },
            Some(j) => {
                let new = &head[j].1;
                if !old.equals(new) {
                    let bump = classify_bump(old.ver.as_str(), new.ver.as_str());
                    let old_label = kind_label(old.kind, old.optional);
                    let new_label = kind_label(new.kind, new.optional);
                    let label = if label_rank(new_label.as_str()) >= label_rank(old_label.as_str()) {
                        new_label
                    } else {
                        old_label
                    };
                    let features = feature_diff(
                        old.default_features,
                        new.default_features,
                        old.features.as_slice(),
                        new.features.as_slice(),
                    );
                    let is_breaking = str_eq(label.as_str(), "runtime") && (bump == Bump::Major
                        || has_minus_token(&features));
                    if is_breaking {
                        breaking += 1;
                    }
                    let row = DepChanged {
                        name: name.clone(),
                        old: old.ver.clone(),
                        new: new.ver.clone(),
                        bump,
                        kind: label,
                        features,
                        breaking: is_breaking,
                    };
                    let ghost before = changed@;
                    let ghost prev = spec_changed(base@.take(i as int), head@);
                    assert(spec_changed(base@.take(i + 1), head@).drop_last() == prev);
                    changed.push(row);
                    assert(changed@.map_values(|d: DepChanged| changed_view(d)) =~= before.map_values(
                        |d: DepChanged| changed_view(d),
                    ).push(changed_view(row)));
                }
            },
        }
        i += 1;
    }
    assert(base@.take(base.len() as int) == base@);
    let mut k: usize = 0;
    while k < head.len()
        invariant
            k <= head.len(),
            added@.map_values(|d: DepAdded| added_view(d)) == spec_added(
                base@,
                head@.take(k as int),
            ),
        decreases head.len() - k,
    {
        assert(head@.take(k + 1).drop_last() == head@.take(k as int));
        let name = &head[k].0;
        let new = &head[k].1;
        if find_entry(base, name.as_str()).is_none() {
            let row = DepAdded {
                name: name.clone(),
                version: new.ver.clone(),
                kind: kind_label(new.kind, new.optional),
            };
            let ghost before = added@;
            added.push(row);
            assert(added@.map_values(|d: DepAdded| added_view(d)) =~= before.map_values(
                |d: DepAdded| added_view(d),
            ).push(added_view(row)));
        }
        k += 1;
    }
    assert(head@.take(head.len() as int) == head@);
    proof {
        law_removed_dependencies(base@, head@);
        law_changed_dependencies(base@, head@);
        lemma_removed_count(spec_removed(base@, head@));
        lemma_changed_count(spec_changed(base@, head@));
    }
    DepDiff { removed, changed, added, breaking }
}

/// The row a baseline entry missing at the head gets.
pub open spec fn removed_row(e: (String, DepRecord)) -> (Seq<char>, Seq<char>, Seq<char>, bool) {
    let label = spec_kind_label(e.1.kind, e.1.optional);
    (e.0@, e.1.ver@, label, label == "runtime"@)
}

/// The row a head entry missing at the baseline gets.
pub open spec fn added_row(e: (String, DepRecord)) -> (Seq<char>, Seq<char>, Seq<char>) {
    (e.0@, e.1.ver@, spec_kind_label(e.1.kind, e.1.optional))
}

/// A table without its last entry is a table.
proof fn lemma_table_drop_last<V>(t: Seq<(String, V)>)
    requires
        is_table(t),
        t.len() > 0,
    ensures
        is_table(t.drop_last()),
        forall|j: int| 0 <= j < t.len() - 1 ==> seq_lt(#[trigger] t[j].0@, t.last().0@),
{
    assert(table_keys(t.drop_last()) =~= table_keys(t).drop_last());
    assert forall|j: int| 0 <= j < t.len() - 1 implies seq_lt(#[trigger] t[j].0@, t.last().0@) by {
        assert(table_keys(t)[j] == t[j].0@);
        assert(table_keys(t)[t.len() - 1] == t.last().0@);
    }
}

/// The removed rows: each comes from a baseline entry missing at the head, every such entry
/// gives one, and they are in name order.
#[verifier::spinoff_prover]
#[verifier::rlimit(60)]
proof fn lemma_removed_rows(base: Seq<(String, DepRecord)>, head: Seq<(String, DepRecord)>)
    requires
        is_table(base),
    ensures
        forall|k: int| 0 <= k < spec_removed(base, head).len() ==> exists|j: int|
            0 <= j < base.len() && lookup(head, base[j].0@) is None && #[trigger] spec_removed(
                base,
                head,
            )[k] == removed_row(base[j]),
        forall|j: int| 0 <= j < base.len() && lookup(head, (#[trigger] base[j]).0@) is None ==> exists|k: int|
            0 <= k < spec_removed(base, head).len() && spec_removed(base, head)[k] == removed_row(base[j]),
        sorted_strict(spec_removed(base, head).map_values(|x: (Seq<char>, Seq<char>, Seq<char>, bool)| x.0)),
    decreases base.len(),
{
    let rm = spec_removed(base, head);
    if base.len() > 0 {
        let d = base.drop_last();
        lemma_table_drop_last(base);
        lemma_removed_rows(d, head);
        let rd = spec_removed(d, head);
        let n = base.len() - 1;
        assert(base.last() == base[n]);
        assert forall|j: int| 0 <= j < d.len() implies #[trigger] d[j] == base[j] by {}
        if lookup(head, base.last().0@) is Some {
            assert(rm == rd);
            assert forall|k: int| 0 <= k < rm.len() implies exists|j: int|
                0 <= j < base.len() && lookup(head, base[j].0@) is None && #[trigger] rm[k] == removed_row(base[j]) by {
                let j = choose|j: int| 0 <= j < d.len() && lookup(head, d[j].0@) is None && rd[k] == removed_row(d[j]);
                assert(base[j] == d[j]);
            }
            assert forall|j: int| 0 <= j < base.len() && lookup(head, (#[trigger] base[j]).0@) is None implies exists|k: int|
                0 <= k < rm.len() && rm[k] == removed_row(base[j]) by {
                assert(j < n);
                assert(d[j] == base[j]);
            }
        } else {
            assert(rm == rd.push(removed_row(base.last())));
            assert forall|k: int| 0 <= k < rm.len() implies exists|j: int|
                0 <= j < base.len() && lookup(head, base[j].0@) is None && #[trigger] rm[k] == removed_row(base[j]) by {
                if k < rd.len() {
                    assert(rm[k] == rd[k]);
                    let j = choose|j: int| 0 <= j < d.len() && lookup(head, d[j].0@) is None && rd[k] == removed_row(d[j]);
                    assert(base[j] == d[j]);
                } else {
                    assert(rm[k] == removed_row(base[n]));
                }
            }
            assert forall|j: int| 0 <= j < base.len() && lookup(head, (#[trigger] base[j]).0@) is None implies exists|k: int|
                0 <= k < rm.len() && rm[k] == removed_row(base[j]) by {
                if j < n {
                    assert(d[j] == base[j]);
                    let k = choose|k: int| 0 <= k < rd.len() && rd[k] == removed_row(d[j]);
                    assert(rm[k] == rd[k]);
                } else {
                    assert(rm[rd.len() as int] == removed_row(base[j]));
                }
            }
            let nm = rm.map_values(|x: (Seq<char>, Seq<char>, Seq<char>, bool)| x.0);
            let nd = rd.map_values(|x: (Seq<char>, Seq<char>, Seq<char>, bool)| x.0);
            assert forall|a: int, b: int| 0 <= a < b < nm.len() implies seq_lt(#[trigger] nm[a], #[trigger] nm[b]) by {
                if b < nd.len() {
                    assert(nm[a] == nd[a] && nm[b] == nd[b]);
                } else {
                    assert(nm[a] == rd[a].0);
                    let j = choose|j: int| 0 <= j < d.len() && lookup(head, d[j].0@) is None && rd[a] == removed_row(d[j]);
                    assert(base[j] == d[j]);
                    assert(nm[b] == base.last().0@);
                }
            }
        }
    }
}

/// The removed rows of the dependency diff are the baseline names missing at the head, in
/// name order, each with the baseline requirement and kind label; a removed row is breaking
/// exactly when its label is `runtime`.
pub proof fn law_removed_dependencies(base: Seq<(String, DepRecord)>, head: Seq<(String, DepRecord)>)
    requires
        is_table(base),
        is_table(head),
    ensures
        ({
            let rm = spec_removed(base, head);
            let names = rm.map_values(|x: (Seq<char>, Seq<char>, Seq<char>, bool)| x.0);
            &&& sorted_strict(names)
            &&& names.to_set() == table_keys(base).to_set().difference(table_keys(head).to_set())
            &&& forall|k: int| 0 <= k < rm.len() ==> {
                let old = lookup(base, (#[trigger] rm[k]).0)->Some_0;
                &&& lookup(base, rm[k].0) is Some
                &&& rm[k].1 == old.ver@
                &&& rm[k].2 == spec_kind_label(old.kind, old.optional)
                &&& rm[k].3 == (rm[k].2 == "runtime"@)
            }
        }),
{
    let rm = spec_removed(base, head);
    let names = rm.map_values(|x: (Seq<char>, Seq<char>, Seq<char>, bool)| x.0);
    lemma_removed_rows(base, head);
    assert forall|k: int| 0 <= k < rm.len() implies {
        let old = lookup(base, (#[trigger] rm[k]).0)->Some_0;
        &&& lookup(base, rm[k].0) is Some
        &&& rm[k].1 == old.ver@
        &&& rm[k].2 == spec_kind_label(old.kind, old.optional)
        &&& rm[k].3 == (rm[k].2 == "runtime"@)
    } by {
        let j = choose|j: int| 0 <= j < base.len() && lookup(head, base[j].0@) is None && rm[k] == removed_row(base[j]);
        lemma_table_lookup(base, j);
    }
    assert forall|n: Seq<char>| #[trigger] names.to_set().contains(n) <==> table_keys(base).to_set().difference(table_keys(head).to_set()).contains(n) by {
        lemma_lookup(head, n);
        if names.to_set().contains(n) {
            let k = choose|k: int| 0 <= k < names.len() && names[k] == n;
            let j = choose|j: int| 0 <= j < base.len() && lookup(head, base[j].0@) is None && rm[k] == removed_row(base[j]);
            assert(table_keys(base)[j] == n);
            if table_keys(head).to_set().contains(n) {
                let i = choose|i: int| 0 <= i < table_keys(head).len() && table_keys(head)[i] == n;
                assert(head[i].0@ == n);
            }
        }
        if table_keys(base).to_set().difference(table_keys(head).to_set()).contains(n) {
            let j = choose|j: int| 0 <= j < table_keys(base).len() && table_keys(base)[j] == n;
            assert(base[j].0@ == n);
            assert forall|i: int| 0 <= i < head.len() implies (#[trigger] head[i]).0@ != n by {
                assert(table_keys(head)[i] == head[i].0@);
            }
            let k = choose|k: int| 0 <= k < rm.len() && rm[k] == removed_row(base[j]);
            assert(names[k] == n);
        }
    }
    assert(names.to_set() =~= table_keys(base).to_set().difference(table_keys(head).to_set()));
}

/// The added rows: each comes from a head entry missing at the baseline, every such entry
/// gives one, and they are in name order.
#[verifier::spinoff_prover]
#[verifier::rlimit(60)]
proof fn lemma_added_rows(base: Seq<(String, DepRecord)>, head: Seq<(String, DepRecord)>)
    requires
        is_table(head),
    ensures
        forall|k: int| 0 <= k < spec_added(base, head).len() ==> exists|j: int|
            0 <= j < head.len() && lookup(base, head[j].0@) is None && #[trigger] spec_added(
                base,
                head,
            )[k] == added_row(head[j]),
        forall|j: int| 0 <= j < head.len() && lookup(base, (#[trigger] head[j]).0@) is None ==> exists|k: int|
            0 <= k < spec_added(base, head).len() && spec_added(base, head)[k] == added_row(head[j]),
        sorted_strict(spec_added(base, head).map_values(|x: (Seq<char>, Seq<char>, Seq<char>)| x.0)),
    decreases head.len(),
{
    let ad = spec_added(base, head);
    if head.len() > 0 {
        let d = head.drop_last();
        lemma_table_drop_last(head);
        lemma_added_rows(base, d);
        let rd = spec_added(base, d);
        let n = head.len() - 1;
        assert(head.last() == head[n]);
        assert forall|j: int| 0 <= j < d.len() implies #[trigger] d[j] == head[j] by {}
        if lookup(base, head.last().0@) is Some {
            assert(ad == rd);
            assert forall|k: int| 0 <= k < ad.len() implies exists|j: int|
                0 <= j < head.len() && lookup(base, head[j].0@) is None && #[trigger] ad[k] == added_row(head[j]) by {
                let j = choose|j: int| 0 <= j < d.len() && lookup(base, d[j].0@) is None && rd[k] == added_row(d[j]);
                assert(head[j] == d[j]);
            }
            assert forall|j: int| 0 <= j < head.len() && lookup(base, (#[trigger] head[j]).0@) is None implies exists|k: int|
                0 <= k < ad.len() && ad[k] == added_row(head[j]) by {
                assert(j < n);
                assert(d[j] == head[j]);
            }
        } else {
            assert(ad == rd.push(added_row(head.last())));
            assert forall|k: int| 0 <= k < ad.len() implies exists|j: int|
                0 <= j < head.len() && lookup(base, head[j].0@) is None && #[trigger] ad[k] == added_row(head[j]) by {
                if k < rd.len() {
                    assert(ad[k] == rd[k]);
                    let j = choose|j: int| 0 <= j < d.len() && lookup(base, d[j].0@) is None && rd[k] == added_row(d[j]);
                    assert(head[j] == d[j]);
                } else {
                    assert(ad[k] == added_row(head[n]));
                }
            }
            assert forall|j: int| 0 <= j < head.len() && lookup(base, (#[trigger] head[j]).0@) is None implies exists|k: int|
                0 <= k < ad.len() && ad[k] == added_row(head[j]) by {
                if j < n {
                    assert(d[j] == head[j]);
                    let k = choose|k: int| 0 <= k < rd.len() && rd[k] == added_row(d[j]);
                    assert(ad[k] == rd[k]);
                } else {
                    assert(ad[rd.len() as int] == added_row(head[j]));
                }
            }
            let nm = ad.map_values(|x: (Seq<char>, Seq<char>, Seq<char>)| x.0);
            let nd = rd.map_values(|x: (Seq<char>, Seq<char>, Seq<char>)| x.0);
            assert forall|a: int, b: int| 0 <= a < b < nm.len() implies seq_lt(#[trigger] nm[a], #[trigger] nm[b]) by {
                if b < nd.len() {
                    assert(nm[a] == nd[a] && nm[b] == nd[b]);
                } else {
                    assert(nm[a] == rd[a].0);
                    let j = choose|j: int| 0 <= j < d.len() && lookup(base, d[j].0@) is None && rd[a] == added_row(d[j]);
                    assert(head[j] == d[j]);
                    assert(nm[b] == head.last().0@);
                }
            }
        }
    }
}

/// The added rows of the dependency diff are the head names missing at the baseline, in
/// name order, each with the head requirement and kind label.
pub proof fn law_added_dependencies(base: Seq<(String, DepRecord)>, head: Seq<(String, DepRecord)>)
    requires
        is_table(base),
        is_table(head),
    ensures
        ({
            let ad = spec_added(base, head);
            let names = ad.map_values(|x: (Seq<char>, Seq<char>, Seq<char>)| x.0);
            &&& sorted_strict(names)
            &&& names.to_set() == table_keys(head).to_set().difference(table_keys(base).to_set())
            &&& forall|k: int| 0 <= k < ad.len() ==> {
                let new = lookup(head, (#[trigger] ad[k]).0)->Some_0;
                &&& lookup(head, ad[k].0) is Some
                &&& ad[k].1 == new.ver@
                &&& ad[k].2 == spec_kind_label(new.kind, new.optional)
            }
        }),
{
    let ad = spec_added(base, head);
    let names = ad.map_values(|x: (Seq<char>, Seq<char>, Seq<char>)| x.0);
    lemma_added_rows(base, head);
    assert forall|k: int| 0 <= k < ad.len() implies {
        let new = lookup(head, (#[trigger] ad[k]).0)->Some_0;
        &&& lookup(head, ad[k].0) is Some
        &&& ad[k].1 == new.ver@
        &&& ad[k].2 == spec_kind_label(new.kind, new.optional)
    } by {
        let j = choose|j: int| 0 <= j < head.len() && lookup(base, head[j].0@) is None && ad[k] == added_row(head[j]);
        lemma_table_lookup(head, j);
    }
    assert forall|n: Seq<char>| #[trigger] names.to_set().contains(n) <==> table_keys(head).to_set().difference(table_keys(base).to_set()).contains(n) by {
        lemma_lookup(base, n);
        if names.to_set().contains(n) {
            let k = choose|k: int| 0 <= k < names.len() && names[k] == n;
            let j = choose|j: int| 0 <= j < head.len() && lookup(base, head[j].0@) is None && ad[k] == added_row(head[j]);
            assert(table_keys(head)[j] == n);
            if table_keys(base).to_set().contains(n) {
                let i = choose|i: int| 0 <= i < table_keys(base).len() && table_keys(base)[i] == n;
                assert(base[i].0@ == n);
            }
        }
        if table_keys(head).to_set().difference(table_keys(base).to_set()).contains(n) {
            let j = choose|j: int| 0 <= j < table_keys(head).len() && table_keys(head)[j] == n;
            assert(head[j].0@ == n);
            assert forall|i: int| 0 <= i < base.len() implies (#[trigger] base[i]).0@ != n by {
                assert(table_keys(base)[i] == base[i].0@);
            }
            let k = choose|k: int| 0 <= k < ad.len() && ad[k] == added_row(head[j]);
            assert(names[k] == n);
        }
    }
    assert(names.to_set() =~= table_keys(head).to_set().difference(table_keys(base).to_set()));
}

/// Whether a baseline entry is at the head with a different record.
pub open spec fn is_changed(e: (String, DepRecord), head: Seq<(String, DepRecord)>) -> bool {
    lookup(head, e.0@) is Some && !e.1.same(lookup(head, e.0@)->Some_0)
}

/// The row a baseline entry whose record differs at the head gets.
#[verifier::opaque]
pub open spec fn changed_row_of(e: (String, DepRecord), head: Seq<(String, DepRecord)>) -> (
    Seq<char>,
    Seq<char>,
    Seq<char>,
    Bump,
    Seq<char>,
    Seq<char>,
    bool,
) {
    spec_changed_row(e.0@, e.1, lookup(head, e.0@)->Some_0)
}

/// One step of `spec_changed`: the last baseline entry adds its row when it changed.
proof fn lemma_changed_step(base: Seq<(String, DepRecord)>, head: Seq<(String, DepRecord)>)
    requires
        base.len() > 0,
    ensures
        spec_changed(base, head) == if is_changed(base.last(), head) {
            spec_changed(base.drop_last(), head).push(changed_row_of(base.last(), head))
        } else {
            spec_changed(base.drop_last(), head)
        },
        changed_row_of(base.last(), head).0 == base.last().0@,
{
    reveal(changed_row_of);
    reveal(spec_changed);
}

/// The changed row at `k` comes from a baseline entry whose record differs at the head.
pub open spec fn changed_row_sourced(
    base: Seq<(String, DepRecord)>,
    head: Seq<(String, DepRecord)>,
    k: int,
) -> bool {
    exists|j: int|
        0 <= j < base.len() && is_changed(base[j], head) && spec_changed(base, head)[k]
            === changed_row_of(base[j], head)
}

/// The baseline entry at `j` has its row among the changed rows.
pub open spec fn changed_row_present(
    base: Seq<(String, DepRecord)>,
    head: Seq<(String, DepRecord)>,
    j: int,
) -> bool {
    exists|k: int|
        0 <= k < spec_changed(base, head).len() && spec_changed(base, head)[k] === changed_row_of(
            base[j],
            head,
        )
}

/// The changed rows: each comes from a baseline entry whose record differs at the head,
/// every such entry gives one, and they are in name order.
#[verifier::spinoff_prover]
#[verifier::rlimit(60)]
proof fn lemma_changed_rows(base: Seq<(String, DepRecord)>, head: Seq<(String, DepRecord)>)
    requires
        is_table(base),
    ensures
        forall|k: int| 0 <= k < spec_changed(base, head).len() ==> #[trigger] changed_row_sourced(base, head, k),
        forall|j: int| 0 <= j < base.len() && is_changed(base[j], head) ==> #[trigger] changed_row_present(base, head, j),
        sorted_strict(
            spec_changed(base, head).map_values(
                |x: (Seq<char>, Seq<char>, Seq<char>, Bump, Seq<char>, Seq<char>, bool)| x.0,
            ),
        ),
    decreases base.len(),
{
    let ch = spec_changed(base, head);
    if base.len() > 0 {
        let d = base.drop_last();
        lemma_table_drop_last(base);
        lemma_changed_rows(d, head);
        lemma_changed_step(base, head);
        let rd = spec_changed(d, head);
        let n = base.len() - 1;
        let e = base.last();
        assert(e == base[n]);
        assert forall|j: int| 0 <= j < d.len() implies #[trigger] d[j] == base[j] by {}
        if !is_changed(e, head) {
            assert(ch == rd);
            assert forall|k: int| 0 <= k < ch.len() implies #[trigger] changed_row_sourced(base, head, k) by {
                assert(changed_row_sourced(d, head, k));
                let j = choose|j: int| 0 <= j < d.len() && is_changed(d[j], head) && rd[k] === changed_row_of(d[j], head);
                assert(base[j] == d[j]);
            }
            assert forall|j: int| 0 <= j < base.len() && is_changed(base[j], head) implies #[trigger] changed_row_present(base, head, j) by {
                assert(j < n);
                assert(d[j] == base[j]);
                assert(changed_row_present(d, head, j));
                let k = choose|k: int| 0 <= k < rd.len() && rd[k] === changed_row_of(d[j], head);
                assert(ch[k] == rd[k]);
            }
        } else {
            let row = changed_row_of(e, head);
            assert(ch == rd.push(row));
            assert forall|k: int| 0 <= k < ch.len() implies #[trigger] changed_row_sourced(base, head, k) by {
                if k < rd.len() {
                    assert(ch[k] == rd[k]);
                    assert(changed_row_sourced(d, head, k));
                    let j = choose|j: int| 0 <= j < d.len() && is_changed(d[j], head) && rd[k] === changed_row_of(d[j], head);
                    assert(base[j] == d[j]);
                } else {
                    assert(is_changed(base[n], head));
                    assert(ch[k] == changed_row_of(base[n], head));
                }
            }
            assert forall|j: int| 0 <= j < base.len() && is_changed(base[j], head) implies #[trigger] changed_row_present(base, head, j) by {
                if j < n {
                    assert(d[j] == base[j]);
                    assert(changed_row_present(d, head, j));
                    let k = choose|k: int| 0 <= k < rd.len() && rd[k] === changed_row_of(d[j], head);
                    assert(ch[k] == rd[k]);
                } else {
                    assert(ch[rd.len() as int] == row);
                }
            }
            let nm = ch.map_values(|x: (Seq<char>, Seq<char>, Seq<char>, Bump, Seq<char>, Seq<char>, bool)| x.0);
            let nd = rd.map_values(|x: (Seq<char>, Seq<char>, Seq<char>, Bump, Seq<char>, Seq<char>, bool)| x.0);
            assert forall|a: int, b: int| 0 <= a < b < nm.len() implies seq_lt(#[trigger] nm[a], #[trigger] nm[b]) by {
                if b < nd.len() {
                    assert(nm[a] == nd[a] && nm[b] == nd[b]);
                } else {
                    assert(nm[a] == rd[a].0);
                    assert(changed_row_sourced(d, head, a));
                    let j = choose|j: int| 0 <= j < d.len() && is_changed(d[j], head) && rd[a] === changed_row_of(d[j], head);
                    assert(base[j] == d[j]);
                    reveal(changed_row_of);
                    assert(nm[b] == e.0@);
                }
            }
        }
    } else {
        reveal(spec_changed);
        assert(ch.len() == 0);
    }
}

/// The changed rows of the dependency diff are the names at both refs whose records differ,
/// in name order; each row carries the two requirements, their bump class, the stronger kind
/// label (the head's on a tie), the feature delta, and is breaking exactly when that label is
/// `runtime` and the bump is major or a feature was lost.
#[verifier::spinoff_prover]
#[verifier::rlimit(60)]
pub proof fn law_changed_dependencies(base: Seq<(String, DepRecord)>, head: Seq<(String, DepRecord)>)
    requires
        is_table(base),
        is_table(head),
    ensures
        ({
            let ch = spec_changed(base, head);
            let names = ch.map_values(
                |x: (Seq<char>, Seq<char>, Seq<char>, Bump, Seq<char>, Seq<char>, bool)| x.0,
            );
            &&& sorted_strict(names)
            &&& names.to_set() == Set::new(
                |n: Seq<char>|
                    lookup(base, n) is Some && lookup(head, n) is Some && !lookup(base, n)->Some_0.same(
                        lookup(head, n)->Some_0,
                    ),
            )
            &&& forall|k: int| 0 <= k < ch.len() ==> {
                let old = lookup(base, (#[trigger] ch[k]).0)->Some_0;
                let new = lookup(head, ch[k].0)->Some_0;
                &&& lookup(base, ch[k].0) is Some
                &&& lookup(head, ch[k].0) is Some
                &&& ch[k].1 == old.ver@
                &&& ch[k].2 == new.ver@
                &&& ch[k].3 == spec_classify_bump(old.ver@, new.ver@)
                &&& ch[k].4 == stronger_label(old, new)
                &&& ch[k].5 == spec_feature_diff(
                    old.default_features,
                    new.default_features,
                    old.features@,
                    new.features@,
                )
                &&& ch[k].6 == (ch[k].4 == "runtime"@ && (ch[k].3 == Bump::Major || loses_feature(
                    ch[k].5,
                )))
            }
        }),
{
    let ch = spec_changed(base, head);
    let names = ch.map_values(
        |x: (Seq<char>, Seq<char>, Seq<char>, Bump, Seq<char>, Seq<char>, bool)| x.0,
    );
    lemma_changed_rows(base, head);
    assert forall|k: int| 0 <= k < ch.len() implies {
        let old = lookup(base, (#[trigger] ch[k]).0)->Some_0;
        let new = lookup(head, ch[k].0)->Some_0;
        &&& lookup(base, ch[k].0) is Some
        &&& lookup(head, ch[k].0) is Some
        &&& ch[k].1 == old.ver@
        &&& ch[k].2 == new.ver@
        &&& ch[k].3 == spec_classify_bump(old.ver@, new.ver@)
        &&& ch[k].4 == stronger_label(old, new)
        &&& ch[k].5 == spec_feature_diff(
            old.default_features,
            new.default_features,
            old.features@,
            new.features@,
        )
        &&& ch[k].6 == (ch[k].4 == "runtime"@ && (ch[k].3 == Bump::Major || loses_feature(ch[k].5)))
    } by {
        assert(changed_row_sourced(base, head, k));
        let j = choose|j: int| 0 <= j < base.len() && is_changed(base[j], head) && ch[k] === changed_row_of(base[j], head);
        lemma_table_lookup(base, j);
        reveal(changed_row_of);
    }
    let want = Set::new(
        |n: Seq<char>|
            lookup(base, n) is Some && lookup(head, n) is Some && !lookup(base, n)->Some_0.same(
                lookup(head, n)->Some_0,
            ),
    );
    assert forall|n: Seq<char>| #[trigger] names.to_set().contains(n) <==> want.contains(n) by {
        lemma_lookup(base, n);
        if names.to_set().contains(n) {
            let k = choose|k: int| 0 <= k < names.len() && names[k] == n;
            assert(changed_row_sourced(base, head, k));
            let j = choose|j: int| 0 <= j < base.len() && is_changed(base[j], head) && ch[k] === changed_row_of(base[j], head);
            lemma_table_lookup(base, j);
            reveal(changed_row_of);
        }
        if want.contains(n) {
            let j = choose|j: int| 0 <= j < base.len() && (#[trigger] base[j]).0@ == n && lookup(base, n) == Some(base[j].1);
            assert(is_changed(base[j], head));
            assert(changed_row_present(base, head, j));
            let k = choose|k: int| 0 <= k < ch.len() && ch[k] === changed_row_of(base[j], head);
            reveal(changed_row_of);
            assert(names[k] == n);
        }
    }
    assert(names.to_set() =~= want);
}

/// Counting removed rows marked breaking is counting those labelled `runtime`, when each
/// row's mark is that test.
proof fn lemma_removed_count(s: Seq<(Seq<char>, Seq<char>, Seq<char>, bool)>)
    requires
        forall|k: int| 0 <= k < s.len() ==> (#[trigger] s[k]).3 == (s[k].2 == "runtime"@),
    ensures
        count_removed_breaking(s) == s.filter(
            |x: (Seq<char>, Seq<char>, Seq<char>, bool)| x.2 == "runtime"@,
        ).len(),
    decreases s.len(),
{
    reveal(Seq::filter);
    if s.len() > 0 {
        let d = s.drop_last();
        assert forall|k: int| 0 <= k < d.len() implies (#[trigger] d[k]).3 == (d[k].2 == "runtime"@) by {
            assert(d[k] == s[k]);
        }
        lemma_removed_count(d);
        assert(s.last() == s[s.len() - 1]);
        let pred = |x: (Seq<char>, Seq<char>, Seq<char>, bool)| x.2 == "runtime"@;
        reveal(Seq::filter);
        assert(s.filter(pred) == if pred(s.last()) { d.filter(pred).push(s.last()) } else { d.filter(pred) });
    }
}

/// Counting changed rows marked breaking is counting those whose label is `runtime` and
/// whose bump is major or which lose a feature, when each row's mark is that test.
proof fn lemma_changed_count(s: Seq<(Seq<char>, Seq<char>, Seq<char>, Bump, Seq<char>, Seq<char>, bool)>)
    requires
        forall|k: int| 0 <= k < s.len() ==> (#[trigger] s[k]).6 == (s[k].4 == "runtime"@ && (s[k].3
            == Bump::Major || loses_feature(s[k].5))),
    ensures
        count_changed_breaking(s) == s.filter(
            |c: (Seq<char>, Seq<char>, Seq<char>, Bump, Seq<char>, Seq<char>, bool)|
                c.4 == "runtime"@ && (c.3 == Bump::Major || loses_feature(c.5)),
        ).len(),
    decreases s.len(),
{
    reveal(Seq::filter);
    if s.len() > 0 {
        let d = s.drop_last();
        assert forall|k: int| 0 <= k < d.len() implies (#[trigger] d[k]).6 == (d[k].4 == "runtime"@ && (d[k].3
            == Bump::Major || loses_feature(d[k].5))) by {
            assert(d[k] == s[k]);
        }
        lemma_changed_count(d);
        assert(s.last() == s[s.len() - 1]);
        let pred = |c: (Seq<char>, Seq<char>, Seq<char>, Bump, Seq<char>, Seq<char>, bool)|
            c.4 == "runtime"@ && (c.3 == Bump::Major || loses_feature(c.5));
        reveal(Seq::filter);
        assert(s.filter(pred) == if pred(s.last()) { d.filter(pred).push(s.last()) } else { d.filter(pred) });
    }
}

} // verus!
