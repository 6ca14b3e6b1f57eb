//! Resolved dependency changes from Cargo.lock.

use vstd::prelude::*;

use crate::model::LockDiff;
use crate::order::{
    insert_key, insert_sorted, key_lt, keys_sorted, kview, kviews, seq_lt, sorted_strict, vviews,
};
use crate::table::{is_table, lookup, lemma_lookup, lemma_table_lookup, table_keys};
use crate::text::{
    chars_eq, chars_of, copy_chars, decimal, extend_chars, has_prefix, is_digit, is_ws, join,
    join_chars, lines, lines_chars, push_decimal, slice_chars, split, split_chars, starts_with,
    string_of, ws,
};

verus! {

/// `s` without leading spaces.
pub open spec fn skip_spaces(s: Seq<char>) -> Seq<char>
    decreases s.len(),
{
    if s.len() > 0 && s[0] == ' ' {
        skip_spaces(s.skip(1))
    } else {
        s
    }
}

/// The value of a `key = "value"` line: the key at the start, spaces, `=`, spaces, an
/// opening quote, then the rest without one closing quote.
pub open spec fn spec_quoted(line: Seq<char>, key: Seq<char>) -> Option<Seq<char>> {
    if !starts_with(line, key) {
        None
    } else {
        let a = skip_spaces(line.skip(key.len() as int));
        if a.len() == 0 || a[0] != '=' {
            None
        } else {
            let b = skip_spaces(a.skip(1));
            if b.len() == 0 || b[0] != '"' {
                None
            } else {
                let c = b.skip(1);
                Some(if c.len() > 0 && c.last() == '"' { c.drop_last() } else { c })
            }
        }
    }
}

fn skip_spaces_from(s: &Vec<char>, from: usize) -> (r: usize)
    requires
        from <= s.len(),
    ensures
        from <= r <= s.len(),
        s@.skip(r as int) == skip_spaces(s@.skip(from as int)),
{
    let mut i = from;
    while i < s.len() && s[i] == ' '
        invariant
            from <= i <= s.len(),
            skip_spaces(s@.skip(i as int)) == skip_spaces(s@.skip(from as int)),
        decreases s.len() - i,
    {
        assert(s@.skip(i as int).skip(1) == s@.skip(i + 1));
        i += 1;
    }
    i
}

fn quoted_assignment(line: &Vec<char>, key: &str) -> (r: Option<Vec<char>>)
    ensures
        match r {
            Some(v) => spec_quoted(line@, key@) == Some(v@),
            None => spec_quoted(line@, key@) is None,
        },
{
    let k = chars_of(key);
    if !has_prefix(line, &k) {
        return None;
    }
    let a = skip_spaces_from(line, k.len());
    if a == line.len() || line[a] != '=' {
        return None;
    }
    assert(line@.skip(a as int).skip(1) == line@.skip(a + 1));
    let b = skip_spaces_from(line, a + 1);
    if b == line.len() || line[b] != '"' {
        return None;
    }
    let c = b + 1;
    assert(line@.skip(b as int).skip(1) == line@.skip(c as int));
    if c < line.len() && line[line.len() - 1] == '"' {
        let v = slice_chars(line, c, line.len() - 1);
        assert(v@ == line@.skip(c as int).drop_last());
        Some(v)
    } else {
        let v = slice_chars(line, c, line.len());
        assert(v@ == line@.skip(c as int));
        Some(v)
    }
}

/// Adds a package when both its name and version were seen.
pub open spec fn emit_package(set: Set<Seq<Seq<char>>>, name: Seq<char>, version: Seq<char>) -> Set<
    Seq<Seq<char>>,
> {
    if name.len() > 0 && version.len() > 0 {
        set.insert(seq![name, version])
    } else {
        set
    }
}

/// Scanner state over the lock file's lines: inside a package, its name and version so far,
/// and the packages found.
pub open spec fn lock_state(ls: Seq<Seq<char>>) -> (bool, Seq<char>, Seq<char>, Set<Seq<Seq<char>>>)
    decreases ls.len(),
{
    if ls.len() == 0 {
        (false, Seq::empty(), Seq::empty(), Set::empty())
    } else {
        let (inside, name, version, set) = lock_state(ls.drop_last());
        let line = ls.last();
        if starts_with(line, "[[package]]"@) {
            (true, Seq::empty(), Seq::empty(), set)
        } else if inside {
            let n = match spec_quoted(line, "name"@) {
                Some(v) => v,
                None => name,
            };
            let v = match spec_quoted(line, "version"@) {
                Some(x) => x,
                None => version,
            };
            if line.len() == 0 {
                (false, Seq::empty(), Seq::empty(), emit_package(set, n, v))
            } else {
                (true, n, v, set)
            }
        } else {
            (inside, name, version, set)
        }
    }
}

/// The `(name, version)` pairs of every `[[package]]` block with both fields.
pub open spec fn lock_packages(contents: Seq<char>) -> Set<Seq<Seq<char>>> {
    let (inside, name, version, set) = lock_state(split(contents, '\n'));
    if inside {
        emit_package(set, name, version)
    } else {
        set
    }
}

/// The key view of a `(name, version)` pair.
pub open spec fn pair_key(p: (String, String)) -> Seq<Seq<char>> {
    seq![p.0@, p.1@]
}

/// The key views of a list of pairs.
pub open spec fn pair_keys(v: Seq<(String, String)>) -> Seq<Seq<Seq<char>>> {
    v.map_values(|p: (String, String)| pair_key(p))
}

fn pair_of(name: &Vec<char>, version: &Vec<char>) -> (r: Vec<Vec<char>>)
    ensures
        kview(r) == seq![name@, version@],
{
    let mut k: Vec<Vec<char>> = Vec::new();
    k.push(copy_chars(name));
    k.push(copy_chars(version));
    assert(kview(k) =~= seq![name@, version@]);
    k
}

/// The packages of a lock file as sorted, distinct `(name, version)` pairs.
pub fn extract_lock(contents: &str) -> (r: Vec<(String, String)>)
    ensures
        keys_sorted(pair_keys(r@)),
        pair_keys(r@).to_set() == lock_packages(contents@),
{
    let text = chars_of(contents);
    let ls = split_chars(&text, '\n');
    let ghost sl = split(contents@, '\n');
    let mut packages: Vec<Vec<Vec<char>>> = Vec::new();
    let mut inside = false;
    let mut name: Vec<char> = Vec::new();
    let mut version: Vec<char> = Vec::new();
    let mut i: usize = 0;
    assert(kviews(packages@).to_set() =~= Set::empty());
    while i < ls.len()
        invariant
            i <= ls.len(),
            sl == split(contents@, '\n'),
            ls@.len() == sl.len(),
            forall|k: int| 0 <= k < ls@.len() ==> #[trigger] ls@[k]@ == sl[k],
            keys_sorted(kviews(packages@)),
            forall|j: int| 0 <= j < packages@.len() ==> (#[trigger] kviews(packages@)[j]).len() == 2,
            ({
                let (ins, n, v, set) = lock_state(sl.take(i as int));
                &&& ins == inside
                &&& n == name@
                &&& v == version@
                &&& set == kviews(packages@).to_set()
            }),
        decreases ls.len() - i,
    {
        assert(sl.take(i + 1).drop_last() == sl.take(i as int));
        assert(sl.take(i + 1).last() == ls@[i as int]@);
        let line = &ls[i];
        if has_prefix(line, &chars_of("[[package]]")) {
            name = Vec::new();
            version = Vec::new();
            inside = true;
        } else if inside {
            if let Some(v) = quoted_assignment(line, "name") {
                name = v;
            }
            if let Some(v) = quoted_assignment(line, "version") {
                version = v;
            }
            if line.len() == 0 {
                if name.len() > 0 && version.len() > 0 {
                    let k = pair_of(&name, &version);
                    add_pair(&mut packages, k);
                }
                name = Vec::new();
                version = Vec::new();
                inside = false;
            }
        }
        i += 1;
    }
    assert(sl.take(ls.len() as int) == sl);
    if inside && name.len() > 0 && version.len() > 0 {
        let k = pair_of(&name, &version);
        add_pair(&mut packages, k);
    }
    proof {
        assert forall|j: int| 0 <= j < packages@.len() implies (#[trigger] packages@[j])@.len() == 2 by {
            assert(kviews(packages@)[j].len() == 2);
        }
    }
    to_pairs(&packages)
}

fn add_pair(list: &mut Vec<Vec<Vec<char>>>, x: Vec<Vec<char>>)
    requires
        keys_sorted(kviews(old(list)@)),
        forall|j: int| 0 <= j < old(list)@.len() ==> (#[trigger] kviews(old(list)@)[j]).len() == 2,
        kview(x).len() == 2,
    ensures
        keys_sorted(kviews(final(list)@)),
        forall|j: int| 0 <= j < final(list)@.len() ==> (#[trigger] kviews(final(list)@)[j]).len() == 2,
        kviews(final(list)@).to_set() == kviews(old(list)@).to_set().insert(kview(x)),
{
    let ghost before = kviews(list@);
    let ghost xv = kview(x);
    insert_key(list, x);
    proof {
        let after = kviews(list@);
        assert forall|j: int| 0 <= j < after.len() implies (#[trigger] after[j]).len() == 2 by {
            assert(after.to_set().contains(after[j]));
            if after[j] != xv {
                assert(before.to_set().contains(after[j]));
                let m = choose|m: int| 0 <= m < before.len() && before[m] == after[j];
                assert(before[m].len() == 2);
            }
        }
    }
}

fn to_pairs(keys: &Vec<Vec<Vec<char>>>) -> (r: Vec<(String, String)>)
    requires
        forall|i: int| 0 <= i < keys@.len() ==> (#[trigger] keys@[i])@.len() == 2,
    ensures
        pair_keys(r@) == kviews(keys@),
{
    let mut out: Vec<(String, String)> = Vec::new();
    let mut i: usize = 0;
    while i < keys.len()
        invariant
            i <= keys.len(),
            forall|i: int| 0 <= i < keys@.len() ==> (#[trigger] keys@[i])@.len() == 2,
            pair_keys(out@) == kviews(keys@).take(i as int),
        decreases keys.len() - i,
    {
        let k = &keys[i];
        assert(k@.len() == 2);
        let p = (string_of(&k[0]), string_of(&k[1]));
        let ghost before = out@;
        out.push(p);
        assert(kview(*k) =~= seq![k@[0]@, k@[1]@]);
        assert(pair_keys(out@) =~= pair_keys(before).push(pair_key(p)));
        assert(kviews(keys@).take(i + 1) == kviews(keys@).take(i as int).push(kviews(keys@)[i as int]));
        i += 1;
    }
    assert(kviews(keys@).take(keys.len() as int) == kviews(keys@));
    out
}

/// The versions of the packages named `name`, in input order.
pub open spec fn versions_of(packages: Seq<(String, String)>, name: Seq<char>) -> Seq<Seq<char>>
    decreases packages.len(),
{
    if packages.len() == 0 {
        Seq::empty()
    } else {
        let init = versions_of(packages.drop_last(), name);
        if packages.last().0@ == name {
            init.push(packages.last().1@)
        } else {
            init
        }
    }
}

/// The sequence without elements equal to the one before them.
pub open spec fn dedup_adjacent(s: Seq<Seq<char>>) -> Seq<Seq<char>>
    decreases s.len(),
{
    if s.len() == 0 {
        s
    } else {
        let init = dedup_adjacent(s.drop_last());
        if init.len() > 0 && init.last() == s.last() {
            init
        } else {
            init.push(s.last())
        }
    }
}

/// The names of a list of packages, as a set.
pub open spec fn package_names(packages: Seq<(String, String)>) -> Set<Seq<char>> {
    packages.map_values(|p: (String, String)| p.0@).to_set()
}

/// Versions grouped under each package name: names sorted, versions comma-joined in input
/// order with repeats of the previous version dropped.
pub open spec fn grouped(packages: Seq<(String, String)>, t: Seq<(String, String)>) -> bool {
    &&& is_table(t)
    &&& table_keys(t).to_set() == package_names(packages)
    &&& forall|k: int|
        0 <= k < t.len() ==> (#[trigger] t[k]).1@ == join(
            dedup_adjacent(versions_of(packages, t[k].0@)),
            ","@,
        )
}

fn versions_by_name(packages: &Vec<(String, String)>) -> (r: Vec<(String, String)>)
    ensures
        grouped(packages@, r@),
{
    let mut names: Vec<Vec<char>> = Vec::new();
    let mut i: usize = 0;
    let ghost allnames = packages@.map_values(|p: (String, String)| p.0@);
    assert(vviews(names@).to_set() =~= Set::empty());
    while i < packages.len()
        invariant
            i <= packages.len(),
            allnames == packages@.map_values(|p: (String, String)| p.0@),
            sorted_strict(vviews(names@)),
            vviews(names@).to_set() == allnames.take(i as int).to_set(),
        decreases packages.len() - i,
    {
        insert_sorted(&mut names, chars_of(packages[i].0.as_str()));
        assert(allnames.take(i + 1) == allnames.take(i as int).push(allnames[i as int]));
        proof {
            allnames.take(i as int).lemma_push_to_set_commute(allnames[i as int]);
        }
        i += 1;
    }
    assert(allnames.take(packages.len() as int) == allnames);
    let mut out: Vec<(String, String)> = Vec::new();
    let mut k: usize = 0;
    while k < names.len()
        invariant
            k <= names.len(),
            sorted_strict(vviews(names@)),
            table_keys(out@) == vviews(names@).take(k as int),
            forall|j: int|
                0 <= j < out@.len() ==> (#[trigger] out@[j]).1@ == join(
                    dedup_adjacent(versions_of(packages@, out@[j].0@)),
                    ","@,
                ),
        decreases names.len() - k,
    {
        let vs = grouped_versions(packages, &names[k]);
        let joined = join_chars(&vs, &chars_of(","));
        let e = (string_of(&names[k]), string_of(&joined));
        let ghost before = out@;
        out.push(e);
        assert(table_keys(out@) =~= table_keys(before).push(vviews(names@)[k as int]));
        assert(vviews(names@).take(k + 1) == vviews(names@).take(k as int).push(vviews(names@)[k as int]));
        assert(crate::order::vviews(vs@) == vs@.map_values(|p: Vec<char>| p@));
        k += 1;
    }
    proof {
        assert(vviews(names@).take(names.len() as int) == vviews(names@));
        let ks = table_keys(out@);
        assert(ks == vviews(names@));
        assert(package_names(packages@) == allnames.to_set());
    }
    out
}

fn grouped_versions(packages: &Vec<(String, String)>, name: &Vec<char>) -> (r: Vec<Vec<char>>)
    ensures
        vviews(r@) == dedup_adjacent(versions_of(packages@, name@)),
{
    let mut out: Vec<Vec<char>> = Vec::new();
    let mut i: usize = 0;
    while i < packages.len()
        invariant
            i <= packages.len(),
            vviews(out@) == dedup_adjacent(versions_of(packages@.take(i as int), name@)),
        decreases packages.len() - i,
    {
        assert(packages@.take(i + 1).drop_last() == packages@.take(i as int));
        let n = chars_of(packages[i].0.as_str());
        if chars_eq(&n, name) {
            let v = chars_of(packages[i].1.as_str());
            let ghost vs = versions_of(packages@.take(i as int), name@);
            assert(versions_of(packages@.take(i + 1), name@) == vs.push(v@));
            assert(vs.push(v@).drop_last() == vs);
            if !(out.len() > 0 && chars_eq(&out[out.len() - 1], &v)) {
                let ghost before = out@;
                out.push(v);
                assert(vviews(out@) =~= vviews(before).push(v@));
            }
        }
        i += 1;
    }
    assert(packages@.take(packages.len() as int) == packages@);
    out
}

/// Whether `name` is one of the direct dependency names.
pub open spec fn is_direct(direct: Seq<String>, name: Seq<char>) -> bool {
    exists|i: int| 0 <= i < direct.len() && (#[trigger] direct[i])@ == name
}

fn direct_has(direct: &Vec<String>, name: &str) -> (r: bool)
    ensures
        r == is_direct(direct@, name@),
{
    let mut i: usize = 0;
    while i < direct.len()
        invariant
            i <= direct.len(),
            forall|j: int| 0 <= j < i ==> (#[trigger] direct@[j])@ != name@,
        decreases direct.len() - i,
    {
        if crate::text::str_eq(direct[i].as_str(), name) {
            return true;
        }
        i += 1;
    }
    false
}

/// Transitive changes between two grouped tables, direct dependencies left out: removed,
/// changed and added rows in name order.
pub open spec fn spec_lock_removed(base: Seq<(String, String)>, head: Seq<(String, String)>, direct: Seq<String>) -> Seq<(Seq<char>, Seq<char>)>
    decreases base.len(),
{
    if base.len() == 0 {
        Seq::empty()
    } else {
        let init = spec_lock_removed(base.drop_last(), head, direct);
        let (n, v) = base.last();
        if !is_direct(direct, n@) && lookup(head, n@) is None {
            init.push((n@, v@))
        } else {
            init
        }
    }
}

/// Rows present at both refs with different versions, direct dependencies left out.
pub open spec fn spec_lock_changed(base: Seq<(String, String)>, head: Seq<(String, String)>, direct: Seq<String>) -> Seq<(Seq<char>, Seq<char>, Seq<char>)>
    decreases base.len(),
{
    if base.len() == 0 {
        Seq::empty()
    } else {
        let init = spec_lock_changed(base.drop_last(), head, direct);
        let (n, v) = base.last();
        match lookup(head, n@) {
            Some(w) => if !is_direct(direct, n@) && v@ != w@ {
                init.push((n@, v@, w@))
            } else {
                init
            },
            None => init,
        }
    }
}

/// Rows present only at the head, direct dependencies left out.
pub open spec fn spec_lock_added(base: Seq<(String, String)>, head: Seq<(String, String)>, direct: Seq<String>) -> Seq<(Seq<char>, Seq<char>)>
    decreases head.len(),
{
    if head.len() == 0 {
        Seq::empty()
    } else {
        let init = spec_lock_added(base, head.drop_last(), direct);
        let (n, v) = head.last();
        if !is_direct(direct, n@) && lookup(base, n@) is None {
            init.push((n@, v@))
        } else {
            init
        }
    }
}

fn table_find(t: &Vec<(String, String)>, name: &str) -> (r: Option<usize>)
    ensures
        match r {
            Some(i) => i < t@.len() && lookup(t@, name@) == Some(t@[i as int].1),
            None => lookup(t@, name@) is None,
        },
{
    let mut i: usize = t.len();
    assert(t@.take(t.len() as int) == t@);
    while i > 0
        invariant
            i <= t.len(),
            lookup(t@, name@) == lookup(t@.take(i as int), name@),
        decreases i,
    {
        assert(t@.take(i as int).drop_last() == t@.take(i - 1));
        if crate::text::str_eq(t[i - 1].0.as_str(), name) {
            return Some(i - 1);
        }
        i -= 1;
    }
    None
}

/// Compare two lock files' packages, suppressing direct dependencies, and attribute the
/// changes to the direct dependencies that pull them in according to `tree`.
pub fn build_diff(
    base: &Vec<(String, String)>,
    head: &Vec<(String, String)>,
    direct_names: &Vec<String>,
    tree: &str,
) -> (r: LockDiff)
    ensures
        exists|bt: Seq<(String, String)>, ht: Seq<(String, String)>| {
            &&& grouped(base@, bt)
            &&& grouped(head@, ht)
            &&& r.removed@.map_values(|p: (String, String)| (p.0@, p.1@)) == spec_lock_removed(bt, ht, direct_names@)
            &&& r.changed@.map_values(|p: (String, String, String)| (p.0@, p.1@, p.2@)) == spec_lock_changed(bt, ht, direct_names@)
            &&& r.added@.map_values(|p: (String, String)| (p.0@, p.1@)) == spec_lock_added(bt, ht, direct_names@)
        },
        attributed(tree@, direct_names@, r.via@),
{
    let bt = versions_by_name(base);
    let ht = versions_by_name(head);
    let mut removed: Vec<(String, String)> = Vec::new();
    let mut changed: Vec<(String, String, String)> = Vec::new();
    let mut added: Vec<(String, String)> = Vec::new();
    let mut i: usize = 0;
    while i < bt.len()
        invariant
            i <= bt.len(),
            removed@.map_values(|p: (String, String)| (p.0@, p.1@)) == spec_lock_removed(bt@.take(i as int), ht@, direct_names@),
            changed@.map_values(|p: (String, String, String)| (p.0@, p.1@, p.2@)) == spec_lock_changed(bt@.take(i as int), ht@, direct_names@),
        decreases bt.len() - i,
    {
        assert(bt@.take(i + 1).drop_last() == bt@.take(i as int));
        let name = &bt[i].0;
        let old = &bt[i].1;
        if !direct_has(direct_names, name.as_str()) {
            match table_find(&ht, name.as_str()) {
                None => {
                    let ghost before = removed@;
                    let row = (name.clone(), old.clone());
                    removed.push(row);
                    assert(removed@.map_values(|p: (String, String)| (p.0@, p.1@)) =~= before.map_values(|p: (String, String)| (p.0@, p.1@)).push((row.0@, row.1@)));
                },
                Some(j) => {
                    let new = &ht[j].1;
                    if !crate::text::str_eq(old.as_str(), new.as_str()) {
                        let ghost before = changed@;
                        let row = (name.clone(), old.clone(), new.clone());
                        changed.push(row);
                        assert(changed@.map_values(|p: (String, String, String)| (p.0@, p.1@, p.2@)) =~= before.map_values(|p: (String, String, String)| (p.0@, p.1@, p.2@)).push((row.0@, row.1@, row.2@)));
                    }
                },
            }
        }
        i += 1;
    }
    assert(bt@.take(bt.len() as int) == bt@);
    let mut k: usize = 0;
    while k < ht.len()
        invariant
            k <= ht.len(),
            added@.map_values(|p: (String, String)| (p.0@, p.1@)) == spec_lock_added(bt@, ht@.take(k as int), direct_names@),
        decreases ht.len() - k,
    {
        assert(ht@.take(k + 1).drop_last() == ht@.take(k as int));
        let name = &ht[k].0;
        if !direct_has(direct_names, name.as_str()) && table_find(&bt, name.as_str()).is_none() {
            let ghost before = added@;
            let row = (name.clone(), ht[k].1.clone());
            added.push(row);
            assert(added@.map_values(|p: (String, String)| (p.0@, p.1@)) =~= before.map_values(|p: (String, String)| (p.0@, p.1@)).push((row.0@, row.1@)));
        }
        k += 1;
    }
    assert(ht@.take(ht.len() as int) == ht@);
    let via = attribution(tree, direct_names);
    LockDiff { removed, changed, added, via }
}

/// The number a run of ASCII digits spells.
pub open spec fn digits_value(s: Seq<char>) -> nat
    decreases s.len(),
{
    if s.len() == 0 {
        0
    } else {
        digits_value(s.drop_last()) * 10 + ((s.last() as nat) - ('0' as nat)) as nat
    }
}

/// Length of the run of leading ASCII digits.
pub open spec fn digit_run(s: Seq<char>) -> int
    decreases s.len(),
{
    if s.len() > 0 && is_digit(s[0]) {
        1 + digit_run(s.skip(1))
    } else {
        0
    }
}

/// Position of the first whitespace character, or the length.
pub open spec fn first_ws(s: Seq<char>) -> int
    decreases s.len(),
{
    if s.len() == 0 {
        0
    } else if is_ws(s[0]) {
        0
    } else {
        1 + first_ws(s.skip(1))
    }
}

/// A `cargo tree --prefix=depth` line: its depth and crate name, when it has a depth that
/// fits a `usize`, something after it, and a name before the first whitespace.
pub open spec fn spec_tree_entry(line: Seq<char>) -> Option<(nat, Seq<char>)> {
    let d = digit_run(line);
    if d == 0 || d == line.len() {
        None
    } else if digits_value(line.take(d)) > usize::MAX {
        None
    } else {
        let rest = line.skip(d);
        let end = first_ws(rest);
        if end == 0 {
            None
        } else {
            Some((digits_value(line.take(d)), rest.take(end)))
        }
    }
}

proof fn lemma_digit_run(s: Seq<char>)
    ensures
        0 <= digit_run(s) <= s.len(),
        forall|k: int| 0 <= k < digit_run(s) ==> is_digit(#[trigger] s[k]),
        digit_run(s) < s.len() ==> !is_digit(s[digit_run(s)]),
    decreases s.len(),
{
    if s.len() > 0 && is_digit(s[0]) {
        lemma_digit_run(s.skip(1));
        assert forall|k: int| 0 <= k < digit_run(s) implies is_digit(#[trigger] s[k]) by {
            if k > 0 {
                assert(s[k] == s.skip(1)[k - 1]);
            }
        }
    }
}

proof fn lemma_first_ws(s: Seq<char>)
    ensures
        0 <= first_ws(s) <= s.len(),
    decreases s.len(),
{
    if s.len() > 0 && !is_ws(s[0]) {
        lemma_first_ws(s.skip(1));
    }
}

fn tree_entry(line: &Vec<char>) -> (r: Option<(usize, Vec<char>)>)
    ensures
        match r {
            Some((d, name)) => spec_tree_entry(line@) == Some((d as nat, name@)),
            None => spec_tree_entry(line@) is None,
        },
{
    let mut d: usize = 0;
    proof {
        lemma_digit_run(line@);
        assert(line@.skip(0) == line@);
    }
    while d < line.len() && '0' <= line[d] && line[d] <= '9'
        invariant
            d <= line.len(),
            digit_run(line@) == d + digit_run(line@.skip(d as int)),
        decreases line.len() - d,
    {
        assert(line@.skip(d as int).skip(1) == line@.skip(d + 1));
        d += 1;
    }
    assert(digit_run(line@) == d);
    if d == 0 || d == line.len() {
        return None;
    }
    let mut value: usize = 0;
    let mut k: usize = 0;
    while k < d
        invariant
            k <= d,
            d == digit_run(line@),
            d <= line.len(),
            forall|j: int| 0 <= j < d ==> is_digit(#[trigger] line@[j]),
            value == digits_value(line@.take(k as int)),
        decreases d - k,
    {
        assert(line@.take(k + 1).drop_last() == line@.take(k as int));
        assert(is_digit(line@[k as int]));
        let digit = (line[k] as u32 - '0' as u32) as usize;
        if value > (usize::MAX - digit) / 10 {
            proof {
                lemma_digits_grow(line@.take(d as int), k + 1);
                assert(line@.take(d as int).take(k + 1) == line@.take(k + 1));
            }
            return None;
        }
        value = value * 10 + digit;
        k += 1;
    }
    let rest = slice_chars(line, d, line.len());
    let mut e: usize = 0;
    proof {
        lemma_first_ws(rest@);
        assert(rest@.skip(0) == rest@);
    }
    while e < rest.len() && !ws(rest[e])
        invariant
            e <= rest.len(),
            first_ws(rest@) == e + first_ws(rest@.skip(e as int)),
        decreases rest.len() - e,
    {
        assert(rest@.skip(e as int).skip(1) == rest@.skip(e + 1));
        e += 1;
    }
    if e == 0 {
        return None;
    }
    Some((value, slice_chars(&rest, 0, e)))
}

proof fn lemma_digits_grow(s: Seq<char>, k: int)
    requires
        0 <= k <= s.len(),
        forall|j: int| 0 <= j < s.len() ==> is_digit(#[trigger] s[j]),
    ensures
        digits_value(s) >= digits_value(s.take(k)),
    decreases s.len(),
{
    if k < s.len() {
        let d = s.drop_last();
        assert forall|j: int| 0 <= j < d.len() implies is_digit(#[trigger] d[j]) by {
            assert(d[j] == s[j]);
        }
        lemma_digits_grow(d, k);
        assert(d.take(k) == s.take(k));
    } else {
        assert(s.take(k) == s);
    }
}

/// Attribution state over `cargo tree` lines: the current direct dependency, and each
/// transitive crate with the direct dependencies seen above it, in first-seen order.
pub open spec fn via_state(ls: Seq<Seq<char>>, direct: Seq<String>) -> (Option<Seq<char>>, Seq<(Seq<char>, Seq<Seq<char>>)>)
    decreases ls.len(),
{
    if ls.len() == 0 {
        (None, Seq::empty())
    } else {
        let (anchor, sources) = via_state(ls.drop_last(), direct);
        match spec_tree_entry(ls.last()) {
            None => (anchor, sources),
            Some((depth, name)) => if depth == 0 {
                (None, sources)
            } else if is_direct(direct, name) {
                (Some(name), sources)
            } else {
                match anchor {
                    None => (anchor, sources),
                    Some(a) => (anchor, add_source(sources, name, a)),
                }
            },
        }
    }
}

/// Records that `a` pulls `name` in, keeping each source once and each name once.
pub open spec fn add_source(sources: Seq<(Seq<char>, Seq<Seq<char>>)>, name: Seq<char>, a: Seq<char>) -> Seq<(Seq<char>, Seq<Seq<char>>)> {
    let at = index_of_name(sources, name);
    if at < 0 {
        sources.push((name, seq![a]))
    } else if sources[at].1.contains(a) {
        sources
    } else {
        sources.update(at, (name, sources[at].1.push(a)))
    }
}

/// Position of `name` among the entries, or -1.
pub open spec fn index_of_name(sources: Seq<(Seq<char>, Seq<Seq<char>>)>, name: Seq<char>) -> int
    decreases sources.len(),
{
    if sources.len() == 0 {
        -1
    } else if sources.last().0 == name {
        sources.len() - 1
    } else {
        index_of_name(sources.drop_last(), name)
    }
}

/// A source list rendered as it is shown: all sources when at most three, else the first
/// three and `...(+N)` for the rest.
pub open spec fn spec_truncate(sources: Seq<Seq<char>>) -> Seq<char> {
    if sources.len() <= 3 {
        join(sources, ","@)
    } else {
        sources[0] + ","@ + sources[1] + ","@ + sources[2] + ",...(+"@ + decimal(
            (sources.len() - 3) as nat,
        ) + ")"@
    }
}

/// The attribution the tree gives: every transitive crate once, in first-seen order, with
/// its rendered source list.
pub open spec fn attributed(tree: Seq<char>, direct: Seq<String>, via: Seq<(String, String)>) -> bool {
    let sources = via_state(lines(tree), direct).1;
    &&& via.len() == sources.len()
    &&& forall|k: int|
        0 <= k < via.len() ==> (#[trigger] via[k]).0@ == sources[k].0 && via[k].1@ == spec_truncate(
            sources[k].1,
        )
}

fn truncate_sources(sources: &Vec<Vec<char>>) -> (r: Vec<char>)
    ensures
        r@ == spec_truncate(vviews(sources@)),
{
    assert(vviews(sources@) == sources@.map_values(|p: Vec<char>| p@));
    if sources.len() <= 3 {
        join_chars(sources, &chars_of(","))
    } else {
        let mut out = copy_chars(&sources[0]);
        extend_chars(&mut out, &chars_of(","));
        extend_chars(&mut out, &sources[1]);
        extend_chars(&mut out, &chars_of(","));
        extend_chars(&mut out, &sources[2]);
        extend_chars(&mut out, &chars_of(",...(+"));
        push_decimal(&mut out, sources.len() - 3);
        extend_chars(&mut out, &chars_of(")"));
        out
    }
}

fn copy_list(l: &Vec<Vec<char>>) -> (r: Vec<Vec<char>>)
    ensures
        vviews(r@) == vviews(l@),
{
    let mut out: Vec<Vec<char>> = Vec::new();
    let mut i: usize = 0;
    while i < l.len()
        invariant
            i <= l.len(),
            vviews(out@) == vviews(l@).take(i as int),
        decreases l.len() - i,
    {
        let ghost before = out@;
        out.push(copy_chars(&l[i]));
        assert(vviews(out@) =~= vviews(before).push(vviews(l@)[i as int]));
        assert(vviews(l@).take(i + 1) == vviews(l@).take(i as int).push(vviews(l@)[i as int]));
        i += 1;
    }
    assert(vviews(l@).take(l.len() as int) == vviews(l@));
    out
}

/// Each transitive crate with the direct dependencies that pull it in, in first-seen order.
pub fn attribution(tree: &str, direct_names: &Vec<String>) -> (r: Vec<(String, String)>)
    ensures
        attributed(tree@, direct_names@, r@),
{
    let text = chars_of(tree);
    let ls = lines_chars(&text);
    let ghost sl = lines(tree@);
    let mut anchor: Option<Vec<char>> = None;
    let mut names: Vec<Vec<char>> = Vec::new();
    let mut lists: Vec<Vec<Vec<char>>> = Vec::new();
    let mut i: usize = 0;
    while i < ls.len()
        invariant
            i <= ls.len(),
            text@ == tree@,
            sl == lines(tree@),
            ls@.len() == sl.len(),
            forall|k: int| 0 <= k < ls@.len() ==> #[trigger] ls@[k]@ == sl[k],
            names@.len() == lists@.len(),
            ({
                let (a, src) = via_state(sl.take(i as int), direct_names@);
                &&& match anchor {
                    Some(x) => a == Some(x@),
                    None => a is None,
                }
                &&& src.len() == names@.len()
                &&& forall|k: int| 0 <= k < src.len() ==> (#[trigger] src[k]).0 == names@[k]@ && src[k].1 == vviews(lists@[k]@)
            }),
        decreases ls.len() - i,
    {
        assert(sl.take(i + 1).drop_last() == sl.take(i as int));
        assert(sl.take(i + 1).last() == ls@[i as int]@);
        let ghost prev = via_state(sl.take(i as int), direct_names@);
        match tree_entry(&ls[i]) {
            None => {},
            Some((depth, name)) => {
                if depth == 0 {
                    anchor = None;
                } else if direct_has(direct_names, string_of(&name).as_str()) {
                    anchor = Some(name);
                } else {
                    match &anchor {
                        None => {},
                        Some(a) => {
                            let ghost src = prev.1;
                            let mut at: usize = names.len();
                            let mut found_at: Option<usize> = None;
                            assert(src.take(src.len() as int) == src);
                            while at > 0
                                invariant
                                    at <= names@.len(),
                                    src.len() == names@.len(),
                                    forall|k: int| 0 <= k < src.len() ==> (#[trigger] src[k]).0 == names@[k]@,
                                    match found_at {
                                        Some(ix) => ix < names@.len() && index_of_name(src, name@) == ix && names@[ix as int]@ == name@,
                                        None => index_of_name(src, name@) == index_of_name(src.take(at as int), name@),
                                    },
                                decreases at,
                            {
                                assert(src.take(at as int).drop_last() == src.take(at - 1));
                                if found_at.is_none() && chars_eq(&names[at - 1], &name) {
                                    found_at = Some(at - 1);
                                    at = 0;
                                } else {
                                    at -= 1;
                                }
                            }
                            let found = found_at.is_some();
                            if let Some(idx) = found_at {
                                assert(index_of_name(src, name@) == idx);
                                let old_list = &lists[idx];
                                let present = crate::order::member(old_list, a);
                                assert(src[idx as int].1 == vviews(lists@[idx as int]@));
                                if !present {
                                    let mut l = copy_list(old_list);
                                    let ghost lv = vviews(l@);
                                    l.push(copy_chars(a));
                                    assert(vviews(l@) =~= lv.push(a@));
                                    assert(lv == src[idx as int].1);
                                    let ghost before = lists@;
                                    let ghost lnew = l;
                                    lists.set(idx, l);
                                    proof {
                                        assert(lists@[idx as int] == lnew);
                                        assert(vviews(lists@[idx as int]@) == src[idx as int].1.push(a@));
                                        let nsrc = src.update(idx as int, (name@, src[idx as int].1.push(a@)));
                                        assert forall|k: int| 0 <= k < nsrc.len() implies (#[trigger] nsrc[k]).0 == names@[k]@ && nsrc[k].1 == vviews(lists@[k]@) by {
                                            if k != idx {
                                                assert(lists@[k] == before[k]);
                                            }
                                        }
                                    }
                                }
                            } else {
                                assert(src.take(0).len() == 0);
                                let ghost before = lists@;
                                names.push(copy_chars(&name));
                                let mut l: Vec<Vec<char>> = Vec::new();
                                l.push(copy_chars(a));
                                assert(vviews(l@) =~= seq![a@]);
                                lists.push(l);
                                proof {
                                    let nsrc = src.push((name@, seq![a@]));
                                    assert forall|k: int| 0 <= k < nsrc.len() implies (#[trigger] nsrc[k]).0 == names@[k]@ && nsrc[k].1 == vviews(lists@[k]@) by {
                                        if k < src.len() {
                                            assert(lists@[k] == before[k]);
                                        }
                                    }
                                }
                            }
                        },
                    }
                }
            },
        }
        i += 1;
    }
    assert(sl.take(ls.len() as int) == sl);
    let ghost src = via_state(sl, direct_names@).1;
    let mut out: Vec<(String, String)> = Vec::new();
    let mut k: usize = 0;
    while k < names.len()
        invariant
            k <= names.len(),
            names@.len() == lists@.len(),
            src.len() == names@.len(),
            forall|j: int| 0 <= j < src.len() ==> (#[trigger] src[j]).0 == names@[j]@ && src[j].1 == vviews(lists@[j]@),
            out@.len() == k,
            forall|j: int| 0 <= j < k ==> (#[trigger] out@[j]).0@ == src[j].0 && out@[j].1@ == spec_truncate(src[j].1),
        decreases names.len() - k,
    {
        let t = truncate_sources(&lists[k]);
        out.push((string_of(&names[k]), string_of(&t)));
        k += 1;
    }
    out
}

proof fn lemma_removed_not_direct(bt: Seq<(String, String)>, ht: Seq<(String, String)>, direct: Seq<String>)
    ensures
        forall|i: int| 0 <= i < spec_lock_removed(bt, ht, direct).len() ==> !is_direct(
            direct,
            (#[trigger] spec_lock_removed(bt, ht, direct)[i]).0,
        ),
    decreases bt.len(),
{
    if bt.len() > 0 {
        lemma_removed_not_direct(bt.drop_last(), ht, direct);
        let init = spec_lock_removed(bt.drop_last(), ht, direct);
        let all = spec_lock_removed(bt, ht, direct);
        assert forall|i: int| 0 <= i < all.len() implies !is_direct(direct, (#[trigger] all[i]).0) by {
            if i < init.len() {
                assert(all[i] == init[i]);
            }
        }
    }
}

proof fn lemma_changed_not_direct(bt: Seq<(String, String)>, ht: Seq<(String, String)>, direct: Seq<String>)
    ensures
        forall|i: int| 0 <= i < spec_lock_changed(bt, ht, direct).len() ==> !is_direct(
            direct,
            (#[trigger] spec_lock_changed(bt, ht, direct)[i]).0,
        ),
    decreases bt.len(),
{
    if bt.len() > 0 {
        lemma_changed_not_direct(bt.drop_last(), ht, direct);
        let init = spec_lock_changed(bt.drop_last(), ht, direct);
        let all = spec_lock_changed(bt, ht, direct);
        assert forall|i: int| 0 <= i < all.len() implies !is_direct(direct, (#[trigger] all[i]).0) by {
            if i < init.len() {
                assert(all[i] == init[i]);
            }
        }
    }
}

proof fn lemma_added_not_direct(bt: Seq<(String, String)>, ht: Seq<(String, String)>, direct: Seq<String>)
    ensures
        forall|i: int| 0 <= i < spec_lock_added(bt, ht, direct).len() ==> !is_direct(
            direct,
            (#[trigger] spec_lock_added(bt, ht, direct)[i]).0,
        ),
    decreases ht.len(),
{
    if ht.len() > 0 {
        lemma_added_not_direct(bt, ht.drop_last(), direct);
        let init = spec_lock_added(bt, ht.drop_last(), direct);
        let all = spec_lock_added(bt, ht, direct);
        assert forall|i: int| 0 <= i < all.len() implies !is_direct(direct, (#[trigger] all[i]).0) by {
            if i < init.len() {
                assert(all[i] == init[i]);
            }
        }
    }
}

/// The transitive diff never lists a direct dependency: no removed, changed or added row
/// names one of the direct names, whatever the two lock tables hold.
pub proof fn law_lock_diff_leaves_out_direct(
    bt: Seq<(String, String)>,
    ht: Seq<(String, String)>,
    direct: Seq<String>,
)
    ensures
        forall|i: int| 0 <= i < spec_lock_removed(bt, ht, direct).len() ==> !is_direct(
            direct,
            (#[trigger] spec_lock_removed(bt, ht, direct)[i]).0,
        ),
        forall|i: int| 0 <= i < spec_lock_changed(bt, ht, direct).len() ==> !is_direct(
            direct,
            (#[trigger] spec_lock_changed(bt, ht, direct)[i]).0,
        ),
        forall|i: int| 0 <= i < spec_lock_added(bt, ht, direct).len() ==> !is_direct(
            direct,
            (#[trigger] spec_lock_added(bt, ht, direct)[i]).0,
        ),
{
    lemma_removed_not_direct(bt, ht, direct);
    lemma_changed_not_direct(bt, ht, direct);
    lemma_added_not_direct(bt, ht, direct);
}

} // verus!
