//! Decisions over git output: type declarations found by `git grep`, and the choice of the
//! parent branch.

use vstd::prelude::*;

use crate::order::{chars_lt, lemma_lt_total, lemma_lt_transitive, seq_lt};
use crate::text::{chars_of, chars_eq, copy_chars, lines, lines_chars, slice_chars, string_of, words, words_chars, find, has_prefix, starts_with, first_at, contains, str_eq};

verus! {

/// A declaration keyword whose type kind the renderer shows.
pub open spec fn is_kind_word(w: Seq<char>) -> bool {
    w == "struct"@ || w == "enum"@ || w == "trait"@ || w == "union"@
}

/// Position of the first declaration keyword among the words from `i` on, or -1.
pub open spec fn first_kind_word(ws: Seq<Seq<char>>, i: int) -> int
    decreases ws.len() - i,
{
    if i < 0 || i >= ws.len() {
        -1
    } else if is_kind_word(ws[i]) {
        i
    } else {
        first_kind_word(ws, i + 1)
    }
}

/// A character that ends a type name: `<`, `(`, `{`, `:` or `;`.
pub open spec fn ends_name(c: char) -> bool {
    c == '<' || c == '(' || c == '{' || c == ':' || c == ';'
}

/// Position of the first name-ending character, or the length.
pub open spec fn name_end(s: Seq<char>, i: int) -> int
    decreases s.len() - i,
{
    if i < 0 || i >= s.len() {
        s.len() as int
    } else if ends_name(s[i]) {
        i
    } else {
        name_end(s, i + 1)
    }
}

/// The type name and keyword a `git grep` line declares: the word after the first
/// declaration keyword, cut at its first name-ending character, when non-empty.
pub open spec fn spec_type_kind(line: Seq<char>) -> Option<(Seq<char>, Seq<char>)> {
    let ws = words(line);
    let k = first_kind_word(ws, 0);
    if k < 0 || k + 1 >= ws.len() {
        None
    } else {
        let raw = ws[k + 1];
        let name = raw.take(name_end(raw, 0));
        if name.len() == 0 {
            None
        } else {
            Some((name, ws[k]))
        }
    }
}

proof fn lemma_first_kind_word(ws: Seq<Seq<char>>, i: int)
    requires
        0 <= i,
    ensures
        first_kind_word(ws, i) == -1 || (i <= first_kind_word(ws, i) < ws.len()),
    decreases ws.len() - i,
{
    if i < ws.len() && !is_kind_word(ws[i]) {
        lemma_first_kind_word(ws, i + 1);
    }
}

proof fn lemma_name_end(s: Seq<char>, i: int)
    requires
        0 <= i <= s.len(),
    ensures
        i <= name_end(s, i) <= s.len(),
    decreases s.len() - i,
{
    if i < s.len() && !ends_name(s[i]) {
        lemma_name_end(s, i + 1);
    }
}

fn is_kind(w: &Vec<char>) -> (r: bool)
    ensures
        r == is_kind_word(w@),
{
    chars_eq(w, &chars_of("struct")) || chars_eq(w, &chars_of("enum")) || chars_eq(
        w,
        &chars_of("trait"),
    ) || chars_eq(w, &chars_of("union"))
}

/// Parses one `git grep` line into the declared type's name and keyword.
pub fn parse_type_kind_line(line: &str) -> (r: Option<(String, String)>)
    ensures
        match r {
            Some((name, kind)) => spec_type_kind(line@) == Some((name@, kind@)),
            None => spec_type_kind(line@) is None,
        },
{
    let cs = chars_of(line);
    let ws = words_chars(&cs);
    let ghost sw = words(line@);
    let mut k: usize = 0;
    proof {
        lemma_first_kind_word(sw, 0);
    }
    while k < ws.len() && !is_kind(&ws[k])
        invariant
            k <= ws.len(),
            cs@ == line@,
            sw == words(line@),
            ws@.len() == sw.len(),
            forall|j: int| 0 <= j < ws@.len() ==> #[trigger] ws@[j]@ == sw[j],
            first_kind_word(sw, 0) == first_kind_word(sw, k as int),
        decreases ws.len() - k,
    {
        k += 1;
    }
    if k == ws.len() || k + 1 >= ws.len() {
        return None;
    }
    let raw = &ws[k + 1];
    let mut e: usize = 0;
    proof {
        lemma_name_end(raw@, 0);
    }
    while e < raw.len() && !(raw[e] == '<' || raw[e] == '(' || raw[e] == '{' || raw[e] == ':'
        || raw[e] == ';')
        invariant
            e <= raw.len(),
            name_end(raw@, 0) == name_end(raw@, e as int),
        decreases raw.len() - e,
    {
        e += 1;
    }
    if e == 0 {
        return None;
    }
    Some((string_of(&slice_chars(raw, 0, e)), string_of(&ws[k])))
}

/// The upstream branch worth comparing against: none when it names the current branch
/// itself (with or without a remote prefix).
pub open spec fn spec_upstream_candidate(current: Seq<char>, upstream: Seq<char>) -> Seq<char> {
    let slash = crate::text::find_char_spec(upstream, '/');
    let same = if slash < 0 {
        upstream == current
    } else {
        upstream.skip(slash + 1) == current
    };
    if same {
        Seq::empty()
    } else {
        upstream
    }
}

/// Clears an upstream that is the current branch itself.
pub fn upstream_candidate(current: &str, upstream: &str) -> (r: String)
    ensures
        r@ == spec_upstream_candidate(current@, upstream@),
{
    let u = chars_of(upstream);
    let c = chars_of(current);
    let slash = crate::text::find_char(&u, '/');
    let same = match slash {
        None => chars_eq(&u, &c),
        Some(i) => chars_eq(&slice_chars(&u, i + 1, u.len()), &c),
    };
    if same {
        String::new()
    } else {
        string_of(&u)
    }
}

/// The local branch an `origin/` upstream tracks.
pub open spec fn spec_local_branch(upstream: Seq<char>) -> Seq<char> {
    if starts_with(upstream, "origin/"@) {
        upstream.skip(7)
    } else {
        upstream
    }
}

/// Strips an `origin/` prefix.
pub fn local_branch(upstream: &str) -> (r: String)
    ensures
        r@ == spec_local_branch(upstream@),
{
    let u = chars_of(upstream);
    let p = chars_of("origin/");
    proof {
        reveal_strlit("origin/");
    }
    if has_prefix(&u, &p) {
        string_of(&slice_chars(&u, 7, u.len()))
    } else {
        string_of(&u)
    }
}

/// Which branch a run without refs compares against.
pub open spec fn spec_parent_branch(
    current: Seq<char>,
    upstream: Seq<char>,
    upstream_ok: bool,
    local_ok: bool,
) -> Seq<char> {
    let cand = spec_upstream_candidate(current, upstream);
    if current.len() == 0 || current == "main"@ {
        "main"@
    } else if cand.len() > 0 && upstream_ok {
        cand
    } else if cand.len() > 0 && local_ok {
        spec_local_branch(cand)
    } else {
        "main"@
    }
}

/// Whether the parent of the current branch depends on its upstream: not on `main` nor on a
/// detached head (no current branch), where the parent is `main` whatever git reports.
pub fn needs_upstream(current: &str) -> (r: bool)
    ensures
        r == !(current@.len() == 0 || current@ == "main"@),
        !r ==> forall|u: Seq<char>, a: bool, b: bool| #[trigger] spec_parent_branch(current@, u, a, b) == "main"@,
{
    !(current.is_empty() || str_eq(current, "main"))
}

/// Chooses the parent branch from the current branch, its upstream, and whether the
/// upstream and its local counterpart resolve: `main` on `main` or a detached head, else the
/// upstream when it is another branch and resolves, else its local branch when that
/// resolves, else `main`.
pub fn parent_branch(current: &str, upstream: &str, upstream_ok: bool, local_ok: bool) -> (r: String)
    ensures
        r@ == spec_parent_branch(current@, upstream@, upstream_ok, local_ok),
{
    let main = string_of(&chars_of("main"));
    if current.is_empty() || str_eq(current, "main") {
        return main;
    }
    let cand = upstream_candidate(current, upstream);
    if !cand.as_str().is_empty() && upstream_ok {
        return cand;
    }
    if !cand.as_str().is_empty() && local_ok {
        return local_branch(cand.as_str());
    }
    main
}

/// The declarations of `git grep` output lines: each parsed line's name and keyword, in
/// line order.
pub open spec fn declared(ls: Seq<Seq<char>>) -> Seq<(Seq<char>, Seq<char>)>
    decreases ls.len(),
{
    if ls.len() == 0 {
        Seq::empty()
    } else {
        declared(ls.drop_last()) + match spec_type_kind(ls.last()) {
            Some(p) => seq![p],
            None => Seq::empty(),
        }
    }
}

/// `t` gives each declared name once, with the greatest of its keywords (the keyword a
/// sorted list of the pairs ends with for that name).
pub open spec fn kinds_table(t: Seq<(String, String)>, ds: Seq<(Seq<char>, Seq<char>)>) -> bool {
    &&& forall|a: int, b: int| 0 <= a < b < t.len() ==> (#[trigger] t[a]).0@ != (#[trigger] t[b]).0@
    &&& forall|j: int| 0 <= j < t.len() ==> ds.contains(((#[trigger] t[j]).0@, t[j].1@))
    &&& forall|j: int, k: Seq<char>|
        0 <= j < t.len() && #[trigger] ds.contains((t[j].0@, k)) ==> k == t[j].1@ || seq_lt(k, t[j].1@)
    &&& forall|d: (Seq<char>, Seq<char>)|
        #[trigger] ds.contains(d) ==> exists|j: int| 0 <= j < t.len() && (#[trigger] t[j]).0@ == d.0
}

fn find_name(t: &Vec<(String, String)>, name: &str) -> (r: Option<usize>)
    ensures
        match r {
            Some(j) => j < t.len() && t@[j as int].0@ == name@,
            None => forall|j: int| 0 <= j < t.len() ==> (#[trigger] t@[j]).0@ != name@,
        },
{
    let mut j: usize = 0;
    while j < t.len()
        invariant
            j <= t.len(),
            forall|i: int| 0 <= i < j ==> (#[trigger] t@[i]).0@ != name@,
        decreases t.len() - j,
    {
        if str_eq(t[j].0.as_str(), name) {
            return Some(j);
        }
        j += 1;
    }
    None
}

proof fn lemma_contains_push(ds: Seq<(Seq<char>, Seq<char>)>, p: (Seq<char>, Seq<char>))
    ensures
        forall|d: (Seq<char>, Seq<char>)| #[trigger] (ds + seq![p]).contains(d) <==> ds.contains(d) || d == p,
{
    let ds2 = ds + seq![p];
    assert forall|d: (Seq<char>, Seq<char>)| #[trigger] ds2.contains(d) implies ds.contains(d) || d == p by {
        let k = choose|k: int| 0 <= k < ds2.len() && ds2[k] == d;
        if k < ds.len() {
            assert(ds[k] == d);
        }
    }
    assert(ds2[ds.len() as int] == p);
    assert forall|d: (Seq<char>, Seq<char>)| ds.contains(d) implies #[trigger] ds2.contains(d) by {
        let k = choose|k: int| 0 <= k < ds.len() && ds[k] == d;
        assert(ds2[k] == d);
    }
}

fn add_kind(out: &mut Vec<(String, String)>, name: String, kind: String, Ghost(ds): Ghost<Seq<(Seq<char>, Seq<char>)>>)
    requires
        kinds_table(old(out)@, ds),
    ensures
        kinds_table(final(out)@, ds + seq![(name@, kind@)]),
{
    let ghost p = (name@, kind@);
    let ghost ds2 = ds + seq![p];
    proof {
        lemma_contains_push(ds, p);
    }
    match find_name(out, name.as_str()) {
        Some(j) => {
            let ghost old_kind = out@[j as int].1@;
            if chars_lt(&chars_of(out[j].1.as_str()), &chars_of(kind.as_str())) {
                let ghost before = out@;
                out.set(j, (name, kind));
                assert forall|jj: int, k: Seq<char>|
                    0 <= jj < out@.len() && #[trigger] ds2.contains((out@[jj].0@, k)) implies k
                    == out@[jj].1@ || seq_lt(k, out@[jj].1@) by {
                    if jj == j && k != p.1 && ds.contains((out@[jj].0@, k)) {
                        assert(before[jj].0@ == out@[jj].0@);
                        if k != old_kind {
                            lemma_lt_transitive(k, old_kind, p.1);
                        }
                    } else if jj != j && ds.contains((out@[jj].0@, k)) {
                        assert(before[jj] == out@[jj]);
                    } else if jj != j {
                        assert(before[jj] == out@[jj]);
                        assert(before[j as int].0@ == p.0);
                    }
                }
                assert forall|d: (Seq<char>, Seq<char>)| #[trigger] ds2.contains(d) implies exists|jj: int|
                    0 <= jj < out@.len() && (#[trigger] out@[jj]).0@ == d.0 by {
                    if ds.contains(d) {
                        let jj = choose|jj: int| 0 <= jj < before.len() && (#[trigger] before[jj]).0@ == d.0;
                        assert(out@[jj].0@ == d.0);
                    } else {
                        assert(out@[j as int].0@ == d.0);
                    }
                }
                assert forall|jj: int| 0 <= jj < out@.len() implies ds2.contains(((#[trigger] out@[jj]).0@, out@[jj].1@)) by {
                    if jj != j {
                        assert(before[jj] == out@[jj]);
                    }
                }
                assert forall|a: int, b: int| 0 <= a < b < out@.len() implies (#[trigger] out@[a]).0@ != (#[trigger] out@[b]).0@ by {
                    assert(before[a].0@ == out@[a].0@ && before[b].0@ == out@[b].0@);
                }
            } else {
                proof {
                    lemma_lt_total(old_kind, p.1);
                }
                assert forall|jj: int, k: Seq<char>|
                    0 <= jj < out@.len() && #[trigger] ds2.contains((out@[jj].0@, k)) implies k
                    == out@[jj].1@ || seq_lt(k, out@[jj].1@) by {
                    if !ds.contains((out@[jj].0@, k)) {
                        assert((out@[jj].0@, k) == p);
                    }
                }
                assert forall|d: (Seq<char>, Seq<char>)| #[trigger] ds2.contains(d) implies exists|jj: int|
                    0 <= jj < out@.len() && (#[trigger] out@[jj]).0@ == d.0 by {
                    if !ds.contains(d) {
                        assert(out@[j as int].0@ == d.0);
                    }
                }
            }
        },
        None => {
            let ghost before = out@;
            out.push((name, kind));
            assert forall|jj: int, k: Seq<char>|
                0 <= jj < out@.len() && #[trigger] ds2.contains((out@[jj].0@, k)) implies k
                == out@[jj].1@ || seq_lt(k, out@[jj].1@) by {
                if jj < before.len() {
                    assert(before[jj] == out@[jj]);
                    if !ds.contains((out@[jj].0@, k)) {
                        assert((out@[jj].0@, k) == p);
                    }
                } else if ds.contains((out@[jj].0@, k)) {
                    let jx = choose|jx: int| 0 <= jx < before.len() && (#[trigger] before[jx]).0@ == p.0;
                }
            }
            assert forall|d: (Seq<char>, Seq<char>)| #[trigger] ds2.contains(d) implies exists|jj: int|
                0 <= jj < out@.len() && (#[trigger] out@[jj]).0@ == d.0 by {
                if ds.contains(d) {
                    let jj = choose|jj: int| 0 <= jj < before.len() && (#[trigger] before[jj]).0@ == d.0;
                    assert(out@[jj] == before[jj]);
                } else {
                    assert(out@[before.len() as int].0@ == d.0);
                }
            }
            assert forall|jj: int| 0 <= jj < out@.len() implies ds2.contains(((#[trigger] out@[jj]).0@, out@[jj].1@)) by {
                if jj < before.len() {
                    assert(before[jj] == out@[jj]);
                }
            }
            assert forall|a: int, b: int| 0 <= a < b < out@.len() implies (#[trigger] out@[a]).0@ != (#[trigger] out@[b]).0@ by {
                if b < before.len() {
                    assert(before[a] == out@[a] && before[b] == out@[b]);
                } else {
                    assert(before[a] == out@[a]);
                }
            }
        },
    }
}

/// The public type declarations of `git grep` output, each type name once with its
/// keyword; a name declared with several keywords keeps the greatest.
pub fn type_kinds(output: &str) -> (r: Vec<(String, String)>)
    ensures
        kinds_table(r@, declared(lines(output@))),
{
    let text = chars_of(output);
    let ls = lines_chars(&text);
    let ghost sl = lines(output@);
    let mut out: Vec<(String, String)> = Vec::new();
    let mut i: usize = 0;
    assert(sl.take(0) =~= Seq::<Seq<char>>::empty());
    while i < ls.len()
        invariant
            i <= ls.len(),
            ls@.len() == sl.len(),
            forall|k: int| 0 <= k < ls@.len() ==> #[trigger] ls@[k]@ == sl[k],
            kinds_table(out@, declared(sl.take(i as int))),
        decreases ls.len() - i,
    {
        let ghost ds = declared(sl.take(i as int));
        assert(sl.take(i + 1).drop_last() =~= sl.take(i as int));
        assert(sl.take(i + 1).last() == ls@[i as int]@);
        let line = string_of(&ls[i]);
        match parse_type_kind_line(line.as_str()) {
            Some((name, kind)) => {
                assert(declared(sl.take(i + 1)) == ds + seq![(name@, kind@)]);
                add_kind(&mut out, name, kind, Ghost(ds));
            },
            None => {
                assert(declared(sl.take(i + 1)) =~= ds);
            },
        }
        i += 1;
    }
    assert(sl.take(ls.len() as int) =~= sl);
    out
}

} // verus!
