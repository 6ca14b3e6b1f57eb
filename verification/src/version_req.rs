//! Cargo version requirements: normalization, the version a requirement starts at, and the
//! semver class of a requirement change.

use vstd::prelude::*;

use crate::model::Bump;
use crate::text::{chars_of, chars_eq, is_alnum, is_digit, is_ws, slice_chars, split, split_chars,
    string_of, ws, lemma_split_nonempty};

verus! {

/// `s` without its whitespace characters.
pub open spec fn remove_ws(s: Seq<char>) -> Seq<char>
    decreases s.len(),
{
    if s.len() == 0 {
        s
    } else if is_ws(s.last()) {
        remove_ws(s.drop_last())
    } else {
        remove_ws(s.drop_last()).push(s.last())
    }
}

/// `s` without one leading `^`.
pub open spec fn strip_caret(s: Seq<char>) -> Seq<char> {
    if s.len() > 0 && s[0] == '^' {
        s.skip(1)
    } else {
        s
    }
}

/// A pre-release or build-metadata marker starts at `i`: `-` or `+` followed by an ASCII
/// letter, digit or `.`.
pub open spec fn marker_at(s: Seq<char>, i: int) -> bool {
    0 <= i && i + 1 < s.len() && (s[i] == '-' || s[i] == '+') && (is_alnum(s[i + 1]) || s[i
        + 1] == '.')
}

/// Position of the first marker at or after `i`, or the length when there is none.
pub open spec fn marker_cut(s: Seq<char>, i: int) -> int
    decreases s.len() - i,
{
    if i < 0 || i + 1 >= s.len() {
        s.len() as int
    } else if marker_at(s, i) {
        i
    } else {
        marker_cut(s, i + 1)
    }
}

/// The normalized requirement: whitespace removed, one leading `^` removed, and everything
/// from the first pre-release or build-metadata marker on cut off.
pub open spec fn spec_req_norm(req: Seq<char>) -> Seq<char> {
    let n = strip_caret(remove_ws(req));
    n.take(marker_cut(n, 0))
}

proof fn lemma_marker_cut(s: Seq<char>, i: int)
    requires
        0 <= i,
    ensures
        i <= marker_cut(s, i) <= s.len() || (i > s.len() && marker_cut(s, i) == s.len()),
        marker_cut(s, i) <= s.len(),
        marker_cut(s, i) >= 0,
    decreases s.len() - i,
{
    if i + 1 < s.len() && !marker_at(s, i) {
        lemma_marker_cut(s, i + 1);
    }
}

/// Normalizes a Cargo version requirement for comparison.
pub fn req_norm(req: &str) -> (r: String)
    ensures
        r@ == spec_req_norm(req@),
{
    let cs = norm_chars(req);
    string_of(&cs)
}

fn norm_chars(req: &str) -> (r: Vec<char>)
    ensures
        r@ == spec_req_norm(req@),
{
    let cs = chars_of(req);
    let mut kept: Vec<char> = Vec::new();
    let mut i: usize = 0;
    while i < cs.len()
        invariant
            i <= cs.len(),
            cs@ == req@,
            kept@ == remove_ws(cs@.take(i as int)),
        decreases cs.len() - i,
    {
        assert(cs@.take(i + 1).drop_last() == cs@.take(i as int));
        if !ws(cs[i]) {
            kept.push(cs[i]);
        }
        i += 1;
    }
    assert(cs@.take(cs.len() as int) == cs@);
    let n = if kept.len() > 0 && kept[0] == '^' {
        slice_chars(&kept, 1, kept.len())
    } else {
        slice_chars(&kept, 0, kept.len())
    };
    assert(n@ == strip_caret(kept@));
    let mut k: usize = 0;
    while n.len() > 0 && k < n.len() - 1 && !marker_here(&n, k)
        invariant
            k <= n.len(),
            marker_cut(n@, 0) == marker_cut(n@, k as int),
        decreases n.len() - k,
    {
        k += 1;
    }
    let cut = if n.len() > 0 && k < n.len() - 1 { k } else { n.len() };
    proof {
        lemma_marker_cut(n@, 0);
    }
    slice_chars(&n, 0, cut)
}

fn marker_here(s: &Vec<char>, i: usize) -> (r: bool)
    requires
        i + 1 < s.len(),
    ensures
        r == marker_at(s@, i as int),
{
    let c = s[i];
    let d = s[i + 1];
    (c == '-' || c == '+') && (('0' <= d && d <= '9') || ('a' <= d && d <= 'z') || ('A' <= d
        && d <= 'Z') || d == '.')
}

/// Position of the first ASCII digit at or after `i`, or -1 when there is none.
pub open spec fn first_digit(s: Seq<char>, i: int) -> int
    decreases s.len() - i,
{
    if i < 0 || i >= s.len() {
        -1
    } else if is_digit(s[i]) {
        i
    } else {
        first_digit(s, i + 1)
    }
}

/// End of the run of digits and dots starting at `i`.
pub open spec fn run_end(s: Seq<char>, i: int) -> int
    decreases s.len() - i,
{
    if i < 0 || i >= s.len() {
        if i < 0 { 0 } else { s.len() as int }
    } else if is_digit(s[i]) || s[i] == '.' {
        run_end(s, i + 1)
    } else {
        i
    }
}

proof fn lemma_first_digit(s: Seq<char>, i: int)
    requires
        0 <= i,
    ensures
        first_digit(s, i) == -1 || (i <= first_digit(s, i) < s.len() && is_digit(
            s[first_digit(s, i)],
        )),
    decreases s.len() - i,
{
    if i < s.len() && !is_digit(s[i]) {
        lemma_first_digit(s, i + 1);
    }
}

proof fn lemma_run_end(s: Seq<char>, i: int)
    requires
        0 <= i <= s.len(),
    ensures
        i <= run_end(s, i) <= s.len(),
    decreases s.len() - i,
{
    if i < s.len() && (is_digit(s[i]) || s[i] == '.') {
        lemma_run_end(s, i + 1);
    }
}

/// The first numeric version literal of a requirement: from the first ASCII digit of the
/// normalized requirement, the run of digits and dots, without one trailing dot; empty when
/// the requirement has no digit.
pub open spec fn spec_req_version(req: Seq<char>) -> Seq<char> {
    let n = spec_req_norm(req);
    let start = first_digit(n, 0);
    if start < 0 {
        Seq::empty()
    } else {
        let run = n.subrange(start, run_end(n, start));
        if run.len() > 0 && run.last() == '.' {
            run.drop_last()
        } else {
            run
        }
    }
}

/// Returns the first numeric version literal in a Cargo requirement.
pub fn req_version(req: &str) -> (r: String)
    ensures
        r@ == spec_req_version(req@),
{
    let v = version_chars(req);
    string_of(&v)
}

fn version_chars(req: &str) -> (r: Vec<char>)
    ensures
        r@ == spec_req_version(req@),
{
    let n = norm_chars(req);
    let mut i: usize = 0;
    while i < n.len() && !('0' <= n[i] && n[i] <= '9')
        invariant
            i <= n.len(),
            first_digit(n@, 0) == first_digit(n@, i as int),
        decreases n.len() - i,
    {
        i += 1;
    }
    if i == n.len() {
        return Vec::new();
    }
    let start = i;
    while i < n.len() && (('0' <= n[i] && n[i] <= '9') || n[i] == '.')
        invariant
            start <= i <= n.len(),
            run_end(n@, start as int) == run_end(n@, i as int),
        decreases n.len() - i,
    {
        i += 1;
    }
    proof {
        lemma_run_end(n@, start as int);
    }
    let run = slice_chars(&n, start, i);
    if run.len() > 0 && run[run.len() - 1] == '.' {
        slice_chars(&run, 0, run.len() - 1)
    } else {
        run
    }
}

/// Component `index` of a dotted version, or the whole version when it has fewer.
pub open spec fn component(version: Seq<char>, index: int) -> Seq<char> {
    let parts = split(version, '.');
    if 0 <= index < parts.len() {
        parts[index]
    } else {
        version
    }
}

fn component_chars(version: &Vec<char>, index: usize) -> (r: Vec<char>)
    ensures
        r@ == component(version@, index as int),
{
    let parts = split_chars(version, '.');
    if index < parts.len() {
        slice_chars(&parts[index], 0, parts[index].len())
    } else {
        slice_chars(version, 0, version.len())
    }
}

/// Semver class of a requirement change under Cargo's caret rules: the leftmost nonzero
/// component of the version a requirement starts at decides compatibility, and a change that
/// keeps that version but changes the normalized text is `Unknown`.
pub open spec fn spec_classify_bump(old: Seq<char>, new: Seq<char>) -> Bump {
    let ov = spec_req_version(old);
    let nv = spec_req_version(new);
    if ov == nv && spec_req_norm(old) != spec_req_norm(new) {
        Bump::Unknown
    } else if component(ov, 0) != component(nv, 0) {
        Bump::Major
    } else if component(ov, 1) != component(nv, 1) {
        if component(ov, 0) == "0"@ {
            Bump::Major
        } else {
            Bump::Minor
        }
    } else if component(ov, 0) == "0"@ && component(ov, 1) == "0"@ && ov != nv {
        Bump::Major
    } else {
        Bump::Patch
    }
}

/// Classifies a requirement change under Cargo's caret compatibility rules.
pub fn classify_bump(old: &str, new: &str) -> (r: Bump)
    ensures
        r == spec_classify_bump(old@, new@),
{
    let ov = version_chars(old);
    let nv = version_chars(new);
    if chars_eq(&ov, &nv) {
        let on = norm_chars(old);
        let nn = norm_chars(new);
        if !chars_eq(&on, &nn) {
            return Bump::Unknown;
        }
    }
    let zero = chars_of("0");
    let old_major = component_chars(&ov, 0);
    let new_major = component_chars(&nv, 0);
    if !chars_eq(&old_major, &new_major) {
        return Bump::Major;
    }
    let old_minor = component_chars(&ov, 1);
    let new_minor = component_chars(&nv, 1);
    if !chars_eq(&old_minor, &new_minor) {
        return if chars_eq(&old_major, &zero) {
            Bump::Major
        } else {
            Bump::Minor
        };
    }
    if chars_eq(&old_major, &zero) && chars_eq(&old_minor, &zero) && !chars_eq(&ov, &nv) {
        return Bump::Major;
    }
    Bump::Patch
}

/// A requirement compared with itself is never a change: the class is `Patch`.
pub proof fn law_classify_reflexive(req: Seq<char>)
    ensures
        spec_classify_bump(req, req) == Bump::Patch,
{
}

/// The class of a change does not depend on its direction: a downgrade is classified like
/// the upgrade it undoes.
pub proof fn law_classify_symmetric(old: Seq<char>, new: Seq<char>)
    ensures
        spec_classify_bump(old, new) == spec_classify_bump(new, old),
{
}

/// Requirements with the same normalization classify alike against any other requirement;
/// in particular a caret, whitespace or a pre-release suffix never makes a change.
pub proof fn law_classify_depends_on_norm(a: Seq<char>, b: Seq<char>, other: Seq<char>)
    requires
        spec_req_norm(a) == spec_req_norm(b),
    ensures
        spec_classify_bump(a, other) == spec_classify_bump(b, other),
        spec_classify_bump(a, b) == Bump::Patch,
{
}

} // verus!
