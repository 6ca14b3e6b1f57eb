//! Per-crate public API analysis: parsing `cargo public-api diff` output, classifying build
//! failures and describing them.

use vstd::prelude::*;

use crate::model::{ApiError, CrateResult, CrateStatus, ErrorStage, PubdepFinding, Refs};
use crate::text::{
    chars_of, contains, extend_chars, first_at, find, has, join, lines, push_str_chars, split,
    split_chars, string_of, chars_eq, copy_chars, slice_chars, lemma_split_nonempty,
};

verus! {

/// What `str::to_lowercase` returns for a string (Unicode lowercase mapping).
pub uninterp spec fn lowercase(s: Seq<char>) -> Seq<char>;

/// Whether every char of `s` is ASCII.
pub open spec fn is_ascii_text(s: Seq<char>) -> bool {
    forall|i: int| 0 <= i < s.len() ==> (s[i] as u32) < 128
}

/// An ASCII letter `A`..=`Z` as its lowercase letter; any other char unchanged.
pub open spec fn ascii_lower_char(c: char) -> char {
    if 'A' <= c && c <= 'Z' {
        ((c as u32) + 32) as char
    } else {
        c
    }
}

/// An ASCII letter `a`..=`z` as its uppercase letter; any other char unchanged.
pub open spec fn ascii_upper_char(c: char) -> char {
    if 'a' <= c && c <= 'z' {
        ((c as u32) - 32) as char
    } else {
        c
    }
}

/// `s` with every ASCII uppercase letter mapped to its lowercase letter.
pub open spec fn ascii_lower(s: Seq<char>) -> Seq<char> {
    Seq::new(s.len(), |i: int| ascii_lower_char(s[i]))
}

/// `s` with every ASCII lowercase letter mapped to its uppercase letter.
pub open spec fn ascii_upper(s: Seq<char>) -> Seq<char> {
    Seq::new(s.len(), |i: int| ascii_upper_char(s[i]))
}

/// Lowercases a string with `str::to_lowercase`. Its result is named by `lowercase`; on a
/// string of ASCII chars alone it is the string with `A`..=`Z` mapped to `a`..=`z`, as
/// `to_ascii_lowercase` gives (std documents `to_lowercase` as the one that lowercases ASCII
/// in addition to non-ASCII chars). Nothing is said here of the Unicode mapping of other chars.
#[verifier::external_body]
fn to_lowercase(s: &str) -> (r: String)
    ensures
        r@ == lowercase(s@),
        is_ascii_text(s@) ==> r@ == ascii_lower(s@),
{
    s.to_lowercase()
}

/// The hint for stderr already lowercased: the first rule that matches, in a fixed order.
pub open spec fn spec_hint_for(text: Seq<char>) -> Seq<char> {
    if contains(text, "protoc"@) || contains(text, "protobuf-compiler"@) {
        "Install protoc, for example brew install protobuf or apt-get install protobuf-compiler, then rerun zc."@
    } else if contains(text, "custom build command"@) {
        "A build script failed. Run the command shown above to inspect the crate's build requirements."@
    } else if contains(text, "cargo.lock"@) || contains(text, "lock file"@) || contains(
        text,
        "lockfile"@,
    ) {
        "The lockfile or dependency resolution failed at this ref. Check Cargo.lock and rerun zc."@
    } else if contains(text, "requires rustc"@) || (exists|i: int|
        first_at(text, "rustc "@, i) && contains(text.skip(i + 6), "is not supported"@)) {
        "The selected Rust toolchain cannot build this ref. Install the required toolchain and rerun zc."@
    } else if contains(text, "no library targets"@) || contains(
        text,
        "does not have a library target"@,
    ) {
        "cargo-public-api can only analyze library targets. Exclude this crate or add a library target."@
    } else if contains(text, "could not compile"@) {
        "The crate did not compile under the selected feature set. Fix the build or choose a supported feature policy."@
    } else {
        "Run the command shown above and fix the failing crate build before trusting the API diff."@
    }
}

fn has_str(text: &Vec<char>, pat: &str) -> (r: bool)
    ensures
        r == contains(text@, pat@),
{
    let p = chars_of(pat);
    has(text, &p)
}

/// Returns the first matching remediation hint for cargo-public-api stderr, matched
/// case-insensitively: the stderr is lowercased, then the rules are tried in order.
pub fn hint(stderr: &str) -> (r: String)
    ensures
        r@ == spec_hint_for(lowercase(stderr@)),
        is_ascii_text(stderr@) ==> r@ == spec_hint_for(ascii_lower(stderr@)),
{
    let lower = to_lowercase(stderr);
    hint_for_lowercase(lower.as_str())
}

/// The remediation hint for stderr text that is already lowercased: the first rule that
/// matches, in a fixed order.
pub fn hint_for_lowercase(lower: &str) -> (r: String)
    ensures
        r@ == spec_hint_for(lower@),
{
    let text = chars_of(lower);
    let msg = if has_str(&text, "protoc") || has_str(&text, "protobuf-compiler") {
        "Install protoc, for example brew install protobuf or apt-get install protobuf-compiler, then rerun zc."
    } else if has_str(&text, "custom build command") {
        "A build script failed. Run the command shown above to inspect the crate's build requirements."
    } else if has_str(&text, "cargo.lock") || has_str(&text, "lock file") || has_str(
        &text,
        "lockfile",
    ) {
        "The lockfile or dependency resolution failed at this ref. Check Cargo.lock and rerun zc."
    } else if has_str(&text, "requires rustc") || rustc_not_supported(&text) {
        "The selected Rust toolchain cannot build this ref. Install the required toolchain and rerun zc."
    } else if has_str(&text, "no library targets") || has_str(
        &text,
        "does not have a library target",
    ) {
        "cargo-public-api can only analyze library targets. Exclude this crate or add a library target."
    } else if has_str(&text, "could not compile") {
        "The crate did not compile under the selected feature set. Fix the build or choose a supported feature policy."
    } else {
        "Run the command shown above and fix the failing crate build before trusting the API diff."
    };
    let v = chars_of(msg);
    string_of(&v)
}

/// Hints are matched case-insensitively: for ASCII stderr, changing the case of its letters
/// (here: all of them to upper case) does not change the hint.
pub proof fn law_hint_ignores_case(s: Seq<char>)
    requires
        is_ascii_text(s),
    ensures
        is_ascii_text(ascii_upper(s)),
        spec_hint_for(ascii_lower(ascii_upper(s))) == spec_hint_for(ascii_lower(s)),
{
    assert forall|i: int| 0 <= i < s.len() implies (ascii_upper(s)[i] as u32) < 128 by {
        let c = s[i];
        assert((c as u32) < 128);
    }
    assert forall|i: int| 0 <= i < s.len() implies ascii_lower(ascii_upper(s))[i] == ascii_lower(s)[i] by {
        let c = s[i];
        if 'a' <= c && c <= 'z' {
            assert(ascii_lower_char(ascii_upper_char(c)) == c);
        }
    }
    assert(ascii_lower(ascii_upper(s)) =~= ascii_lower(s));
}

fn rustc_not_supported(text: &Vec<char>) -> (r: bool)
    ensures
        r == exists|i: int| first_at(text@, "rustc "@, i) && contains(text@.skip(i + 6), "is not supported"@),
{
    let needle = chars_of("rustc ");
    proof {
        reveal_strlit("rustc ");
    }
    match find(text, &needle) {
        Some(start) => {
            assert(needle@.len() == 6);
            assert(start + 6 <= text.len());
            let rest = slice_chars(text, start + 6, text.len());
            assert(rest@ == text@.skip(start + 6));
            let r = has_str(&rest, "is not supported");
            proof {
                if !r {
                    assert forall|i: int| !(first_at(text@, "rustc "@, i) && contains(text@.skip(i + 6), "is not supported"@)) by {
                        if first_at(text@, "rustc "@, i) && i != start {
                            if i < start {
                                assert(!crate::text::occurs_at(text@, "rustc "@, i));
                            } else {
                                assert(!crate::text::occurs_at(text@, "rustc "@, start as int));
                            }
                        }
                    }
                }
            }
            r
        },
        None => false,
    }
}

/// Which section of the diff output the parser is in.
pub open spec fn section_of(line: Seq<char>, current: int) -> int {
    if line == "Removed items from the public API"@ {
        1
    } else if line == "Changed items in the public API"@ {
        2
    } else if line == "Added items to the public API"@ {
        3
    } else {
        current
    }
}

/// Parser state after a run of lines: section (0 before any), removed lines, old and new
/// changed lines, added lines.
pub open spec fn diff_state(ls: Seq<Seq<char>>) -> (int, Seq<Seq<char>>, Seq<Seq<char>>, Seq<Seq<char>>, Seq<Seq<char>>)
    decreases ls.len(),
{
    if ls.len() == 0 {
        (0, Seq::empty(), Seq::empty(), Seq::empty(), Seq::empty())
    } else {
        let (sec, rem, old, new, add) = diff_state(ls.drop_last());
        let line = ls.last();
        if section_of(line, sec) != sec || line == "Removed items from the public API"@
            || line == "Changed items in the public API"@ || line
            == "Added items to the public API"@ {
            (section_of(line, sec), rem, old, new, add)
        } else if line.len() == 0 || line == "(none)"@ || line[0] == '=' {
            (sec, rem, old, new, add)
        } else if line[0] == '-' {
            if sec == 1 {
                (sec, rem.push(line.skip(1)), old, new, add)
            } else if sec == 2 {
                (sec, rem, old.push(line.skip(1)), new, add)
            } else {
                (sec, rem, old, new, add)
            }
        } else if line[0] == '+' {
            if sec == 2 {
                (sec, rem, old, new.push(line.skip(1)), add)
            } else if sec == 3 {
                (sec, rem, old, new, add.push(line.skip(1)))
            } else {
                (sec, rem, old, new, add)
            }
        } else {
            (sec, rem, old, new, add)
        }
    }
}

/// The non-empty elements, in order.
pub open spec fn nonempty(s: Seq<Seq<char>>) -> Seq<Seq<char>>
    decreases s.len(),
{
    if s.len() == 0 {
        s
    } else if s.last().len() == 0 {
        nonempty(s.drop_last())
    } else {
        nonempty(s.drop_last()).push(s.last())
    }
}

/// Interleaved `  - old` / `  + new` lines for every non-empty old line, the new line taken
/// from the same position (empty when there is none).
pub open spec fn pairs(old: Seq<Seq<char>>, new: Seq<Seq<char>>) -> Seq<Seq<char>>
    decreases old.len(),
{
    if old.len() == 0 {
        Seq::empty()
    } else {
        let init = pairs(old.drop_last(), new);
        let k = old.len() - 1;
        if old.last().len() == 0 {
            init
        } else {
            init.push("  - "@ + old.last()).push(
                "  + "@ + if k < new.len() { new[k] } else { Seq::empty() },
            )
        }
    }
}

/// The parsed sections of `cargo public-api diff` output.
#[derive(Debug, PartialEq, Eq)]
pub struct ParsedDiff {
    pub removed: Vec<String>,
    pub changed: Vec<String>,
    pub added: Vec<String>,
    pub changed_old_count: usize,
}

/// The views of a list of strings.
pub open spec fn sviews(v: Seq<String>) -> Seq<Seq<char>> {
    v.map_values(|s: String| s@)
}

/// The views of a list of character vectors.
pub open spec fn cviews(v: Seq<Vec<char>>) -> Seq<Seq<char>> {
    v.map_values(|s: Vec<char>| s@)
}

fn to_strings(v: &Vec<Vec<char>>) -> (r: Vec<String>)
    ensures
        sviews(r@) == cviews(v@),
{
    let mut out: Vec<String> = Vec::new();
    let mut i: usize = 0;
    while i < v.len()
        invariant
            i <= v.len(),
            sviews(out@) == cviews(v@).take(i as int),
        decreases v.len() - i,
    {
        let ghost before = out@;
        out.push(string_of(&v[i]));
        assert(sviews(out@) =~= sviews(before).push(cviews(v@)[i as int]));
        assert(cviews(v@).take(i + 1) == cviews(v@).take(i as int).push(cviews(v@)[i as int]));
        i += 1;
    }
    assert(cviews(v@).take(v.len() as int) == cviews(v@));
    out
}

fn line_is(line: &Vec<char>, text: &str) -> (r: bool)
    ensures
        r == (line@ == text@),
{
    chars_eq(line, &chars_of(text))
}

/// Parses the removed, changed and added sections of `cargo public-api diff` output.
pub fn parse_diff(output: &str) -> (r: ParsedDiff)
    ensures
        ({
            let (_, rem, old, new, add) = diff_state(split(output@, '\n'));
            &&& sviews(r.removed@) == nonempty(rem)
            &&& sviews(r.changed@) == pairs(old, new)
            &&& sviews(r.added@) == nonempty(add)
            &&& r.changed_old_count == nonempty(old).len()
        }),
{
    let text = chars_of(output);
    let ls = split_chars(&text, '\n');
    let ghost sl = split(output@, '\n');
    let mut section: u8 = 0;
    let mut removed: Vec<Vec<char>> = Vec::new();
    let mut old: Vec<Vec<char>> = Vec::new();
    let mut new: Vec<Vec<char>> = Vec::new();
    let mut added: Vec<Vec<char>> = Vec::new();
    let mut i: usize = 0;
    while i < ls.len()
        invariant
            i <= ls.len(),
            text@ == output@,
            sl == split(output@, '\n'),
            ls@.len() == sl.len(),
            forall|k: int| 0 <= k < ls@.len() ==> #[trigger] ls@[k]@ == sl[k],
            ({
                let (sec, rem, o, n, add) = diff_state(sl.take(i as int));
                &&& sec == section as int
                &&& cviews(removed@) == rem
                &&& cviews(old@) == o
                &&& cviews(new@) == n
                &&& cviews(added@) == add
            }),
        decreases ls.len() - i,
    {
        assert(sl.take(i + 1).drop_last() == sl.take(i as int));
        assert(sl.take(i + 1).last() == ls@[i as int]@);
        let line = &ls[i];
        let ghost bs = (removed@, old@, new@, added@);
        if line_is(line, "Removed items from the public API") {
            section = 1;
        } else if line_is(line, "Changed items in the public API") {
            section = 2;
        } else if line_is(line, "Added items to the public API") {
            section = 3;
        } else if line.len() == 0 || line_is(line, "(none)") || line[0] == '=' {
        } else if line[0] == '-' {
            let rest = slice_chars(line, 1, line.len());
            if section == 1 {
                removed.push(rest);
                assert(cviews(removed@) =~= cviews(bs.0).push(line@.skip(1)));
            } else if section == 2 {
                old.push(rest);
                assert(cviews(old@) =~= cviews(bs.1).push(line@.skip(1)));
            }
        } else if line[0] == '+' {
            let rest = slice_chars(line, 1, line.len());
            if section == 2 {
                new.push(rest);
                assert(cviews(new@) =~= cviews(bs.2).push(line@.skip(1)));
            } else if section == 3 {
                added.push(rest);
                assert(cviews(added@) =~= cviews(bs.3).push(line@.skip(1)));
            }
        }
        i += 1;
    }
    assert(sl.take(ls.len() as int) == sl);
    let ghost o = cviews(old@);
    let ghost n = cviews(new@);
    let mut changed: Vec<Vec<char>> = Vec::new();
    let mut count: usize = 0;
    let mut k: usize = 0;
    while k < old.len()
        invariant
            k <= old.len(),
            o == cviews(old@),
            n == cviews(new@),
            cviews(changed@) == pairs(o.take(k as int), n),
            count == nonempty(o.take(k as int)).len(),
            count <= k,
        decreases old.len() - k,
    {
        assert(o.take(k + 1).drop_last() == o.take(k as int));
        assert(o.take(k + 1).last() == o[k as int]);
        if old[k].len() > 0 {
            count += 1;
            let mut first: Vec<char> = chars_of("  - ");
            extend_chars(&mut first, &old[k]);
            let mut second: Vec<char> = chars_of("  + ");
            if k < new.len() {
                extend_chars(&mut second, &new[k]);
            }
            let ghost before = changed@;
            changed.push(first);
            changed.push(second);
            assert(cviews(changed@) =~= cviews(before).push(first@).push(second@));
            proof {
                if k >= new.len() {
                    assert(second@ =~= "  + "@ + Seq::<char>::empty());
                }
            }
        }
        k += 1;
    }
    assert(o.take(old.len() as int) == o);
    let removed_kept = keep_nonempty(&removed);
    let added_kept = keep_nonempty(&added);
    ParsedDiff {
        removed: to_strings(&removed_kept),
        changed: to_strings(&changed),
        added: to_strings(&added_kept),
        changed_old_count: count,
    }
}

fn keep_nonempty(v: &Vec<Vec<char>>) -> (r: Vec<Vec<char>>)
    ensures
        cviews(r@) == nonempty(cviews(v@)),
{
    let ghost s = cviews(v@);
    let mut out: Vec<Vec<char>> = Vec::new();
    let mut i: usize = 0;
    while i < v.len()
        invariant
            i <= v.len(),
            s == cviews(v@),
            cviews(out@) == nonempty(s.take(i as int)),
        decreases v.len() - i,
    {
        assert(s.take(i + 1).drop_last() == s.take(i as int));
        assert(s.take(i + 1).last() == s[i as int]);
        if v[i].len() > 0 {
            let ghost before = out@;
            let item = copy_chars(&v[i]);
            out.push(item);
            assert(cviews(out@) =~= cviews(before).push(s[i as int]));
        }
        i += 1;
    }
    assert(s.take(v.len() as int) == s);
    out
}

/// `text` without trailing newlines (`trim_end_matches('\n')`).
pub open spec fn trim_newlines(s: Seq<char>) -> Seq<char>
    decreases s.len(),
{
    if s.len() > 0 && s.last() == '\n' {
        trim_newlines(s.drop_last())
    } else {
        s
    }
}

fn trim_newlines_chars(s: &Vec<char>) -> (r: Vec<char>)
    ensures
        r@ == trim_newlines(s@),
{
    let mut b: usize = s.len();
    assert(s@.subrange(0, b as int) == s@);
    while b > 0 && s[b - 1] == '\n'
        invariant
            b <= s.len(),
            trim_newlines(s@.subrange(0, b as int)) == trim_newlines(s@),
        decreases b,
    {
        assert(s@.subrange(0, b as int).drop_last() == s@.subrange(0, b - 1));
        b -= 1;
    }
    slice_chars(s, 0, b)
}

/// Trims the trailing newlines a command substitution would drop.
pub fn trim_command_substitution(text: &str) -> (r: String)
    ensures
        r@ == trim_newlines(text@),
{
    let cs = chars_of(text);
    let t = trim_newlines_chars(&cs);
    string_of(&t)
}

/// `s` without its carriage returns.
pub open spec fn remove_cr(s: Seq<char>) -> Seq<char>
    decreases s.len(),
{
    if s.len() == 0 {
        s
    } else if s.last() == '\r' {
        remove_cr(s.drop_last())
    } else {
        remove_cr(s.drop_last()).push(s.last())
    }
}

/// The suffix of `s` holding its last `n` newline-terminated lines (the last line counted
/// even without a newline).
pub open spec fn tail_lines(s: Seq<char>, n: nat) -> Seq<char> {
    let parts = split(s, '\n');
    let pieces = if parts.last().len() == 0 { (parts.len() - 1) as nat } else { parts.len() };
    if pieces <= n {
        s
    } else {
        let drop = (pieces - n) as int;
        join(parts.skip(drop), "\n"@)
    }
}

/// The last 80 lines of stderr without carriage returns and trailing newlines, or a fixed
/// message when that leaves nothing.
pub open spec fn spec_error_tail(stderr: Seq<char>) -> Seq<char> {
    let tail = trim_newlines(tail_lines(remove_cr(stderr), 80));
    if tail.len() == 0 {
        "public API analysis failed without writing stderr"@
    } else {
        tail
    }
}

proof fn lemma_join_split(s: Seq<char>, sep: char)
    ensures
        join(split(s, sep), seq![sep]) == s,
    decreases s.len(),
{
    crate::text::lemma_split_nonempty(s, sep);
    if s.len() > 0 {
        let d = s.drop_last();
        lemma_join_split(d, sep);
        crate::text::lemma_split_nonempty(d, sep);
        let pd = split(d, sep);
        if s.last() == sep {
            let p = pd.push(Seq::empty());
            assert(p.drop_last() == pd);
            assert(s =~= d + seq![sep] + Seq::<char>::empty());
        } else {
            lemma_join_last(pd, seq![sep], s.last());
            assert(s =~= d.push(s.last()));
        }
    }
}

proof fn lemma_join_last(parts: Seq<Seq<char>>, sep: Seq<char>, c: char)
    requires
        parts.len() >= 1,
    ensures
        join(parts.update(parts.len() - 1, parts.last().push(c)), sep) == join(parts, sep).push(c),
{
    let u = parts.update(parts.len() - 1, parts.last().push(c));
    if parts.len() == 1 {
    } else {
        assert(u.drop_last() == parts.drop_last());
        assert(join(u, sep) == join(parts.drop_last(), sep) + sep + parts.last().push(c));
        assert((join(parts.drop_last(), sep) + sep + parts.last()).push(c) =~= join(parts.drop_last(), sep) + sep + parts.last().push(c));
    }
}

fn remove_cr_chars(s: &Vec<char>) -> (r: Vec<char>)
    ensures
        r@ == remove_cr(s@),
{
    let mut out: Vec<char> = Vec::new();
    let mut i: usize = 0;
    while i < s.len()
        invariant
            i <= s.len(),
            out@ == remove_cr(s@.take(i as int)),
        decreases s.len() - i,
    {
        assert(s@.take(i + 1).drop_last() == s@.take(i as int));
        if s[i] != '\r' {
            out.push(s[i]);
        }
        i += 1;
    }
    assert(s@.take(s.len() as int) == s@);
    out
}

/// Keeps the last 80 lines of a failure's stderr.
pub fn error_tail(stderr: &str) -> (r: String)
    ensures
        r@ == spec_error_tail(stderr@),
{
    let raw = chars_of(stderr);
    let cleaned = remove_cr_chars(&raw);
    let parts = split_chars(&cleaned, '\n');
    let ghost sp = split(cleaned@, '\n');
    proof {
        lemma_split_nonempty(cleaned@, '\n');
    }
    let pieces: usize = if parts[parts.len() - 1].len() == 0 { parts.len() - 1 } else { parts.len() };
    let tail: Vec<char> = if pieces <= 80 {
        copy_chars(&cleaned)
    } else {
        let drop = pieces - 80;
        let mut kept: Vec<Vec<char>> = Vec::new();
        let mut k: usize = drop;
        while k < parts.len()
            invariant
                drop <= k <= parts.len(),
                parts@.len() == sp.len(),
                forall|j: int| 0 <= j < parts@.len() ==> #[trigger] parts@[j]@ == sp[j],
                cviews(kept@) == sp.subrange(drop as int, k as int),
            decreases parts.len() - k,
        {
            let ghost before = kept@;
            kept.push(copy_chars(&parts[k]));
            assert(cviews(kept@) =~= cviews(before).push(sp[k as int]));
            assert(sp.subrange(drop as int, k + 1) == sp.subrange(drop as int, k as int).push(sp[k as int]));
            k += 1;
        }
        assert(sp.subrange(drop as int, parts.len() as int) == sp.skip(drop as int));
        assert(cviews(kept@) == kept@.map_values(|p: Vec<char>| p@));
        crate::text::join_chars(&kept, &chars_of("\n"))
    };
    proof {
        reveal_strlit("\n");
    }
    let trimmed = trim_newlines_chars(&tail);
    if trimmed.len() == 0 {
        string_of(&chars_of("public API analysis failed without writing stderr"))
    } else {
        string_of(&trimmed)
    }
}

/// The command a user reruns to reproduce a failure: one `cargo public-api` invocation for
/// a build stage, and both refs for the diff stage.
pub open spec fn spec_error_command(
    refs: Refs,
    features: Seq<char>,
    crate_name: Seq<char>,
    stage: ErrorStage,
) -> Seq<char> {
    if stage != ErrorStage::Diff {
        "cargo public-api "@ + features + " -p "@ + crate_name + " -ss"@
    } else {
        "run at "@ + refs.baseline_label@ + " ("@ + refs.baseline_sha@ + "): cargo public-api "@
            + features + " -p "@ + crate_name + " -ss; run at "@ + refs.head_label@ + " ("@
            + refs.head_sha@ + "): cargo public-api "@ + features + " -p "@ + crate_name
            + " -ss"@
    }
}

/// The rerun command for a failed crate.
pub fn error_command(refs: &Refs, feature_args: &Vec<String>, crate_name: &str, stage: ErrorStage) -> (r: String)
    ensures
        r@ == spec_error_command(*refs, join(crate::api::sviews(feature_args@), " "@), crate_name@, stage),
{
    let features = crate::text::join_strings(feature_args, " ");
    assert(sviews(feature_args@) == feature_args@.map_values(|p: String| p@));
    let mut out: Vec<char> = Vec::new();
    if stage != ErrorStage::Diff {
        push_str_chars(&mut out, "cargo public-api ");
        push_str_chars(&mut out, features.as_str());
        push_str_chars(&mut out, " -p ");
        push_str_chars(&mut out, crate_name);
        push_str_chars(&mut out, " -ss");
    } else {
        push_str_chars(&mut out, "run at ");
        push_str_chars(&mut out, refs.baseline_label.as_str());
        push_str_chars(&mut out, " (");
        push_str_chars(&mut out, refs.baseline_sha.as_str());
        push_str_chars(&mut out, "): cargo public-api ");
        push_str_chars(&mut out, features.as_str());
        push_str_chars(&mut out, " -p ");
        push_str_chars(&mut out, crate_name);
        push_str_chars(&mut out, " -ss; run at ");
        push_str_chars(&mut out, refs.head_label.as_str());
        push_str_chars(&mut out, " (");
        push_str_chars(&mut out, refs.head_sha.as_str());
        push_str_chars(&mut out, "): cargo public-api ");
        push_str_chars(&mut out, features.as_str());
        push_str_chars(&mut out, " -p ");
        push_str_chars(&mut out, crate_name);
        push_str_chars(&mut out, " -ss");
    }
    string_of(&out)
}

/// `r` is the result recorded for a crate whose analysis failed at `stage`: no counts, error
/// status, and the stderr tail, rerun command and hint.
pub open spec fn is_failure(
    r: CrateResult,
    refs: Refs,
    feature_args: Seq<String>,
    crate_name: Seq<char>,
    stage: ErrorStage,
    ref_label: Seq<char>,
    ref_sha: Seq<char>,
    stderr: Seq<char>,
) -> bool {
    &&& r.name@ == crate_name
    &&& r.removed == 0 && r.changed == 0 && r.added == 0
    &&& r.removed_lines@.len() == 0 && r.changed_lines@.len() == 0 && r.added_lines@.len() == 0
    &&& r.status == CrateStatus::Error
    &&& r.pubdep@.len() == 0
    &&& r.error matches Some(e) && {
        &&& e.stage == stage
        &&& e.ref_label@ == ref_label
        &&& e.ref_sha@ == ref_sha
        &&& e.command@ == spec_error_command(refs, join(sviews(feature_args), " "@), crate_name, stage)
        &&& e.stderr@ == spec_error_tail(stderr)
        &&& e.hint@ == spec_hint_for(lowercase(spec_error_tail(stderr)))
    }
}

/// The result recorded for a crate whose analysis failed at `stage`: no counts, error
/// status, and the stderr tail, rerun command and hint.
pub fn failure_result(
    refs: &Refs,
    feature_args: &Vec<String>,
    crate_name: &str,
    stage: ErrorStage,
    ref_label: &str,
    ref_sha: &str,
    stderr: &str,
) -> (r: CrateResult)
    ensures
        is_failure(r, *refs, feature_args@, crate_name@, stage, ref_label@, ref_sha@, stderr@),
{
    let tail = error_tail(stderr);
    let command = error_command(refs, feature_args, crate_name, stage);
    let hint = hint(tail.as_str());
    CrateResult {
        name: string_of(&chars_of(crate_name)),
        removed: 0,
        changed: 0,
        added: 0,
        removed_lines: Vec::new(),
        changed_lines: Vec::new(),
        added_lines: Vec::new(),
        status: CrateStatus::Error,
        error: Some(ApiError {
            stage,
            ref_label: string_of(&chars_of(ref_label)),
            ref_sha: string_of(&chars_of(ref_sha)),
            command,
            stderr: tail,
            hint,
        }),
        pubdep: Vec::new(),
    }
}

/// What one crate's analysis came back with, in the order the steps run.
pub enum CrateEvent {
    /// The baseline rustdoc build failed with this error text.
    BaselineFailed(String),
    /// The head rustdoc build failed with this error text.
    HeadFailed(String),
    /// `cargo public-api diff` failed, or could not start, with this error text.
    DiffFailed(String),
    /// `cargo public-api diff` succeeded with this output.
    Diffed(String),
}

/// `r` is the result recorded for a crate whose diff output was `output`, with the given
/// public-dependency findings.
pub open spec fn is_success(r: CrateResult, crate_name: Seq<char>, output: Seq<char>, findings: Seq<PubdepFinding>) -> bool {
    let (_, rem, old, new, add) = diff_state(split(output, '\n'));
    &&& r.name@ == crate_name
    &&& r.removed == nonempty(rem).len()
    &&& r.changed == nonempty(old).len()
    &&& r.added == nonempty(add).len()
    &&& sviews(r.removed_lines@) == nonempty(rem)
    &&& sviews(r.changed_lines@) == pairs(old, new)
    &&& sviews(r.added_lines@) == nonempty(add)
    &&& r.status == CrateStatus::Clean
    &&& r.error is None
    &&& r.pubdep@ == findings
}

/// The label and SHA range a failed diff stage names.
pub open spec fn diff_range(refs: Refs) -> (Seq<char>, Seq<char>) {
    (refs.baseline_label@ + ".."@ + refs.head_label@, refs.baseline_sha@ + ".."@ + refs.head_sha@)
}

/// The result recorded for one crate from what its analysis came back with: a failure at
/// the stage that failed, or the parsed diff with the crate's public-dependency findings.
pub fn crate_result(
    refs: &Refs,
    feature_args: &Vec<String>,
    crate_name: &str,
    event: CrateEvent,
    findings: Vec<PubdepFinding>,
) -> (r: CrateResult)
    ensures
        match event {
            CrateEvent::BaselineFailed(e) => is_failure(
                r,
                *refs,
                feature_args@,
                crate_name@,
                ErrorStage::BaselineBuild,
                refs.baseline_label@,
                refs.baseline_sha@,
                e@,
            ),
            CrateEvent::HeadFailed(e) => is_failure(
                r,
                *refs,
                feature_args@,
                crate_name@,
                ErrorStage::HeadBuild,
                refs.head_label@,
                refs.head_sha@,
                e@,
            ),
            CrateEvent::DiffFailed(e) => is_failure(
                r,
                *refs,
                feature_args@,
                crate_name@,
                ErrorStage::Diff,
                diff_range(*refs).0,
                diff_range(*refs).1,
                e@,
            ),
            CrateEvent::Diffed(out) => is_success(r, crate_name@, out@, findings@),
        },
{
    match event {
        CrateEvent::BaselineFailed(e) => failure_result(
            refs,
            feature_args,
            crate_name,
            ErrorStage::BaselineBuild,
            refs.baseline_label.as_str(),
            refs.baseline_sha.as_str(),
            e.as_str(),
        ),
        CrateEvent::HeadFailed(e) => failure_result(
            refs,
            feature_args,
            crate_name,
            ErrorStage::HeadBuild,
            refs.head_label.as_str(),
            refs.head_sha.as_str(),
            e.as_str(),
        ),
        CrateEvent::DiffFailed(e) => {
            let mut label = chars_of(refs.baseline_label.as_str());
            push_str_chars(&mut label, "..");
            push_str_chars(&mut label, refs.head_label.as_str());
            let mut sha = chars_of(refs.baseline_sha.as_str());
            push_str_chars(&mut sha, "..");
            push_str_chars(&mut sha, refs.head_sha.as_str());
            let label = string_of(&label);
            let sha = string_of(&sha);
            failure_result(refs, feature_args, crate_name, ErrorStage::Diff, label.as_str(), sha.as_str(), e.as_str())
        },
        CrateEvent::Diffed(out) => {
            let parsed = parse_diff(out.as_str());
            let removed = parsed.removed.len();
            let added = parsed.added.len();
            CrateResult {
                name: string_of(&chars_of(crate_name)),
                removed,
                changed: parsed.changed_old_count,
                added,
                removed_lines: parsed.removed,
                changed_lines: parsed.changed,
                added_lines: parsed.added,
                status: CrateStatus::Clean,
                error: None,
                pubdep: findings,
            }
        },
    }
}

/// The toolchain the environment selects: its value when set and not empty.
pub fn env_toolchain(value: Option<&str>) -> (r: Option<String>)
    ensures
        match value {
            Some(v) => if v@.len() > 0 {
                r matches Some(t) && t@ == v@
            } else {
                r is None
            },
            None => r is None,
        },
{
    match value {
        Some(v) => {
            let cs = chars_of(v);
            if cs.len() > 0 {
                Some(string_of(&cs))
            } else {
                None
            }
        },
        None => None,
    }
}

/// The index of the first word starting with `nightly`, or the number of words.
pub open spec fn first_nightly(ws: Seq<Seq<char>>, i: int) -> int
    decreases ws.len() - i,
{
    if i >= ws.len() {
        ws.len() as int
    } else if crate::text::starts_with(ws[i], "nightly"@) {
        i
    } else {
        first_nightly(ws, i + 1)
    }
}

proof fn lemma_first_nightly(ws: Seq<Seq<char>>, i: int)
    requires
        0 <= i <= ws.len(),
    ensures
        i <= first_nightly(ws, i) <= ws.len(),
    decreases ws.len() - i,
{
    if i < ws.len() && !crate::text::starts_with(ws[i], "nightly"@) {
        lemma_first_nightly(ws, i + 1);
    }
}

/// The first word of `rustup toolchain list` output that starts with `nightly`.
pub fn nightly_in(list: &str) -> (r: Option<String>)
    ensures
        ({
            let ws = crate::text::words(list@);
            let k = first_nightly(ws, 0);
            if k < ws.len() {
                r matches Some(t) && t@ == ws[k]
            } else {
                r is None
            }
        }),
{
    let cs = chars_of(list);
    let ws = crate::text::words_chars(&cs);
    let ghost sw = crate::text::words(list@);
    let pre = chars_of("nightly");
    proof {
        lemma_first_nightly(sw, 0);
    }
    let mut k: usize = 0;
    while k < ws.len()
        invariant
            k <= ws.len(),
            cs@ == list@,
            sw == crate::text::words(list@),
            ws@.len() == sw.len(),
            forall|j: int| 0 <= j < ws@.len() ==> #[trigger] ws@[j]@ == sw[j],
            pre@ == "nightly"@,
            first_nightly(sw, 0) == first_nightly(sw, k as int),
        decreases ws.len() - k,
    {
        if crate::text::has_prefix(&ws[k], &pre) {
            return Some(string_of(&ws[k]));
        }
        k += 1;
    }
    None
}

/// The number of line feeds in `s`.
pub open spec fn newline_count(s: Seq<char>) -> nat
    decreases s.len(),
{
    if s.len() == 0 {
        0
    } else {
        newline_count(s.drop_last()) + if s.last() == '\n' { 1nat } else { 0nat }
    }
}

/// The number of lines of `s` as `str::split_inclusive('\n')` yields them: one per line feed,
/// and one more for text after the last line feed.
pub open spec fn line_count(s: Seq<char>) -> nat {
    newline_count(s) + if s.len() > 0 && s.last() != '\n' { 1nat } else { 0nat }
}

proof fn lemma_split_count(s: Seq<char>)
    ensures
        split(s, '\n').len() == newline_count(s) + 1,
        split(s, '\n').last().len() == 0 <==> (s.len() == 0 || s.last() == '\n'),
        forall|i: int| 0 <= i < split(s, '\n').len() ==> !(#[trigger] split(s, '\n')[i]).contains('\n'),
    decreases s.len(),
{
    if s.len() > 0 {
        let d = s.drop_last();
        lemma_split_count(d);
        lemma_split_nonempty(d, '\n');
        let pd = split(d, '\n');
        let ps = split(s, '\n');
        if s.last() == '\n' {
            assert(ps == pd.push(Seq::<char>::empty()));
            assert forall|i: int| 0 <= i < ps.len() implies !(#[trigger] ps[i]).contains('\n') by {
                if i < pd.len() {
                    assert(ps[i] == pd[i]);
                }
            }
        } else {
            let l = pd.last().push(s.last());
            assert(ps == pd.update(pd.len() - 1, l));
            assert forall|i: int| 0 <= i < ps.len() implies !(#[trigger] ps[i]).contains('\n') by {
                if i < pd.len() - 1 {
                    assert(ps[i] == pd[i]);
                } else {
                    assert(pd[pd.len() - 1] == pd.last());
                    if l.contains('\n') {
                        let k = choose|k: int| 0 <= k < l.len() && l[k] == '\n';
                        assert(pd.last()[k] == '\n');
                    }
                }
            }
        }
    }
}

proof fn lemma_join_cut(parts: Seq<Seq<char>>, sep: Seq<char>, d: int)
    requires
        1 <= d < parts.len(),
    ensures
        join(parts, sep) == join(parts.take(d), sep) + sep + join(parts.skip(d), sep),
    decreases parts.len(),
{
    let n = parts.len();
    if d == n - 1 {
        assert(parts.take(d) =~= parts.drop_last());
        assert(parts.skip(d) =~= seq![parts.last()]);
    } else {
        let init = parts.drop_last();
        lemma_join_cut(init, sep, d);
        assert(init.take(d) =~= parts.take(d));
        assert(parts.skip(d).drop_last() =~= init.skip(d));
        assert(parts.skip(d).last() == parts.last());
        assert(parts.skip(d).len() >= 2);
    }
}

/// The error tail keeps the last 80 lines of stderr (as `split_inclusive('\n')` counts
/// them), carriage returns removed and trailing line feeds trimmed: all of it when it has at
/// most 80 lines, else what follows the line feed before its last 80 lines; and a fixed
/// message when that leaves nothing.
pub proof fn law_error_tail_keeps_last_lines(stderr: Seq<char>)
    ensures
        ({
            let c = remove_cr(stderr);
            let r = spec_error_tail(stderr);
            let msg = "public API analysis failed without writing stderr"@;
            &&& line_count(c) <= 80 ==> r == if trim_newlines(c).len() == 0 { msg } else { trim_newlines(c) }
            &&& line_count(c) > 80 ==> exists|p: int|
                0 < p <= c.len() && c[p - 1] == '\n' && line_count(#[trigger] c.skip(p)) == 80 && r == if trim_newlines(
                    c.skip(p),
                ).len() == 0 {
                    msg
                } else {
                    trim_newlines(c.skip(p))
                }
        }),
{
    let c = remove_cr(stderr);
    let parts = split(c, '\n');
    lemma_split_count(c);
    lemma_split_nonempty(c, '\n');
    let pieces = if parts.last().len() == 0 { (parts.len() - 1) as nat } else { parts.len() };
    assert(pieces == line_count(c));
    if pieces > 80 {
        let d = (pieces - 80) as int;
        let sep = seq!['\n'];
        assert("\n"@ =~= sep) by {
            reveal_strlit("\n");
        }
        lemma_join_split(c, '\n');
        lemma_join_cut(parts, sep, d);
        let x = join(parts.skip(d), sep);
        let p: int = join(parts.take(d), sep).len() as int + 1;
        assert(c == join(parts.take(d), sep) + sep + x);
        assert(c.skip(p) =~= x);
        assert(c[p - 1] == '\n');
        let rest = parts.skip(d);
        assert forall|i: int| 0 <= i < rest.len() implies !(#[trigger] rest[i]).contains('\n') by {
            assert(rest[i] == parts[i + d]);
        }
        crate::text::lemma_split_join(rest, '\n');
        lemma_split_count(x);
        assert(split(x, '\n') == rest);
        assert(rest.last() == parts.last());
        assert(line_count(x) == 80);
        assert(tail_lines(c, 80) == x);
    }
}

} // verus!
