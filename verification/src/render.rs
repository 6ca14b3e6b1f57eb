//! The human-readable report: each section as the lines the terminal shows, styled.
//!
//! Every function returns the lines of its section; the program prints them, each followed
//! by a newline.

use vstd::prelude::*;

use crate::deps::{added_view, changed_view, removed_view};
use crate::api::sviews;
use crate::group::{group_with, patterns_compile, spec_group, GroupPatterns};
use crate::model::{records_view, GroupMode, GroupRecord, RecordView, Section, ApiError, Bump, CrateResult, PubdepFinding, CrateStatus, DepAdded, DepChanged, DepDiff, DepRemoved, DocChange, LockDiff, Refs, Report, ValueChange};
use crate::style::Style;
use crate::version_req::{classify_bump, spec_classify_bump};
use crate::text::{chars_of, decimal, lines, starts_with, push_decimal, push_str_chars, str_eq, string_of};

verus! {

/// `n` spaces.
pub open spec fn spaces(n: int) -> Seq<char> {
    Seq::new(if n > 0 { n as nat } else { 0 }, |i: int| ' ')
}

/// Text left-aligned in a column of `w` characters (`{:<w$}`).
pub open spec fn pad(s: Seq<char>, w: int) -> Seq<char> {
    if s.len() < w {
        s + spaces(w - s.len())
    } else {
        s
    }
}

/// The longest text's length, or 0.
pub open spec fn max_len(s: Seq<Seq<char>>) -> int
    decreases s.len(),
{
    if s.len() == 0 {
        0
    } else {
        let m = max_len(s.drop_last());
        if s.last().len() > m {
            s.last().len() as int
        } else {
            m
        }
    }
}

proof fn lemma_max_len(s: Seq<Seq<char>>)
    ensures
        0 <= max_len(s),
        forall|k: int| 0 <= k < s.len() ==> (#[trigger] s[k]).len() <= max_len(s),
        s.len() > 0 ==> exists|k: int| 0 <= k < s.len() && (#[trigger] s[k]).len() == max_len(s),
    decreases s.len(),
{
    if s.len() > 0 {
        lemma_max_len(s.drop_last());
        assert forall|k: int| 0 <= k < s.len() implies (#[trigger] s[k]).len() <= max_len(s) by {
            if k < s.len() - 1 {
                assert(s.drop_last()[k] == s[k]);
            }
        }
        if s.last().len() <= max_len(s.drop_last()) && s.len() > 1 {
            let k = choose|k: int| 0 <= k < s.drop_last().len() && (#[trigger] s.drop_last()[k]).len() == max_len(s.drop_last());
            assert(s[k] == s.drop_last()[k]);
        }
    }
}

fn push_pad(out: &mut Vec<char>, s: &str, w: usize)
    ensures
        final(out)@ == old(out)@ + pad(s@, w as int),
{
    let n = chars_of(s).len();
    push_str_chars(out, s);
    let ghost mid = out@;
    if n < w {
        let mut k: usize = n;
        while k < w
            invariant
                n <= k <= w,
                n == s@.len(),
                out@ == mid + spaces(k - n),
            decreases w - k,
        {
            out.push(' ');
            assert(spaces(k + 1 - n) =~= spaces(k - n).push(' '));
            k += 1;
        }
        assert(out@ =~= old(out)@ + pad(s@, w as int));
    } else {
        assert(out@ =~= old(out)@ + pad(s@, w as int));
    }
}

fn push_line(out: &mut Vec<String>, line: &Vec<char>)
    ensures
        sviews(final(out)@) == sviews(old(out)@).push(line@),
        final(out)@.len() == old(out)@.len() + 1,
{
    let ghost before = out@;
    out.push(string_of(line));
    assert(sviews(out@) =~= sviews(before).push(line@));
}

fn push_empty(out: &mut Vec<String>)
    ensures
        sviews(final(out)@) == sviews(old(out)@).push(Seq::empty()),
{
    let e: Vec<char> = Vec::new();
    push_line(out, &e);
}

/// The header naming the compared refs, and a blank line.
pub open spec fn header_lines(s: Style, refs: Refs) -> Seq<Seq<char>> {
    seq![
        s.bold@ + "Comparing public API: "@ + refs.baseline_label@ + s.reset@ + s.dim@ + " ("@
            + refs.baseline_short@ + ")"@ + s.reset@ + " "@ + s.bold@ + "-> "@ + refs.head_label@
            + s.reset@ + s.dim@ + " ("@ + refs.head_short@ + ")"@ + s.reset@,
        Seq::empty(),
    ]
}

/// The header of the report.
pub fn header(s: &Style, refs: &Refs) -> (r: Vec<String>)
    ensures
        sviews(r@) == header_lines(*s, *refs),
{
    let mut l: Vec<char> = Vec::new();
    push_str_chars(&mut l, s.bold);
    push_str_chars(&mut l, "Comparing public API: ");
    push_str_chars(&mut l, refs.baseline_label.as_str());
    push_str_chars(&mut l, s.reset);
    push_str_chars(&mut l, s.dim);
    push_str_chars(&mut l, " (");
    push_str_chars(&mut l, refs.baseline_short.as_str());
    push_str_chars(&mut l, ")");
    push_str_chars(&mut l, s.reset);
    push_str_chars(&mut l, " ");
    push_str_chars(&mut l, s.bold);
    push_str_chars(&mut l, "-> ");
    push_str_chars(&mut l, refs.head_label.as_str());
    push_str_chars(&mut l, s.reset);
    push_str_chars(&mut l, s.dim);
    push_str_chars(&mut l, " (");
    push_str_chars(&mut l, refs.head_short.as_str());
    push_str_chars(&mut l, ")");
    push_str_chars(&mut l, s.reset);
    let mut out: Vec<String> = Vec::new();
    push_line(&mut out, &l);
    push_empty(&mut out);
    assert(sviews(out@) =~= header_lines(*s, *refs));
    out
}

/// The color of a removed dependency: red for runtime, yellow for optional runtime or
/// build, dim otherwise.
pub open spec fn removed_color(s: Style, kind: Seq<char>) -> Seq<char> {
    if kind == "runtime"@ {
        s.red@
    } else if kind == "runtime-opt"@ || kind == "build"@ {
        s.yellow@
    } else {
        s.dim@
    }
}

/// The line of a removed dependency.
pub open spec fn removed_line(s: Style, d: (Seq<char>, Seq<char>, Seq<char>, bool)) -> Seq<char> {
    "    "@ + removed_color(s, d.2) + "- "@ + d.0 + " "@ + d.1 + s.reset@ + " "@ + s.dim@ + "["@
        + d.2 + "]"@ + s.reset@
}

/// The color of a changed dependency: red for a major runtime bump, dim for build, dev or
/// optional runtime, yellow otherwise.
pub open spec fn changed_color(s: Style, bump: Bump, kind: Seq<char>) -> Seq<char> {
    if bump == Bump::Major && kind == "runtime"@ {
        s.red@
    } else if kind == "dev"@ || kind == "build"@ || kind == "runtime-opt"@ {
        s.dim@
    } else {
        s.yellow@
    }
}

/// The versions of a changed dependency: the requirement if only the record changed, else
/// old, new and the class of the change.
pub open spec fn changed_versions(d: (Seq<char>, Seq<char>, Seq<char>, Bump, Seq<char>, Seq<char>, bool)) -> Seq<
    char,
> {
    if d.1 == d.2 {
        d.1
    } else {
        d.1 + " -> "@ + d.2 + "  ("@ + d.3.spec_str() + ")"@
    }
}

/// The kind tag of a dependency line.
pub open spec fn kind_tag(s: Style, kind: Seq<char>) -> Seq<char> {
    s.reset@ + " "@ + s.dim@ + "["@ + kind + "]"@ + s.reset@
}

/// The feature delta of a changed dependency, if any.
pub open spec fn features_tag(s: Style, features: Seq<char>) -> Seq<char> {
    if features.len() > 0 {
        " "@ + s.dim@ + "features:"@ + s.reset@ + " "@ + features
    } else {
        Seq::empty()
    }
}

/// The line of a changed dependency, its name in a column of `width`.
pub open spec fn changed_line(
    s: Style,
    d: (Seq<char>, Seq<char>, Seq<char>, Bump, Seq<char>, Seq<char>, bool),
    width: int,
) -> Seq<char> {
    "    "@ + changed_color(s, d.3, d.4) + pad(d.0, width) + "  "@ + changed_versions(d) + kind_tag(
        s,
        d.4,
    ) + features_tag(s, d.5)
}

/// The line of an added dependency.
pub open spec fn added_line(s: Style, d: (Seq<char>, Seq<char>, Seq<char>)) -> Seq<char> {
    "    "@ + s.green@ + "+ "@ + d.0 + " "@ + d.1 + s.reset@ + " "@ + s.dim@ + "["@ + d.2 + "]"@
        + s.reset@
}

/// The plain values of removed dependencies.
pub open spec fn removed_views(v: Seq<DepRemoved>) -> Seq<(Seq<char>, Seq<char>, Seq<char>, bool)> {
    v.map_values(|d: DepRemoved| removed_view(d))
}

/// The plain values of changed dependencies.
pub open spec fn changed_views(v: Seq<DepChanged>) -> Seq<
    (Seq<char>, Seq<char>, Seq<char>, Bump, Seq<char>, Seq<char>, bool),
> {
    v.map_values(|d: DepChanged| changed_view(d))
}

/// The plain values of added dependencies.
pub open spec fn added_views(v: Seq<DepAdded>) -> Seq<(Seq<char>, Seq<char>, Seq<char>)> {
    v.map_values(|d: DepAdded| added_view(d))
}

/// A heading of a list: indented, colored, with the count.
pub open spec fn count_heading(color: Seq<char>, title: Seq<char>, n: nat, reset: Seq<char>) -> Seq<
    char,
> {
    "  "@ + color + title + " ("@ + decimal(n) + "):"@ + reset
}

/// The lines of removed dependencies.
pub open spec fn removed_block(s: Style, rm: Seq<(Seq<char>, Seq<char>, Seq<char>, bool)>) -> Seq<
    Seq<char>,
>
    decreases rm.len(),
{
    if rm.len() == 0 {
        Seq::empty()
    } else {
        removed_block(s, rm.drop_last()).push(removed_line(s, rm.last()))
    }
}

/// The lines of changed dependencies.
pub open spec fn changed_block(
    s: Style,
    ch: Seq<(Seq<char>, Seq<char>, Seq<char>, Bump, Seq<char>, Seq<char>, bool)>,
    width: int,
) -> Seq<Seq<char>>
    decreases ch.len(),
{
    if ch.len() == 0 {
        Seq::empty()
    } else {
        changed_block(s, ch.drop_last(), width).push(changed_line(s, ch.last(), width))
    }
}

/// The lines of added dependencies.
pub open spec fn added_block(s: Style, ad: Seq<(Seq<char>, Seq<char>, Seq<char>)>) -> Seq<Seq<char>>
    decreases ad.len(),
{
    if ad.len() == 0 {
        Seq::empty()
    } else {
        added_block(s, ad.drop_last()).push(added_line(s, ad.last()))
    }
}

/// The names of changed dependencies.
pub open spec fn changed_names(ch: Seq<(Seq<char>, Seq<char>, Seq<char>, Bump, Seq<char>, Seq<char>, bool)>) -> Seq<
    Seq<char>,
> {
    ch.map_values(|d: (Seq<char>, Seq<char>, Seq<char>, Bump, Seq<char>, Seq<char>, bool)| d.0)
}

/// The dependency section: removed, changed and added workspace dependencies, each list
/// with a heading and a blank line after it; nothing if there is no change. Changed names
/// share a column as wide as the longest.
pub open spec fn dep_lines(s: Style, deps: DepDiff) -> Seq<Seq<char>> {
    let rm = removed_views(deps.removed@);
    let ch = changed_views(deps.changed@);
    let ad = added_views(deps.added@);
    if rm.len() == 0 && ch.len() == 0 && ad.len() == 0 {
        Seq::empty()
    } else {
        seq![
            s.bold@ + "Dependency changes"@ + s.reset@ + s.dim@
                + " (kind: runtime = consumer-visible, build/dev = internal)"@ + s.reset@,
            Seq::empty(),
        ] + (if rm.len() > 0 {
            seq![count_heading(s.red@, "Removed"@, rm.len(), s.reset@)] + removed_block(s, rm)
                + seq![Seq::empty()]
        } else {
            Seq::empty()
        }) + (if ch.len() > 0 {
            seq![count_heading(s.yellow@, "Changed"@, ch.len(), s.reset@)] + changed_block(
                s,
                ch,
                max_len(changed_names(ch)),
            ) + seq![Seq::empty()]
        } else {
            Seq::empty()
        }) + (if ad.len() > 0 {
            seq![count_heading(s.green@, "Added"@, ad.len(), s.reset@)] + added_block(s, ad)
                + seq![Seq::empty()]
        } else {
            Seq::empty()
        })
    }
}

fn heading(color: &str, title: &str, n: usize, reset: &str) -> (r: Vec<char>)
    ensures
        r@ == count_heading(color@, title@, n as nat, reset@),
{
    let mut l = chars_of("  ");
    push_str_chars(&mut l, color);
    push_str_chars(&mut l, title);
    push_str_chars(&mut l, " (");
    push_decimal(&mut l, n);
    push_str_chars(&mut l, "):");
    push_str_chars(&mut l, reset);
    l
}

fn removed_line_exec(s: &Style, d: &DepRemoved) -> (r: Vec<char>)
    ensures
        r@ == removed_line(*s, removed_view(*d)),
{
    let kind = d.kind.as_str();
    let color = if str_eq(kind, "runtime") {
        s.red
    } else if str_eq(kind, "runtime-opt") || str_eq(kind, "build") {
        s.yellow
    } else {
        s.dim
    };
    let mut l = chars_of("    ");
    push_str_chars(&mut l, color);
    push_str_chars(&mut l, "- ");
    push_str_chars(&mut l, d.name.as_str());
    push_str_chars(&mut l, " ");
    push_str_chars(&mut l, d.version.as_str());
    push_str_chars(&mut l, s.reset);
    push_str_chars(&mut l, " ");
    push_str_chars(&mut l, s.dim);
    push_str_chars(&mut l, "[");
    push_str_chars(&mut l, kind);
    push_str_chars(&mut l, "]");
    push_str_chars(&mut l, s.reset);
    l
}

fn changed_versions_exec(d: &DepChanged) -> (r: Vec<char>)
    ensures
        r@ == changed_versions(changed_view(*d)),
{
    let mut l = chars_of(d.old.as_str());
    if !str_eq(d.old.as_str(), d.new.as_str()) {
        push_str_chars(&mut l, " -> ");
        push_str_chars(&mut l, d.new.as_str());
        push_str_chars(&mut l, "  (");
        push_str_chars(&mut l, d.bump.as_str());
        push_str_chars(&mut l, ")");
    }
    l
}

fn kind_tag_exec(s: &Style, kind: &str) -> (r: Vec<char>)
    ensures
        r@ == kind_tag(*s, kind@),
{
    let mut l = chars_of(s.reset);
    push_str_chars(&mut l, " ");
    push_str_chars(&mut l, s.dim);
    push_str_chars(&mut l, "[");
    push_str_chars(&mut l, kind);
    push_str_chars(&mut l, "]");
    push_str_chars(&mut l, s.reset);
    l
}

fn features_tag_exec(s: &Style, features: &str) -> (r: Vec<char>)
    ensures
        r@ == features_tag(*s, features@),
{
    let mut l: Vec<char> = Vec::new();
    if chars_of(features).len() > 0 {
        push_str_chars(&mut l, " ");
        push_str_chars(&mut l, s.dim);
        push_str_chars(&mut l, "features:");
        push_str_chars(&mut l, s.reset);
        push_str_chars(&mut l, " ");
        push_str_chars(&mut l, features);
    }
    assert(l@ =~= features_tag(*s, features@));
    l
}

fn changed_line_exec(s: &Style, d: &DepChanged, width: usize) -> (r: Vec<char>)
    ensures
        r@ == changed_line(*s, changed_view(*d), width as int),
{
    let kind = d.kind.as_str();
    let color = if d.bump == Bump::Major && str_eq(kind, "runtime") {
        s.red
    } else if str_eq(kind, "dev") || str_eq(kind, "build") || str_eq(kind, "runtime-opt") {
        s.dim
    } else {
        s.yellow
    };
    let mut l = chars_of("    ");
    push_str_chars(&mut l, color);
    push_pad(&mut l, d.name.as_str(), width);
    push_str_chars(&mut l, "  ");
    crate::text::extend_chars(&mut l, &changed_versions_exec(d));
    crate::text::extend_chars(&mut l, &kind_tag_exec(s, kind));
    crate::text::extend_chars(&mut l, &features_tag_exec(s, d.features.as_str()));
    l
}

fn added_line_exec(s: &Style, d: &DepAdded) -> (r: Vec<char>)
    ensures
        r@ == added_line(*s, added_view(*d)),
{
    let mut l = chars_of("    ");
    push_str_chars(&mut l, s.green);
    push_str_chars(&mut l, "+ ");
    push_str_chars(&mut l, d.name.as_str());
    push_str_chars(&mut l, " ");
    push_str_chars(&mut l, d.version.as_str());
    crate::text::extend_chars(&mut l, &kind_tag_exec(s, d.kind.as_str()));
    l
}

fn changed_width(ch: &Vec<DepChanged>) -> (r: usize)
    ensures
        r == max_len(changed_names(changed_views(ch@))),
{
    let ghost names = changed_names(changed_views(ch@));
    let mut w: usize = 0;
    let mut i: usize = 0;
    assert(names.take(0) =~= Seq::<Seq<char>>::empty());
    while i < ch.len()
        invariant
            i <= ch.len(),
            names == changed_names(changed_views(ch@)),
            w == max_len(names.take(i as int)),
        decreases ch.len() - i,
    {
        assert(names.take(i + 1).drop_last() =~= names.take(i as int));
        assert(names.take(i + 1).last() == ch@[i as int].name@);
        let n = chars_of(ch[i].name.as_str()).len();
        if n > w {
            w = n;
        }
        i += 1;
    }
    assert(names.take(ch.len() as int) =~= names);
    w
}

/// The dependency section.
pub fn dep_section(s: &Style, deps: &DepDiff) -> (r: Vec<String>)
    ensures
        sviews(r@) == dep_lines(*s, *deps),
{
    let ghost rm = removed_views(deps.removed@);
    let ghost ch = changed_views(deps.changed@);
    let ghost ad = added_views(deps.added@);
    let mut out: Vec<String> = Vec::new();
    if deps.removed.len() == 0 && deps.changed.len() == 0 && deps.added.len() == 0 {
        assert(sviews(out@) =~= dep_lines(*s, *deps));
        return out;
    }
    let mut l = chars_of(s.bold);
    push_str_chars(&mut l, "Dependency changes");
    push_str_chars(&mut l, s.reset);
    push_str_chars(&mut l, s.dim);
    push_str_chars(&mut l, " (kind: runtime = consumer-visible, build/dev = internal)");
    push_str_chars(&mut l, s.reset);
    push_line(&mut out, &l);
    push_empty(&mut out);
    let ghost after_title = sviews(out@);
    if deps.removed.len() > 0 {
        push_line(&mut out, &heading(s.red, "Removed", deps.removed.len(), s.reset));
        let ghost base = sviews(out@);
        let mut i: usize = 0;
        assert(sviews(out@) =~= base + removed_block(*s, rm.take(0)));
        while i < deps.removed.len()
            invariant
                i <= deps.removed.len(),
                rm == removed_views(deps.removed@),
                sviews(out@) == base + removed_block(*s, rm.take(i as int)),
            decreases deps.removed.len() - i,
        {
            assert(rm.take(i + 1).drop_last() =~= rm.take(i as int));
            assert(rm.take(i + 1).last() == removed_view(deps.removed@[i as int]));
            push_line(&mut out, &removed_line_exec(s, &deps.removed[i]));
            i += 1;
        }
        assert(rm.take(deps.removed.len() as int) =~= rm);
        push_empty(&mut out);
    }
    let ghost after_removed = sviews(out@);
    if deps.changed.len() > 0 {
        let width = changed_width(&deps.changed);
        push_line(&mut out, &heading(s.yellow, "Changed", deps.changed.len(), s.reset));
        let ghost base = sviews(out@);
        let mut i: usize = 0;
        assert(sviews(out@) =~= base + changed_block(*s, ch.take(0), width as int));
        while i < deps.changed.len()
            invariant
                i <= deps.changed.len(),
                ch == changed_views(deps.changed@),
                sviews(out@) == base + changed_block(*s, ch.take(i as int), width as int),
            decreases deps.changed.len() - i,
        {
            assert(ch.take(i + 1).drop_last() =~= ch.take(i as int));
            assert(ch.take(i + 1).last() == changed_view(deps.changed@[i as int]));
            push_line(&mut out, &changed_line_exec(s, &deps.changed[i], width));
            i += 1;
        }
        assert(ch.take(deps.changed.len() as int) =~= ch);
        push_empty(&mut out);
    }
    let ghost after_changed = sviews(out@);
    if deps.added.len() > 0 {
        push_line(&mut out, &heading(s.green, "Added", deps.added.len(), s.reset));
        let ghost base = sviews(out@);
        let mut i: usize = 0;
        assert(sviews(out@) =~= base + added_block(*s, ad.take(0)));
        while i < deps.added.len()
            invariant
                i <= deps.added.len(),
                ad == added_views(deps.added@),
                sviews(out@) == base + added_block(*s, ad.take(i as int)),
            decreases deps.added.len() - i,
        {
            assert(ad.take(i + 1).drop_last() =~= ad.take(i as int));
            assert(ad.take(i + 1).last() == added_view(deps.added@[i as int]));
            push_line(&mut out, &added_line_exec(s, &deps.added[i]));
            i += 1;
        }
        assert(ad.take(deps.added.len() as int) =~= ad);
        push_empty(&mut out);
    }
    assert(sviews(out@) =~= dep_lines(*s, *deps));
    out
}


/// Where a transitive crate comes from, shown after its line when known.
pub open spec fn spec_via_suffix(s: Style, sources: Option<Seq<char>>) -> Seq<char> {
    match sources {
        Some(v) => if v.len() > 0 {
            " "@ + s.dim@ + "via "@ + v + s.reset@
        } else {
            Seq::empty()
        },
        None => Seq::empty(),
    }
}

/// The suffix naming the direct dependencies that pull a transitive crate in.
pub fn via_suffix(s: &Style, sources: Option<&str>) -> (r: String)
    ensures
        r@ == spec_via_suffix(
            *s,
            match sources {
                Some(v) => Some(v@),
                None => None,
            },
        ),
{
    let mut l: Vec<char> = Vec::new();
    match sources {
        Some(v) => if chars_of(v).len() > 0 {
            push_str_chars(&mut l, " ");
            push_str_chars(&mut l, s.dim);
            push_str_chars(&mut l, "via ");
            push_str_chars(&mut l, v);
            push_str_chars(&mut l, s.reset);
        },
        None => {},
    }
    assert(l@ =~= spec_via_suffix(*s, match sources { Some(v) => Some(v@), None => None }));
    string_of(&l)
}

/// The attribution of a transitive crate (the first entry for it).
pub open spec fn via_of(sources: Seq<(String, String)>, name: Seq<char>) -> Option<Seq<char>>
    decreases sources.len(),
{
    if sources.len() == 0 {
        None
    } else if sources[0].0@ == name {
        Some(sources[0].1@)
    } else {
        via_of(sources.skip(1), name)
    }
}

fn via_lookup(sources: &Vec<(String, String)>, name: &str) -> (r: Option<String>)
    ensures
        match r {
            Some(v) => via_of(sources@, name@) == Some(v@),
            None => via_of(sources@, name@) is None,
        },
{
    let mut i: usize = 0;
    assert(sources@.skip(0) =~= sources@);
    while i < sources.len()
        invariant
            i <= sources.len(),
            via_of(sources@, name@) == via_of(sources@.skip(i as int), name@),
        decreases sources.len() - i,
    {
        assert(sources@.skip(i as int)[0] == sources@[i as int]);
        if str_eq(sources[i].0.as_str(), name) {
            return Some(sources[i].1.clone());
        }
        assert(sources@.skip(i as int).skip(1) =~= sources@.skip(i + 1));
        i += 1;
    }
    None
}

/// A changed transitive crate's line.
pub open spec fn lock_changed_line(s: Style, c: (String, String, String), width: int, sources: Seq<(String, String)>) -> Seq<
    char,
> {
    "    "@ + s.yellow@ + pad(c.0@, width) + "  "@ + c.1@ + " -> "@ + c.2@ + s.reset@
        + spec_via_suffix(s, via_of(sources, c.0@))
}

/// An added transitive crate's line.
pub open spec fn lock_added_line(s: Style, c: (String, String), sources: Seq<(String, String)>) -> Seq<char> {
    "    "@ + s.green@ + "+ "@ + c.0@ + " "@ + c.1@ + s.reset@ + spec_via_suffix(s, via_of(sources, c.0@))
}

/// A removed transitive crate's line.
pub open spec fn lock_removed_line(s: Style, c: (String, String)) -> Seq<char> {
    "    "@ + s.red@ + "- "@ + c.0@ + " "@ + c.1@ + s.reset@
}

/// The changed transitive crates' lines.
pub open spec fn lock_changed_block(s: Style, v: Seq<(String, String, String)>, width: int, sources: Seq<(String, String)>) -> Seq<
    Seq<char>,
>
    decreases v.len(),
{
    if v.len() == 0 {
        Seq::empty()
    } else {
        lock_changed_block(s, v.drop_last(), width, sources).push(lock_changed_line(s, v.last(), width, sources))
    }
}

/// The added transitive crates' lines.
pub open spec fn lock_added_block(s: Style, v: Seq<(String, String)>, sources: Seq<(String, String)>) -> Seq<Seq<char>>
    decreases v.len(),
{
    if v.len() == 0 {
        Seq::empty()
    } else {
        lock_added_block(s, v.drop_last(), sources).push(lock_added_line(s, v.last(), sources))
    }
}

/// The removed transitive crates' lines.
pub open spec fn lock_removed_block(s: Style, v: Seq<(String, String)>) -> Seq<Seq<char>>
    decreases v.len(),
{
    if v.len() == 0 {
        Seq::empty()
    } else {
        lock_removed_block(s, v.drop_last()).push(lock_removed_line(s, v.last()))
    }
}

/// The names of changed transitive crates.
pub open spec fn lock_names(v: Seq<(String, String, String)>) -> Seq<Seq<char>> {
    v.map_values(|c: (String, String, String)| c.0@)
}

/// The transitive (Cargo.lock) section: changed, added and removed crates, each list with a
/// heading and a blank line after it; nothing if there is no change.
pub open spec fn lock_lines(s: Style, lock: LockDiff) -> Seq<Seq<char>> {
    if lock.removed@.len() == 0 && lock.changed@.len() == 0 && lock.added@.len() == 0 {
        Seq::empty()
    } else {
        seq![
            s.bold@ + "Transitive (Cargo.lock) changes"@ + s.reset@ + s.dim@
                + " (direct deps already reported above)"@ + s.reset@,
            Seq::empty(),
        ] + (if lock.changed@.len() > 0 {
            seq![count_heading(s.yellow@, "Changed"@, lock.changed@.len(), s.reset@)]
                + lock_changed_block(s, lock.changed@, max_len(lock_names(lock.changed@)), lock.via@)
                + seq![Seq::empty()]
        } else {
            Seq::empty()
        }) + (if lock.added@.len() > 0 {
            seq![count_heading(s.green@, "Added"@, lock.added@.len(), s.reset@)]
                + lock_added_block(s, lock.added@, lock.via@) + seq![Seq::empty()]
        } else {
            Seq::empty()
        }) + (if lock.removed@.len() > 0 {
            seq![count_heading(s.red@, "Removed"@, lock.removed@.len(), s.reset@)]
                + lock_removed_block(s, lock.removed@) + seq![Seq::empty()]
        } else {
            Seq::empty()
        })
    }
}

fn via_suffix_exec(s: &Style, sources: &Vec<(String, String)>, name: &str) -> (r: Vec<char>)
    ensures
        r@ == spec_via_suffix(*s, via_of(sources@, name@)),
{
    let v = via_lookup(sources, name);
    let t = match &v {
        Some(x) => via_suffix(s, Some(x.as_str())),
        None => via_suffix(s, None),
    };
    chars_of(t.as_str())
}

/// The transitive (Cargo.lock) section.
pub fn lock_section(s: &Style, lock: &LockDiff) -> (r: Vec<String>)
    ensures
        sviews(r@) == lock_lines(*s, *lock),
{
    let mut out: Vec<String> = Vec::new();
    if lock.removed.len() == 0 && lock.changed.len() == 0 && lock.added.len() == 0 {
        assert(sviews(out@) =~= lock_lines(*s, *lock));
        return out;
    }
    let mut l = chars_of(s.bold);
    push_str_chars(&mut l, "Transitive (Cargo.lock) changes");
    push_str_chars(&mut l, s.reset);
    push_str_chars(&mut l, s.dim);
    push_str_chars(&mut l, " (direct deps already reported above)");
    push_str_chars(&mut l, s.reset);
    push_line(&mut out, &l);
    push_empty(&mut out);
    if lock.changed.len() > 0 {
        let ghost names = lock_names(lock.changed@);
        let mut w: usize = 0;
        let mut i: usize = 0;
        while i < lock.changed.len()
            invariant
                i <= lock.changed.len(),
                names == lock_names(lock.changed@),
                w == max_len(names.take(i as int)),
            decreases lock.changed.len() - i,
        {
            assert(names.take(i + 1).drop_last() =~= names.take(i as int));
            let n = chars_of(lock.changed[i].0.as_str()).len();
            if n > w {
                w = n;
            }
            i += 1;
        }
        assert(names.take(lock.changed.len() as int) =~= names);
        push_line(&mut out, &heading(s.yellow, "Changed", lock.changed.len(), s.reset));
        let ghost base = sviews(out@);
        let mut i: usize = 0;
        assert(sviews(out@) =~= base + lock_changed_block(*s, lock.changed@.take(0), w as int, lock.via@));
        while i < lock.changed.len()
            invariant
                i <= lock.changed.len(),
                sviews(out@) == base + lock_changed_block(*s, lock.changed@.take(i as int), w as int, lock.via@),
            decreases lock.changed.len() - i,
        {
            assert(lock.changed@.take(i + 1).drop_last() =~= lock.changed@.take(i as int));
            let c = &lock.changed[i];
            let mut line = chars_of("    ");
            push_str_chars(&mut line, s.yellow);
            push_pad(&mut line, c.0.as_str(), w);
            push_str_chars(&mut line, "  ");
            push_str_chars(&mut line, c.1.as_str());
            push_str_chars(&mut line, " -> ");
            push_str_chars(&mut line, c.2.as_str());
            push_str_chars(&mut line, s.reset);
            crate::text::extend_chars(&mut line, &via_suffix_exec(s, &lock.via, c.0.as_str()));
            push_line(&mut out, &line);
            i += 1;
        }
        assert(lock.changed@.take(lock.changed.len() as int) =~= lock.changed@);
        push_empty(&mut out);
    }
    if lock.added.len() > 0 {
        push_line(&mut out, &heading(s.green, "Added", lock.added.len(), s.reset));
        let ghost base = sviews(out@);
        let mut i: usize = 0;
        assert(sviews(out@) =~= base + lock_added_block(*s, lock.added@.take(0), lock.via@));
        while i < lock.added.len()
            invariant
                i <= lock.added.len(),
                sviews(out@) == base + lock_added_block(*s, lock.added@.take(i as int), lock.via@),
            decreases lock.added.len() - i,
        {
            assert(lock.added@.take(i + 1).drop_last() =~= lock.added@.take(i as int));
            let c = &lock.added[i];
            let mut line = chars_of("    ");
            push_str_chars(&mut line, s.green);
            push_str_chars(&mut line, "+ ");
            push_str_chars(&mut line, c.0.as_str());
            push_str_chars(&mut line, " ");
            push_str_chars(&mut line, c.1.as_str());
            push_str_chars(&mut line, s.reset);
            crate::text::extend_chars(&mut line, &via_suffix_exec(s, &lock.via, c.0.as_str()));
            push_line(&mut out, &line);
            i += 1;
        }
        assert(lock.added@.take(lock.added.len() as int) =~= lock.added@);
        push_empty(&mut out);
    }
    if lock.removed.len() > 0 {
        push_line(&mut out, &heading(s.red, "Removed", lock.removed.len(), s.reset));
        let ghost base = sviews(out@);
        let mut i: usize = 0;
        assert(sviews(out@) =~= base + lock_removed_block(*s, lock.removed@.take(0)));
        while i < lock.removed.len()
            invariant
                i <= lock.removed.len(),
                sviews(out@) == base + lock_removed_block(*s, lock.removed@.take(i as int)),
            decreases lock.removed.len() - i,
        {
            assert(lock.removed@.take(i + 1).drop_last() =~= lock.removed@.take(i as int));
            let c = &lock.removed[i];
            let mut line = chars_of("    ");
            push_str_chars(&mut line, s.red);
            push_str_chars(&mut line, "- ");
            push_str_chars(&mut line, c.0.as_str());
            push_str_chars(&mut line, " ");
            push_str_chars(&mut line, c.1.as_str());
            push_str_chars(&mut line, s.reset);
            push_line(&mut out, &line);
            i += 1;
        }
        assert(lock.removed@.take(lock.removed.len() as int) =~= lock.removed@);
        push_empty(&mut out);
    }
    assert(sviews(out@) =~= lock_lines(*s, *lock));
    out
}


/// The first line of an error's stderr, or a generic message where it has none.
pub open spec fn first_stderr_line(stderr: Seq<char>) -> Seq<char> {
    if lines(stderr).len() > 0 && lines(stderr)[0].len() > 0 {
        lines(stderr)[0]
    } else {
        "cargo public-api failed"@
    }
}

/// A crate's row in the API table: its error, or its removed, changed and added counts
/// (tagged additive when nothing was removed or changed); none for an unchanged crate.
pub open spec fn api_row(s: Style, c: CrateResult, width: int) -> Option<Seq<char>> {
    if c.status == CrateStatus::Error {
        match c.error {
            Some(e) => Some(
                "  "@ + pad(c.name@, width) + " "@ + s.red@ + "error"@ + s.reset@ + ": "@
                    + e.stage.spec_str() + s.dim@ + " ("@ + first_stderr_line(e.stderr@) + ")"@
                    + s.reset@,
            ),
            None => None,
        }
    } else if c.removed > 0 || c.changed > 0 || c.added > 0 {
        Some(
            "  "@ + pad(c.name@, width) + " "@ + s.red@ + "-"@ + decimal(c.removed as nat)
                + s.reset@ + "  "@ + s.yellow@ + "~"@ + decimal(c.changed as nat) + s.reset@
                + "  "@ + s.green@ + "+"@ + decimal(c.added as nat) + s.reset@ + (if c.removed == 0
                && c.changed == 0 {
                " "@ + s.dim@ + "(additive)"@ + s.reset@
            } else {
                Seq::empty()
            }),
        )
    } else {
        None
    }
}

/// The rows of the API table.
pub open spec fn api_row_block(s: Style, cs: Seq<CrateResult>, width: int) -> Seq<Seq<char>>
    decreases cs.len(),
{
    if cs.len() == 0 {
        Seq::empty()
    } else {
        api_row_block(s, cs.drop_last(), width) + match api_row(s, cs.last(), width) {
            Some(r) => seq![r],
            None => Seq::empty(),
        }
    }
}

/// The names of crates.
pub open spec fn crate_names(cs: Seq<CrateResult>) -> Seq<Seq<char>> {
    cs.map_values(|c: CrateResult| c.name@)
}

/// The API table's name column: as wide as the longest name, at least 16.
pub open spec fn name_width(cs: Seq<CrateResult>) -> int {
    if max_len(crate_names(cs)) > 16 {
        max_len(crate_names(cs))
    } else {
        16
    }
}

/// The API table: a heading, a blank line and a row per changed or failed crate; nothing
/// if there is no row.
pub open spec fn api_lines(s: Style, cs: Seq<CrateResult>) -> Seq<Seq<char>> {
    let rows = api_row_block(s, cs, name_width(cs));
    if rows.len() > 0 {
        seq![s.bold@ + "Public API changes"@ + s.reset@, Seq::empty()] + rows
    } else {
        Seq::empty()
    }
}

fn api_row_exec(s: &Style, c: &CrateResult, width: usize) -> (r: Option<Vec<char>>)
    ensures
        match r {
            Some(l) => api_row(*s, *c, width as int) == Some(l@),
            None => api_row(*s, *c, width as int) is None,
        },
{
    if c.status == CrateStatus::Error {
        match &c.error {
            Some(e) => {
                let ls = crate::text::lines_chars(&chars_of(e.stderr.as_str()));
                let first = if ls.len() > 0 && ls[0].len() > 0 {
                    crate::text::copy_chars(&ls[0])
                } else {
                    chars_of("cargo public-api failed")
                };
                let mut l = chars_of("  ");
                push_pad(&mut l, c.name.as_str(), width);
                push_str_chars(&mut l, " ");
                push_str_chars(&mut l, s.red);
                push_str_chars(&mut l, "error");
                push_str_chars(&mut l, s.reset);
                push_str_chars(&mut l, ": ");
                push_str_chars(&mut l, e.stage.as_str());
                push_str_chars(&mut l, s.dim);
                push_str_chars(&mut l, " (");
                crate::text::extend_chars(&mut l, &first);
                push_str_chars(&mut l, ")");
                push_str_chars(&mut l, s.reset);
                Some(l)
            },
            None => None,
        }
    } else if c.removed > 0 || c.changed > 0 || c.added > 0 {
        let mut l = chars_of("  ");
        push_pad(&mut l, c.name.as_str(), width);
        push_str_chars(&mut l, " ");
        push_str_chars(&mut l, s.red);
        push_str_chars(&mut l, "-");
        push_decimal(&mut l, c.removed);
        push_str_chars(&mut l, s.reset);
        push_str_chars(&mut l, "  ");
        push_str_chars(&mut l, s.yellow);
        push_str_chars(&mut l, "~");
        push_decimal(&mut l, c.changed);
        push_str_chars(&mut l, s.reset);
        push_str_chars(&mut l, "  ");
        push_str_chars(&mut l, s.green);
        push_str_chars(&mut l, "+");
        push_decimal(&mut l, c.added);
        push_str_chars(&mut l, s.reset);
        let ghost before_tag = l@;
        if c.removed == 0 && c.changed == 0 {
            push_str_chars(&mut l, " ");
            push_str_chars(&mut l, s.dim);
            push_str_chars(&mut l, "(additive)");
            push_str_chars(&mut l, s.reset);
        }
        assert(api_row(*s, *c, width as int) == Some(l@));
        Some(l)
    } else {
        None
    }
}

/// The API table of the crates.
pub fn api_rows(s: &Style, crates: &Vec<CrateResult>) -> (r: Vec<String>)
    ensures
        sviews(r@) == api_lines(*s, crates@),
{
    let ghost names = crate_names(crates@);
    let mut w: usize = 0;
    let mut i: usize = 0;
    while i < crates.len()
        invariant
            i <= crates.len(),
            names == crate_names(crates@),
            w == max_len(names.take(i as int)),
        decreases crates.len() - i,
    {
        assert(names.take(i + 1).drop_last() =~= names.take(i as int));
        let n = chars_of(crates[i].name.as_str()).len();
        if n > w {
            w = n;
        }
        i += 1;
    }
    assert(names.take(crates.len() as int) =~= names);
    let width: usize = if w > 16 { w } else { 16 };
    let mut rows: Vec<String> = Vec::new();
    let mut j: usize = 0;
    assert(sviews(rows@) =~= api_row_block(*s, crates@.take(0), width as int));
    while j < crates.len()
        invariant
            j <= crates.len(),
            sviews(rows@) == api_row_block(*s, crates@.take(j as int), width as int),
        decreases crates.len() - j,
    {
        assert(crates@.take(j + 1).drop_last() =~= crates@.take(j as int));
        assert(crates@.take(j + 1).last() == crates@[j as int]);
        match api_row_exec(s, &crates[j], width) {
            Some(l) => push_line(&mut rows, &l),
            None => {
                assert(sviews(rows@) =~= api_row_block(*s, crates@.take(j as int), width as int) + Seq::<Seq<char>>::empty());
            },
        }
        j += 1;
    }
    assert(crates@.take(crates.len() as int) =~= crates@);
    let mut out: Vec<String> = Vec::new();
    if rows.len() > 0 {
        let mut l = chars_of(s.bold);
        push_str_chars(&mut l, "Public API changes");
        push_str_chars(&mut l, s.reset);
        push_line(&mut out, &l);
        push_empty(&mut out);
        let ghost head = out@;
        out.append(&mut rows);
        assert(sviews(out@) =~= sviews(head) + api_row_block(*s, crates@, width as int));
    } else {
        assert(sviews(rows@).len() == 0);
    }
    assert(sviews(out@) =~= api_lines(*s, crates@));
    out
}

/// The summary line, after a blank line.
pub open spec fn summary_lines(s: Style, report: Report) -> Seq<Seq<char>> {
    seq![
        Seq::empty(),
        s.bold@ + "Summary"@ + s.reset@ + "  "@ + s.dim@ + "("@ + decimal(
            report.changed_crate_count as nat,
        ) + "/"@ + decimal(report.crate_count as nat) + " crates with changes)"@ + s.reset@,
    ]
}

/// The summary line.
pub fn summary(s: &Style, report: &Report) -> (r: Vec<String>)
    ensures
        sviews(r@) == summary_lines(*s, *report),
{
    let mut out: Vec<String> = Vec::new();
    push_empty(&mut out);
    let mut l = chars_of(s.bold);
    push_str_chars(&mut l, "Summary");
    push_str_chars(&mut l, s.reset);
    push_str_chars(&mut l, "  ");
    push_str_chars(&mut l, s.dim);
    push_str_chars(&mut l, "(");
    push_decimal(&mut l, report.changed_crate_count);
    push_str_chars(&mut l, "/");
    push_decimal(&mut l, report.crate_count);
    push_str_chars(&mut l, " crates with changes)");
    push_str_chars(&mut l, s.reset);
    push_line(&mut out, &l);
    assert(sviews(out@) =~= summary_lines(*s, *report));
    out
}


/// The crate a list entry belongs to comes after another crate's entries (or first, unless
/// its name is empty), so the crate's name heads it.
pub open spec fn new_crate(names: Seq<Seq<char>>, i: int) -> bool {
    if i == 0 {
        names[0] != Seq::<char>::empty()
    } else {
        names[i] != names[i - 1]
    }
}

/// The crate heading: a blank line and the bold name.
pub open spec fn crate_heading(s: Style, name: Seq<char>) -> Seq<Seq<char>> {
    seq![Seq::empty(), "  "@ + s.bold@ + name + s.reset@]
}

/// The lines of one value change.
pub open spec fn value_entry(s: Style, c: ValueChange) -> Seq<Seq<char>> {
    seq![
        "    "@ + s.yellow@ + "~ "@ + c.path@ + ": "@ + c.ty@ + s.reset@,
        "        "@ + s.red@ + c.old@ + s.reset@ + " "@ + s.dim@ + "->"@ + s.reset@ + " "@ + s.green@
            + c.new@ + s.reset@,
    ]
}

/// The lines of one documentation change.
pub open spec fn doc_entry(s: Style, c: DocChange) -> Seq<Seq<char>> {
    seq!["    "@ + s.yellow@ + "~ "@ + c.path@ + s.reset@ + s.dim@ + " (doc text changed)"@ + s.reset@]
}

/// The crates of value changes.
pub open spec fn value_crates(v: Seq<ValueChange>) -> Seq<Seq<char>> {
    v.map_values(|c: ValueChange| c.crate_name@)
}

/// The crates of documentation changes.
pub open spec fn doc_crates(v: Seq<DocChange>) -> Seq<Seq<char>> {
    v.map_values(|c: DocChange| c.crate_name@)
}

/// The value changes of the first `n` entries, grouped under crate headings.
pub open spec fn value_block(s: Style, v: Seq<ValueChange>, n: int) -> Seq<Seq<char>>
    decreases n,
{
    if n <= 0 {
        Seq::empty()
    } else {
        value_block(s, v, n - 1) + (if new_crate(value_crates(v), n - 1) {
            crate_heading(s, v[n - 1].crate_name@)
        } else {
            Seq::empty()
        }) + value_entry(s, v[n - 1])
    }
}

/// The documentation changes of the first `n` entries, grouped under crate headings.
pub open spec fn doc_block(s: Style, v: Seq<DocChange>, n: int) -> Seq<Seq<char>>
    decreases n,
{
    if n <= 0 {
        Seq::empty()
    } else {
        doc_block(s, v, n - 1) + (if new_crate(doc_crates(v), n - 1) {
            crate_heading(s, v[n - 1].crate_name@)
        } else {
            Seq::empty()
        }) + doc_entry(s, v[n - 1])
    }
}

/// The value and documentation sections, each with a heading and its entries by crate;
/// a section without entries is left out.
pub open spec fn values_lines(s: Style, report: Report) -> Seq<Seq<char>> {
    let v = report.values@;
    let d = report.docs@;
    (if v.len() > 0 {
        seq![
            Seq::empty(),
            s.bold@ + "Value changes ("@ + decimal(v.len()) + ")"@ + s.reset@ + s.dim@
                + " — const/static values; cargo-public-api can't see these"@ + s.reset@,
        ] + value_block(s, v, v.len() as int)
    } else {
        Seq::empty()
    }) + (if d.len() > 0 {
        seq![
            Seq::empty(),
            s.bold@ + "Doc changes ("@ + decimal(d.len()) + ")"@ + s.reset@ + s.dim@
                + " — public doc-comment text changed"@ + s.reset@,
        ] + doc_block(s, d, d.len() as int)
    } else {
        Seq::empty()
    })
}

fn push_crate_heading(out: &mut Vec<String>, s: &Style, name: &str)
    ensures
        sviews(final(out)@) == sviews(old(out)@) + crate_heading(*s, name@),
{
    push_empty(out);
    let mut l = chars_of("  ");
    push_str_chars(&mut l, s.bold);
    push_str_chars(&mut l, name);
    push_str_chars(&mut l, s.reset);
    push_line(out, &l);
    assert(sviews(out@) =~= sviews(old(out)@) + crate_heading(*s, name@));
}

/// The value and documentation sections.
pub fn values_section(s: &Style, report: &Report) -> (r: Vec<String>)
    ensures
        sviews(r@) == values_lines(*s, *report),
{
    let mut out: Vec<String> = Vec::new();
    let v = &report.values;
    let d = &report.docs;
    if v.len() > 0 {
        push_empty(&mut out);
        let mut l = chars_of(s.bold);
        push_str_chars(&mut l, "Value changes (");
        push_decimal(&mut l, v.len());
        push_str_chars(&mut l, ")");
        push_str_chars(&mut l, s.reset);
        push_str_chars(&mut l, s.dim);
        push_str_chars(&mut l, " — const/static values; cargo-public-api can't see these");
        push_str_chars(&mut l, s.reset);
        push_line(&mut out, &l);
        let ghost base = sviews(out@);
        let mut i: usize = 0;
        assert(sviews(out@) =~= base + value_block(*s, v@, 0));
        while i < v.len()
            invariant
                i <= v.len(),
                v == report.values,
                sviews(out@) == base + value_block(*s, v@, i as int),
            decreases v.len() - i,
        {
            let ghost mid = sviews(out@);
            let fresh = if i == 0 {
                chars_of(v[0].crate_name.as_str()).len() > 0
            } else {
                !str_eq(v[i].crate_name.as_str(), v[i - 1].crate_name.as_str())
            };
            proof {
                if i == 0 {
                    assert(value_crates(v@)[0] == v@[0].crate_name@);
                    if v@[0].crate_name@.len() == 0 {
                        assert(v@[0].crate_name@ =~= Seq::<char>::empty());
                    }
                } else {
                    assert(value_crates(v@)[i as int] == v@[i as int].crate_name@);
                    assert(value_crates(v@)[i - 1] == v@[i - 1].crate_name@);
                }
            }
            assert(fresh == new_crate(value_crates(v@), i as int));
            if fresh {
                push_crate_heading(&mut out, s, v[i].crate_name.as_str());
            } else {
                assert(sviews(out@) =~= sviews(out@) + Seq::<Seq<char>>::empty());
            }
            let ghost after_heading = sviews(out@);
            let c = &v[i];
            let mut a = chars_of("    ");
            push_str_chars(&mut a, s.yellow);
            push_str_chars(&mut a, "~ ");
            push_str_chars(&mut a, c.path.as_str());
            push_str_chars(&mut a, ": ");
            push_str_chars(&mut a, c.ty.as_str());
            push_str_chars(&mut a, s.reset);
            push_line(&mut out, &a);
            let mut b = chars_of("        ");
            push_str_chars(&mut b, s.red);
            push_str_chars(&mut b, c.old.as_str());
            push_str_chars(&mut b, s.reset);
            push_str_chars(&mut b, " ");
            push_str_chars(&mut b, s.dim);
            push_str_chars(&mut b, "->");
            push_str_chars(&mut b, s.reset);
            push_str_chars(&mut b, " ");
            push_str_chars(&mut b, s.green);
            push_str_chars(&mut b, c.new.as_str());
            push_str_chars(&mut b, s.reset);
            push_line(&mut out, &b);
            assert(sviews(out@) =~= after_heading + value_entry(*s, v@[i as int]));
            assert(sviews(out@) =~= base + value_block(*s, v@, i + 1));
            i += 1;
        }
    }
    let ghost after_values = sviews(out@);
    if d.len() > 0 {
        push_empty(&mut out);
        let mut l = chars_of(s.bold);
        push_str_chars(&mut l, "Doc changes (");
        push_decimal(&mut l, d.len());
        push_str_chars(&mut l, ")");
        push_str_chars(&mut l, s.reset);
        push_str_chars(&mut l, s.dim);
        push_str_chars(&mut l, " — public doc-comment text changed");
        push_str_chars(&mut l, s.reset);
        push_line(&mut out, &l);
        let ghost base = sviews(out@);
        let mut i: usize = 0;
        assert(sviews(out@) =~= base + doc_block(*s, d@, 0));
        while i < d.len()
            invariant
                i <= d.len(),
                d == report.docs,
                sviews(out@) == base + doc_block(*s, d@, i as int),
            decreases d.len() - i,
        {
            let fresh = if i == 0 {
                chars_of(d[0].crate_name.as_str()).len() > 0
            } else {
                !str_eq(d[i].crate_name.as_str(), d[i - 1].crate_name.as_str())
            };
            proof {
                if i == 0 {
                    assert(doc_crates(d@)[0] == d@[0].crate_name@);
                    if d@[0].crate_name@.len() == 0 {
                        assert(d@[0].crate_name@ =~= Seq::<char>::empty());
                    }
                } else {
                    assert(doc_crates(d@)[i as int] == d@[i as int].crate_name@);
                    assert(doc_crates(d@)[i - 1] == d@[i - 1].crate_name@);
                }
            }
            assert(fresh == new_crate(doc_crates(d@), i as int));
            if fresh {
                push_crate_heading(&mut out, s, d[i].crate_name.as_str());
            } else {
                assert(sviews(out@) =~= sviews(out@) + Seq::<Seq<char>>::empty());
            }
            let ghost after_heading = sviews(out@);
            let mut a = chars_of("    ");
            push_str_chars(&mut a, s.yellow);
            push_str_chars(&mut a, "~ ");
            push_str_chars(&mut a, d[i].path.as_str());
            push_str_chars(&mut a, s.reset);
            push_str_chars(&mut a, s.dim);
            push_str_chars(&mut a, " (doc text changed)");
            push_str_chars(&mut a, s.reset);
            push_line(&mut out, &a);
            assert(sviews(out@) =~= after_heading + doc_entry(*s, d@[i as int]));
            assert(sviews(out@) =~= base + doc_block(*s, d@, i + 1));
            i += 1;
        }
    }
    assert(sviews(out@) =~= values_lines(*s, *report));
    out
}


/// A public-dependency finding's line: red and called incompatible for a major bump, yellow
/// and called unclear otherwise.
pub open spec fn finding_line(s: Style, f: PubdepFinding) -> Seq<char> {
    let major = spec_classify_bump(f.old@, f.new@) == Bump::Major;
    let color = if major {
        s.red@
    } else {
        s.yellow@
    };
    "    "@ + color + f.dep@ + s.reset@ + s.dim@ + ": "@ + s.reset@ + color + f.old@ + s.reset@ + " "@
        + s.dim@ + "->"@ + s.reset@ + " "@ + s.green@ + f.new@ + s.reset@ + s.dim@ + (if major {
        " (incompatible; reachable in public API)"@
    } else {
        " (compatibility unclear; reachable in public API)"@
    }) + s.reset@
}

/// The findings' lines.
pub open spec fn finding_block(s: Style, fs: Seq<PubdepFinding>) -> Seq<Seq<char>>
    decreases fs.len(),
{
    if fs.len() == 0 {
        Seq::empty()
    } else {
        finding_block(s, fs.drop_last()).push(finding_line(s, fs.last()))
    }
}

/// The crates with findings, each under its heading.
pub open spec fn pubdep_block(s: Style, cs: Seq<CrateResult>) -> Seq<Seq<char>>
    decreases cs.len(),
{
    if cs.len() == 0 {
        Seq::empty()
    } else {
        pubdep_block(s, cs.drop_last()) + if cs.last().pubdep@.len() > 0 {
            crate_heading(s, cs.last().name@) + finding_block(s, cs.last().pubdep@)
        } else {
            Seq::empty()
        }
    }
}

/// The public-dependency section: the totals and each crate's findings; nothing if there
/// is no finding to report.
pub open spec fn pubdep_lines(s: Style, report: Report) -> Seq<Seq<char>> {
    if report.pubdep_break_total == 0 && report.pubdep_review_total == 0 {
        Seq::empty()
    } else {
        seq![
            Seq::empty(),
            s.bold@ + "Public-dependency changes ("@ + decimal(report.pubdep_break_total as nat)
                + " breaking, "@ + decimal(report.pubdep_review_total as nat) + " to review)"@
                + s.reset@ + s.dim@
                + " — public API exposes a changed dependency; cargo-public-api can't see these"@
                + s.reset@,
        ] + pubdep_block(s, report.crates@)
    }
}

fn finding_line_exec(s: &Style, f: &PubdepFinding) -> (r: Vec<char>)
    ensures
        r@ == finding_line(*s, *f),
{
    let major = match classify_bump(f.old.as_str(), f.new.as_str()) {
        Bump::Major => true,
        _ => false,
    };
    let color = if major { s.red } else { s.yellow };
    let mut l = chars_of("    ");
    push_str_chars(&mut l, color);
    push_str_chars(&mut l, f.dep.as_str());
    push_str_chars(&mut l, s.reset);
    push_str_chars(&mut l, s.dim);
    push_str_chars(&mut l, ": ");
    push_str_chars(&mut l, s.reset);
    push_str_chars(&mut l, color);
    push_str_chars(&mut l, f.old.as_str());
    push_str_chars(&mut l, s.reset);
    push_str_chars(&mut l, " ");
    push_str_chars(&mut l, s.dim);
    push_str_chars(&mut l, "->");
    push_str_chars(&mut l, s.reset);
    push_str_chars(&mut l, " ");
    push_str_chars(&mut l, s.green);
    push_str_chars(&mut l, f.new.as_str());
    push_str_chars(&mut l, s.reset);
    push_str_chars(&mut l, s.dim);
    if major {
        push_str_chars(&mut l, " (incompatible; reachable in public API)");
    } else {
        push_str_chars(&mut l, " (compatibility unclear; reachable in public API)");
    }
    push_str_chars(&mut l, s.reset);
    l
}

/// The public-dependency section.
pub fn pubdep_section(s: &Style, report: &Report) -> (r: Vec<String>)
    ensures
        sviews(r@) == pubdep_lines(*s, *report),
{
    let mut out: Vec<String> = Vec::new();
    if report.pubdep_break_total == 0 && report.pubdep_review_total == 0 {
        assert(sviews(out@) =~= pubdep_lines(*s, *report));
        return out;
    }
    push_empty(&mut out);
    let mut l = chars_of(s.bold);
    push_str_chars(&mut l, "Public-dependency changes (");
    push_decimal(&mut l, report.pubdep_break_total);
    push_str_chars(&mut l, " breaking, ");
    push_decimal(&mut l, report.pubdep_review_total);
    push_str_chars(&mut l, " to review)");
    push_str_chars(&mut l, s.reset);
    push_str_chars(&mut l, s.dim);
    push_str_chars(&mut l, " — public API exposes a changed dependency; cargo-public-api can't see these");
    push_str_chars(&mut l, s.reset);
    push_line(&mut out, &l);
    let ghost base = sviews(out@);
    let cs = &report.crates;
    let mut i: usize = 0;
    assert(sviews(out@) =~= base + pubdep_block(*s, cs@.take(0)));
    while i < cs.len()
        invariant
            i <= cs.len(),
            cs == report.crates,
            sviews(out@) == base + pubdep_block(*s, cs@.take(i as int)),
        decreases cs.len() - i,
    {
        assert(cs@.take(i + 1).drop_last() =~= cs@.take(i as int));
        assert(cs@.take(i + 1).last() == cs@[i as int]);
        let c = &cs[i];
        if c.pubdep.len() > 0 {
            push_crate_heading(&mut out, s, c.name.as_str());
            let ghost mid = sviews(out@);
            let mut j: usize = 0;
            assert(sviews(out@) =~= mid + finding_block(*s, c.pubdep@.take(0)));
            while j < c.pubdep.len()
                invariant
                    j <= c.pubdep.len(),
                    sviews(out@) == mid + finding_block(*s, c.pubdep@.take(j as int)),
                decreases c.pubdep.len() - j,
            {
                assert(c.pubdep@.take(j + 1).drop_last() =~= c.pubdep@.take(j as int));
                assert(c.pubdep@.take(j + 1).last() == c.pubdep@[j as int]);
                push_line(&mut out, &finding_line_exec(s, &c.pubdep[j]));
                j += 1;
            }
            assert(c.pubdep@.take(c.pubdep.len() as int) =~= c.pubdep@);
        } else {
            assert(sviews(out@) =~= base + pubdep_block(*s, cs@.take(i as int)) + Seq::<Seq<char>>::empty());
        }
        assert(sviews(out@) =~= base + pubdep_block(*s, cs@.take(i + 1)));
        i += 1;
    }
    assert(cs@.take(cs.len() as int) =~= cs@);
    out
}

/// The parts of a breaking result, API, runtime-dependency, value and public-dependency
/// breaks, each where there is one.
pub open spec fn verdict_parts(report: Report) -> Seq<Seq<char>> {
    (if report.removed_total > 0 || report.changed_total > 0 {
        seq!["api: "@ + decimal(report.removed_total as nat) + " removed / "@ + decimal(
            report.changed_total as nat,
        ) + " changed"@]
    } else {
        Seq::empty()
    }) + (if report.deps.breaking > 0 {
        seq!["runtime-deps: "@ + decimal(report.deps.breaking as nat) + " breaking"@]
    } else {
        Seq::empty()
    }) + (if report.values@.len() > 0 {
        seq!["values: "@ + decimal(report.values@.len()) + " changed"@]
    } else {
        Seq::empty()
    }) + (if report.pubdep_break_total > 0 {
        seq!["public-dep: "@ + decimal(report.pubdep_break_total as nat) + " breaking"@]
    } else {
        Seq::empty()
    })
}

/// The note on documentation changes, if any.
pub open spec fn docs_note(s: Style, report: Report) -> Seq<Seq<char>> {
    if report.docs@.len() > 0 {
        seq![s.dim@ + "(also "@ + decimal(report.docs@.len()) + " public doc-comment change(s))"@ + s.reset@]
    } else {
        Seq::empty()
    }
}

/// The closing lines, what breaks with notes on additive and documentation changes; or that
/// nothing breaks.
pub open spec fn verdict_lines(s: Style, report: Report) -> Seq<Seq<char>> {
    if report.spec_any_breaking() {
        seq![s.red@ + s.bold@ + "BREAKING"@ + s.reset@ + s.red@ + ": "@ + crate::text::join(
            verdict_parts(report),
            "; "@,
        ) + "."@ + s.reset@] + (if report.added_total > 0 {
            seq![s.dim@ + "(also "@ + decimal(report.added_total as nat) + " new API items, additive only)"@ + s.reset@]
        } else {
            Seq::empty()
        }) + docs_note(s, report)
    } else {
        (if report.added_total > 0 {
            seq![s.green@ + "OK: "@ + decimal(report.added_total as nat) + " new API items, no breaking changes."@ + s.reset@]
        } else {
            seq![s.green@ + "OK: no breaking changes."@ + s.reset@]
        }) + docs_note(s, report)
    }
}

fn docs_note_exec(out: &mut Vec<String>, s: &Style, report: &Report)
    ensures
        sviews(final(out)@) == sviews(old(out)@) + docs_note(*s, *report),
{
    if report.docs.len() > 0 {
        let mut l = chars_of(s.dim);
        push_str_chars(&mut l, "(also ");
        push_decimal(&mut l, report.docs.len());
        push_str_chars(&mut l, " public doc-comment change(s))");
        push_str_chars(&mut l, s.reset);
        push_line(out, &l);
    }
    assert(sviews(out@) =~= sviews(old(out)@) + docs_note(*s, *report));
}

fn verdict_parts_exec(report: &Report) -> (r: Vec<String>)
    ensures
        sviews(r@) == verdict_parts(*report),
{
    let mut parts: Vec<String> = Vec::new();
    if report.removed_total > 0 || report.changed_total > 0 {
        let mut l = chars_of("api: ");
        push_decimal(&mut l, report.removed_total);
        push_str_chars(&mut l, " removed / ");
        push_decimal(&mut l, report.changed_total);
        push_str_chars(&mut l, " changed");
        push_line(&mut parts, &l);
    }
    let ghost a = sviews(parts@);
    if report.deps.breaking > 0 {
        let mut l = chars_of("runtime-deps: ");
        push_decimal(&mut l, report.deps.breaking);
        push_str_chars(&mut l, " breaking");
        push_line(&mut parts, &l);
    }
    let ghost b = sviews(parts@);
    if report.values.len() > 0 {
        let mut l = chars_of("values: ");
        push_decimal(&mut l, report.values.len());
        push_str_chars(&mut l, " changed");
        push_line(&mut parts, &l);
    }
    let ghost c = sviews(parts@);
    if report.pubdep_break_total > 0 {
        let mut l = chars_of("public-dep: ");
        push_decimal(&mut l, report.pubdep_break_total);
        push_str_chars(&mut l, " breaking");
        push_line(&mut parts, &l);
    }
    assert(sviews(parts@) =~= verdict_parts(*report));
    parts
}

/// The verdict lines.
pub fn verdict(s: &Style, report: &Report) -> (r: Vec<String>)
    ensures
        sviews(r@) == verdict_lines(*s, *report),
{
    let mut out: Vec<String> = Vec::new();
    if report.any_breaking() {
        let parts = verdict_parts_exec(report);
        let joined = crate::text::join_strings(&parts, "; ");
        assert(parts@.map_values(|p: String| p@) =~= sviews(parts@));
        let mut l = chars_of(s.red);
        push_str_chars(&mut l, s.bold);
        push_str_chars(&mut l, "BREAKING");
        push_str_chars(&mut l, s.reset);
        push_str_chars(&mut l, s.red);
        push_str_chars(&mut l, ": ");
        push_str_chars(&mut l, joined.as_str());
        push_str_chars(&mut l, ".");
        push_str_chars(&mut l, s.reset);
        push_line(&mut out, &l);
        if report.added_total > 0 {
            let mut a = chars_of(s.dim);
            push_str_chars(&mut a, "(also ");
            push_decimal(&mut a, report.added_total);
            push_str_chars(&mut a, " new API items, additive only)");
            push_str_chars(&mut a, s.reset);
            push_line(&mut out, &a);
        }
        let ghost mid = sviews(out@);
        docs_note_exec(&mut out, s, report);
    } else {
        if report.added_total > 0 {
            let mut a = chars_of(s.green);
            push_str_chars(&mut a, "OK: ");
            push_decimal(&mut a, report.added_total);
            push_str_chars(&mut a, " new API items, no breaking changes.");
            push_str_chars(&mut a, s.reset);
            push_line(&mut out, &a);
        } else {
            let mut a = chars_of(s.green);
            push_str_chars(&mut a, "OK: no breaking changes.");
            push_str_chars(&mut a, s.reset);
            push_line(&mut out, &a);
        }
        let ghost mid = sviews(out@);
        docs_note_exec(&mut out, s, report);
    }
    assert(sviews(out@) =~= verdict_lines(*s, *report));
    out
}

/// The lines of a failed crate: its stage, ref, command, hint and stderr.
pub open spec fn error_block(s: Style, name: Seq<char>, e: ApiError) -> Seq<Seq<char>> {
    seq![
        Seq::empty(),
        "  "@ + s.bold@ + name + s.reset@,
        "    stage: "@ + e.stage.spec_str(),
        "    ref: "@ + e.ref_label@ + " ("@ + e.ref_sha@ + ")"@,
        "    command: "@ + e.command@,
        "    hint: "@ + e.hint@,
        "    stderr:"@,
    ] + (if e.stderr@.len() == 0 {
        seq!["      "@]
    } else {
        lines(e.stderr@).map_values(|l: Seq<char>| "      "@ + l)
    })
}

/// The failed crates' blocks.
pub open spec fn errors_block(s: Style, cs: Seq<CrateResult>) -> Seq<Seq<char>>
    decreases cs.len(),
{
    if cs.len() == 0 {
        Seq::empty()
    } else {
        errors_block(s, cs.drop_last()) + if cs.last().status == CrateStatus::Error {
            match cs.last().error {
                Some(e) => error_block(s, cs.last().name@, e),
                None => Seq::empty(),
            }
        } else {
            Seq::empty()
        }
    }
}

/// The analysis errors (printed on stderr): the count, then each failed crate's details.
pub open spec fn api_error_lines(s: Style, report: Report) -> Seq<Seq<char>> {
    seq![s.red@ + s.bold@ + "ERROR"@ + s.reset@ + s.red@ + ": cargo-public-api failed for "@
        + decimal(report.error_crate_count as nat) + " crate(s)."@ + s.reset@] + errors_block(
        s,
        report.crates@,
    )
}

fn error_block_exec(out: &mut Vec<String>, s: &Style, name: &str, e: &ApiError)
    ensures
        sviews(final(out)@) == sviews(old(out)@) + error_block(*s, name@, *e),
{
    push_empty(out);
    let mut l = chars_of("  ");
    push_str_chars(&mut l, s.bold);
    push_str_chars(&mut l, name);
    push_str_chars(&mut l, s.reset);
    push_line(out, &l);
    let mut a = chars_of("    stage: ");
    push_str_chars(&mut a, e.stage.as_str());
    push_line(out, &a);
    let mut b = chars_of("    ref: ");
    push_str_chars(&mut b, e.ref_label.as_str());
    push_str_chars(&mut b, " (");
    push_str_chars(&mut b, e.ref_sha.as_str());
    push_str_chars(&mut b, ")");
    push_line(out, &b);
    let mut c = chars_of("    command: ");
    push_str_chars(&mut c, e.command.as_str());
    push_line(out, &c);
    let mut d = chars_of("    hint: ");
    push_str_chars(&mut d, e.hint.as_str());
    push_line(out, &d);
    push_line(out, &chars_of("    stderr:"));
    let ghost head = sviews(out@);
    let sc = chars_of(e.stderr.as_str());
    if sc.len() == 0 {
        push_line(out, &chars_of("      "));
    } else {
        let ls = crate::text::lines_chars(&sc);
        let ghost lv = lines(e.stderr@);
        let mut i: usize = 0;
        while i < ls.len()
            invariant
                i <= ls.len(),
                ls@.len() == lv.len(),
                forall|k: int| 0 <= k < ls@.len() ==> #[trigger] ls@[k]@ == lv[k],
                sviews(out@) == head + lv.take(i as int).map_values(|l: Seq<char>| "      "@ + l),
            decreases ls.len() - i,
        {
            let mut x = chars_of("      ");
            crate::text::extend_chars(&mut x, &ls[i]);
            push_line(out, &x);
            assert(lv.take(i + 1).map_values(|l: Seq<char>| "      "@ + l) =~= lv.take(i as int).map_values(
                |l: Seq<char>| "      "@ + l,
            ).push("      "@ + lv[i as int]));
            i += 1;
        }
        assert(lv.take(ls.len() as int) =~= lv);
    }
    assert(sviews(out@) =~= sviews(old(out)@) + error_block(*s, name@, *e));
}

/// The analysis errors.
pub fn api_errors(s: &Style, report: &Report) -> (r: Vec<String>)
    ensures
        sviews(r@) == api_error_lines(*s, *report),
{
    let mut out: Vec<String> = Vec::new();
    let mut l = chars_of(s.red);
    push_str_chars(&mut l, s.bold);
    push_str_chars(&mut l, "ERROR");
    push_str_chars(&mut l, s.reset);
    push_str_chars(&mut l, s.red);
    push_str_chars(&mut l, ": cargo-public-api failed for ");
    push_decimal(&mut l, report.error_crate_count);
    push_str_chars(&mut l, " crate(s).");
    push_str_chars(&mut l, s.reset);
    push_line(&mut out, &l);
    let ghost base = sviews(out@);
    let cs = &report.crates;
    let mut i: usize = 0;
    assert(sviews(out@) =~= base + errors_block(*s, cs@.take(0)));
    while i < cs.len()
        invariant
            i <= cs.len(),
            cs == report.crates,
            sviews(out@) == base + errors_block(*s, cs@.take(i as int)),
        decreases cs.len() - i,
    {
        assert(cs@.take(i + 1).drop_last() =~= cs@.take(i as int));
        assert(cs@.take(i + 1).last() == cs@[i as int]);
        let c = &cs[i];
        let ghost mid = sviews(out@);
        if c.status == CrateStatus::Error {
            match &c.error {
                Some(e) => error_block_exec(&mut out, s, c.name.as_str(), e),
                None => {},
            }
        }
        assert(sviews(out@) =~= base + errors_block(*s, cs@.take(i + 1)));
        i += 1;
    }
    assert(cs@.take(cs.len() as int) =~= cs@);
    out
}


/// A changed-section line: its old (`  - `) or new (`  + `) signature colored and marked,
/// or the text itself.
pub open spec fn changed_text(s: Style, t: Seq<char>) -> Seq<char> {
    if starts_with(t, "  - "@) {
        s.red@ + "- "@ + t.skip(4) + s.reset@
    } else if starts_with(t, "  + "@) {
        s.green@ + "+ "@ + t.skip(4) + s.reset@
    } else {
        t
    }
}

/// The lines of a terminal run with nothing to report: a blank line and the notice, then,
/// when a runtime dependency breaks, a blank line and that verdict.
pub open spec fn no_changes_lines(s: Style, report: Report) -> Seq<Seq<char>> {
    seq![Seq::empty(), "  "@ + s.green@ + "No public API changes."@ + s.reset@] + if report.deps.breaking
        > 0 {
        seq![
            Seq::empty(),
            s.red@ + s.bold@ + "BREAKING"@ + s.reset@ + s.red@ + ": runtime-deps: "@ + decimal(
                report.deps.breaking as nat,
            ) + " breaking."@ + s.reset@,
        ]
    } else {
        Seq::empty()
    }
}

/// The lines of a terminal run with nothing to report.
pub fn no_changes(s: &Style, report: &Report) -> (r: Vec<String>)
    ensures
        sviews(r@) == no_changes_lines(*s, *report),
{
    let mut out: Vec<String> = Vec::new();
    push_empty(&mut out);
    let mut l = chars_of("  ");
    push_str_chars(&mut l, s.green);
    push_str_chars(&mut l, "No public API changes.");
    push_str_chars(&mut l, s.reset);
    push_line(&mut out, &l);
    if report.deps.breaking > 0 {
        push_empty(&mut out);
        let mut b = chars_of(s.red);
        push_str_chars(&mut b, s.bold);
        push_str_chars(&mut b, "BREAKING");
        push_str_chars(&mut b, s.reset);
        push_str_chars(&mut b, s.red);
        push_str_chars(&mut b, ": runtime-deps: ");
        push_decimal(&mut b, report.deps.breaking);
        push_str_chars(&mut b, " breaking.");
        push_str_chars(&mut b, s.reset);
        push_line(&mut out, &b);
    }
    assert(sviews(out@) =~= no_changes_lines(*s, *report));
    out
}

/// An item colored and marked for its section.
pub open spec fn item_text(s: Style, t: Seq<char>, section: Section) -> Seq<char> {
    match section {
        Section::Removed => s.red@ + "- "@ + t + s.reset@,
        Section::Added => s.green@ + "+ "@ + t + s.reset@,
        Section::Changed => changed_text(s, t),
    }
}

/// The ungrouped lines of a section: each non-empty line indented and marked.
pub open spec fn flat_lines(s: Style, lines: Seq<Seq<char>>, section: Section) -> Seq<Seq<char>>
    decreases lines.len(),
{
    if lines.len() == 0 {
        Seq::empty()
    } else {
        flat_lines(s, lines.drop_last(), section) + if lines.last().len() > 0 {
            seq!["    "@ + item_text(s, lines.last(), section)]
        } else {
            Seq::empty()
        }
    }
}

/// A header's name, `(other)` when empty.
pub open spec fn header_name(name: Seq<char>) -> Seq<char> {
    if name.len() == 0 {
        "(other)"@
    } else {
        name
    }
}

/// The lines of one grouped record after `prev`: headers and items indented by depth, with
/// a blank line between groups.
pub open spec fn record_lines(s: Style, rec: RecordView, prev: Option<RecordView>, section: Section) -> Seq<
    Seq<char>,
> {
    match rec {
        RecordView::TypeHeader(name, kind) => (if prev is Some {
            seq![Seq::empty()]
        } else {
            Seq::empty()
        }) + seq![
            "    "@ + s.dim@ + header_name(name) + (if kind.len() == 0 {
                Seq::empty()
            } else {
                "  ("@ + kind + ")"@
            }) + s.reset@,
        ],
        RecordView::ModHeader(name) => (if prev is Some {
            seq![Seq::empty()]
        } else {
            Seq::empty()
        }) + seq!["    "@ + s.dim@ + header_name(name) + s.reset@],
        RecordView::ExtDivider => seq![
            Seq::empty(),
            "    "@ + s.dim@ + "[trait impls on external types]"@ + s.reset@,
        ],
        RecordView::TypeSub(name, kind) => (if prev is Some && !(prev->0 is ModHeader) {
            seq![Seq::empty()]
        } else {
            Seq::empty()
        }) + seq!["      "@ + s.dim@ + name + "  ("@ + kind + ")"@ + s.reset@],
        RecordView::Item(t) => (if prev is Some && (prev->0 is TypeSub || prev->0 is DeepItem) {
            seq![Seq::empty()]
        } else {
            Seq::empty()
        }) + seq!["      "@ + item_text(s, t, section)],
        RecordView::DeepItem(t) => seq!["        "@ + item_text(s, t, section)],
    }
}

/// The lines of grouped records.
pub open spec fn records_lines(s: Style, recs: Seq<RecordView>, section: Section) -> Seq<Seq<char>>
    decreases recs.len(),
{
    if recs.len() == 0 {
        Seq::empty()
    } else {
        records_lines(s, recs.drop_last(), section) + record_lines(
            s,
            recs.last(),
            if recs.len() > 1 {
                Some(recs[recs.len() - 2])
            } else {
                None
            },
            section,
        )
    }
}

/// A section's items: ungrouped in flat mode, else grouped by module or type.
pub open spec fn items_lines(
    s: Style,
    lines: Seq<Seq<char>>,
    section: Section,
    mode: GroupMode,
    crate_prefix: Seq<char>,
    src_kinds: Seq<(String, String)>,
) -> Seq<Seq<char>> {
    if mode == GroupMode::Flat {
        flat_lines(s, lines, section)
    } else {
        records_lines(s, spec_group(lines, section, mode, crate_prefix, src_kinds), section)
    }
}

fn item_text_exec(s: &Style, t: &str, section: Section) -> (r: Vec<char>)
    ensures
        r@ == item_text(*s, t@, section),
{
    match section {
        Section::Removed => {
            let mut l = chars_of(s.red);
            push_str_chars(&mut l, "- ");
            push_str_chars(&mut l, t);
            push_str_chars(&mut l, s.reset);
            l
        },
        Section::Added => {
            let mut l = chars_of(s.green);
            push_str_chars(&mut l, "+ ");
            push_str_chars(&mut l, t);
            push_str_chars(&mut l, s.reset);
            l
        },
        Section::Changed => {
            let tc = chars_of(t);
            proof {
                reveal_strlit("  - ");
                reveal_strlit("  + ");
            }
            if crate::text::has_prefix(&tc, &chars_of("  - ")) {
                let mut l = chars_of(s.red);
                push_str_chars(&mut l, "- ");
                crate::text::extend_chars(&mut l, &crate::text::slice_chars(&tc, 4, tc.len()));
                push_str_chars(&mut l, s.reset);
                assert(tc@.subrange(4, tc@.len() as int) =~= t@.skip(4));
                l
            } else if crate::text::has_prefix(&tc, &chars_of("  + ")) {
                let mut l = chars_of(s.green);
                push_str_chars(&mut l, "+ ");
                crate::text::extend_chars(&mut l, &crate::text::slice_chars(&tc, 4, tc.len()));
                push_str_chars(&mut l, s.reset);
                assert(tc@.subrange(4, tc@.len() as int) =~= t@.skip(4));
                l
            } else {
                tc
            }
        },
    }
}

fn flat_exec(s: &Style, lines: &Vec<String>, section: Section) -> (r: Vec<String>)
    ensures
        sviews(r@) == flat_lines(*s, sviews(lines@), section),
{
    let ghost lv = sviews(lines@);
    let mut out: Vec<String> = Vec::new();
    let mut i: usize = 0;
    assert(sviews(out@) =~= flat_lines(*s, lv.take(0), section));
    while i < lines.len()
        invariant
            i <= lines.len(),
            lv == sviews(lines@),
            sviews(out@) == flat_lines(*s, lv.take(i as int), section),
        decreases lines.len() - i,
    {
        assert(lv.take(i + 1).drop_last() =~= lv.take(i as int));
        assert(lv.take(i + 1).last() == lines@[i as int]@);
        if chars_of(lines[i].as_str()).len() > 0 {
            let mut l = chars_of("    ");
            crate::text::extend_chars(&mut l, &item_text_exec(s, lines[i].as_str(), section));
            push_line(&mut out, &l);
        } else {
            assert(sviews(out@) =~= flat_lines(*s, lv.take(i as int), section) + Seq::<Seq<char>>::empty());
        }
        i += 1;
    }
    assert(lv.take(lines.len() as int) =~= lv);
    out
}

fn record_lines_exec(out: &mut Vec<String>, s: &Style, rec: &GroupRecord, prev: Option<&GroupRecord>, section: Section)
    ensures
        sviews(final(out)@) == sviews(old(out)@) + record_lines(
            *s,
            rec@,
            match prev {
                Some(p) => Some(p@),
                None => None,
            },
            section,
        ),
{
    let ghost pv: Option<RecordView> = match prev {
        Some(p) => Some(p@),
        None => None,
    };
    let ghost before = sviews(out@);
    let blank: bool = match rec {
        GroupRecord::TypeHeader { .. } => prev.is_some(),
        GroupRecord::ModHeader(_) => prev.is_some(),
        GroupRecord::ExtDivider => true,
        GroupRecord::TypeSub { .. } => match prev {
            Some(GroupRecord::ModHeader(_)) => false,
            Some(_) => true,
            None => false,
        },
        GroupRecord::Item(_) => match prev {
            Some(GroupRecord::TypeSub { .. }) => true,
            Some(GroupRecord::DeepItem(_)) => true,
            _ => false,
        },
        GroupRecord::DeepItem(_) => false,
    };
    let mut l: Vec<char>;
    match rec {
        GroupRecord::TypeHeader { name, kind } => {
            l = chars_of("    ");
            push_str_chars(&mut l, s.dim);
            if chars_of(name.as_str()).len() == 0 {
                push_str_chars(&mut l, "(other)");
            } else {
                push_str_chars(&mut l, name.as_str());
            }
            if chars_of(kind.as_str()).len() > 0 {
                push_str_chars(&mut l, "  (");
                push_str_chars(&mut l, kind.as_str());
                push_str_chars(&mut l, ")");
            } else {
            }
            push_str_chars(&mut l, s.reset);
            assert(l@ =~= "    "@ + s.dim@ + header_name(name@) + (if kind@.len() == 0 {
                Seq::empty()
            } else {
                "  ("@ + kind@ + ")"@
            }) + s.reset@);
        },
        GroupRecord::ModHeader(name) => {
            l = chars_of("    ");
            push_str_chars(&mut l, s.dim);
            if chars_of(name.as_str()).len() == 0 {
                push_str_chars(&mut l, "(other)");
            } else {
                push_str_chars(&mut l, name.as_str());
            }
            push_str_chars(&mut l, s.reset);
            assert(l@ =~= "    "@ + s.dim@ + header_name(name@) + s.reset@);
        },
        GroupRecord::ExtDivider => {
            l = chars_of("    ");
            push_str_chars(&mut l, s.dim);
            push_str_chars(&mut l, "[trait impls on external types]");
            push_str_chars(&mut l, s.reset);
            assert(l@ =~= "    "@ + s.dim@ + "[trait impls on external types]"@ + s.reset@);
        },
        GroupRecord::TypeSub { name, kind } => {
            l = chars_of("      ");
            push_str_chars(&mut l, s.dim);
            push_str_chars(&mut l, name.as_str());
            push_str_chars(&mut l, "  (");
            push_str_chars(&mut l, kind.as_str());
            push_str_chars(&mut l, ")");
            push_str_chars(&mut l, s.reset);
            assert(l@ =~= "      "@ + s.dim@ + name@ + "  ("@ + kind@ + ")"@ + s.reset@);
        },
        GroupRecord::Item(t) => {
            l = chars_of("      ");
            crate::text::extend_chars(&mut l, &item_text_exec(s, t.as_str(), section));
            assert(l@ =~= "      "@ + item_text(*s, t@, section));
        },
        GroupRecord::DeepItem(t) => {
            l = chars_of("        ");
            crate::text::extend_chars(&mut l, &item_text_exec(s, t.as_str(), section));
            assert(l@ =~= "        "@ + item_text(*s, t@, section));
        },
    }
    let ghost expect = record_lines(*s, rec@, pv, section);
    assert(expect =~= (if blank {
        seq![Seq::<char>::empty()]
    } else {
        Seq::<Seq<char>>::empty()
    }) + seq![l@]);
    if blank {
        push_empty(out);
    }
    push_line(out, &l);
    assert(sviews(out@) =~= before + expect);
}

fn records_exec(s: &Style, recs: &Vec<GroupRecord>, section: Section) -> (r: Vec<String>)
    ensures
        sviews(r@) == records_lines(*s, records_view(recs@), section),
{
    let ghost rv = records_view(recs@);
    let mut out: Vec<String> = Vec::new();
    let mut i: usize = 0;
    assert(sviews(out@) =~= records_lines(*s, rv.take(0), section));
    while i < recs.len()
        invariant
            i <= recs.len(),
            rv == records_view(recs@),
            sviews(out@) == records_lines(*s, rv.take(i as int), section),
        decreases recs.len() - i,
    {
        assert(rv.take(i + 1).drop_last() =~= rv.take(i as int));
        assert(rv.take(i + 1).last() == recs@[i as int]@);
        if i > 0 {
            assert(rv.take(i + 1)[i - 1] == recs@[i - 1]@);
            record_lines_exec(&mut out, s, &recs[i], Some(&recs[i - 1]), section);
        } else {
            record_lines_exec(&mut out, s, &recs[i], None, section);
        }
        i += 1;
    }
    assert(rv.take(recs.len() as int) =~= rv);
    out
}

/// A section's items with compiled grouping patterns.
pub fn render_items_with(
    p: &GroupPatterns,
    s: &Style,
    lines: &Vec<String>,
    section: Section,
    mode: GroupMode,
    crate_prefix: &str,
    src_kinds: &Vec<(String, String)>,
) -> (r: Vec<String>)
    requires
        p.wf(),
    ensures
        sviews(r@) == items_lines(*s, sviews(lines@), section, mode, crate_prefix@, src_kinds@),
{
    if mode == GroupMode::Flat {
        return flat_exec(s, lines, section);
    }
    let recs = group_with(p, lines, section, mode, crate_prefix, src_kinds);
    records_exec(s, &recs, section)
}

/// A section's items: ungrouped in flat mode, else grouped; `None` only if grouping is asked
/// for and a fixed pattern of the grouping does not compile.
pub fn render_items(
    s: &Style,
    lines: &Vec<String>,
    section: Section,
    mode: GroupMode,
    crate_prefix: &str,
    src_kinds: &Vec<(String, String)>,
) -> (r: Option<Vec<String>>)
    ensures
        r is None <==> (mode != GroupMode::Flat && !patterns_compile()),
        r matches Some(v) ==> sviews(v@) == items_lines(*s, sviews(lines@), section, mode, crate_prefix@, src_kinds@),
{
    if mode == GroupMode::Flat {
        return Some(flat_exec(s, lines, section));
    }
    match GroupPatterns::compile() {
        Some(p) => Some(render_items_with(&p, s, lines, section, mode, crate_prefix, src_kinds)),
        None => None,
    }
}

/// One section of a crate's details: a blank line, its heading and its items, if it has
/// changes.
pub open spec fn detail_part(
    s: Style,
    color: Seq<char>,
    title: Seq<char>,
    count: usize,
    lines: Seq<String>,
    section: Section,
    mode: GroupMode,
    crate_prefix: Seq<char>,
    src_kinds: Seq<(String, String)>,
) -> Seq<Seq<char>> {
    if count > 0 {
        seq![Seq::empty(), count_heading(color, title, count as nat, s.reset@)] + items_lines(
            s,
            sviews(lines),
            section,
            mode,
            crate_prefix,
            src_kinds,
        )
    } else {
        Seq::empty()
    }
}

/// A changed crate's details: its name, then its removed, changed and added items.
pub open spec fn crate_details(s: Style, c: CrateResult, mode: GroupMode, src_kinds: Seq<(String, String)>) -> Seq<
    Seq<char>,
> {
    let prefix = crate::model::underscored(c.name@);
    seq![Seq::empty(), s.bold@ + c.name@ + s.reset@] + detail_part(
        s,
        s.red@,
        "Removed"@,
        c.removed,
        c.removed_lines@,
        Section::Removed,
        mode,
        prefix,
        src_kinds,
    ) + detail_part(
        s,
        s.yellow@,
        "Changed"@,
        c.changed,
        c.changed_lines@,
        Section::Changed,
        mode,
        prefix,
        src_kinds,
    ) + detail_part(
        s,
        s.green@,
        "Added"@,
        c.added,
        c.added_lines@,
        Section::Added,
        mode,
        prefix,
        src_kinds,
    )
}

/// The details of every changed crate, in report order.
pub open spec fn details_lines(s: Style, cs: Seq<CrateResult>, mode: GroupMode, src_kinds: Seq<(String, String)>) -> Seq<
    Seq<char>,
>
    decreases cs.len(),
{
    if cs.len() == 0 {
        Seq::empty()
    } else {
        let c = cs.last();
        details_lines(s, cs.drop_last(), mode, src_kinds) + if c.removed > 0 || c.changed > 0
            || c.added > 0 {
            crate_details(s, c, mode, src_kinds)
        } else {
            Seq::empty()
        }
    }
}

fn detail_part_exec(
    out: &mut Vec<String>,
    p: &GroupPatterns,
    s: &Style,
    color: &str,
    title: &str,
    count: usize,
    lines: &Vec<String>,
    section: Section,
    mode: GroupMode,
    crate_prefix: &str,
    src_kinds: &Vec<(String, String)>,
)
    requires
        p.wf(),
    ensures
        sviews(final(out)@) == sviews(old(out)@) + detail_part(
            *s,
            color@,
            title@,
            count,
            lines@,
            section,
            mode,
            crate_prefix@,
            src_kinds@,
        ),
{
    if count > 0 {
        push_empty(out);
        push_line(out, &heading(color, title, count, s.reset));
        let ghost mid = out@;
        let mut items = render_items_with(p, s, lines, section, mode, crate_prefix, src_kinds);
        let ghost iv = items@;
        out.append(&mut items);
        assert(out@ =~= mid + iv);
        assert(sviews(out@) =~= sviews(mid) + sviews(iv));
        assert(sviews(out@) =~= sviews(old(out)@) + detail_part(
            *s,
            color@,
            title@,
            count,
            lines@,
            section,
            mode,
            crate_prefix@,
            src_kinds@,
        ));
    } else {
        assert(sviews(out@) =~= sviews(old(out)@) + Seq::<Seq<char>>::empty());
    }
}

fn crate_details_exec(
    out: &mut Vec<String>,
    p: &GroupPatterns,
    s: &Style,
    c: &CrateResult,
    mode: GroupMode,
    src_kinds: &Vec<(String, String)>,
)
    requires
        p.wf(),
    ensures
        sviews(final(out)@) == sviews(old(out)@) + crate_details(*s, *c, mode, src_kinds@),
{
    let ghost before = sviews(out@);
    push_empty(out);
    let mut l = chars_of(s.bold);
    push_str_chars(&mut l, c.name.as_str());
    push_str_chars(&mut l, s.reset);
    push_line(out, &l);
    let prefix = c.prefix();
    detail_part_exec(out, p, s, s.red, "Removed", c.removed, &c.removed_lines, Section::Removed, mode, prefix.as_str(), src_kinds);
    detail_part_exec(out, p, s, s.yellow, "Changed", c.changed, &c.changed_lines, Section::Changed, mode, prefix.as_str(), src_kinds);
    detail_part_exec(out, p, s, s.green, "Added", c.added, &c.added_lines, Section::Added, mode, prefix.as_str(), src_kinds);
    assert(sviews(out@) =~= before + crate_details(*s, *c, mode, src_kinds@));
}

/// The details of every changed crate with compiled grouping patterns.
pub fn details_with(
    p: &GroupPatterns,
    s: &Style,
    report: &Report,
    mode: GroupMode,
    src_kinds: &Vec<(String, String)>,
) -> (r: Vec<String>)
    requires
        p.wf(),
    ensures
        sviews(r@) == details_lines(*s, report.crates@, mode, src_kinds@),
{
    let cs = &report.crates;
    let mut out: Vec<String> = Vec::new();
    let mut i: usize = 0;
    assert(sviews(out@) =~= details_lines(*s, cs@.take(0), mode, src_kinds@));
    while i < cs.len()
        invariant
            p.wf(),
            i <= cs.len(),
            cs == report.crates,
            sviews(out@) == details_lines(*s, cs@.take(i as int), mode, src_kinds@),
        decreases cs.len() - i,
    {
        assert(cs@.take(i + 1).drop_last() =~= cs@.take(i as int));
        assert(cs@.take(i + 1).last() == cs@[i as int]);
        let c = &cs[i];
        let ghost before = sviews(out@);
        if c.removed > 0 || c.changed > 0 || c.added > 0 {
            crate_details_exec(&mut out, p, s, c, mode, src_kinds);
        } else {
            assert(sviews(out@) =~= before + Seq::<Seq<char>>::empty());
        }
        i += 1;
    }
    assert(cs@.take(cs.len() as int) =~= cs@);
    out
}

/// The details of every changed crate; `None` only if a fixed pattern of the grouping does
/// not compile.
pub fn details(s: &Style, report: &Report, mode: GroupMode, src_kinds: &Vec<(String, String)>) -> (r: Option<Vec<String>>)
    ensures
        r is Some <==> patterns_compile(),
        r matches Some(v) ==> sviews(v@) == details_lines(*s, report.crates@, mode, src_kinds@),
{
    match GroupPatterns::compile() {
        Some(p) => Some(details_with(&p, s, report, mode, src_kinds)),
        None => None,
    }
}

} // verus!
