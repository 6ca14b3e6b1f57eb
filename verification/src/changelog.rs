//! Librustzcash-style changelog rendering for public API diff lines.
//!
//! Signatures are shortened to the paths a changelog names, grouped by owning type or trait
//! implementation, and rendered as markdown bullets.

use vstd::prelude::*;

use crate::api::sviews;
use crate::group::{
    after_last, before_last, firsts, strip_prefix, ATTRIBUTE, GENERIC, IMPL_PREFIX,
    ITEM_KEYWORD, PUB_PREFIX, QUALIFIERS,
};
use crate::model::Section;
use crate::pattern::{regex_compiles, regex_is_match, regex_replace, regex_replace_all, Pattern};
use crate::text::{
    chars_of, chars_eq, contains, copy_chars, ends_with, extend_chars, find, find_char,
    find_char_spec, first_at, has, has_prefix, join, occurs_at, push_str_chars, replace_all,
    replace_chars, rfind, last_at, slice_chars, starts_with, string_of, str_eq, trim,
    trim_chars,
};

verus! {

/// Two adjacent path segments, the first of which a changelog drops.
pub const LONG_PATH: &'static str = r"([A-Za-z_][A-Za-z0-9_]*::)([A-Za-z_][A-Za-z0-9_]*::)";

/// What replaces a match of [`LONG_PATH`]: its second segment.
pub const SECOND_SEGMENT: &'static str = "${2}";

/// A lifetime and the spaces after it.
pub const LIFETIME: &'static str = r"'[A-Za-z_][A-Za-z0-9_]* *";

/// A generic list left opening with a comma.
pub const LEADING_COMMA: &'static str = r"< *, *";

/// A generic list left closing with a comma.
pub const TRAILING_COMMA: &'static str = r" *, *>";

/// A public module declaration.
pub const PUB_MODULE: &'static str = r"^pub +mod +";

/// Any item keyword opening a signature.
pub const QUALIFIED_ITEM_KEYWORD: &'static str = r"^(?:fn|static|type|use|mod|struct|enum|trait|union) +";

/// A declaration keyword opening a signature.
pub const DECLARATION_KEYWORD: &'static str = r"^(?:mod|struct|enum|trait|union) +";

/// An `impl` with its generic parameters.
pub const IMPL_GENERICS: &'static str = r"^impl *<[^<>]*>";

/// A proptest `Arbitrary` implementation.
pub const ARBITRARY_IMPL: &'static str = r"^impl[ <].*Arbitrary.* for ";

/// A proptest associated type.
pub const PROPTEST_ASSOC: &'static str = r"^(?:pub +)?type [^=]*::(?:Parameters|Strategy) =";

/// A proptest `Arbitrary` method.
pub const PROPTEST_METHOD: &'static str = r"::(?:arbitrary|arbitrary_with)\(";

/// A compiler-derived structural equality implementation.
pub const STRUCTURAL_EQ: &'static str = r"^impl[ <].*Structural(?:Partial)?Eq.* for ";

/// Width at which a brace-grouped member line is split into a list.
pub const WIDTH: usize = 100;

/// Every fixed pattern of the changelog compiles.
pub open spec fn changelog_patterns_compile() -> bool {
    &&& regex_compiles(GENERIC@)
    &&& regex_compiles(LONG_PATH@)
    &&& regex_compiles(LIFETIME@)
    &&& regex_compiles(LEADING_COMMA@)
    &&& regex_compiles(TRAILING_COMMA@)
    &&& regex_compiles(ATTRIBUTE@)
    &&& regex_compiles(PUB_PREFIX@)
    &&& regex_compiles(PUB_MODULE@)
    &&& regex_compiles(IMPL_PREFIX@)
    &&& regex_compiles(QUALIFIERS@)
    &&& regex_compiles(ITEM_KEYWORD@)
    &&& regex_compiles(QUALIFIED_ITEM_KEYWORD@)
    &&& regex_compiles(DECLARATION_KEYWORD@)
    &&& regex_compiles(IMPL_GENERICS@)
    &&& regex_compiles(ARBITRARY_IMPL@)
    &&& regex_compiles(PROPTEST_ASSOC@)
    &&& regex_compiles(PROPTEST_METHOD@)
    &&& regex_compiles(STRUCTURAL_EQ@)
}

/// The compiled fixed patterns of the changelog.
pub struct ChangelogPatterns {
    inner_generic: Pattern,
    long_path: Pattern,
    lifetime: Pattern,
    leading_comma: Pattern,
    trailing_comma: Pattern,
    attribute: Pattern,
    pub_prefix: Pattern,
    pub_module: Pattern,
    impl_keyword: Pattern,
    qualifiers: Pattern,
    item_keyword: Pattern,
    qualified_item_keyword: Pattern,
    declaration: Pattern,
    impl_generics: Pattern,
    arbitrary_impl: Pattern,
    proptest_assoc: Pattern,
    proptest_method: Pattern,
    structural_eq: Pattern,
}

impl ChangelogPatterns {
    /// Each field holds its pattern.
    pub closed spec fn wf(&self) -> bool {
        &&& self.inner_generic.source() == GENERIC@
        &&& self.long_path.source() == LONG_PATH@
        &&& self.lifetime.source() == LIFETIME@
        &&& self.leading_comma.source() == LEADING_COMMA@
        &&& self.trailing_comma.source() == TRAILING_COMMA@
        &&& self.attribute.source() == ATTRIBUTE@
        &&& self.pub_prefix.source() == PUB_PREFIX@
        &&& self.pub_module.source() == PUB_MODULE@
        &&& self.impl_keyword.source() == IMPL_PREFIX@
        &&& self.qualifiers.source() == QUALIFIERS@
        &&& self.item_keyword.source() == ITEM_KEYWORD@
        &&& self.qualified_item_keyword.source() == QUALIFIED_ITEM_KEYWORD@
        &&& self.declaration.source() == DECLARATION_KEYWORD@
        &&& self.impl_generics.source() == IMPL_GENERICS@
        &&& self.arbitrary_impl.source() == ARBITRARY_IMPL@
        &&& self.proptest_assoc.source() == PROPTEST_ASSOC@
        &&& self.proptest_method.source() == PROPTEST_METHOD@
        &&& self.structural_eq.source() == STRUCTURAL_EQ@
    }

    /// Compiles the fixed patterns; `None` if one of them does not compile.
    pub fn compile() -> (r: Option<ChangelogPatterns>)
        ensures
            r is Some <==> changelog_patterns_compile(),
            r matches Some(p) ==> p.wf(),
    {
        let inner_generic = match Pattern::compile(GENERIC) { Some(p) => p, None => return None };
        let long_path = match Pattern::compile(LONG_PATH) { Some(p) => p, None => return None };
        let lifetime = match Pattern::compile(LIFETIME) { Some(p) => p, None => return None };
        let leading_comma = match Pattern::compile(LEADING_COMMA) {
            Some(p) => p,
            None => return None,
        };
        let trailing_comma = match Pattern::compile(TRAILING_COMMA) {
            Some(p) => p,
            None => return None,
        };
        let attribute = match Pattern::compile(ATTRIBUTE) { Some(p) => p, None => return None };
        let pub_prefix = match Pattern::compile(PUB_PREFIX) { Some(p) => p, None => return None };
        let pub_module = match Pattern::compile(PUB_MODULE) { Some(p) => p, None => return None };
        let impl_keyword = match Pattern::compile(IMPL_PREFIX) {
            Some(p) => p,
            None => return None,
        };
        let qualifiers = match Pattern::compile(QUALIFIERS) { Some(p) => p, None => return None };
        let item_keyword = match Pattern::compile(ITEM_KEYWORD) {
            Some(p) => p,
            None => return None,
        };
        let qualified_item_keyword = match Pattern::compile(QUALIFIED_ITEM_KEYWORD) {
            Some(p) => p,
            None => return None,
        };
        let declaration = match Pattern::compile(DECLARATION_KEYWORD) {
            Some(p) => p,
            None => return None,
        };
        let impl_generics = match Pattern::compile(IMPL_GENERICS) {
            Some(p) => p,
            None => return None,
        };
        let arbitrary_impl = match Pattern::compile(ARBITRARY_IMPL) {
            Some(p) => p,
            None => return None,
        };
        let proptest_assoc = match Pattern::compile(PROPTEST_ASSOC) {
            Some(p) => p,
            None => return None,
        };
        let proptest_method = match Pattern::compile(PROPTEST_METHOD) {
            Some(p) => p,
            None => return None,
        };
        let structural_eq = match Pattern::compile(STRUCTURAL_EQ) {
            Some(p) => p,
            None => return None,
        };
        Some(ChangelogPatterns {
            inner_generic,
            long_path,
            lifetime,
            leading_comma,
            trailing_comma,
            attribute,
            pub_prefix,
            pub_module,
            impl_keyword,
            qualifiers,
            item_keyword,
            qualified_item_keyword,
            declaration,
            impl_generics,
            arbitrary_impl,
            proptest_assoc,
            proptest_method,
            structural_eq,
        })
    }
}

/// Innermost generic argument lists removed one at a time, leftmost first, while one is
/// left and removing it shortens the text.
pub open spec fn strip_inner_generics(s: Seq<char>) -> Seq<char>
    decreases s.len(),
{
    if regex_is_match(GENERIC@, s) {
        let t = regex_replace(GENERIC@, s, ""@);
        if t.len() < s.len() {
            strip_inner_generics(t)
        } else {
            s
        }
    } else {
        s
    }
}

/// The last path segment, generic arguments removed first.
pub open spec fn spec_last_seg(path: Seq<char>) -> Seq<char> {
    after_last(strip_inner_generics(path), "::"@)
}

/// Index just past the `>` that closes the generic list being scanned at `i` with `depth`
/// lists open, or the end of the text.
pub open spec fn gen_close(s: Seq<char>, i: int, depth: nat) -> int
    decreases s.len() - i,
{
    if i < 0 || i >= s.len() {
        s.len() as int
    } else if s[i] == '<' {
        gen_close(s, i + 1, depth + 1)
    } else if s[i] == '>' {
        let d: nat = if depth == 0 {
            0
        } else {
            (depth - 1) as nat
        };
        if d == 0 {
            i + 1
        } else {
            gen_close(s, i + 1, d)
        }
    } else {
        gen_close(s, i + 1, depth)
    }
}

/// The first balanced generic argument list, or the unclosed rest of the text.
pub open spec fn spec_outer_gen(path: Seq<char>) -> Option<Seq<char>> {
    let start = find_char_spec(path, '<');
    if start < 0 {
        None
    } else {
        Some(path.subrange(start, gen_close(path, start, 0)))
    }
}

proof fn lemma_gen_close(s: Seq<char>, i: int, depth: nat)
    requires
        0 <= i,
    ensures
        i <= gen_close(s, i, depth) <= s.len() || (i > s.len() && gen_close(s, i, depth) == s.len()),
        i < s.len() ==> i < gen_close(s, i, depth),
    decreases s.len() - i,
{
    if i < s.len() {
        if s[i] == '<' {
            lemma_gen_close(s, i + 1, depth + 1);
        } else if s[i] == '>' {
            let d: nat = if depth == 0 { 0 } else { (depth - 1) as nat };
            if d != 0 {
                lemma_gen_close(s, i + 1, d);
            }
        } else {
            lemma_gen_close(s, i + 1, depth);
        }
    }
}

/// Paths shortened to their last two segments: each `a::b::` run loses its first segment.
pub open spec fn spec_keep2(path: Seq<char>) -> Seq<char>
    decreases path.len(),
{
    if regex_is_match(LONG_PATH@, path) {
        let t = regex_replace(LONG_PATH@, path, SECOND_SEGMENT@);
        if t.len() < path.len() {
            spec_keep2(t)
        } else {
            path
        }
    } else {
        path
    }
}

/// A generic list shortened for display: lifetimes, empty lists and stray commas removed,
/// paths kept to two segments.
pub open spec fn spec_short_gen(generics: Seq<char>) -> Seq<char> {
    let a = regex_replace_all(LIFETIME@, generics, ""@);
    let b = replace_all(a, "<>"@, ""@);
    let c = regex_replace_all(LEADING_COMMA@, b, "<"@);
    let d = regex_replace_all(TRAILING_COMMA@, c, ">"@);
    spec_keep2(d)
}

/// A path with its first generic list shortened.
pub open spec fn spec_shorten_inner_gen(path: Seq<char>) -> Seq<char> {
    match spec_outer_gen(path) {
        None => path,
        Some(g) => {
            let start = find_char_spec(path, '<');
            path.take(start) + spec_short_gen(g) + path.skip(start + g.len())
        },
    }
}

/// The generic arguments a signature gives `Self`, shortened, or nothing.
pub open spec fn spec_self_generics(signature: Seq<char>, self_short: Seq<char>) -> Seq<char> {
    let needle = self_short + "<"@;
    if contains(signature, needle) {
        let start = choose|i: int| first_at(signature, needle, i);
        match spec_outer_gen(signature.skip(start + self_short.len())) {
            Some(g) => spec_short_gen(g),
            None => Seq::empty(),
        }
    } else {
        Seq::empty()
    }
}

/// A trait path for display: its last segment and its shortened generic arguments.
pub open spec fn spec_trait_disp(trait_path: Seq<char>) -> Seq<char> {
    match spec_outer_gen(trait_path) {
        None => spec_last_seg(trait_path),
        Some(g) => spec_last_seg(trait_path.take(find_char_spec(trait_path, '<'))) + spec_short_gen(g),
    }
}

/// The signature without a leading attribute.
pub open spec fn spec_strip_attribute(s: Seq<char>) -> Seq<char> {
    regex_replace(ATTRIBUTE@, s, ""@)
}

/// The signature without a leading `pub`.
pub open spec fn spec_strip_pub(s: Seq<char>) -> Seq<char> {
    regex_replace(PUB_PREFIX@, s, ""@)
}

/// The signature without its qualifiers and item keyword.
pub open spec fn spec_strip_item_prefix(s: Seq<char>) -> Seq<char> {
    regex_replace(ITEM_KEYWORD@, regex_replace(QUALIFIERS@, s, ""@), ""@)
}

/// A path truncation point: a space, an opening parenthesis or `=`.
pub open spec fn is_cut(c: char) -> bool {
    c == ' ' || c == '(' || c == '='
}

/// Position of the first truncation point at or after `i`, or -1.
pub open spec fn cut_from(s: Seq<char>, i: int) -> int
    decreases s.len() - i,
{
    if i < 0 || i >= s.len() {
        -1
    } else if is_cut(s[i]) {
        i
    } else {
        cut_from(s, i + 1)
    }
}

/// A path cut at its first space, parenthesis or `=`, without a trailing `:`.
pub open spec fn spec_truncate_item(path: Seq<char>) -> Seq<char> {
    let at = cut_from(path, 0);
    let p = if at < 0 {
        path
    } else {
        path.take(at)
    };
    if ends_with(p, ":"@) {
        p.drop_last()
    } else {
        p
    }
}

/// The path a changelog group is read from, and whether it names a declaration, from what
/// the patterns found: after an `impl` header the type after the last ` for `; else a
/// declared item's path; else a member's path.
pub open spec fn path_choice(
    s: Seq<char>,
    impl_rest: Seq<char>,
    decl_match: bool,
    decl_rest: Seq<char>,
    item_rest: Seq<char>,
) -> (Seq<char>, bool) {
    if starts_with(s, "impl "@) {
        (after_last(impl_rest, " for "@), true)
    } else if decl_match {
        (decl_rest, true)
    } else {
        (item_rest, false)
    }
}

/// The group a path gives: the path cut at its first space, parenthesis or `=`, and for a
/// member (not a declaration) its owner, the part before the last `::`.
pub open spec fn path_group(path: Seq<char>, declaration: bool) -> Seq<char> {
    let p = spec_truncate_item(path);
    if !declaration {
        before_last(p, "::"@)
    } else {
        p
    }
}

/// The changelog group of a signature: the implementing type of an impl, a declared item's
/// path, or the owner of a member.
pub open spec fn spec_group_key(signature: Seq<char>) -> Seq<char> {
    let s = strip_inner_generics(spec_strip_attribute(signature));
    let t = spec_strip_pub(s);
    let (path, declaration) = path_choice(
        s,
        regex_replace(IMPL_PREFIX@, s, ""@),
        regex_is_match(DECLARATION_KEYWORD@, t),
        regex_replace(DECLARATION_KEYWORD@, t, ""@),
        spec_strip_item_prefix(t),
    );
    path_group(path, declaration)
}

/// Text without the crate prefix and its `::`, wherever it occurs; the text itself when the
/// prefix is empty.
pub open spec fn without_crate_prefix(s: Seq<char>, crate_prefix: Seq<char>) -> Seq<char> {
    if crate_prefix.len() > 0 {
        replace_all(s, crate_prefix + "::"@, ""@)
    } else {
        s
    }
}

/// The qualified path of a signature's item, or the whole `impl` line without the crate
/// prefix.
pub open spec fn spec_qual_path(signature: Seq<char>, crate_prefix: Seq<char>) -> Seq<char> {
    let s = regex_replace(IMPL_GENERICS@, spec_strip_attribute(signature), "impl"@);
    if starts_with(s, "impl "@) {
        without_crate_prefix(s, crate_prefix)
    } else {
        let t = regex_replace(
            QUALIFIED_ITEM_KEYWORD@,
            regex_replace(QUALIFIERS@, spec_strip_pub(s), ""@),
            ""@,
        );
        spec_truncate_item(strip_inner_generics(t))
    }
}

/// A path without the crate prefix.
pub open spec fn spec_disp(path: Seq<char>, crate_prefix: Seq<char>) -> Seq<char> {
    if crate_prefix.len() == 0 {
        path
    } else {
        strip_prefix(path, crate_prefix + "::"@)
    }
}

/// A member's path relative to its group.
pub open spec fn spec_member_disp(path: Seq<char>, group: Seq<char>, crate_prefix: Seq<char>) -> Seq<
    char,
> {
    if starts_with(path, "impl "@) {
        path
    } else if starts_with(path, group + "::"@) {
        path.skip(group.len() + 2int)
    } else {
        spec_disp(path, crate_prefix)
    }
}

/// A signature without attribute, `pub` and crate prefix.
pub open spec fn spec_relsig(signature: Seq<char>, crate_prefix: Seq<char>) -> Seq<char> {
    without_crate_prefix(spec_strip_pub(spec_strip_attribute(signature)), crate_prefix)
}

/// Whether a signature is a proptest support item, given what the three proptest patterns
/// answered: it names `proptest::`, or one of them matched.
pub open spec fn proptest_verdict(signature: Seq<char>, arbitrary: bool, assoc: bool, method: bool) -> bool {
    contains(signature, "proptest::"@) || arbitrary || assoc || method
}

/// Proptest support items, which a changelog leaves out.
pub open spec fn spec_is_proptest(signature: Seq<char>) -> bool {
    proptest_verdict(
        signature,
        regex_is_match(ARBITRARY_IMPL@, signature),
        regex_is_match(PROPTEST_ASSOC@, signature),
        regex_is_match(PROPTEST_METHOD@, signature),
    )
}


proof fn lemma_first_at_unique(s: Seq<char>, p: Seq<char>, i: int)
    requires
        first_at(s, p, i),
    ensures
        contains(s, p),
        (choose|j: int| first_at(s, p, j)) == i,
{
    let j = choose|j: int| first_at(s, p, j);
    assert(first_at(s, p, j));
    if j < i {
        assert(!occurs_at(s, p, j));
    }
    if j > i {
        assert(!occurs_at(s, p, i));
    }
}

fn char_len(s: &str) -> (r: usize)
    ensures
        r == s@.len(),
{
    chars_of(s).len()
}

fn strip_inner_generics_exec(p: &ChangelogPatterns, s: String) -> (r: String)
    requires
        p.wf(),
    ensures
        r@ == strip_inner_generics(s@),
{
    let mut cur = s;
    loop
        invariant
            p.wf(),
            strip_inner_generics(cur@) == strip_inner_generics(s@),
        decreases cur@.len(),
    {
        let matched = p.inner_generic.is_match(cur.as_str());
        let t = p.inner_generic.replace(cur.as_str(), "");
        match crate::group::next_rewrite(matched, cur.as_str(), t) {
            Some(x) => {
                cur = x;
            },
            None => {
                return cur;
            },
        }
    }
}

fn last_seg(p: &ChangelogPatterns, path: &str) -> (r: String)
    requires
        p.wf(),
    ensures
        r@ == spec_last_seg(path@),
{
    let s = strip_inner_generics_exec(p, string_of(&chars_of(path)));
    last_segment(s.as_str())
}

/// The last segment of a path: what follows its last `::`, or all of it.
pub fn last_segment(path: &str) -> (r: String)
    ensures
        r@ == after_last(path@, "::"@),
{
    string_of(&crate::group::after_last_chars(&chars_of(path), "::"))
}

/// The first generic argument list of a path, from its first `<` to the `>` that closes it
/// (to the end when none does), or nothing without a `<`.
pub fn outer_generics(path: &str) -> (r: Option<String>)
    ensures
        match r {
            Some(g) => spec_outer_gen(path@) == Some(g@),
            None => spec_outer_gen(path@) is None,
        },
{
    match outer_gen(&chars_of(path)) {
        Some(g) => Some(string_of(&g)),
        None => None,
    }
}

/// A generic list without its empty `<>` lists, as they are left once lifetimes are gone.
pub fn drop_empty_lists(a: &str) -> (r: String)
    ensures
        r@ == replace_all(a@, "<>"@, ""@),
{
    let empty_list = chars_of("<>");
    proof {
        reveal_strlit("<>");
    }
    string_of(&replace_chars(&chars_of(a), &empty_list, &chars_of("")))
}

fn outer_gen(path: &Vec<char>) -> (r: Option<Vec<char>>)
    ensures
        match r {
            Some(g) => spec_outer_gen(path@) == Some(g@),
            None => spec_outer_gen(path@) is None,
        },
{
    let start = match find_char(path, '<') {
        Some(i) => i,
        None => return None,
    };
    let mut depth: usize = 0;
    let mut i: usize = start;
    while i < path.len()
        invariant
            start <= i <= path.len(),
            start < path.len(),
            find_char_spec(path@, '<') == start,
            depth <= i - start,
            gen_close(path@, start as int, 0) == gen_close(path@, i as int, depth as nat),
        decreases path.len() - i,
    {
        let ghost d0 = depth;
        if path[i] == '<' {
            depth += 1;
        } else if path[i] == '>' {
            depth = if depth == 0 { 0 } else { depth - 1 };
            if depth == 0 {
                assert(gen_close(path@, i as int, d0 as nat) == i + 1);
                return Some(slice_chars(path, start, i + 1));
            }
        }
        i += 1;
    }
    Some(slice_chars(path, start, path.len()))
}

fn keep2(p: &ChangelogPatterns, path: String) -> (r: String)
    requires
        p.wf(),
    ensures
        r@ == spec_keep2(path@),
{
    let mut cur = path;
    loop
        invariant
            p.wf(),
            spec_keep2(cur@) == spec_keep2(path@),
        decreases cur@.len(),
    {
        let matched = p.long_path.is_match(cur.as_str());
        let t = p.long_path.replace(cur.as_str(), SECOND_SEGMENT);
        match crate::group::next_rewrite(matched, cur.as_str(), t) {
            Some(x) => {
                cur = x;
            },
            None => {
                return cur;
            },
        }
    }
}

fn short_gen(p: &ChangelogPatterns, generics: &str) -> (r: String)
    requires
        p.wf(),
    ensures
        r@ == spec_short_gen(generics@),
{
    let a = p.lifetime.replace_all(generics, "");
    let b = drop_empty_lists(a.as_str());
    let c = p.leading_comma.replace_all(b.as_str(), "<");
    let d = p.trailing_comma.replace_all(c.as_str(), ">");
    keep2(p, d)
}

fn shorten_inner_gen(p: &ChangelogPatterns, path: &str) -> (r: String)
    requires
        p.wf(),
    ensures
        r@ == spec_shorten_inner_gen(path@),
{
    let cs = chars_of(path);
    match outer_gen(&cs) {
        None => string_of(&cs),
        Some(g) => {
            let start = match find_char(&cs, '<') {
                Some(i) => i,
                None => {
                    return string_of(&cs);
                },
            };
            proof {
                lemma_gen_close(cs@, start as int, 0);
            }
            let mut out = slice_chars(&cs, 0, start);
            assert(out@ =~= cs@.take(start as int));
            let sg = short_gen(p, string_of(&g).as_str());
            push_str_chars(&mut out, sg.as_str());
            let rest = slice_chars(&cs, start + g.len(), cs.len());
            extend_chars(&mut out, &rest);
            assert(rest@ =~= cs@.skip(start + g@.len()));
            string_of(&out)
        },
    }
}

fn self_generics(p: &ChangelogPatterns, signature: &str, self_short: &str) -> (r: String)
    requires
        p.wf(),
    ensures
        r@ == spec_self_generics(signature@, self_short@),
{
    let sig = chars_of(signature);
    let mut needle = chars_of(self_short);
    needle.push('<');
    assert(needle@ =~= self_short@ + "<"@) by {
        reveal_strlit("<");
    }
    match find(&sig, &needle) {
        None => string_of(&Vec::new()),
        Some(start) => {
            proof {
                lemma_first_at_unique(sig@, needle@, start as int);
            }
            assert(occurs_at(sig@, needle@, start as int));
            let n = char_len(self_short);
            assert(start + n < sig@.len());
            assert(start + n < sig.len());
            let from: usize = start + n;
            let suffix = slice_chars(&sig, from, sig.len());
            assert(suffix@ =~= sig@.skip(start + self_short@.len()));
            match outer_gen(&suffix) {
                Some(g) => short_gen(p, string_of(&g).as_str()),
                None => string_of(&Vec::new()),
            }
        },
    }
}

fn trait_disp(p: &ChangelogPatterns, trait_path: &str) -> (r: String)
    requires
        p.wf(),
    ensures
        r@ == spec_trait_disp(trait_path@),
{
    let cs = chars_of(trait_path);
    match outer_gen(&cs) {
        None => last_seg(p, trait_path),
        Some(g) => {
            let start = match find_char(&cs, '<') {
                Some(i) => i,
                None => {
                    return last_seg(p, trait_path);
                },
            };
            let head = slice_chars(&cs, 0, start);
            assert(head@ =~= cs@.take(start as int));
            let mut out = chars_of(last_seg(p, string_of(&head).as_str()).as_str());
            push_str_chars(&mut out, short_gen(p, string_of(&g).as_str()).as_str());
            string_of(&out)
        },
    }
}

fn strip_attribute(p: &ChangelogPatterns, s: &str) -> (r: String)
    requires
        p.wf(),
    ensures
        r@ == spec_strip_attribute(s@),
{
    p.attribute.replace(s, "")
}

fn strip_pub(p: &ChangelogPatterns, s: &str) -> (r: String)
    requires
        p.wf(),
    ensures
        r@ == spec_strip_pub(s@),
{
    p.pub_prefix.replace(s, "")
}

fn strip_item_prefix(p: &ChangelogPatterns, s: &str) -> (r: String)
    requires
        p.wf(),
    ensures
        r@ == spec_strip_item_prefix(s@),
{
    let t = p.qualifiers.replace(s, "");
    p.item_keyword.replace(t.as_str(), "")
}

/// A path cut at its first space, parenthesis or `=`, without a trailing `:`.
pub fn truncate_item(path: &str) -> (r: String)
    ensures
        r@ == spec_truncate_item(path@),
{
    let cs = chars_of(path);
    let mut i: usize = 0;
    while i < cs.len() && !(cs[i] == ' ' || cs[i] == '(' || cs[i] == '=')
        invariant
            i <= cs.len(),
            cs@ == path@,
            cut_from(cs@, 0) == cut_from(cs@, i as int),
        decreases cs.len() - i,
    {
        i += 1;
    }
    let p = slice_chars(&cs, 0, i);
    assert(p@ =~= (if cut_from(cs@, 0) < 0 { cs@ } else { cs@.take(cut_from(cs@, 0)) }));
    let colon = chars_of(":");
    proof {
        reveal_strlit(":");
    }
    if crate::text::has_suffix(&p, &colon) {
        let q = slice_chars(&p, 0, p.len() - 1);
        assert(q@ =~= p@.drop_last());
        string_of(&q)
    } else {
        string_of(&p)
    }
}

/// The path a changelog group is read from, and whether it names a declaration, from what
/// the patterns found in a signature (see `path_choice`).
pub fn choose_path(
    s: &str,
    impl_rest: &str,
    decl_match: bool,
    decl_rest: &str,
    item_rest: &str,
) -> (r: (String, bool))
    ensures
        (r.0@, r.1) == path_choice(s@, impl_rest@, decl_match, decl_rest@, item_rest@),
{
    if has_prefix(&chars_of(s), &chars_of("impl ")) {
        (string_of(&crate::group::after_last_chars(&chars_of(impl_rest), " for ")), true)
    } else if decl_match {
        (string_of(&chars_of(decl_rest)), true)
    } else {
        (string_of(&chars_of(item_rest)), false)
    }
}

/// The group a path gives (see `path_group`).
pub fn group_of_path(path: &str, declaration: bool) -> (r: String)
    ensures
        r@ == path_group(path@, declaration),
{
    let q = truncate_item(path);
    if !declaration {
        string_of(&crate::group::before_last_chars(&chars_of(q.as_str()), "::"))
    } else {
        q
    }
}

fn group_key(p: &ChangelogPatterns, signature: &str) -> (r: String)
    requires
        p.wf(),
    ensures
        r@ == spec_group_key(signature@),
{
    let s = strip_inner_generics_exec(p, strip_attribute(p, signature));
    let t = strip_pub(p, s.as_str());
    let impl_rest = p.impl_keyword.replace(s.as_str(), "");
    let decl_match = p.declaration.is_match(t.as_str());
    let decl_rest = p.declaration.replace(t.as_str(), "");
    let item_rest = strip_item_prefix(p, t.as_str());
    let (path, declaration) = choose_path(
        s.as_str(),
        impl_rest.as_str(),
        decl_match,
        decl_rest.as_str(),
        item_rest.as_str(),
    );
    group_of_path(path.as_str(), declaration)
}

fn prefix_sep(crate_prefix: &str) -> (r: Vec<char>)
    ensures
        r@ == crate_prefix@ + "::"@,
        r@.len() > 0,
{
    let mut v = chars_of(crate_prefix);
    push_str_chars(&mut v, "::");
    proof {
        reveal_strlit("::");
    }
    v
}

fn remove_all(s: &str, from: &Vec<char>) -> (r: String)
    requires
        from@.len() > 0,
    ensures
        r@ == replace_all(s@, from@, ""@),
{
    let empty: Vec<char> = Vec::new();
    proof {
        reveal_strlit("");
    }
    assert(empty@ =~= ""@);
    string_of(&replace_chars(&chars_of(s), from, &empty))
}

/// Text without the crate prefix and its `::` (see `without_crate_prefix`).
pub fn drop_crate_prefix(s: &str, crate_prefix: &str) -> (r: String)
    ensures
        r@ == without_crate_prefix(s@, crate_prefix@),
{
    if char_len(crate_prefix) > 0 {
        remove_all(s, &prefix_sep(crate_prefix))
    } else {
        string_of(&chars_of(s))
    }
}

fn qual_path(p: &ChangelogPatterns, signature: &str, crate_prefix: &str) -> (r: String)
    requires
        p.wf(),
    ensures
        r@ == spec_qual_path(signature@, crate_prefix@),
{
    let a = strip_attribute(p, signature);
    let s = p.impl_generics.replace(a.as_str(), "impl");
    if has_prefix(&chars_of(s.as_str()), &chars_of("impl ")) {
        return drop_crate_prefix(s.as_str(), crate_prefix);
    }
    let t = strip_pub(p, s.as_str());
    let u = p.qualifiers.replace(t.as_str(), "");
    let v = p.qualified_item_keyword.replace(u.as_str(), "");
    truncate_item(strip_inner_generics_exec(p, v).as_str())
}

fn strip_prefix_exec(s: &str, prefix: &Vec<char>) -> (r: String)
    ensures
        r@ == strip_prefix(s@, prefix@),
{
    let cs = chars_of(s);
    if has_prefix(&cs, prefix) {
        string_of(&slice_chars(&cs, prefix.len(), cs.len()))
    } else {
        string_of(&cs)
    }
}

fn disp(path: &str, crate_prefix: &str) -> (r: String)
    ensures
        r@ == spec_disp(path@, crate_prefix@),
{
    if char_len(crate_prefix) == 0 {
        return string_of(&chars_of(path));
    }
    strip_prefix_exec(path, &prefix_sep(crate_prefix))
}

fn member_disp(path: &str, group: &str, crate_prefix: &str) -> (r: String)
    ensures
        r@ == spec_member_disp(path@, group@, crate_prefix@),
{
    let cs = chars_of(path);
    if has_prefix(&cs, &chars_of("impl ")) {
        return string_of(&cs);
    }
    let g = prefix_sep(group);
    if has_prefix(&cs, &g) {
        assert(g@.len() == group@.len() + 2) by {
            reveal_strlit("::");
        }
        return string_of(&slice_chars(&cs, g.len(), cs.len()));
    }
    disp(path, crate_prefix)
}

fn relsig(p: &ChangelogPatterns, signature: &str, crate_prefix: &str) -> (r: String)
    requires
        p.wf(),
    ensures
        r@ == spec_relsig(signature@, crate_prefix@),
{
    let a = strip_attribute(p, signature);
    let s = strip_pub(p, a.as_str());
    drop_crate_prefix(s.as_str(), crate_prefix)
}

fn is_proptest(p: &ChangelogPatterns, signature: &str) -> (r: bool)
    requires
        p.wf(),
    ensures
        r == spec_is_proptest(signature@),
{
    let arbitrary = p.arbitrary_impl.is_match(signature);
    let assoc = p.proptest_assoc.is_match(signature);
    let method = p.proptest_method.is_match(signature);
    is_proptest_item(signature, arbitrary, assoc, method)
}

/// Whether a signature is a proptest support item, given what the three proptest patterns
/// answered (see `proptest_verdict`).
pub fn is_proptest_item(signature: &str, arbitrary: bool, assoc: bool, method: bool) -> (r: bool)
    ensures
        r == proptest_verdict(signature@, arbitrary, assoc, method),
{
    has(&chars_of(signature), &chars_of("proptest::")) || arbitrary || assoc || method
}


/// A trait map entry as plain values: implementing type's short name, member, trait path.
pub type TraitRow = (Seq<char>, Seq<char>, Seq<char>);

/// The plain values of a trait map.
pub open spec fn tviews(t: Seq<(String, String, String)>) -> Seq<TraitRow> {
    t.map_values(|e: (String, String, String)| (e.0@, e.1@, e.2@))
}

/// The trait that provides a member of a type (a later entry replaces an earlier one).
pub open spec fn trait_of(t: Seq<TraitRow>, self_short: Seq<char>, member: Seq<char>) -> Option<
    Seq<char>,
>
    decreases t.len(),
{
    if t.len() == 0 {
        None
    } else if t.last().0 == self_short && t.last().1 == member {
        Some(t.last().2)
    } else {
        trait_of(t.drop_last(), self_short, member)
    }
}

/// The text without leading whitespace (`str::trim_start`).
pub open spec fn trim_start(s: Seq<char>) -> Seq<char> {
    s.skip(crate::text::ws_prefix_len(s))
}

/// The text before the first occurrence of `p` (all of it if none).
pub open spec fn before_first(s: Seq<char>, p: Seq<char>) -> Seq<char> {
    if contains(s, p) {
        s.take(choose|i: int| first_at(s, p, i))
    } else {
        s
    }
}

/// The text after the first occurrence of `p` (all of it if none).
pub open spec fn after_first(s: Seq<char>, p: Seq<char>) -> Seq<char> {
    if contains(s, p) {
        s.skip((choose|i: int| first_at(s, p, i)) + p.len())
    } else {
        s
    }
}

/// How a line joins a trait implementation group: the group key, whether the line is the
/// `impl` header itself, and the header's display text.
pub type ImplView = (Seq<char>, bool, Option<Seq<char>>);

/// The trait implementation group of a line, if it has one: an `impl ... for ...` line, or a
/// member that the trait map attributes to a trait.
pub open spec fn spec_impl_group(
    signature: Seq<char>,
    group: Seq<char>,
    qualified_path: Seq<char>,
    crate_prefix: Seq<char>,
    traits: Seq<TraitRow>,
) -> Option<ImplView> {
    if starts_with(qualified_path, "impl "@) {
        let body = trim_start(qualified_path.skip(5));
        if contains(body, " for "@) {
            let trait_path = before_first(body, " for "@);
            let self_path = spec_shorten_inner_gen(after_last(body, " for "@));
            Some(
                (
                    "impl "@ + spec_last_seg(trait_path) + " for "@ + self_path,
                    true,
                    Some("impl "@ + spec_trait_disp(trait_path) + " for "@ + self_path),
                ),
            )
        } else {
            None
        }
    } else {
        let self_short = spec_last_seg(group);
        match trait_of(traits, self_short, spec_last_seg(qualified_path)) {
            Some(t) => Some(
                (
                    "impl "@ + t + " for "@ + spec_disp(group, crate_prefix) + spec_self_generics(
                        signature,
                        self_short,
                    ),
                    false,
                    None,
                ),
            ),
            None => None,
        }
    }
}

/// The changed section's state: lines so far, the pending old signature, whether its pair is
/// skipped, and the pairs already rendered.
pub type ChangedView = (Seq<Seq<char>>, Seq<char>, bool, Seq<(Seq<char>, Seq<char>)>);

/// One line of the changed section.
pub open spec fn changed_step(st: ChangedView, line: Seq<char>, crate_prefix: Seq<char>) -> ChangedView {
    if trim(line).len() == 0 {
        st
    } else if starts_with(line, "  - "@) {
        (st.0, spec_relsig(line.skip(4), crate_prefix), spec_is_proptest(line.skip(4)), st.3)
    } else if !starts_with(line, "  + "@) {
        st
    } else if st.2 {
        (st.0, st.1, false, st.3)
    } else {
        let new = spec_relsig(line.skip(4), crate_prefix);
        if st.3.contains((st.1, new)) {
            st
        } else {
            (
                st.0 + seq!["- `"@ + st.1 + "`"@, "  → `"@ + new + "`"@],
                st.1,
                st.2,
                st.3.push((st.1, new)),
            )
        }
    }
}

/// The changed section over all lines.
pub open spec fn changed_scan(lines: Seq<Seq<char>>, crate_prefix: Seq<char>) -> ChangedView
    decreases lines.len(),
{
    if lines.len() == 0 {
        (Seq::empty(), Seq::empty(), false, Seq::empty())
    } else {
        changed_step(changed_scan(lines.drop_last(), crate_prefix), lines.last(), crate_prefix)
    }
}

/// The changed section: each old/new signature pair once, proptest pairs left out.
pub open spec fn spec_render_changed(lines: Seq<Seq<char>>, crate_prefix: Seq<char>) -> Seq<
    Seq<char>,
> {
    changed_scan(lines, crate_prefix).0
}

/// The lines that are not blank.
pub open spec fn nonblank(lines: Seq<Seq<char>>) -> Seq<Seq<char>>
    decreases lines.len(),
{
    if lines.len() == 0 {
        Seq::empty()
    } else {
        nonblank(lines.drop_last()) + if trim(lines.last()).len() == 0 {
            Seq::empty()
        } else {
            seq![lines.last()]
        }
    }
}

/// An `impl` line.
pub open spec fn is_impl_line(line: Seq<char>) -> bool {
    starts_with(line, "impl<"@) || starts_with(line, "impl "@)
}

/// A `lazy_static` implementation line.
pub open spec fn is_lazy_static_impl(line: Seq<char>) -> bool {
    is_impl_line(line) && contains(line, "LazyStatic"@) && contains(line, " for "@)
}

/// The groups of the `lazy_static` implementations.
pub open spec fn lazy_keys(lines: Seq<Seq<char>>) -> Seq<Seq<char>>
    decreases lines.len(),
{
    if lines.len() == 0 {
        Seq::empty()
    } else {
        lazy_keys(lines.drop_last()) + if is_lazy_static_impl(lines.last()) {
            seq![spec_group_key(lines.last())]
        } else {
            Seq::empty()
        }
    }
}

/// The paths of the added public modules, in order, with repeats.
pub open spec fn module_paths(lines: Seq<Seq<char>>) -> Seq<Seq<char>>
    decreases lines.len(),
{
    if lines.len() == 0 {
        Seq::empty()
    } else {
        module_paths(lines.drop_last()) + if regex_is_match(
            PUB_MODULE@,
            spec_strip_attribute(lines.last()),
        ) {
            seq![regex_replace(PUB_MODULE@, spec_strip_attribute(lines.last()), ""@)]
        } else {
            Seq::empty()
        }
    }
}

/// A line inside an added module, other than the module itself, which the module's entry
/// covers.
pub open spec fn subsumed(modules: Seq<Seq<char>>, group: Seq<char>, qualified_path: Seq<char>) -> bool {
    exists|k: int|
        0 <= k < modules.len() && qualified_path != #[trigger] modules[k] && (group == modules[k]
            || starts_with(group, modules[k] + "::"@))
}

/// Position of the first `x` in `s` at or after `i`, or -1.
pub open spec fn index_from(s: Seq<Seq<char>>, x: Seq<char>, i: int) -> int
    decreases s.len() - i,
{
    if i < 0 || i >= s.len() {
        -1
    } else if s[i] == x {
        i
    } else {
        index_from(s, x, i + 1)
    }
}

/// Grouping state: group keys, whether each is a trait implementation, each header text,
/// the members with the position of their group, and the items already seen.
pub type PlainView = (
    Seq<Seq<char>>,
    Seq<bool>,
    Seq<Option<Seq<char>>>,
    Seq<(int, Seq<char>)>,
    Seq<(Seq<char>, Seq<char>)>,
);

/// The context of the grouping: crate prefix, trait map, `lazy_static` groups, added modules.
pub type PlainCtx = (Seq<char>, Seq<TraitRow>, Seq<Seq<char>>, Seq<Seq<char>>);

/// One signature of an added or removed section.
pub open spec fn plain_step(st: PlainView, signature: Seq<char>, ctx: PlainCtx) -> PlainView {
    if is_impl_line(signature) && !contains(signature, " for "@) {
        st
    } else if spec_is_proptest(signature) || regex_is_match(STRUCTURAL_EQ@, signature) {
        st
    } else {
        let og = spec_group_key(signature);
        let qp = spec_qual_path(signature, ctx.0);
        if ctx.2.contains(og) && qp != og {
            st
        } else if subsumed(ctx.3, og, qp) {
            st
        } else if st.4.contains((og, qp)) {
            st
        } else {
            let seen = st.4.push((og, qp));
            let info = spec_impl_group(signature, og, qp, ctx.0, ctx.1);
            let key = match info {
                Some(i) => i.0,
                None => og,
            };
            let found = index_from(st.0, key, 0);
            let (keys, impls, headers, idx) = if found < 0 {
                (st.0.push(key), st.1.push(false), st.2.push(None), st.0.len() as int)
            } else {
                (st.0, st.1, st.2, found)
            };
            match info {
                Some(i) => if i.1 {
                    (keys, impls.update(idx, true), headers.update(idx, i.2), st.3, seen)
                } else {
                    (
                        keys,
                        impls.update(idx, true),
                        headers,
                        st.3.push((idx, spec_last_seg(qp))),
                        seen,
                    )
                },
                None => (keys, impls, headers, st.3.push((idx, qp)), seen),
            }
        }
    }
}

/// The grouping of all signatures.
pub open spec fn plain_scan(sigs: Seq<Seq<char>>, ctx: PlainCtx) -> PlainView
    decreases sigs.len(),
{
    if sigs.len() == 0 {
        (Seq::empty(), Seq::empty(), Seq::empty(), Seq::empty(), Seq::empty())
    } else {
        plain_step(plain_scan(sigs.drop_last(), ctx), sigs.last(), ctx)
    }
}


/// Members that every derive or conversion brings, left out of a trait implementation's list.
pub open spec fn is_boilerplate(m: Seq<char>) -> bool {
    m == "from"@
        || m == "into"@
        || m == "try_from"@
        || m == "try_into"@
        || m == "clone"@
        || m == "clone_from"@
        || m == "fmt"@
        || m == "hash"@
        || m == "eq"@
        || m == "ne"@
        || m == "cmp"@
        || m == "partial_cmp"@
        || m == "lt"@
        || m == "le"@
        || m == "gt"@
        || m == "ge"@
        || m == "default"@
        || m == "deref"@
        || m == "deref_mut"@
        || m == "as_ref"@
        || m == "as_mut"@
        || m == "borrow"@
        || m == "borrow_mut"@
        || m == "drop"@
        || m == "serialize"@
        || m == "deserialize"@
        || m == "into_iter"@
        || m == "next"@
}

/// Whether a member is boilerplate.
fn boilerplate(m: &str) -> (r: bool)
    ensures
        r == is_boilerplate(m@),
{
    str_eq(m, "from")
        || str_eq(m, "into")
        || str_eq(m, "try_from")
        || str_eq(m, "try_into")
        || str_eq(m, "clone")
        || str_eq(m, "clone_from")
        || str_eq(m, "fmt")
        || str_eq(m, "hash")
        || str_eq(m, "eq")
        || str_eq(m, "ne")
        || str_eq(m, "cmp")
        || str_eq(m, "partial_cmp")
        || str_eq(m, "lt")
        || str_eq(m, "le")
        || str_eq(m, "gt")
        || str_eq(m, "ge")
        || str_eq(m, "default")
        || str_eq(m, "deref")
        || str_eq(m, "deref_mut")
        || str_eq(m, "as_ref")
        || str_eq(m, "as_mut")
        || str_eq(m, "borrow")
        || str_eq(m, "borrow_mut")
        || str_eq(m, "drop")
        || str_eq(m, "serialize")
        || str_eq(m, "deserialize")
        || str_eq(m, "into_iter")
        || str_eq(m, "next")
}

/// The members shown under group `g`: its members, without the group's own path unless it is
/// a trait implementation.
pub open spec fn displayed(members: Seq<(int, Seq<char>)>, g: int, is_impl: bool, key: Seq<char>) -> Seq<
    Seq<char>,
>
    decreases members.len(),
{
    if members.len() == 0 {
        Seq::empty()
    } else {
        displayed(members.drop_last(), g, is_impl, key) + if members.last().0 == g && (is_impl
            || members.last().1 != key) {
            seq![members.last().1]
        } else {
            Seq::empty()
        }
    }
}

/// The members that are not boilerplate.
pub open spec fn kept(ms: Seq<Seq<char>>) -> Seq<Seq<char>>
    decreases ms.len(),
{
    if ms.len() == 0 {
        Seq::empty()
    } else {
        kept(ms.drop_last()) + if is_boilerplate(ms.last()) {
            Seq::empty()
        } else {
            seq![ms.last()]
        }
    }
}

/// Each text between `pre` and `post`.
pub open spec fn bullets(ms: Seq<Seq<char>>, pre: Seq<char>, post: Seq<char>) -> Seq<Seq<char>> {
    ms.map_values(|m: Seq<char>| pre + m + post)
}

/// Members relative to their group.
pub open spec fn member_disps(ms: Seq<Seq<char>>, key: Seq<char>, crate_prefix: Seq<char>) -> Seq<
    Seq<char>,
> {
    ms.map_values(|m: Seq<char>| spec_member_disp(m, key, crate_prefix))
}

/// The lines of one group, and the trait and type of a trait implementation with nothing to
/// list, which is rendered with the others like it at the end.
pub open spec fn group_output(
    key: Seq<char>,
    is_impl: bool,
    header: Option<Seq<char>>,
    shown: Seq<Seq<char>>,
    crate_prefix: Seq<char>,
) -> (Seq<Seq<char>>, Option<(Seq<char>, Seq<char>)>) {
    if is_impl {
        let h = match header {
            Some(t) => t,
            None => key,
        };
        let k = kept(shown);
        if k.len() == 0 {
            let rest = h.skip(5);
            if starts_with(h, "impl "@) && contains(rest, " for "@) {
                (Seq::empty(), Some((before_first(rest, " for "@), after_first(rest, " for "@))))
            } else {
                (Seq::empty(), None)
            }
        } else {
            (seq!["- `"@ + h + "`:"@] + bullets(k, "  - `"@, "`"@), None)
        }
    } else if key == crate_prefix {
        (bullets(member_disps(shown, key, crate_prefix), "- `"@, "`"@), None)
    } else {
        let header = spec_disp(key, crate_prefix);
        if shown.len() == 0 {
            (seq!["- `"@ + header + "`"@], None)
        } else if shown.len() == 1 {
            (seq!["- `"@ + header + "::"@ + spec_member_disp(shown[0], key, crate_prefix) + "`"@], None)
        } else {
            let ms = member_disps(shown, key, crate_prefix);
            let one = "- `"@ + header + "::{"@ + join(ms, ", "@) + "}`"@;
            if one.len() <= WIDTH {
                (seq![one], None)
            } else {
                (seq!["- `"@ + header + "`:"@] + bullets(ms, "  - `"@, "`"@), None)
            }
        }
    }
}

/// The lines of the first `n` groups, and their memberless trait implementations.
pub open spec fn groups_output(st: PlainView, n: int, crate_prefix: Seq<char>) -> (
    Seq<Seq<char>>,
    Seq<(Seq<char>, Seq<char>)>,
)
    decreases n,
{
    if n <= 0 {
        (Seq::empty(), Seq::empty())
    } else {
        let prev = groups_output(st, n - 1, crate_prefix);
        let g = n - 1;
        let out = group_output(
            st.0[g],
            st.1[g],
            st.2[g],
            displayed(st.3, g, st.1[g], st.0[g]),
            crate_prefix,
        );
        (
            prev.0 + out.0,
            match out.1 {
                Some(m) => prev.1.push(m),
                None => prev.1,
            },
        )
    }
}

/// The types of memberless implementations, with repeats.
pub open spec fn selfs_of(ml: Seq<(Seq<char>, Seq<char>)>) -> Seq<Seq<char>> {
    ml.map_values(|p: (Seq<char>, Seq<char>)| p.1)
}

/// The traits of memberless implementations, with repeats.
pub open spec fn traits_of(ml: Seq<(Seq<char>, Seq<char>)>) -> Seq<Seq<char>> {
    ml.map_values(|p: (Seq<char>, Seq<char>)| p.0)
}

/// The traits implemented, without members, for a type.
pub open spec fn traits_for(ml: Seq<(Seq<char>, Seq<char>)>, s: Seq<char>) -> Seq<Seq<char>>
    decreases ml.len(),
{
    if ml.len() == 0 {
        Seq::empty()
    } else {
        traits_for(ml.drop_last(), s) + if ml.last().1 == s {
            seq![ml.last().0]
        } else {
            Seq::empty()
        }
    }
}

/// The types that implement a trait without members.
pub open spec fn selfs_for(ml: Seq<(Seq<char>, Seq<char>)>, t: Seq<char>) -> Seq<Seq<char>>
    decreases ml.len(),
{
    if ml.len() == 0 {
        Seq::empty()
    } else {
        selfs_for(ml.drop_last(), t) + if ml.last().0 == t {
            seq![ml.last().1]
        } else {
            Seq::empty()
        }
    }
}

/// Types with two or more memberless implementations: one line listing the traits.
pub open spec fn multi_lines(ml: Seq<(Seq<char>, Seq<char>)>, order: Seq<Seq<char>>) -> Seq<
    Seq<char>,
>
    decreases order.len(),
{
    if order.len() == 0 {
        Seq::empty()
    } else {
        let ts = traits_for(ml, order.last());
        multi_lines(ml, order.drop_last()) + if ts.len() >= 2 {
            seq!["- `impl {"@ + join(ts, ", "@) + "} for "@ + order.last() + "`"@]
        } else {
            Seq::empty()
        }
    }
}

/// Types with a single memberless implementation, with its trait.
pub open spec fn singles(ml: Seq<(Seq<char>, Seq<char>)>, order: Seq<Seq<char>>) -> Seq<
    (Seq<char>, Seq<char>),
>
    decreases order.len(),
{
    if order.len() == 0 {
        Seq::empty()
    } else {
        let ts = traits_for(ml, order.last());
        singles(ml, order.drop_last()) + if ts.len() < 2 && ts.len() > 0 {
            seq![(ts[0], order.last())]
        } else {
            Seq::empty()
        }
    }
}

/// Single implementations grouped by trait: one line for one type, else a list.
pub open spec fn by_trait_lines(sg: Seq<(Seq<char>, Seq<char>)>, order: Seq<Seq<char>>) -> Seq<
    Seq<char>,
>
    decreases order.len(),
{
    if order.len() == 0 {
        Seq::empty()
    } else {
        let t = order.last();
        let ss = selfs_for(sg, t);
        by_trait_lines(sg, order.drop_last()) + if ss.len() == 1 {
            seq!["- `impl "@ + t + " for "@ + ss[0] + "`"@]
        } else {
            seq!["- `impl "@ + t + "` for:"@] + bullets(ss, "  - `"@, "`"@)
        }
    }
}

/// The memberless trait implementations: by type where a type has several, then by trait.
pub open spec fn memberless_lines(ml: Seq<(Seq<char>, Seq<char>)>) -> Seq<Seq<char>> {
    let order = firsts(selfs_of(ml));
    let sg = singles(ml, order);
    multi_lines(ml, order) + by_trait_lines(sg, firsts(traits_of(sg)))
}

/// The added or removed section: items grouped by owner or trait implementation.
pub open spec fn spec_render_plain(lines: Seq<Seq<char>>, crate_prefix: Seq<char>, traits: Seq<TraitRow>) -> Seq<
    Seq<char>,
> {
    let sigs = nonblank(lines);
    let ctx = (crate_prefix, traits, lazy_keys(sigs), firsts(module_paths(sigs)));
    let st = plain_scan(sigs, ctx);
    let out = groups_output(st, st.0.len() as int, crate_prefix);
    out.0 + memberless_lines(out.1)
}

/// One API diff section as markdown bullet lines.
pub open spec fn spec_render(
    lines: Seq<Seq<char>>,
    section: Section,
    crate_prefix: Seq<char>,
    traits: Seq<TraitRow>,
) -> Seq<Seq<char>> {
    if section == Section::Changed {
        spec_render_changed(lines, crate_prefix)
    } else {
        spec_render_plain(lines, crate_prefix, traits)
    }
}


fn trim_start_chars(s: &Vec<char>) -> (r: Vec<char>)
    ensures
        r@ == trim_start(s@),
{
    let mut a: usize = 0;
    assert(s@.skip(0) =~= s@);
    while a < s.len() && crate::text::ws(s[a])
        invariant
            a <= s.len(),
            crate::text::ws_prefix_len(s@) == a + crate::text::ws_prefix_len(s@.skip(a as int)),
        decreases s.len() - a,
    {
        assert(s@.skip(a as int).skip(1) =~= s@.skip(a + 1));
        a += 1;
    }
    assert(crate::text::ws_prefix_len(s@.skip(a as int)) == 0);
    slice_chars(s, a, s.len())
}

fn find_trait(traits: &Vec<(String, String, String)>, self_short: &str, member: &str) -> (r: Option<
    String,
>)
    ensures
        match r {
            Some(t) => trait_of(tviews(traits@), self_short@, member@) == Some(t@),
            None => trait_of(tviews(traits@), self_short@, member@) is None,
        },
{
    let ghost tv = tviews(traits@);
    let mut i: usize = traits.len();
    assert(tv.take(i as int) =~= tv);
    while i > 0
        invariant
            i <= traits.len(),
            tv == tviews(traits@),
            trait_of(tv, self_short@, member@) == trait_of(tv.take(i as int), self_short@, member@),
        decreases i,
    {
        assert(tv.take(i as int).last() == tv[i - 1]);
        if str_eq(traits[i - 1].0.as_str(), self_short) && str_eq(traits[i - 1].1.as_str(), member) {
            return Some(traits[i - 1].2.clone());
        }
        assert(tv.take(i as int).drop_last() =~= tv.take(i - 1));
        i -= 1;
    }
    None
}

/// The plain values of an optional string.
pub open spec fn oview(o: Option<String>) -> Option<Seq<char>> {
    match o {
        Some(s) => Some(s@),
        None => None,
    }
}

fn concat3(a: &str, b: &str, c: &str, d: &str) -> (r: String)
    ensures
        r@ == a@ + b@ + c@ + d@,
{
    let mut v = chars_of(a);
    push_str_chars(&mut v, b);
    push_str_chars(&mut v, c);
    push_str_chars(&mut v, d);
    string_of(&v)
}

fn impl_group(
    p: &ChangelogPatterns,
    signature: &str,
    group: &str,
    qualified_path: &str,
    crate_prefix: &str,
    traits: &Vec<(String, String, String)>,
) -> (r: Option<(String, bool, Option<String>)>)
    requires
        p.wf(),
    ensures
        match r {
            Some(i) => spec_impl_group(signature@, group@, qualified_path@, crate_prefix@, tviews(traits@))
                == Some((i.0@, i.1, oview(i.2))),
            None => spec_impl_group(signature@, group@, qualified_path@, crate_prefix@, tviews(traits@))
                is None,
        },
{
    let qp = chars_of(qualified_path);
    if has_prefix(&qp, &chars_of("impl ")) {
        proof {
            reveal_strlit("impl ");
        }
        let body = trim_start_chars(&slice_chars(&qp, 5, qp.len()));
        assert(qp@.subrange(5, qp@.len() as int) =~= qualified_path@.skip(5));
        let sep = chars_of(" for ");
        let first = match find(&body, &sep) {
            Some(i) => i,
            None => return None,
        };
        proof {
            lemma_first_at_unique(body@, sep@, first as int);
        }
        let trait_path = slice_chars(&body, 0, first);
        assert(trait_path@ =~= before_first(body@, " for "@));
        let self_raw = crate::group::after_last_chars(&body, " for ");
        let self_path = shorten_inner_gen(p, string_of(&self_raw).as_str());
        let tp = string_of(&trait_path);
        let key = concat3("impl ", last_seg(p, tp.as_str()).as_str(), " for ", self_path.as_str());
        let header = concat3("impl ", trait_disp(p, tp.as_str()).as_str(), " for ", self_path.as_str());
        return Some((key, true, Some(header)));
    }
    let self_short = last_seg(p, group);
    let member = last_seg(p, qualified_path);
    match find_trait(traits, self_short.as_str(), member.as_str()) {
        Some(t) => {
            let mut k = chars_of("impl ");
            push_str_chars(&mut k, t.as_str());
            push_str_chars(&mut k, " for ");
            push_str_chars(&mut k, disp(group, crate_prefix).as_str());
            push_str_chars(&mut k, self_generics(p, signature, self_short.as_str()).as_str());
            Some((string_of(&k), false, None))
        },
        None => None,
    }
}

fn contains_pair(v: &Vec<(String, String)>, a: &str, b: &str) -> (r: bool)
    ensures
        r == crate::group::pviews(v@).contains((a@, b@)),
{
    let ghost pv = crate::group::pviews(v@);
    let mut i: usize = 0;
    while i < v.len()
        invariant
            i <= v.len(),
            pv == crate::group::pviews(v@),
            forall|k: int| 0 <= k < i ==> pv[k] != (a@, b@),
        decreases v.len() - i,
    {
        if str_eq(v[i].0.as_str(), a) && str_eq(v[i].1.as_str(), b) {
            assert(pv[i as int] == (a@, b@));
            return true;
        }
        i += 1;
    }
    false
}

fn contains_str(v: &Vec<String>, x: &str) -> (r: bool)
    ensures
        r == sviews(v@).contains(x@),
{
    let ghost sv = sviews(v@);
    let mut i: usize = 0;
    while i < v.len()
        invariant
            i <= v.len(),
            sv == sviews(v@),
            forall|k: int| 0 <= k < i ==> sv[k] != x@,
        decreases v.len() - i,
    {
        if str_eq(v[i].as_str(), x) {
            assert(sv[i as int] == x@);
            return true;
        }
        i += 1;
    }
    false
}

fn push_string(out: &mut Vec<String>, s: String)
    ensures
        sviews(final(out)@) == sviews(old(out)@).push(s@),
        final(out)@.len() == old(out)@.len() + 1,
{
    let ghost before = out@;
    out.push(s);
    assert(sviews(out@) =~= sviews(before).push(s@));
}

fn push_pair(v: &mut Vec<(String, String)>, a: String, b: String)
    ensures
        crate::group::pviews(final(v)@) == crate::group::pviews(old(v)@).push((a@, b@)),
{
    let ghost before = v@;
    v.push((a, b));
    assert(crate::group::pviews(v@) =~= crate::group::pviews(before).push((a@, b@)));
}

fn render_changed(p: &ChangelogPatterns, lines: &Vec<String>, crate_prefix: &str) -> (r: Vec<String>)
    requires
        p.wf(),
    ensures
        sviews(r@) == spec_render_changed(sviews(lines@), crate_prefix@),
{
    let ghost lv = sviews(lines@);
    let mut out: Vec<String> = Vec::new();
    let mut pending = String::new();
    let mut skip = false;
    let mut seen: Vec<(String, String)> = Vec::new();
    let mut i: usize = 0;
    assert(lv.take(0) =~= Seq::<Seq<char>>::empty());
    assert(sviews(out@) =~= Seq::<Seq<char>>::empty());
    assert(crate::group::pviews(seen@) =~= Seq::<(Seq<char>, Seq<char>)>::empty());
    proof {
        reveal_strlit("  - ");
        reveal_strlit("  + ");
    }
    while i < lines.len()
        invariant
            p.wf(),
            i <= lines.len(),
            lv == sviews(lines@),
            (sviews(out@), pending@, skip, crate::group::pviews(seen@)) == changed_scan(
                lv.take(i as int),
                crate_prefix@,
            ),
        decreases lines.len() - i,
    {
        assert(lv.take(i + 1).drop_last() =~= lv.take(i as int));
        assert(lv.take(i + 1).last() == lines@[i as int]@);
        proof {
            reveal_strlit("  - ");
            reveal_strlit("  + ");
        }
        let lc = chars_of(lines[i].as_str());
        if trim_chars(&lc).len() > 0 {
            if has_prefix(&lc, &chars_of("  - ")) {
                let old = string_of(&slice_chars(&lc, 4, lc.len()));
                assert(lc@.subrange(4, lc@.len() as int) =~= lc@.skip(4));
                skip = is_proptest(p, old.as_str());
                pending = relsig(p, old.as_str(), crate_prefix);
            } else if has_prefix(&lc, &chars_of("  + ")) {
                if skip {
                    skip = false;
                } else {
                    let raw = string_of(&slice_chars(&lc, 4, lc.len()));
                    assert(lc@.subrange(4, lc@.len() as int) =~= lc@.skip(4));
                    let new = relsig(p, raw.as_str(), crate_prefix);
                    if !contains_pair(&seen, pending.as_str(), new.as_str()) {
                        let ghost before = sviews(out@);
                        push_string(&mut out, concat3("- `", pending.as_str(), "`", ""));
                        push_string(&mut out, concat3("  → `", new.as_str(), "`", ""));
                        assert(sviews(out@) =~= before + seq![
                            "- `"@ + pending@ + "`"@,
                            "  → `"@ + new@ + "`"@,
                        ]) by {
                            reveal_strlit("");
                        }
                        push_pair(&mut seen, pending.clone(), new);
                    }
                }
            }
        }
        i += 1;
    }
    assert(lv.take(lines.len() as int) =~= lv);
    out
}


/// The plain values of optional strings.
pub open spec fn oviews(h: Seq<Option<String>>) -> Seq<Option<Seq<char>>> {
    h.map_values(|o: Option<String>| oview(o))
}

/// The plain values of positioned members.
pub open spec fn mviews(m: Seq<(usize, String)>) -> Seq<(int, Seq<char>)> {
    m.map_values(|e: (usize, String)| (e.0 as int, e.1@))
}

fn nonblank_exec(lines: &Vec<String>) -> (r: Vec<String>)
    ensures
        sviews(r@) == nonblank(sviews(lines@)),
{
    let ghost lv = sviews(lines@);
    let mut out: Vec<String> = Vec::new();
    let mut i: usize = 0;
    assert(sviews(out@) =~= nonblank(lv.take(0)));
    while i < lines.len()
        invariant
            i <= lines.len(),
            lv == sviews(lines@),
            sviews(out@) == nonblank(lv.take(i as int)),
        decreases lines.len() - i,
    {
        assert(lv.take(i + 1).drop_last() =~= lv.take(i as int));
        assert(lv.take(i + 1).last() == lines@[i as int]@);
        if trim_chars(&chars_of(lines[i].as_str())).len() > 0 {
            push_string(&mut out, lines[i].clone());
        } else {
            assert(sviews(out@) =~= nonblank(lv.take(i as int)) + Seq::<Seq<char>>::empty());
        }
        i += 1;
    }
    assert(lv.take(lines.len() as int) =~= lv);
    out
}

fn lazy_and_modules(p: &ChangelogPatterns, sigs: &Vec<String>) -> (r: (Vec<String>, Vec<String>))
    requires
        p.wf(),
    ensures
        sviews(r.0@) == lazy_keys(sviews(sigs@)),
        sviews(r.1@) == firsts(module_paths(sviews(sigs@))),
{
    let ghost sv = sviews(sigs@);
    let mut lazy: Vec<String> = Vec::new();
    let mut mods: Vec<String> = Vec::new();
    let mut i: usize = 0;
    assert(sviews(lazy@) =~= lazy_keys(sv.take(0)));
    assert(sviews(mods@) =~= module_paths(sv.take(0)));
    while i < sigs.len()
        invariant
            p.wf(),
            i <= sigs.len(),
            sv == sviews(sigs@),
            sviews(lazy@) == lazy_keys(sv.take(i as int)),
            sviews(mods@) == module_paths(sv.take(i as int)),
        decreases sigs.len() - i,
    {
        assert(sv.take(i + 1).drop_last() =~= sv.take(i as int));
        assert(sv.take(i + 1).last() == sigs@[i as int]@);
        let line = sigs[i].as_str();
        let lc = chars_of(line);
        if (has_prefix(&lc, &chars_of("impl<")) || has_prefix(&lc, &chars_of("impl "))) && has(
            &lc,
            &chars_of("LazyStatic"),
        ) && has(&lc, &chars_of(" for ")) {
            push_string(&mut lazy, group_key(p, line));
        } else {
            assert(sviews(lazy@) =~= lazy_keys(sv.take(i as int)) + Seq::<Seq<char>>::empty());
        }
        let m = strip_attribute(p, line);
        if p.pub_module.is_match(m.as_str()) {
            push_string(&mut mods, p.pub_module.replace(m.as_str(), ""));
        } else {
            assert(sviews(mods@) =~= module_paths(sv.take(i as int)) + Seq::<Seq<char>>::empty());
        }
        i += 1;
    }
    assert(sv.take(sigs.len() as int) =~= sv);
    let order = crate::group::firsts_exec(&mods);
    (lazy, order)
}

fn is_subsumed(modules: &Vec<String>, group: &str, qualified_path: &str) -> (r: bool)
    ensures
        r == subsumed(sviews(modules@), group@, qualified_path@),
{
    let ghost mv = sviews(modules@);
    let g = chars_of(group);
    let mut i: usize = 0;
    while i < modules.len()
        invariant
            i <= modules.len(),
            mv == sviews(modules@),
            g@ == group@,
            forall|k: int|
                0 <= k < i ==> !(qualified_path@ != #[trigger] mv[k] && (group@ == mv[k]
                    || starts_with(group@, mv[k] + "::"@))),
        decreases modules.len() - i,
    {
        let m = modules[i].as_str();
        let under = prefix_sep(m);
        if !str_eq(qualified_path, m) && (str_eq(group, m) || has_prefix(&g, &under)) {
            assert(mv[i as int] == m@);
            return true;
        }
        i += 1;
    }
    false
}

fn index_of(v: &Vec<String>, x: &str) -> (r: Option<usize>)
    ensures
        match r {
            Some(i) => i < v.len() && index_from(sviews(v@), x@, 0) == i,
            None => index_from(sviews(v@), x@, 0) == -1,
        },
{
    let ghost sv = sviews(v@);
    let mut i: usize = 0;
    while i < v.len()
        invariant
            i <= v.len(),
            sv == sviews(v@),
            index_from(sv, x@, 0) == index_from(sv, x@, i as int),
        decreases v.len() - i,
    {
        if str_eq(v[i].as_str(), x) {
            return Some(i);
        }
        i += 1;
    }
    None
}

proof fn lemma_index_from(s: Seq<Seq<char>>, x: Seq<char>, i: int)
    requires
        0 <= i,
    ensures
        index_from(s, x, i) == -1 || (i <= index_from(s, x, i) < s.len()),
    decreases s.len() - i,
{
    if i < s.len() && s[i] != x {
        lemma_index_from(s, x, i + 1);
    }
}

fn plain_step_exec(
    p: &ChangelogPatterns,
    keys: &mut Vec<String>,
    impls: &mut Vec<bool>,
    headers: &mut Vec<Option<String>>,
    members: &mut Vec<(usize, String)>,
    seen: &mut Vec<(String, String)>,
    signature: &str,
    crate_prefix: &str,
    traits: &Vec<(String, String, String)>,
    lazy: &Vec<String>,
    modules: &Vec<String>,
)
    requires
        p.wf(),
        old(keys)@.len() == old(impls)@.len(),
        old(keys)@.len() == old(headers)@.len(),
    ensures
        final(keys)@.len() == final(impls)@.len(),
        final(keys)@.len() == final(headers)@.len(),
        (sviews(final(keys)@), final(impls)@, oviews(final(headers)@), mviews(final(members)@),
            crate::group::pviews(final(seen)@)) == plain_step(
            (sviews(old(keys)@), old(impls)@, oviews(old(headers)@), mviews(old(members)@),
                crate::group::pviews(old(seen)@)),
            signature@,
            (crate_prefix@, tviews(traits@), sviews(lazy@), sviews(modules@)),
        ),
{
    let sc = chars_of(signature);
    let impl_line = has_prefix(&sc, &chars_of("impl<")) || has_prefix(&sc, &chars_of("impl "));
    if impl_line && !crate::text::has(&sc, &chars_of(" for ")) {
        return;
    }
    if is_proptest(p, signature) || p.structural_eq.is_match(signature) {
        return;
    }
    let og = group_key(p, signature);
    let qp = qual_path(p, signature, crate_prefix);
    if contains_str(lazy, og.as_str()) && !str_eq(qp.as_str(), og.as_str()) {
        return;
    }
    if is_subsumed(modules, og.as_str(), qp.as_str()) {
        return;
    }
    if contains_pair(seen, og.as_str(), qp.as_str()) {
        return;
    }
    push_pair(seen, og.clone(), qp.clone());
    let info = impl_group(p, signature, og.as_str(), qp.as_str(), crate_prefix, traits);
    let key = match &info {
        Some(i) => i.0.clone(),
        None => og.clone(),
    };
    let ghost k0 = sviews(keys@);
    let ghost i0 = impls@;
    let ghost h0 = oviews(headers@);
    let idx: usize = match index_of(keys, key.as_str()) {
        Some(i) => i,
        None => {
            push_string(keys, key);
            let ghost ib = impls@;
            impls.push(false);
            let ghost hb = headers@;
            headers.push(None);
            assert(oviews(headers@) =~= oviews(hb).push(None));
            keys.len() - 1
        },
    };
    proof {
        lemma_index_from(k0, key@, 0);
    }
    let ghost k1 = sviews(keys@);
    let ghost i1 = impls@;
    let ghost h1 = oviews(headers@);
    let ghost m1 = mviews(members@);
    match info {
        Some(i) => {
            impls.set(idx, true);
            if i.1 {
                let ghost hb = headers@;
                headers.set(idx, i.2);
                assert(oviews(headers@) =~= oviews(hb).update(idx as int, oview(i.2)));
            } else {
                let ghost mb = members@;
                members.push((idx, last_seg(p, qp.as_str())));
                assert(mviews(members@) =~= mviews(mb).push((idx as int, members@.last().1@)));
            }
        },
        None => {
            let ghost mb = members@;
            members.push((idx, qp));
            assert(mviews(members@) =~= mviews(mb).push((idx as int, members@.last().1@)));
        },
    }
}


fn displayed_exec(members: &Vec<(usize, String)>, g: usize, is_impl: bool, key: &str) -> (r: Vec<
    String,
>)
    ensures
        sviews(r@) == displayed(mviews(members@), g as int, is_impl, key@),
{
    let ghost mv = mviews(members@);
    let mut out: Vec<String> = Vec::new();
    let mut i: usize = 0;
    assert(sviews(out@) =~= displayed(mv.take(0), g as int, is_impl, key@));
    while i < members.len()
        invariant
            i <= members.len(),
            mv == mviews(members@),
            sviews(out@) == displayed(mv.take(i as int), g as int, is_impl, key@),
        decreases members.len() - i,
    {
        assert(mv.take(i + 1).drop_last() =~= mv.take(i as int));
        assert(mv.take(i + 1).last() == mv[i as int]);
        if members[i].0 == g && (is_impl || !str_eq(members[i].1.as_str(), key)) {
            push_string(&mut out, members[i].1.clone());
        } else {
            assert(sviews(out@) =~= displayed(mv.take(i as int), g as int, is_impl, key@)
                + Seq::<Seq<char>>::empty());
        }
        i += 1;
    }
    assert(mv.take(members.len() as int) =~= mv);
    out
}

fn kept_exec(ms: &Vec<String>) -> (r: Vec<String>)
    ensures
        sviews(r@) == kept(sviews(ms@)),
{
    let ghost sv = sviews(ms@);
    let mut out: Vec<String> = Vec::new();
    let mut i: usize = 0;
    assert(sviews(out@) =~= kept(sv.take(0)));
    while i < ms.len()
        invariant
            i <= ms.len(),
            sv == sviews(ms@),
            sviews(out@) == kept(sv.take(i as int)),
        decreases ms.len() - i,
    {
        assert(sv.take(i + 1).drop_last() =~= sv.take(i as int));
        assert(sv.take(i + 1).last() == ms@[i as int]@);
        if !boilerplate(ms[i].as_str()) {
            push_string(&mut out, ms[i].clone());
        } else {
            assert(sviews(out@) =~= kept(sv.take(i as int)) + Seq::<Seq<char>>::empty());
        }
        i += 1;
    }
    assert(sv.take(ms.len() as int) =~= sv);
    out
}

fn push_bullets(out: &mut Vec<String>, ms: &Vec<String>, pre: &str, post: &str)
    ensures
        sviews(final(out)@) == sviews(old(out)@) + bullets(sviews(ms@), pre@, post@),
{
    let ghost sv = sviews(ms@);
    let ghost base = sviews(out@);
    let mut i: usize = 0;
    assert(sviews(out@) =~= base + bullets(sv.take(0), pre@, post@));
    while i < ms.len()
        invariant
            i <= ms.len(),
            sv == sviews(ms@),
            sviews(out@) == base + bullets(sv.take(i as int), pre@, post@),
        decreases ms.len() - i,
    {
        push_string(out, concat3(pre, ms[i].as_str(), post, ""));
        proof {
            reveal_strlit("");
        }
        assert(sviews(out@) =~= base + bullets(sv.take(i + 1), pre@, post@));
        i += 1;
    }
    assert(sv.take(ms.len() as int) =~= sv);
}

fn member_disps_exec(ms: &Vec<String>, key: &str, crate_prefix: &str) -> (r: Vec<String>)
    ensures
        sviews(r@) == member_disps(sviews(ms@), key@, crate_prefix@),
{
    let ghost sv = sviews(ms@);
    let mut out: Vec<String> = Vec::new();
    let mut i: usize = 0;
    assert(sviews(out@) =~= member_disps(sv.take(0), key@, crate_prefix@));
    while i < ms.len()
        invariant
            i <= ms.len(),
            sv == sviews(ms@),
            sviews(out@) == member_disps(sv.take(i as int), key@, crate_prefix@),
        decreases ms.len() - i,
    {
        push_string(&mut out, member_disp(ms[i].as_str(), key, crate_prefix));
        assert(sviews(out@) =~= member_disps(sv.take(i + 1), key@, crate_prefix@));
        i += 1;
    }
    assert(sv.take(ms.len() as int) =~= sv);
    out
}

fn split_for(h: &Vec<char>) -> (r: Option<(String, String)>)
    ensures
        match r {
            Some(pr) => contains(h@, " for "@) && pr.0@ == before_first(h@, " for "@) && pr.1@
                == after_first(h@, " for "@),
            None => !contains(h@, " for "@),
        },
{
    let sep = chars_of(" for ");
    match find(h, &sep) {
        Some(i) => {
            proof {
                lemma_first_at_unique(h@, sep@, i as int);
            }
            assert(occurs_at(h@, sep@, i as int));
            let a = slice_chars(h, 0, i);
            assert(a@ =~= h@.take(i as int));
            assert(i + sep.len() <= h.len());
            let b = slice_chars(h, i + sep.len(), h.len());
            Some((string_of(&a), string_of(&b)))
        },
        None => None,
    }
}

fn group_output_exec(
    out: &mut Vec<String>,
    key: &str,
    is_impl: bool,
    header: &Option<String>,
    shown: &Vec<String>,
    crate_prefix: &str,
) -> (r: Option<(String, String)>)
    ensures
        sviews(final(out)@) == sviews(old(out)@) + group_output(
            key@,
            is_impl,
            oview(*header),
            sviews(shown@),
            crate_prefix@,
        ).0,
        match r {
            Some(pr) => group_output(key@, is_impl, oview(*header), sviews(shown@), crate_prefix@).1
                == Some((pr.0@, pr.1@)),
            None => group_output(key@, is_impl, oview(*header), sviews(shown@), crate_prefix@).1 is None,
        },
{
    let ghost base = sviews(out@);
    if is_impl {
        let h = match header {
            Some(t) => t.clone(),
            None => string_of(&chars_of(key)),
        };
        let k = kept_exec(shown);
        if k.len() == 0 {
            assert(sviews(k@).len() == 0);
            let hc = chars_of(h.as_str());
            assert(sviews(out@) =~= base + Seq::<Seq<char>>::empty());
            if has_prefix(&hc, &chars_of("impl ")) {
                proof {
                    reveal_strlit("impl ");
                }
                let rest = slice_chars(&hc, 5, hc.len());
                assert(rest@ =~= h@.skip(5));
                return split_for(&rest);
            }
            return None;
        }
        assert(sviews(k@).len() > 0);
        push_string(out, concat3("- `", h.as_str(), "`:", ""));
        push_bullets(out, &k, "  - `", "`");
        proof {
            reveal_strlit("");
        }
        assert(sviews(out@) =~= base + (seq!["- `"@ + h@ + "`:"@] + bullets(sviews(k@), "  - `"@, "`"@)));
        return None;
    }
    if str_eq(key, crate_prefix) {
        let ms = member_disps_exec(shown, key, crate_prefix);
        push_bullets(out, &ms, "- `", "`");
        return None;
    }
    let header_text = disp(key, crate_prefix);
    proof {
        reveal_strlit("");
    }
    if shown.len() == 0 {
        push_string(out, concat3("- `", header_text.as_str(), "`", ""));
        return None;
    }
    if shown.len() == 1 {
        let mut line = chars_of("- `");
        push_str_chars(&mut line, header_text.as_str());
        push_str_chars(&mut line, "::");
        push_str_chars(&mut line, member_disp(shown[0].as_str(), key, crate_prefix).as_str());
        push_str_chars(&mut line, "`");
        push_string(out, string_of(&line));
        return None;
    }
    let ms = member_disps_exec(shown, key, crate_prefix);
    let joined = crate::text::join_strings(&ms, ", ");
    assert(sviews(ms@) =~= ms@.map_values(|p: String| p@));
    let mut one = chars_of("- `");
    push_str_chars(&mut one, header_text.as_str());
    push_str_chars(&mut one, "::{");
    push_str_chars(&mut one, joined.as_str());
    push_str_chars(&mut one, "}`");
    if one.len() <= WIDTH {
        push_string(out, string_of(&one));
    } else {
        push_string(out, concat3("- `", header_text.as_str(), "`:", ""));
        push_bullets(out, &ms, "  - `", "`");
        assert(sviews(out@) =~= base + (seq!["- `"@ + header_text@ + "`:"@] + bullets(
            sviews(ms@),
            "  - `"@,
            "`"@,
        )));
    }
    None
}


fn traits_for_exec(ml: &Vec<(String, String)>, s: &str, by_self: bool) -> (r: Vec<String>)
    ensures
        by_self ==> sviews(r@) == traits_for(crate::group::pviews(ml@), s@),
        !by_self ==> sviews(r@) == selfs_for(crate::group::pviews(ml@), s@),
{
    let ghost pv = crate::group::pviews(ml@);
    let mut out: Vec<String> = Vec::new();
    let mut i: usize = 0;
    assert(sviews(out@) =~= traits_for(pv.take(0), s@));
    assert(sviews(out@) =~= selfs_for(pv.take(0), s@));
    while i < ml.len()
        invariant
            i <= ml.len(),
            pv == crate::group::pviews(ml@),
            by_self ==> sviews(out@) == traits_for(pv.take(i as int), s@),
            !by_self ==> sviews(out@) == selfs_for(pv.take(i as int), s@),
        decreases ml.len() - i,
    {
        assert(pv.take(i + 1).drop_last() =~= pv.take(i as int));
        assert(pv.take(i + 1).last() == pv[i as int]);
        if by_self {
            if str_eq(ml[i].1.as_str(), s) {
                push_string(&mut out, ml[i].0.clone());
            } else {
                assert(sviews(out@) =~= traits_for(pv.take(i as int), s@) + Seq::<Seq<char>>::empty());
            }
        } else {
            if str_eq(ml[i].0.as_str(), s) {
                push_string(&mut out, ml[i].1.clone());
            } else {
                assert(sviews(out@) =~= selfs_for(pv.take(i as int), s@) + Seq::<Seq<char>>::empty());
            }
        }
        i += 1;
    }
    assert(pv.take(ml.len() as int) =~= pv);
    out
}

fn column(ml: &Vec<(String, String)>, second: bool) -> (r: Vec<String>)
    ensures
        second ==> sviews(r@) == selfs_of(crate::group::pviews(ml@)),
        !second ==> sviews(r@) == traits_of(crate::group::pviews(ml@)),
{
    let ghost pv = crate::group::pviews(ml@);
    let mut out: Vec<String> = Vec::new();
    let mut i: usize = 0;
    while i < ml.len()
        invariant
            i <= ml.len(),
            pv == crate::group::pviews(ml@),
            second ==> sviews(out@) == selfs_of(pv).take(i as int),
            !second ==> sviews(out@) == traits_of(pv).take(i as int),
        decreases ml.len() - i,
    {
        if second {
            push_string(&mut out, ml[i].1.clone());
            assert(selfs_of(pv).take(i + 1) =~= selfs_of(pv).take(i as int).push(pv[i as int].1));
        } else {
            push_string(&mut out, ml[i].0.clone());
            assert(traits_of(pv).take(i + 1) =~= traits_of(pv).take(i as int).push(pv[i as int].0));
        }
        i += 1;
    }
    assert(selfs_of(pv).take(ml.len() as int) =~= selfs_of(pv));
    assert(traits_of(pv).take(ml.len() as int) =~= traits_of(pv));
    out
}

fn emit_memberless(out: &mut Vec<String>, ml: &Vec<(String, String)>)
    ensures
        sviews(final(out)@) == sviews(old(out)@) + memberless_lines(crate::group::pviews(ml@)),
{
    let ghost pv = crate::group::pviews(ml@);
    let ghost base = sviews(out@);
    let order = crate::group::firsts_exec(&column(ml, true));
    let ghost ov = sviews(order@);
    let mut sg: Vec<(String, String)> = Vec::new();
    let mut i: usize = 0;
    assert(sviews(out@) =~= base + multi_lines(pv, ov.take(0)));
    assert(crate::group::pviews(sg@) =~= singles(pv, ov.take(0)));
    while i < order.len()
        invariant
            i <= order.len(),
            pv == crate::group::pviews(ml@),
            ov == sviews(order@),
            sviews(out@) == base + multi_lines(pv, ov.take(i as int)),
            crate::group::pviews(sg@) == singles(pv, ov.take(i as int)),
        decreases order.len() - i,
    {
        assert(ov.take(i + 1).drop_last() =~= ov.take(i as int));
        assert(ov.take(i + 1).last() == ov[i as int]);
        let ts = traits_for_exec(ml, order[i].as_str(), true);
        if ts.len() >= 2 {
            let joined = crate::text::join_strings(&ts, ", ");
            assert(sviews(ts@) =~= ts@.map_values(|p: String| p@));
            let mut line = chars_of("- `impl {");
            push_str_chars(&mut line, joined.as_str());
            push_str_chars(&mut line, "} for ");
            push_str_chars(&mut line, order[i].as_str());
            push_str_chars(&mut line, "`");
            push_string(out, string_of(&line));
            assert(sviews(out@) =~= base + multi_lines(pv, ov.take(i + 1)));
            assert(crate::group::pviews(sg@) =~= singles(pv, ov.take(i + 1)));
        } else {
            assert(sviews(out@) =~= base + multi_lines(pv, ov.take(i + 1)));
            if ts.len() > 0 {
                push_pair(&mut sg, ts[0].clone(), order[i].clone());
                assert(sviews(ts@)[0] == ts@[0]@);
            }
            assert(crate::group::pviews(sg@) =~= singles(pv, ov.take(i + 1)));
        }
        i += 1;
    }
    assert(ov.take(order.len() as int) =~= ov);
    let ghost mid = sviews(out@);
    let ghost sgv = crate::group::pviews(sg@);
    let torder = crate::group::firsts_exec(&column(&sg, false));
    let ghost tv = sviews(torder@);
    let mut j: usize = 0;
    assert(sviews(out@) =~= mid + by_trait_lines(sgv, tv.take(0)));
    while j < torder.len()
        invariant
            j <= torder.len(),
            sgv == crate::group::pviews(sg@),
            tv == sviews(torder@),
            sviews(out@) == mid + by_trait_lines(sgv, tv.take(j as int)),
        decreases torder.len() - j,
    {
        assert(tv.take(j + 1).drop_last() =~= tv.take(j as int));
        assert(tv.take(j + 1).last() == tv[j as int]);
        let t = torder[j].as_str();
        let ss = traits_for_exec(&sg, t, false);
        let ghost before = sviews(out@);
        if ss.len() == 1 {
            let mut line = chars_of("- `impl ");
            push_str_chars(&mut line, t);
            push_str_chars(&mut line, " for ");
            push_str_chars(&mut line, ss[0].as_str());
            push_str_chars(&mut line, "`");
            push_string(out, string_of(&line));
            assert(sviews(ss@)[0] == ss@[0]@);
        } else {
            push_string(out, concat3("- `impl ", t, "` for:", ""));
            push_bullets(out, &ss, "  - `", "`");
            proof {
                reveal_strlit("");
            }
            assert(sviews(out@) =~= before + (seq!["- `impl "@ + t@ + "` for:"@] + bullets(
                sviews(ss@),
                "  - `"@,
                "`"@,
            )));
        }
        assert(sviews(out@) =~= mid + by_trait_lines(sgv, tv.take(j + 1)));
        j += 1;
    }
    assert(tv.take(torder.len() as int) =~= tv);
}

fn render_plain(
    p: &ChangelogPatterns,
    lines: &Vec<String>,
    crate_prefix: &str,
    traits: &Vec<(String, String, String)>,
) -> (r: Vec<String>)
    requires
        p.wf(),
    ensures
        sviews(r@) == spec_render_plain(sviews(lines@), crate_prefix@, tviews(traits@)),
{
    let sigs = nonblank_exec(lines);
    let (lazy, modules) = lazy_and_modules(p, &sigs);
    let ghost sv = sviews(sigs@);
    let ghost ctx = (crate_prefix@, tviews(traits@), sviews(lazy@), sviews(modules@));
    let mut keys: Vec<String> = Vec::new();
    let mut impls: Vec<bool> = Vec::new();
    let mut headers: Vec<Option<String>> = Vec::new();
    let mut members: Vec<(usize, String)> = Vec::new();
    let mut seen: Vec<(String, String)> = Vec::new();
    let mut i: usize = 0;
    assert((sviews(keys@), impls@, oviews(headers@), mviews(members@), crate::group::pviews(seen@))
        =~= plain_scan(sv.take(0), ctx));
    while i < sigs.len()
        invariant
            p.wf(),
            i <= sigs.len(),
            sv == sviews(sigs@),
            ctx == (crate_prefix@, tviews(traits@), sviews(lazy@), sviews(modules@)),
            keys@.len() == impls@.len(),
            keys@.len() == headers@.len(),
            (sviews(keys@), impls@, oviews(headers@), mviews(members@), crate::group::pviews(seen@))
                == plain_scan(sv.take(i as int), ctx),
        decreases sigs.len() - i,
    {
        assert(sv.take(i + 1).drop_last() =~= sv.take(i as int));
        assert(sv.take(i + 1).last() == sigs@[i as int]@);
        plain_step_exec(
            p,
            &mut keys,
            &mut impls,
            &mut headers,
            &mut members,
            &mut seen,
            sigs[i].as_str(),
            crate_prefix,
            traits,
            &lazy,
            &modules,
        );
        i += 1;
    }
    assert(sv.take(sigs.len() as int) =~= sv);
    let ghost st = plain_scan(sv, ctx);
    let mut out: Vec<String> = Vec::new();
    let mut ml: Vec<(String, String)> = Vec::new();
    let mut g: usize = 0;
    assert(sviews(out@) =~= groups_output(st, 0, crate_prefix@).0);
    assert(crate::group::pviews(ml@) =~= groups_output(st, 0, crate_prefix@).1);
    while g < keys.len()
        invariant
            g <= keys.len(),
            keys@.len() == impls@.len(),
            keys@.len() == headers@.len(),
            st == (sviews(keys@), impls@, oviews(headers@), mviews(members@), crate::group::pviews(seen@)),
            sviews(out@) == groups_output(st, g as int, crate_prefix@).0,
            crate::group::pviews(ml@) == groups_output(st, g as int, crate_prefix@).1,
        decreases keys.len() - g,
    {
        let shown = displayed_exec(&members, g, impls[g], keys[g].as_str());
        assert(st.0[g as int] == keys@[g as int]@);
        assert(st.2[g as int] == oview(headers@[g as int]));
        let m = group_output_exec(
            &mut out,
            keys[g].as_str(),
            impls[g],
            &headers[g],
            &shown,
            crate_prefix,
        );
        match m {
            Some(pr) => push_pair(&mut ml, pr.0, pr.1),
            None => {},
        }
        g += 1;
    }
    emit_memberless(&mut out, &ml);
    out
}

/// Renders one API diff section with compiled patterns.
pub fn render_with(
    p: &ChangelogPatterns,
    lines: &Vec<String>,
    section: Section,
    crate_prefix: &str,
    traits: &Vec<(String, String, String)>,
) -> (r: Vec<String>)
    requires
        p.wf(),
    ensures
        sviews(r@) == spec_render(sviews(lines@), section, crate_prefix@, tviews(traits@)),
{
    if section == Section::Changed {
        render_changed(p, lines, crate_prefix)
    } else {
        render_plain(p, lines, crate_prefix, traits)
    }
}

/// Renders one API diff section as markdown bullet lines; `None` only if a fixed pattern of
/// the changelog does not compile.
pub fn render(
    lines: &Vec<String>,
    section: Section,
    crate_prefix: &str,
    traits: &Vec<(String, String, String)>,
) -> (r: Option<Vec<String>>)
    ensures
        r is Some <==> changelog_patterns_compile(),
        r matches Some(v) ==> sviews(v@) == spec_render(
            sviews(lines@),
            section,
            crate_prefix@,
            tviews(traits@),
        ),
{
    match ChangelogPatterns::compile() {
        Some(p) => Some(render_with(&p, lines, section, crate_prefix, traits)),
        None => None,
    }
}

/// The lines of the changed section for rendered pairs: an old line and an arrow line each.
pub open spec fn pair_lines(pairs: Seq<(Seq<char>, Seq<char>)>) -> Seq<Seq<char>>
    decreases pairs.len(),
{
    if pairs.len() == 0 {
        Seq::empty()
    } else {
        pair_lines(pairs.drop_last()) + seq![
            "- `"@ + pairs.last().0 + "`"@,
            "  → `"@ + pairs.last().1 + "`"@,
        ]
    }
}

proof fn lemma_pair_lines(pairs: Seq<(Seq<char>, Seq<char>)>)
    ensures
        pair_lines(pairs).len() == 2 * pairs.len(),
        forall|i: int| 0 <= i < pairs.len() ==> pair_lines(pairs)[2 * i] == "- `"@ + (#[trigger] pairs[i]).0 + "`"@
            && pair_lines(pairs)[2 * i + 1] == "  → `"@ + pairs[i].1 + "`"@,
    decreases pairs.len(),
{
    if pairs.len() > 0 {
        let d = pairs.drop_last();
        lemma_pair_lines(d);
        assert forall|i: int| 0 <= i < pairs.len() implies pair_lines(pairs)[2 * i] == "- `"@ + (#[trigger] pairs[i]).0 + "`"@
            && pair_lines(pairs)[2 * i + 1] == "  → `"@ + pairs[i].1 + "`"@ by {
            if i < d.len() {
                assert(pairs[i] == d[i]);
            }
        }
    }
}

proof fn lemma_changed_scan(lines: Seq<Seq<char>>, crate_prefix: Seq<char>)
    ensures
        changed_scan(lines, crate_prefix).0 == pair_lines(changed_scan(lines, crate_prefix).3),
        forall|i: int, j: int| 0 <= i < j < changed_scan(lines, crate_prefix).3.len() ==> #[trigger] changed_scan(lines, crate_prefix).3[i]
            != #[trigger] changed_scan(lines, crate_prefix).3[j],
        forall|i: int| 0 <= i < changed_scan(lines, crate_prefix).3.len() ==> exists|k: int|
            0 <= k < lines.len() && starts_with(#[trigger] lines[k], "  + "@)
                && (#[trigger] changed_scan(lines, crate_prefix).3[i]).1 == spec_relsig(lines[k].skip(4), crate_prefix),
    decreases lines.len(),
{
    if lines.len() > 0 {
        let d = lines.drop_last();
        lemma_changed_scan(d, crate_prefix);
        let st = changed_scan(d, crate_prefix);
        let line = lines.last();
        let n = lines.len() - 1;
        assert(line == lines[n]);
        assert forall|k: int| 0 <= k < d.len() implies #[trigger] d[k] == lines[k] by {}
        let st2 = changed_scan(lines, crate_prefix);
        if st2.3 == st.3 {
            assert forall|i: int| 0 <= i < st2.3.len() implies exists|k: int|
                0 <= k < lines.len() && starts_with(#[trigger] lines[k], "  + "@)
                    && (#[trigger] st2.3[i]).1 == spec_relsig(lines[k].skip(4), crate_prefix) by {
                let k = choose|k: int| 0 <= k < d.len() && starts_with(#[trigger] d[k], "  + "@) && st.3[i].1 == spec_relsig(d[k].skip(4), crate_prefix);
                assert(lines[k] == d[k]);
            }
        } else {
            let new = spec_relsig(line.skip(4), crate_prefix);
            assert(st2.3 == st.3.push((st.1, new)));
            assert(!st.3.contains((st.1, new)));
            assert(pair_lines(st2.3) =~= st.0 + seq!["- `"@ + st.1 + "`"@, "  → `"@ + new + "`"@]) by {
                assert(st2.3.drop_last() =~= st.3);
            }
            assert forall|i: int, j: int| 0 <= i < j < st2.3.len() implies #[trigger] st2.3[i] != #[trigger] st2.3[j] by {
                if j == st.3.len() {
                    assert(st2.3[i] == st.3[i]);
                } else {
                    assert(st2.3[i] == st.3[i] && st2.3[j] == st.3[j]);
                }
            }
            assert forall|i: int| 0 <= i < st2.3.len() implies exists|k: int|
                0 <= k < lines.len() && starts_with(#[trigger] lines[k], "  + "@)
                    && (#[trigger] st2.3[i]).1 == spec_relsig(lines[k].skip(4), crate_prefix) by {
                if i < st.3.len() {
                    assert(st2.3[i] == st.3[i]);
                    let k = choose|k: int| 0 <= k < d.len() && starts_with(#[trigger] d[k], "  + "@) && st.3[i].1 == spec_relsig(d[k].skip(4), crate_prefix);
                    assert(lines[k] == d[k]);
                } else {
                    assert(starts_with(lines[n], "  + "@));
                }
            }
        }
    }
}

/// The changed section renders each old/new signature pair as two lines, "- `old`" then
/// "  → `new`", where `new` is the signature of a "  + " line (attribute, `pub` and the
/// crate prefix removed); no pair is rendered twice, and trait rows play no part.
pub proof fn law_changed_section_pairs(
    lines: Seq<Seq<char>>,
    crate_prefix: Seq<char>,
    traits: Seq<TraitRow>,
    other_traits: Seq<TraitRow>,
)
    ensures
        ({
            let r = spec_render(lines, Section::Changed, crate_prefix, traits);
            let pairs = changed_scan(lines, crate_prefix).3;
            &&& r == spec_render(lines, Section::Changed, crate_prefix, other_traits)
            &&& r.len() == 2 * pairs.len()
            &&& forall|i: int| 0 <= i < pairs.len() ==> r[2 * i] == "- `"@ + (#[trigger] pairs[i]).0 + "`"@
                && r[2 * i + 1] == "  → `"@ + pairs[i].1 + "`"@
            &&& forall|i: int, j: int| 0 <= i < j < pairs.len() ==> #[trigger] pairs[i] != #[trigger] pairs[j]
            &&& forall|i: int| 0 <= i < pairs.len() ==> exists|k: int|
                0 <= k < lines.len() && starts_with(#[trigger] lines[k], "  + "@)
                    && (#[trigger] pairs[i]).1 == spec_relsig(lines[k].skip(4), crate_prefix)
        }),
{
    lemma_changed_scan(lines, crate_prefix);
    lemma_pair_lines(changed_scan(lines, crate_prefix).3);
}

} // verus!
