//! Public API diff grouping by owning type or module.
//!
//! Each item line is keyed by the type or module that owns it; the stream of records keeps
//! each key where it first appears. The signature surgery is done with the regular
//! expressions below, as `cargo public-api` prints signatures.

use vstd::prelude::*;

use crate::api::sviews;
use crate::model::{push_record, records_view, GroupMode, GroupRecord, RecordView, Section};
use crate::pattern::{
    escape, regex_compiles, regex_escape, regex_is_match, regex_replace, regex_replace_all,
    Pattern,
};
use crate::table::lookup;
use crate::text::{
    chars_eq, chars_of, contains, ends_with, find_char_spec, find_char, has, has_prefix,
    last_at, occurs_at, replace_all, replace_chars, rfind, slice_chars, starts_with, string_of, str_eq,
    trim, trim_chars,
};

verus! {

/// A leading attribute such as `#[non_exhaustive] `.
pub const ATTRIBUTE: &'static str = r"^#\[[^]]*\] +";

/// An innermost generic argument list.
pub const GENERIC: &'static str = r"<[^<>]*>";

/// The `impl` keyword opening a signature.
pub const IMPL_PREFIX: &'static str = r"^impl +";

/// The `pub` keyword opening a signature.
pub const PUB_PREFIX: &'static str = r"^pub +";

/// A declaration keyword opening a signature.
pub const DECLARATION: &'static str = r"^(mod|struct|enum|trait|union) +";

/// Function qualifiers opening a signature.
pub const QUALIFIERS: &'static str = r"^(?:(?:const|async|unsafe) +)*";

/// An item keyword opening a signature.
pub const ITEM_KEYWORD: &'static str = r"^(?:fn|static|type|use) +";

/// Everything from the first space, parenthesis or `=` on.
pub const TRUNCATE: &'static str = r"[ (=].*";

/// The last path segment.
pub const MEMBER_LEAF: &'static str = r"::[^:]+$";

/// A trailing UpperCamelCase path segment.
pub const TYPE_SEGMENT: &'static str = r"::[A-Z][^:]*$";

/// A public declaration and its keyword.
pub const DECLARATION_KIND: &'static str = r"^pub (mod|struct|enum|trait|union) ";

/// A public item that is not a struct field or enum variant.
pub const MEMBER_KEYWORD: &'static str = r"^pub (?:mod|struct|enum|trait|union|fn|const|static|type|use|async) ";

/// An UpperCamelCase name.
pub const UPPER_CAMEL: &'static str = r"^[A-Z]";

/// What follows an owner path in a member's signature: its generic arguments and `::`.
pub const OWNER_SUFFIX: &'static str = r"(?:<[^<>]*>)?::";

/// Every fixed pattern of the grouping compiles.
pub open spec fn patterns_compile() -> bool {
    &&& regex_compiles(ATTRIBUTE@)
    &&& regex_compiles(GENERIC@)
    &&& regex_compiles(IMPL_PREFIX@)
    &&& regex_compiles(PUB_PREFIX@)
    &&& regex_compiles(DECLARATION@)
    &&& regex_compiles(QUALIFIERS@)
    &&& regex_compiles(ITEM_KEYWORD@)
    &&& regex_compiles(TRUNCATE@)
    &&& regex_compiles(MEMBER_LEAF@)
    &&& regex_compiles(TYPE_SEGMENT@)
    &&& regex_compiles(DECLARATION_KIND@)
    &&& regex_compiles(MEMBER_KEYWORD@)
    &&& regex_compiles(UPPER_CAMEL@)
}

/// The compiled fixed patterns.
pub struct GroupPatterns {
    attribute: Pattern,
    generic: Pattern,
    impl_prefix: Pattern,
    pub_prefix: Pattern,
    declaration: Pattern,
    qualifiers: Pattern,
    item_keyword: Pattern,
    truncate: Pattern,
    member_leaf: Pattern,
    type_segment: Pattern,
    declaration_kind: Pattern,
    member_keyword: Pattern,
    upper_camel: Pattern,
}

impl GroupPatterns {
    /// Each field holds its pattern.
    pub closed spec fn wf(&self) -> bool {
        &&& self.attribute.source() == ATTRIBUTE@
        &&& self.generic.source() == GENERIC@
        &&& self.impl_prefix.source() == IMPL_PREFIX@
        &&& self.pub_prefix.source() == PUB_PREFIX@
        &&& self.declaration.source() == DECLARATION@
        &&& self.qualifiers.source() == QUALIFIERS@
        &&& self.item_keyword.source() == ITEM_KEYWORD@
        &&& self.truncate.source() == TRUNCATE@
        &&& self.member_leaf.source() == MEMBER_LEAF@
        &&& self.type_segment.source() == TYPE_SEGMENT@
        &&& self.declaration_kind.source() == DECLARATION_KIND@
        &&& self.member_keyword.source() == MEMBER_KEYWORD@
        &&& self.upper_camel.source() == UPPER_CAMEL@
    }

    /// Compiles the fixed patterns; `None` if one of them does not compile.
    pub fn compile() -> (r: Option<GroupPatterns>)
        ensures
            r is Some <==> patterns_compile(),
            r matches Some(p) ==> p.wf(),
    {
        let attribute = match Pattern::compile(ATTRIBUTE) { Some(p) => p, None => return None };
        let generic = match Pattern::compile(GENERIC) { Some(p) => p, None => return None };
        let impl_prefix = match Pattern::compile(IMPL_PREFIX) { Some(p) => p, None => return None };
        let pub_prefix = match Pattern::compile(PUB_PREFIX) { Some(p) => p, None => return None };
        let declaration = match Pattern::compile(DECLARATION) { Some(p) => p, None => return None };
        let qualifiers = match Pattern::compile(QUALIFIERS) { Some(p) => p, None => return None };
        let item_keyword = match Pattern::compile(ITEM_KEYWORD) {
            Some(p) => p,
            None => return None,
        };
        let truncate = match Pattern::compile(TRUNCATE) { Some(p) => p, None => return None };
        let member_leaf = match Pattern::compile(MEMBER_LEAF) { Some(p) => p, None => return None };
        let type_segment = match Pattern::compile(TYPE_SEGMENT) {
            Some(p) => p,
            None => return None,
        };
        let declaration_kind = match Pattern::compile(DECLARATION_KIND) {
            Some(p) => p,
            None => return None,
        };
        let member_keyword = match Pattern::compile(MEMBER_KEYWORD) {
            Some(p) => p,
            None => return None,
        };
        let upper_camel = match Pattern::compile(UPPER_CAMEL) { Some(p) => p, None => return None };
        Some(GroupPatterns {
            attribute,
            generic,
            impl_prefix,
            pub_prefix,
            declaration,
            qualifiers,
            item_keyword,
            truncate,
            member_leaf,
            type_segment,
            declaration_kind,
            member_keyword,
            upper_camel,
        })
    }
}

/// The signature without a leading attribute.
pub open spec fn without_attribute(s: Seq<char>) -> Seq<char> {
    regex_replace(ATTRIBUTE@, s, ""@)
}

/// Innermost generic argument lists removed, pass after pass, until a pass removes nothing.
pub open spec fn strip_generics(s: Seq<char>) -> Seq<char>
    decreases s.len(),
{
    let t = regex_replace_all(GENERIC@, s, ""@);
    if t.len() < s.len() {
        strip_generics(t)
    } else {
        s
    }
}

/// The text after the last occurrence of `p`, or all of it.
pub open spec fn after_last(s: Seq<char>, p: Seq<char>) -> Seq<char> {
    if contains(s, p) {
        s.skip((choose|i: int| last_at(s, p, i)) + p.len())
    } else {
        s
    }
}

/// The text before the last occurrence of `p`, or all of it.
pub open spec fn before_last(s: Seq<char>, p: Seq<char>) -> Seq<char> {
    if contains(s, p) {
        s.take(choose|i: int| last_at(s, p, i))
    } else {
        s
    }
}

/// The key and whether it names a declaration, from what the patterns found: after an
/// `impl` header the type after the last ` for `; else a declared item's path; else the path
/// of a free item.
pub open spec fn key_choice(
    impl_match: bool,
    impl_rest: Seq<char>,
    decl_match: bool,
    decl_rest: Seq<char>,
    item_rest: Seq<char>,
) -> (Seq<char>, bool) {
    if impl_match {
        (after_last(impl_rest, " for "@), true)
    } else if decl_match {
        (decl_rest, true)
    } else {
        (item_rest, false)
    }
}

/// A truncated key without a trailing `:`, and whether its member leaf is still to be
/// removed (a free item's path with a `::` in it).
pub open spec fn key_tail(truncated: Seq<char>, declaration: bool) -> (Seq<char>, bool) {
    let k2 = if ends_with(truncated, ":"@) {
        truncated.drop_last()
    } else {
        truncated
    };
    (k2, !declaration && contains(k2, "::"@))
}

/// The group key of a signature: the path of its owning type, of the declared item, or of
/// the module holding a free item.
pub open spec fn spec_group_key(signature: Seq<char>) -> Seq<char> {
    let s = strip_generics(without_attribute(signature));
    let t = regex_replace(PUB_PREFIX@, s, ""@);
    let (key, declaration) = key_choice(
        regex_is_match(IMPL_PREFIX@, s),
        regex_replace(IMPL_PREFIX@, s, ""@),
        regex_is_match(DECLARATION@, t),
        regex_replace(DECLARATION@, t, ""@),
        regex_replace(ITEM_KEYWORD@, regex_replace(QUALIFIERS@, t, ""@), ""@),
    );
    let (k2, leaf) = key_tail(regex_replace(TRUNCATE@, key, ""@), declaration);
    if leaf {
        regex_replace(MEMBER_LEAF@, k2, ""@)
    } else {
        k2
    }
}

/// The module of a key: trailing UpperCamelCase segments removed, one at a time.
pub open spec fn spec_mod_of(key: Seq<char>) -> Seq<char>
    decreases key.len(),
{
    let t = regex_replace(TYPE_SEGMENT@, key, ""@);
    if t.len() < key.len() {
        spec_mod_of(t)
    } else {
        key
    }
}

/// The word starting at `i`, up to the next space.
pub open spec fn word_at(s: Seq<char>, i: int) -> Seq<char> {
    let rest = s.skip(i);
    let j = find_char_spec(rest, ' ');
    if j < 0 {
        rest
    } else {
        rest.take(j)
    }
}

/// The declaration keyword read after `pub ` of a signature without its attribute, when the
/// declaration pattern matched it.
pub open spec fn decl_word(is_declaration: bool, s: Seq<char>) -> Option<Seq<char>> {
    if is_declaration && s.len() >= 4 {
        Some(word_at(s, 4))
    } else {
        None
    }
}

/// The declaration keyword of a public declaration (`mod`, `struct`, `enum`, `trait` or
/// `union`), read after `pub `.
pub open spec fn spec_decl_kind(signature: Seq<char>) -> Option<Seq<char>> {
    let s = without_attribute(signature);
    decl_word(regex_is_match(DECLARATION_KIND@, s), s)
}

/// The kind a member suggests, given whether a member keyword matched its signature (without
/// attribute): none unless it is public and no keyword matched; a struct field when it has
/// a type, else an enum variant.
pub open spec fn member_word(s: Seq<char>, keyword_match: bool) -> Option<Seq<char>> {
    if !starts_with(s, "pub "@) || keyword_match {
        None
    } else if contains(s, ": "@) {
        Some("struct"@)
    } else {
        Some("enum"@)
    }
}

/// The kind weakly inferred from a member: a public item that is not a declaration is a
/// struct field when it has a type, else an enum variant.
pub open spec fn spec_member_kind(signature: Seq<char>) -> Option<Seq<char>> {
    let s = without_attribute(signature);
    member_word(s, regex_is_match(MEMBER_KEYWORD@, s))
}

/// The kind by naming convention, given whether the last segment is UpperCamelCase.
pub open spec fn case_kind(upper_camel: bool) -> Seq<char> {
    if upper_camel {
        "type"@
    } else {
        "mod"@
    }
}

/// The kind by naming convention: an UpperCamelCase last segment is a type, else a module.
pub open spec fn spec_fallback_kind(key: Seq<char>) -> Seq<char> {
    case_kind(regex_is_match(UPPER_CAMEL@, after_last(key, "::"@)))
}

/// A key outside the crate: the prefix is known and the key is neither the crate nor under it.
pub open spec fn spec_is_ext(key: Seq<char>, crate_prefix: Seq<char>) -> bool {
    crate_prefix.len() > 0 && key != crate_prefix && !starts_with(key, crate_prefix + "::"@)
}

pub(crate) proof fn lemma_last_at_unique(s: Seq<char>, p: Seq<char>, i: int)
    requires
        last_at(s, p, i),
    ensures
        contains(s, p),
        (choose|j: int| last_at(s, p, j)) == i,
{
    let j = choose|j: int| last_at(s, p, j);
    assert(last_at(s, p, j));
    if j < i {
        assert(!occurs_at(s, p, i));
    }
    if j > i {
        assert(!occurs_at(s, p, j));
    }
}

/// The text after the last occurrence of `p`, or all of it.
pub(crate) fn after_last_chars(s: &Vec<char>, p: &str) -> (r: Vec<char>)
    ensures
        r@ == after_last(s@, p@),
{
    let pc = chars_of(p);
    match rfind(s, &pc) {
        Some(i) => {
            proof {
                lemma_last_at_unique(s@, p@, i as int);
            }
            assert(occurs_at(s@, pc@, i as int));
            assert(i + pc@.len() <= s@.len());
            assert(i + pc.len() <= s.len());
            let start: usize = i + pc.len();
            slice_chars(s, start, s.len())
        },
        None => {
            let r = slice_chars(s, 0, s.len());
            assert(s@.subrange(0, s.len() as int) =~= s@);
            r
        },
    }
}

/// The text before the last occurrence of `p`, or all of it.
pub(crate) fn before_last_chars(s: &Vec<char>, p: &str) -> (r: Vec<char>)
    ensures
        r@ == before_last(s@, p@),
{
    let pc = chars_of(p);
    match rfind(s, &pc) {
        Some(i) => {
            proof {
                lemma_last_at_unique(s@, p@, i as int);
            }
            let r = slice_chars(s, 0, i);
            assert(s@.subrange(0, i as int) =~= s@.take(i as int));
            r
        },
        None => {
            let r = slice_chars(s, 0, s.len());
            assert(s@.subrange(0, s.len() as int) =~= s@);
            r
        },
    }
}

/// One pass of a rewrite repeated until it stops shortening the text: the rewritten text
/// when the pattern matched and the rewrite made the text shorter, else nothing (the
/// rewriting stops at the text as it is).
pub open spec fn rewrite_next(matched: bool, s: Seq<char>, t: Seq<char>) -> Option<Seq<char>> {
    if matched && t.len() < s.len() {
        Some(t)
    } else {
        None
    }
}

/// The text a repeated rewrite goes on with, given whether the pattern matched the text `s`
/// and what one pass made of it (see `rewrite_next`).
pub fn next_rewrite(matched: bool, s: &str, t: String) -> (r: Option<String>)
    ensures
        match r {
            Some(x) => rewrite_next(matched, s@, t@) == Some(x@),
            None => rewrite_next(matched, s@, t@) is None,
        },
{
    if matched && chars_of(t.as_str()).len() < chars_of(s).len() {
        Some(t)
    } else {
        None
    }
}

fn strip_generics_exec(p: &GroupPatterns, s: String) -> (r: String)
    requires
        p.wf(),
    ensures
        r@ == strip_generics(s@),
{
    let mut cur = s;
    loop
        invariant
            p.wf(),
            strip_generics(cur@) == strip_generics(s@),
        decreases cur@.len(),
    {
        let t = p.generic.replace_all(cur.as_str(), "");
        match next_rewrite(true, cur.as_str(), t) {
            Some(x) => {
                cur = x;
            },
            None => {
                return cur;
            },
        }
    }
}

/// The key and whether it names a declaration, from what the patterns found in a
/// signature (see `key_choice`).
pub fn choose_key(
    impl_match: bool,
    impl_rest: &str,
    decl_match: bool,
    decl_rest: &str,
    item_rest: &str,
) -> (r: (String, bool))
    ensures
        (r.0@, r.1) == key_choice(impl_match, impl_rest@, decl_match, decl_rest@, item_rest@),
{
    if impl_match {
        (string_of(&after_last_chars(&chars_of(impl_rest), " for ")), true)
    } else if decl_match {
        (string_of(&chars_of(decl_rest)), true)
    } else {
        (string_of(&chars_of(item_rest)), false)
    }
}

/// A truncated key without a trailing `:`, and whether its member leaf is still to be
/// removed (see `key_tail`).
pub fn trim_key(truncated: &str, declaration: bool) -> (r: (String, bool))
    ensures
        (r.0@, r.1) == key_tail(truncated@, declaration),
{
    let k1 = chars_of(truncated);
    let colon = chars_of(":");
    proof {
        reveal_strlit(":");
    }
    let k2 = if crate::text::has_suffix(&k1, &colon) {
        let r = slice_chars(&k1, 0, k1.len() - 1);
        assert(k1@.subrange(0, k1.len() - 1) =~= k1@.drop_last());
        r
    } else {
        k1
    };
    let sep = chars_of("::");
    let leaf = !declaration && has(&k2, &sep);
    (string_of(&k2), leaf)
}

/// The group key of a signature.
fn group_key(p: &GroupPatterns, signature: &str) -> (r: String)
    requires
        p.wf(),
    ensures
        r@ == spec_group_key(signature@),
{
    let s = strip_generics_exec(p, p.attribute.replace(signature, ""));
    let t = p.pub_prefix.replace(s.as_str(), "");
    let impl_match = p.impl_prefix.is_match(s.as_str());
    let impl_rest = p.impl_prefix.replace(s.as_str(), "");
    let decl_match = p.declaration.is_match(t.as_str());
    let decl_rest = p.declaration.replace(t.as_str(), "");
    let item_rest = p.item_keyword.replace(p.qualifiers.replace(t.as_str(), "").as_str(), "");
    let (key, declaration) = choose_key(
        impl_match,
        impl_rest.as_str(),
        decl_match,
        decl_rest.as_str(),
        item_rest.as_str(),
    );
    let truncated = p.truncate.replace(key.as_str(), "");
    let (k2, leaf) = trim_key(truncated.as_str(), declaration);
    if leaf {
        p.member_leaf.replace(k2.as_str(), "")
    } else {
        k2
    }
}

/// The module of a key.
fn mod_of(p: &GroupPatterns, key: &str) -> (r: String)
    requires
        p.wf(),
    ensures
        r@ == spec_mod_of(key@),
{
    let mut cur = string_of(&chars_of(key));
    loop
        invariant
            p.wf(),
            spec_mod_of(cur@) == spec_mod_of(key@),
        decreases cur@.len(),
    {
        let t = p.type_segment.replace(cur.as_str(), "");
        match next_rewrite(true, cur.as_str(), t) {
            Some(x) => {
                cur = x;
            },
            None => {
                return cur;
            },
        }
    }
}

/// The declaration keyword read after `pub ` of a signature without its attribute, when the
/// declaration pattern matched it (see `decl_word`).
pub fn declared_kind_word(is_declaration: bool, s: &str) -> (r: Option<String>)
    ensures
        match r {
            Some(k) => decl_word(is_declaration, s@) == Some(k@),
            None => decl_word(is_declaration, s@) is None,
        },
{
    let cs = chars_of(s);
    if is_declaration && cs.len() >= 4 {
        let rest = slice_chars(&cs, 4, cs.len());
        assert(rest@ =~= cs@.skip(4));
        match find_char(&rest, ' ') {
            Some(j) => {
                let w = slice_chars(&rest, 0, j);
                assert(w@ =~= rest@.take(j as int));
                Some(string_of(&w))
            },
            None => Some(string_of(&rest)),
        }
    } else {
        None
    }
}

/// The declaration keyword of a public declaration.
fn decl_kind(p: &GroupPatterns, signature: &str) -> (r: Option<String>)
    requires
        p.wf(),
    ensures
        match r {
            Some(k) => spec_decl_kind(signature@) == Some(k@),
            None => spec_decl_kind(signature@) is None,
        },
{
    let s = p.attribute.replace(signature, "");
    declared_kind_word(p.declaration_kind.is_match(s.as_str()), s.as_str())
}

/// The kind a member suggests, given whether a member keyword matched its signature without
/// attribute (see `member_word`).
pub fn member_kind_word(s: &str, keyword_match: bool) -> (r: Option<String>)
    ensures
        match r {
            Some(k) => member_word(s@, keyword_match) == Some(k@),
            None => member_word(s@, keyword_match) is None,
        },
{
    let cs = chars_of(s);
    if !has_prefix(&cs, &chars_of("pub ")) || keyword_match {
        None
    } else if has(&cs, &chars_of(": ")) {
        Some(string_of(&chars_of("struct")))
    } else {
        Some(string_of(&chars_of("enum")))
    }
}

/// The kind inferred from a member.
fn member_kind(p: &GroupPatterns, signature: &str) -> (r: Option<String>)
    requires
        p.wf(),
    ensures
        match r {
            Some(k) => spec_member_kind(signature@) == Some(k@),
            None => spec_member_kind(signature@) is None,
        },
{
    let s = p.attribute.replace(signature, "");
    member_kind_word(s.as_str(), p.member_keyword.is_match(s.as_str()))
}

/// The kind by naming convention, given whether the key's last segment is UpperCamelCase.
pub fn kind_by_case(upper_camel: bool) -> (r: String)
    ensures
        r@ == case_kind(upper_camel),
{
    if upper_camel {
        string_of(&chars_of("type"))
    } else {
        string_of(&chars_of("mod"))
    }
}

/// The kind by naming convention.
fn fallback_kind(p: &GroupPatterns, key: &str) -> (r: String)
    requires
        p.wf(),
    ensures
        r@ == spec_fallback_kind(key@),
{
    let leaf = string_of(&after_last_chars(&chars_of(key), "::"));
    kind_by_case(p.upper_camel.is_match(leaf.as_str()))
}

/// Whether a key lies outside the crate.
fn is_ext(key: &str, crate_prefix: &str) -> (r: bool)
    ensures
        r == spec_is_ext(key@, crate_prefix@),
{
    let k = chars_of(key);
    let c = chars_of(crate_prefix);
    let mut under = crate::text::copy_chars(&c);
    crate::text::push_str_chars(&mut under, "::");
    c.len() > 0 && !chars_eq(&k, &c) && !has_prefix(&k, &under)
}


/// A pair of strings as plain values.
pub type PairView = (Seq<char>, Seq<char>);

/// The plain values of a list of string pairs.
pub open spec fn pviews(v: Seq<(String, String)>) -> Seq<PairView> {
    v.map_values(|e: (String, String)| (e.0@, e.1@))
}

/// The value of the last pair with the key (a map where a later insert wins).
pub open spec fn assoc_last(s: Seq<PairView>, k: Seq<char>) -> Option<Seq<char>>
    decreases s.len(),
{
    if s.len() == 0 {
        None
    } else if s.last().0 == k {
        Some(s.last().1)
    } else {
        assoc_last(s.drop_last(), k)
    }
}

/// The value of the first pair with the key (a map where the first insert stays).
pub open spec fn assoc_first(s: Seq<PairView>, k: Seq<char>) -> Option<Seq<char>>
    decreases s.len(),
{
    if s.len() == 0 {
        None
    } else if s[0].0 == k {
        Some(s[0].1)
    } else {
        assoc_first(s.skip(1), k)
    }
}

/// Where a type's kind comes from: kinds declared in the diff, kinds read from the head
/// source by short name, and kinds inferred from members.
pub type KindsView = (Seq<PairView>, Seq<(String, String)>, Seq<PairView>);

/// A key's kind: declared in the diff, else from the head source by its last segment, else
/// inferred from a member, else by naming convention.
pub open spec fn spec_resolve(kinds: KindsView, key: Seq<char>) -> Seq<char> {
    match assoc_last(kinds.0, key) {
        Some(k) => k,
        None => match lookup(kinds.1, after_last(key, "::"@)) {
            Some(k) => k@,
            None => match assoc_first(kinds.2, key) {
                Some(k) => k,
                None => spec_fallback_kind(key),
            },
        },
    }
}

fn find_last_pair(t: &Vec<(String, String)>, k: &str) -> (r: Option<String>)
    ensures
        match r {
            Some(v) => assoc_last(pviews(t@), k@) == Some(v@),
            None => assoc_last(pviews(t@), k@) is None,
        },
{
    let ghost pv = pviews(t@);
    let mut i: usize = t.len();
    assert(pv.take(i as int) =~= pv);
    while i > 0
        invariant
            i <= t.len(),
            pv == pviews(t@),
            assoc_last(pv, k@) == assoc_last(pv.take(i as int), k@),
        decreases i,
    {
        assert(pv.take(i as int).last() == pv[i - 1]);
        if str_eq(t[i - 1].0.as_str(), k) {
            return Some(t[i - 1].1.clone());
        }
        assert(pv.take(i as int).drop_last() =~= pv.take(i - 1));
        i -= 1;
    }
    None
}

fn find_first_pair(t: &Vec<(String, String)>, k: &str) -> (r: Option<String>)
    ensures
        match r {
            Some(v) => assoc_first(pviews(t@), k@) == Some(v@),
            None => assoc_first(pviews(t@), k@) is None,
        },
{
    let ghost pv = pviews(t@);
    let mut i: usize = 0;
    assert(pv.skip(0) =~= pv);
    while i < t.len()
        invariant
            i <= t.len(),
            pv == pviews(t@),
            assoc_first(pv, k@) == assoc_first(pv.skip(i as int), k@),
        decreases t.len() - i,
    {
        assert(pv.skip(i as int)[0] == pv[i as int]);
        if str_eq(t[i].0.as_str(), k) {
            return Some(t[i].1.clone());
        }
        assert(pv.skip(i as int).skip(1) =~= pv.skip(i + 1));
        i += 1;
    }
    None
}

fn find_last_string(t: &Vec<(String, String)>, k: &str) -> (r: Option<String>)
    ensures
        r == lookup(t@, k@),
{
    let mut i: usize = t.len();
    assert(t@.take(i as int) =~= t@);
    while i > 0
        invariant
            i <= t.len(),
            lookup(t@, k@) == lookup(t@.take(i as int), k@),
        decreases i,
    {
        assert(t@.take(i as int).last() == t@[i - 1]);
        if str_eq(t[i - 1].0.as_str(), k) {
            return Some(t[i - 1].1.clone());
        }
        assert(t@.take(i as int).drop_last() =~= t@.take(i - 1));
        i -= 1;
    }
    None
}

/// A key's kind.
fn resolve(
    p: &GroupPatterns,
    declared: &Vec<(String, String)>,
    src: &Vec<(String, String)>,
    member: &Vec<(String, String)>,
    key: &str,
) -> (r: String)
    requires
        p.wf(),
    ensures
        r@ == spec_resolve((pviews(declared@), src@, pviews(member@)), key@),
{
    if let Some(k) = find_last_pair(declared, key) {
        return k;
    }
    let short = string_of(&after_last_chars(&chars_of(key), "::"));
    if let Some(k) = find_last_string(src, short.as_str()) {
        return k;
    }
    if let Some(k) = find_first_pair(member, key) {
        return k;
    }
    fallback_kind(p, key)
}

/// One grouped line as plain values: its text, its key and its module.
pub type RecView = (Seq<char>, Seq<char>, Seq<char>);

/// The plain values of grouped lines.
pub open spec fn rviews(v: Seq<(String, String, String)>) -> Seq<RecView> {
    v.map_values(|e: (String, String, String)| (e.0@, e.1@, e.2@))
}

/// What a scan of the lines gathers: the grouped lines, the declared kinds, the member
/// kinds, and the key of the last removed signature of a changed pair.
pub type ScanView = (Seq<RecView>, Seq<PairView>, Seq<PairView>, Seq<char>);

/// One line of the scan. Blank lines are skipped; in the changed section the `  - ` line of
/// a pair sets the key that its `  + ` line shares.
pub open spec fn scan_step(st: ScanView, line: Seq<char>, section: Section) -> ScanView {
    if trim(line).len() == 0 {
        st
    } else {
        let (key, dk, mk, changed) = if section == Section::Changed {
            if starts_with(line, "  - "@) {
                let sig = line.skip(4);
                let k = spec_group_key(sig);
                (k, spec_decl_kind(sig), spec_member_kind(sig), k)
            } else {
                (st.3, None, None, st.3)
            }
        } else {
            (spec_group_key(line), spec_decl_kind(line), spec_member_kind(line), st.3)
        };
        (
            st.0.push((line, key, spec_mod_of(key))),
            match dk {
                Some(d) => st.1.push((key, d)),
                None => st.1,
            },
            match mk {
                Some(m) => st.2.push((key, m)),
                None => st.2,
            },
            changed,
        )
    }
}

/// The scan of all lines.
pub open spec fn spec_scan(lines: Seq<Seq<char>>, section: Section) -> ScanView
    decreases lines.len(),
{
    if lines.len() == 0 {
        (Seq::empty(), Seq::empty(), Seq::empty(), Seq::empty())
    } else {
        scan_step(spec_scan(lines.drop_last(), section), lines.last(), section)
    }
}

fn push_pair(v: &mut Vec<(String, String)>, a: &String, b: String)
    ensures
        pviews(final(v)@) == pviews(old(v)@).push((a@, b@)),
{
    let ghost before = v@;
    v.push((a.clone(), b));
    assert(pviews(v@) =~= pviews(before).push((a@, b@)));
}

fn scan(p: &GroupPatterns, lines: &Vec<String>, section: Section) -> (r: (
    Vec<(String, String, String)>,
    Vec<(String, String)>,
    Vec<(String, String)>,
))
    requires
        p.wf(),
    ensures
        rviews(r.0@) == spec_scan(sviews(lines@), section).0,
        pviews(r.1@) == spec_scan(sviews(lines@), section).1,
        pviews(r.2@) == spec_scan(sviews(lines@), section).2,
{
    let ghost lv = sviews(lines@);
    let mut recs: Vec<(String, String, String)> = Vec::new();
    let mut declared: Vec<(String, String)> = Vec::new();
    let mut member: Vec<(String, String)> = Vec::new();
    let mut changed = String::new();
    let mut i: usize = 0;
    assert(rviews(recs@) =~= Seq::<RecView>::empty());
    assert(pviews(declared@) =~= Seq::<PairView>::empty());
    assert(pviews(member@) =~= Seq::<PairView>::empty());
    assert(lv.take(0) =~= Seq::<Seq<char>>::empty());
    while i < lines.len()
        invariant
            p.wf(),
            i <= lines.len(),
            lv == sviews(lines@),
            (rviews(recs@), pviews(declared@), pviews(member@), changed@) == spec_scan(
                lv.take(i as int),
                section,
            ),
        decreases lines.len() - i,
    {
        assert(lv.take(i + 1).drop_last() =~= lv.take(i as int));
        assert(lv.take(i + 1).last() == lines@[i as int]@);
        let line = lines[i].as_str();
        let lc = chars_of(line);
        let t = trim_chars(&lc);
        if t.len() > 0 {
            let key: String;
            let dk: Option<String>;
            let mk: Option<String>;
            let minus = chars_of("  - ");
            proof {
                reveal_strlit("  - ");
            }
            if section == Section::Changed {
                if has_prefix(&lc, &minus) {
                    let sig = string_of(&slice_chars(&lc, 4, lc.len()));
                    assert(lc@.subrange(4, lc@.len() as int) =~= line@.skip(4));
                    key = group_key(p, sig.as_str());
                    dk = decl_kind(p, sig.as_str());
                    mk = member_kind(p, sig.as_str());
                    changed = key.clone();
                } else {
                    key = changed.clone();
                    dk = None;
                    mk = None;
                }
            } else {
                key = group_key(p, line);
                dk = decl_kind(p, line);
                mk = member_kind(p, line);
            }
            let module = mod_of(p, key.as_str());
            match dk {
                Some(d) => push_pair(&mut declared, &key, d),
                None => {},
            }
            match mk {
                Some(m) => push_pair(&mut member, &key, m),
                None => {},
            }
            let ghost before = recs@;
            recs.push((lines[i].clone(), key, module));
            assert(rviews(recs@) =~= rviews(before).push((line@, recs@.last().1@, recs@.last().2@)));
        }
        i += 1;
    }
    assert(lv.take(lines.len() as int) =~= lv);
    (recs, declared, member)
}


/// The keys of grouped lines.
pub open spec fn keys_of(recs: Seq<RecView>) -> Seq<Seq<char>> {
    recs.map_values(|r: RecView| r.1)
}

/// The modules of grouped lines.
pub open spec fn mods_of(recs: Seq<RecView>) -> Seq<Seq<char>> {
    recs.map_values(|r: RecView| r.2)
}

/// Each value once, where it first appears.
pub open spec fn firsts(s: Seq<Seq<char>>) -> Seq<Seq<char>>
    decreases s.len(),
{
    if s.len() == 0 {
        s
    } else {
        firsts(s.drop_last()) + if s.drop_last().contains(s.last()) {
            Seq::empty()
        } else {
            seq![s.last()]
        }
    }
}

/// `s` with the prefix `p` removed, where it has it.
pub open spec fn strip_prefix(s: Seq<char>, p: Seq<char>) -> Seq<char> {
    if starts_with(s, p) {
        s.skip(p.len() as int)
    } else {
        s
    }
}

/// The prefix that members of a type show before their name: the type's module and `::`.
pub open spec fn module_prefix(key: Seq<char>) -> Seq<char> {
    before_last(key, "::"@) + "::"@
}

/// The items of a type in `--by-type` mode: each line of the key, its module prefix removed.
pub open spec fn type_items(recs: Seq<RecView>, key: Seq<char>, prefix: Seq<char>) -> Seq<
    RecordView,
>
    decreases recs.len(),
{
    if recs.len() == 0 {
        Seq::empty()
    } else {
        type_items(recs.drop_last(), key, prefix) + if recs.last().1 == key {
            seq![RecordView::Item(replace_all(recs.last().0, prefix, ""@))]
        } else {
            Seq::empty()
        }
    }
}

/// A type's header and items in `--by-type` mode.
pub open spec fn emit_type(recs: Seq<RecView>, key: Seq<char>, kinds: KindsView) -> Seq<
    RecordView,
> {
    seq![RecordView::TypeHeader(key, spec_resolve(kinds, key))] + type_items(
        recs,
        key,
        module_prefix(key),
    )
}

/// The groups of the keys inside (`ext` false) or outside (`ext` true) the crate, in order.
pub open spec fn emit_types(
    recs: Seq<RecView>,
    order: Seq<Seq<char>>,
    kinds: KindsView,
    crate_prefix: Seq<char>,
    ext: bool,
) -> Seq<RecordView>
    decreases order.len(),
{
    if order.len() == 0 {
        Seq::empty()
    } else {
        emit_types(recs, order.drop_last(), kinds, crate_prefix, ext) + if spec_is_ext(
            order.last(),
            crate_prefix,
        ) == ext {
            emit_type(recs, order.last(), kinds)
        } else {
            Seq::empty()
        }
    }
}

/// Some key lies outside the crate.
pub open spec fn any_ext(order: Seq<Seq<char>>, crate_prefix: Seq<char>) -> bool {
    exists|i: int| 0 <= i < order.len() && spec_is_ext(#[trigger] order[i], crate_prefix)
}

/// The divider before the groups outside the crate, if there are any.
pub open spec fn divider(order: Seq<Seq<char>>, crate_prefix: Seq<char>) -> Seq<RecordView> {
    if any_ext(order, crate_prefix) {
        seq![RecordView::ExtDivider]
    } else {
        Seq::empty()
    }
}

/// `--by-type` grouping: one header per key in first-appearance order, the crate's own
/// keys first, then a divider and the keys outside it.
pub open spec fn group_by_type(recs: Seq<RecView>, kinds: KindsView, crate_prefix: Seq<char>) -> Seq<
    RecordView,
> {
    let order = firsts(keys_of(recs));
    emit_types(recs, order, kinds, crate_prefix, false) + divider(order, crate_prefix)
        + emit_types(recs, order, kinds, crate_prefix, true)
}

/// The keys of a module, each once, where it first appears.
pub open spec fn mod_keys(recs: Seq<RecView>, m: Seq<char>) -> Seq<Seq<char>>
    decreases recs.len(),
{
    if recs.len() == 0 {
        Seq::empty()
    } else {
        mod_keys(recs.drop_last(), m) + if recs.last().2 == m && !keys_of(
            recs.drop_last(),
        ).contains(recs.last().1) {
            seq![recs.last().1]
        } else {
            Seq::empty()
        }
    }
}

/// A module's own item: a `pub mod` shows only the last segment of its name.
pub open spec fn mod_item_text(display: Seq<char>) -> Seq<char> {
    if starts_with(display, "pub mod "@) {
        "pub mod "@ + after_last(display, "::"@)
    } else {
        display
    }
}

/// The items that belong to the module itself.
pub open spec fn same_mod_items(recs: Seq<RecView>, key: Seq<char>, prefix: Seq<char>) -> Seq<
    RecordView,
>
    decreases recs.len(),
{
    if recs.len() == 0 {
        Seq::empty()
    } else {
        same_mod_items(recs.drop_last(), key, prefix) + if recs.last().1 == key {
            seq![RecordView::Item(mod_item_text(replace_all(recs.last().0, prefix, ""@)))]
        } else {
            Seq::empty()
        }
    }
}

/// The pattern of a type's path in its members' signatures.
pub open spec fn owner_pattern(key: Seq<char>) -> Seq<char> {
    regex_escape(key) + OWNER_SUFFIX@
}

/// A member's signature with its owner's path (and the owner's generic arguments) removed,
/// when that pattern compiles.
pub open spec fn owner_stripped(key: Seq<char>, text: Seq<char>) -> Seq<char> {
    if regex_compiles(owner_pattern(key)) {
        regex_replace_all(owner_pattern(key), text, ""@)
    } else {
        text
    }
}

/// The items of a type under its module.
pub open spec fn deep_items(recs: Seq<RecView>, key: Seq<char>, prefix: Seq<char>) -> Seq<
    RecordView,
>
    decreases recs.len(),
{
    if recs.len() == 0 {
        Seq::empty()
    } else {
        deep_items(recs.drop_last(), key, prefix) + if recs.last().1 == key {
            seq![RecordView::DeepItem(replace_all(owner_stripped(key, recs.last().0), prefix, ""@))]
        } else {
            Seq::empty()
        }
    }
}

/// One key of a module: the module's own items, or a type sub-header and its items.
pub open spec fn emit_key(recs: Seq<RecView>, m: Seq<char>, key: Seq<char>, kinds: KindsView) -> Seq<
    RecordView,
> {
    let prefix = m + "::"@;
    if key == m {
        same_mod_items(recs, key, prefix)
    } else {
        seq![RecordView::TypeSub(strip_prefix(key, prefix), spec_resolve(kinds, key))]
            + deep_items(recs, key, prefix)
    }
}

/// The keys of a module, in order.
pub open spec fn emit_keys(
    recs: Seq<RecView>,
    m: Seq<char>,
    keys: Seq<Seq<char>>,
    kinds: KindsView,
) -> Seq<RecordView>
    decreases keys.len(),
{
    if keys.len() == 0 {
        Seq::empty()
    } else {
        emit_keys(recs, m, keys.drop_last(), kinds) + emit_key(recs, m, keys.last(), kinds)
    }
}

/// A module's header and its keys.
pub open spec fn emit_module(recs: Seq<RecView>, m: Seq<char>, kinds: KindsView) -> Seq<
    RecordView,
> {
    seq![RecordView::ModHeader(m)] + emit_keys(recs, m, mod_keys(recs, m), kinds)
}

/// The modules inside (`ext` false) or outside (`ext` true) the crate, in order.
pub open spec fn emit_modules(
    recs: Seq<RecView>,
    order: Seq<Seq<char>>,
    kinds: KindsView,
    crate_prefix: Seq<char>,
    ext: bool,
) -> Seq<RecordView>
    decreases order.len(),
{
    if order.len() == 0 {
        Seq::empty()
    } else {
        emit_modules(recs, order.drop_last(), kinds, crate_prefix, ext) + if spec_is_ext(
            order.last(),
            crate_prefix,
        ) == ext {
            emit_module(recs, order.last(), kinds)
        } else {
            Seq::empty()
        }
    }
}

/// Module grouping: modules in first-appearance order, the crate's own first, then a
/// divider and the modules outside it.
pub open spec fn group_by_mod(recs: Seq<RecView>, kinds: KindsView, crate_prefix: Seq<char>) -> Seq<
    RecordView,
> {
    let order = firsts(mods_of(recs));
    emit_modules(recs, order, kinds, crate_prefix, false) + divider(order, crate_prefix)
        + emit_modules(recs, order, kinds, crate_prefix, true)
}

/// The grouped records of a diff section.
pub open spec fn spec_group(
    lines: Seq<Seq<char>>,
    section: Section,
    mode: GroupMode,
    crate_prefix: Seq<char>,
    src_kinds: Seq<(String, String)>,
) -> Seq<RecordView> {
    if mode == GroupMode::Flat {
        Seq::empty()
    } else {
        let st = spec_scan(lines, section);
        let kinds = (st.1, src_kinds, st.2);
        if mode == GroupMode::Type {
            group_by_type(st.0, kinds, crate_prefix)
        } else {
            group_by_mod(st.0, kinds, crate_prefix)
        }
    }
}


fn projections(recs: &Vec<(String, String, String)>) -> (r: (Vec<String>, Vec<String>))
    ensures
        sviews(r.0@) == keys_of(rviews(recs@)),
        sviews(r.1@) == mods_of(rviews(recs@)),
{
    let ghost rv = rviews(recs@);
    let mut keys: Vec<String> = Vec::new();
    let mut mods: Vec<String> = Vec::new();
    let mut i: usize = 0;
    while i < recs.len()
        invariant
            i <= recs.len(),
            rv == rviews(recs@),
            sviews(keys@) == keys_of(rv).take(i as int),
            sviews(mods@) == mods_of(rv).take(i as int),
        decreases recs.len() - i,
    {
        let ghost (k0, m0) = (keys@, mods@);
        keys.push(recs[i].1.clone());
        mods.push(recs[i].2.clone());
        assert(sviews(keys@) =~= sviews(k0).push(rv[i as int].1));
        assert(sviews(mods@) =~= sviews(m0).push(rv[i as int].2));
        assert(keys_of(rv).take(i + 1) =~= keys_of(rv).take(i as int).push(rv[i as int].1));
        assert(mods_of(rv).take(i + 1) =~= mods_of(rv).take(i as int).push(rv[i as int].2));
        i += 1;
    }
    assert(keys_of(rv).take(recs.len() as int) =~= keys_of(rv));
    assert(mods_of(rv).take(recs.len() as int) =~= mods_of(rv));
    (keys, mods)
}

pub(crate) fn seen(v: &Vec<String>, i: usize) -> (r: bool)
    requires
        i < v.len(),
    ensures
        r == sviews(v@).take(i as int).contains(sviews(v@)[i as int]),
{
    let ghost sv = sviews(v@);
    let mut j: usize = 0;
    while j < i
        invariant
            i < v.len(),
            j <= i,
            sv == sviews(v@),
            forall|k: int| 0 <= k < j ==> sv[k] != sv[i as int],
        decreases i - j,
    {
        if str_eq(v[j].as_str(), v[i].as_str()) {
            assert(sv.take(i as int)[j as int] == sv[i as int]);
            return true;
        }
        j += 1;
    }
    assert forall|k: int| 0 <= k < sv.take(i as int).len() implies sv.take(i as int)[k] != sv[i as int] by {
        assert(sv.take(i as int)[k] == sv[k]);
    }
    false
}

pub(crate) fn firsts_exec(v: &Vec<String>) -> (r: Vec<String>)
    ensures
        sviews(r@) == firsts(sviews(v@)),
{
    let ghost sv = sviews(v@);
    let mut out: Vec<String> = Vec::new();
    let mut i: usize = 0;
    assert(sviews(out@) =~= firsts(sv.take(0)));
    while i < v.len()
        invariant
            i <= v.len(),
            sv == sviews(v@),
            sviews(out@) == firsts(sv.take(i as int)),
        decreases v.len() - i,
    {
        assert(sv.take(i + 1).drop_last() =~= sv.take(i as int));
        assert(sv.take(i + 1).last() == sv[i as int]);
        if !seen(v, i) {
            let ghost before = out@;
            out.push(v[i].clone());
            assert(sviews(out@) =~= sviews(before) + seq![sv[i as int]]);
        } else {
            assert(sviews(out@) =~= firsts(sv.take(i as int)) + Seq::<Seq<char>>::empty());
        }
        i += 1;
    }
    assert(sv.take(v.len() as int) =~= sv);
    out
}

fn any_ext_exec(order: &Vec<String>, crate_prefix: &str) -> (r: bool)
    ensures
        r == any_ext(sviews(order@), crate_prefix@),
{
    let ghost sv = sviews(order@);
    let mut i: usize = 0;
    while i < order.len()
        invariant
            i <= order.len(),
            sv == sviews(order@),
            forall|k: int| 0 <= k < i ==> !spec_is_ext(#[trigger] sv[k], crate_prefix@),
        decreases order.len() - i,
    {
        if is_ext(order[i].as_str(), crate_prefix) {
            assert(spec_is_ext(sv[i as int], crate_prefix@));
            return true;
        }
        i += 1;
    }
    false
}

fn module_prefix_exec(key: &str) -> (r: Vec<char>)
    ensures
        r@ == module_prefix(key@),
        r@.len() > 0,
{
    let mut m = before_last_chars(&chars_of(key), "::");
    crate::text::push_str_chars(&mut m, "::");
    proof {
        reveal_strlit("::");
    }
    m
}

fn push_type_items(
    out: &mut Vec<GroupRecord>,
    recs: &Vec<(String, String, String)>,
    key: &str,
    prefix: &Vec<char>,
)
    requires
        prefix@.len() > 0,
    ensures
        records_view(final(out)@) == records_view(old(out)@) + type_items(
            rviews(recs@),
            key@,
            prefix@,
        ),
{
    let ghost rv = rviews(recs@);
    let ghost base = records_view(out@);
    let empty: Vec<char> = Vec::new();
    let mut j: usize = 0;
    assert(records_view(out@) =~= base + type_items(rv.take(0), key@, prefix@));
    while j < recs.len()
        invariant
            prefix@.len() > 0,
            empty@.len() == 0,
            j <= recs.len(),
            rv == rviews(recs@),
            records_view(out@) == base + type_items(rv.take(j as int), key@, prefix@),
        decreases recs.len() - j,
    {
        assert(rv.take(j + 1).drop_last() =~= rv.take(j as int));
        assert(rv.take(j + 1).last() == rv[j as int]);
        if str_eq(recs[j].1.as_str(), key) {
            let text = replace_chars(&chars_of(recs[j].0.as_str()), prefix, &empty);
            proof {
                reveal_strlit("");
            }
            assert(empty@ =~= ""@);
            push_record(out, GroupRecord::Item(string_of(&text)));
        }
        assert(records_view(out@) =~= base + type_items(rv.take(j + 1), key@, prefix@));
        j += 1;
    }
    assert(rv.take(recs.len() as int) =~= rv);
}

fn emit_type_exec(
    out: &mut Vec<GroupRecord>,
    p: &GroupPatterns,
    recs: &Vec<(String, String, String)>,
    key: &str,
    declared: &Vec<(String, String)>,
    src: &Vec<(String, String)>,
    member: &Vec<(String, String)>,
)
    requires
        p.wf(),
    ensures
        records_view(final(out)@) == records_view(old(out)@) + emit_type(
            rviews(recs@),
            key@,
            (pviews(declared@), src@, pviews(member@)),
        ),
{
    let kind = resolve(p, declared, src, member, key);
    push_record(out, GroupRecord::TypeHeader { name: string_of(&chars_of(key)), kind });
    let prefix = module_prefix_exec(key);
    push_type_items(out, recs, key, &prefix);
}

fn emit_types_exec(
    out: &mut Vec<GroupRecord>,
    p: &GroupPatterns,
    recs: &Vec<(String, String, String)>,
    order: &Vec<String>,
    declared: &Vec<(String, String)>,
    src: &Vec<(String, String)>,
    member: &Vec<(String, String)>,
    crate_prefix: &str,
    ext: bool,
)
    requires
        p.wf(),
    ensures
        records_view(final(out)@) == records_view(old(out)@) + emit_types(
            rviews(recs@),
            sviews(order@),
            (pviews(declared@), src@, pviews(member@)),
            crate_prefix@,
            ext,
        ),
{
    let ghost kinds = (pviews(declared@), src@, pviews(member@));
    let ghost rv = rviews(recs@);
    let ghost ov = sviews(order@);
    let ghost base = records_view(out@);
    let mut i: usize = 0;
    assert(records_view(out@) =~= base + emit_types(rv, ov.take(0), kinds, crate_prefix@, ext));
    while i < order.len()
        invariant
            p.wf(),
            i <= order.len(),
            kinds == (pviews(declared@), src@, pviews(member@)),
            rv == rviews(recs@),
            ov == sviews(order@),
            records_view(out@) == base + emit_types(rv, ov.take(i as int), kinds, crate_prefix@, ext),
        decreases order.len() - i,
    {
        assert(ov.take(i + 1).drop_last() =~= ov.take(i as int));
        assert(ov.take(i + 1).last() == ov[i as int]);
        let ghost mid = records_view(out@);
        if is_ext(order[i].as_str(), crate_prefix) == ext {
            emit_type_exec(out, p, recs, order[i].as_str(), declared, src, member);
        }
        assert(records_view(out@) =~= base + emit_types(rv, ov.take(i + 1), kinds, crate_prefix@, ext));
        i += 1;
    }
    assert(ov.take(order.len() as int) =~= ov);
}

fn group_by_type_exec(
    p: &GroupPatterns,
    recs: &Vec<(String, String, String)>,
    declared: &Vec<(String, String)>,
    src: &Vec<(String, String)>,
    member: &Vec<(String, String)>,
    crate_prefix: &str,
) -> (r: Vec<GroupRecord>)
    requires
        p.wf(),
    ensures
        records_view(r@) == group_by_type(
            rviews(recs@),
            (pviews(declared@), src@, pviews(member@)),
            crate_prefix@,
        ),
{
    let (keys, _mods) = projections(recs);
    let order = firsts_exec(&keys);
    let mut out: Vec<GroupRecord> = Vec::new();
    assert(records_view(out@) =~= Seq::<RecordView>::empty());
    emit_types_exec(&mut out, p, recs, &order, declared, src, member, crate_prefix, false);
    let ghost mid = records_view(out@);
    if any_ext_exec(&order, crate_prefix) {
        push_record(&mut out, GroupRecord::ExtDivider);
    }
    assert(records_view(out@) =~= mid + divider(sviews(order@), crate_prefix@));
    emit_types_exec(&mut out, p, recs, &order, declared, src, member, crate_prefix, true);
    out
}


fn mod_keys_exec(
    recs: &Vec<(String, String, String)>,
    keys: &Vec<String>,
    mods: &Vec<String>,
    m: &str,
) -> (r: Vec<String>)
    requires
        sviews(keys@) == keys_of(rviews(recs@)),
        sviews(mods@) == mods_of(rviews(recs@)),
    ensures
        sviews(r@) == mod_keys(rviews(recs@), m@),
{
    let ghost rv = rviews(recs@);
    let mut out: Vec<String> = Vec::new();
    let mut j: usize = 0;
    assert(sviews(keys@).len() == keys@.len() && keys_of(rv).len() == recs@.len());
    assert(sviews(mods@).len() == mods@.len() && mods_of(rv).len() == recs@.len());
    assert(sviews(out@) =~= mod_keys(rv.take(0), m@));
    while j < recs.len()
        invariant
            j <= recs.len(),
            rv == rviews(recs@),
            keys@.len() == recs@.len(),
            mods@.len() == recs@.len(),
            sviews(keys@) == keys_of(rv),
            sviews(mods@) == mods_of(rv),
            sviews(out@) == mod_keys(rv.take(j as int), m@),
        decreases recs.len() - j,
    {
        assert(rv.take(j + 1).drop_last() =~= rv.take(j as int));
        assert(rv.take(j + 1).last() == rv[j as int]);
        assert(keys_of(rv.take(j as int)) =~= sviews(keys@).take(j as int));
        assert(sviews(keys@)[j as int] == rv[j as int].1);
        assert(sviews(mods@)[j as int] == rv[j as int].2);
        if str_eq(mods[j].as_str(), m) && !seen(keys, j) {
            let ghost before = out@;
            out.push(keys[j].clone());
            assert(sviews(out@) =~= sviews(before) + seq![rv[j as int].1]);
        } else {
            assert(sviews(out@) =~= mod_keys(rv.take(j as int), m@) + Seq::<Seq<char>>::empty());
        }
        j += 1;
    }
    assert(rv.take(recs.len() as int) =~= rv);
    out
}

fn mod_item_text_exec(display: Vec<char>) -> (r: Vec<char>)
    ensures
        r@ == mod_item_text(display@),
{
    let pm = chars_of("pub mod ");
    if has_prefix(&display, &pm) {
        let mut out = chars_of("pub mod ");
        let leaf = after_last_chars(&display, "::");
        crate::text::extend_chars(&mut out, &leaf);
        out
    } else {
        display
    }
}

fn push_same_mod_items(
    out: &mut Vec<GroupRecord>,
    recs: &Vec<(String, String, String)>,
    key: &str,
    prefix: &Vec<char>,
)
    requires
        prefix@.len() > 0,
    ensures
        records_view(final(out)@) == records_view(old(out)@) + same_mod_items(
            rviews(recs@),
            key@,
            prefix@,
        ),
{
    let ghost rv = rviews(recs@);
    let ghost base = records_view(out@);
    let empty: Vec<char> = Vec::new();
    proof {
        reveal_strlit("");
    }
    assert(empty@ =~= ""@);
    let mut j: usize = 0;
    assert(records_view(out@) =~= base + same_mod_items(rv.take(0), key@, prefix@));
    while j < recs.len()
        invariant
            prefix@.len() > 0,
            empty@ == ""@,
            j <= recs.len(),
            rv == rviews(recs@),
            records_view(out@) == base + same_mod_items(rv.take(j as int), key@, prefix@),
        decreases recs.len() - j,
    {
        assert(rv.take(j + 1).drop_last() =~= rv.take(j as int));
        assert(rv.take(j + 1).last() == rv[j as int]);
        if str_eq(recs[j].1.as_str(), key) {
            let display = replace_chars(&chars_of(recs[j].0.as_str()), prefix, &empty);
            let text = mod_item_text_exec(display);
            push_record(out, GroupRecord::Item(string_of(&text)));
        }
        assert(records_view(out@) =~= base + same_mod_items(rv.take(j + 1), key@, prefix@));
        j += 1;
    }
    assert(rv.take(recs.len() as int) =~= rv);
}

fn push_deep_items(
    out: &mut Vec<GroupRecord>,
    recs: &Vec<(String, String, String)>,
    key: &str,
    prefix: &Vec<char>,
)
    requires
        prefix@.len() > 0,
    ensures
        records_view(final(out)@) == records_view(old(out)@) + deep_items(
            rviews(recs@),
            key@,
            prefix@,
        ),
{
    let ghost rv = rviews(recs@);
    let ghost base = records_view(out@);
    let mut pattern = chars_of(escape(key).as_str());
    crate::text::push_str_chars(&mut pattern, OWNER_SUFFIX);
    let pattern = string_of(&pattern);
    let owner = Pattern::compile(pattern.as_str());
    let empty: Vec<char> = Vec::new();
    proof {
        reveal_strlit("");
    }
    assert(empty@ =~= ""@);
    let mut j: usize = 0;
    assert(records_view(out@) =~= base + deep_items(rv.take(0), key@, prefix@));
    while j < recs.len()
        invariant
            prefix@.len() > 0,
            empty@ == ""@,
            pattern@ == owner_pattern(key@),
            owner is Some <==> regex_compiles(owner_pattern(key@)),
            owner matches Some(o) ==> o.source() == owner_pattern(key@),
            j <= recs.len(),
            rv == rviews(recs@),
            records_view(out@) == base + deep_items(rv.take(j as int), key@, prefix@),
        decreases recs.len() - j,
    {
        assert(rv.take(j + 1).drop_last() =~= rv.take(j as int));
        assert(rv.take(j + 1).last() == rv[j as int]);
        if str_eq(recs[j].1.as_str(), key) {
            let stripped = match &owner {
                Some(o) => o.replace_all(recs[j].0.as_str(), ""),
                None => recs[j].0.clone(),
            };
            let text = replace_chars(&chars_of(stripped.as_str()), prefix, &empty);
            push_record(out, GroupRecord::DeepItem(string_of(&text)));
        }
        assert(records_view(out@) =~= base + deep_items(rv.take(j + 1), key@, prefix@));
        j += 1;
    }
    assert(rv.take(recs.len() as int) =~= rv);
}

fn emit_key_exec(
    out: &mut Vec<GroupRecord>,
    p: &GroupPatterns,
    recs: &Vec<(String, String, String)>,
    m: &str,
    key: &str,
    declared: &Vec<(String, String)>,
    src: &Vec<(String, String)>,
    member: &Vec<(String, String)>,
)
    requires
        p.wf(),
    ensures
        records_view(final(out)@) == records_view(old(out)@) + emit_key(
            rviews(recs@),
            m@,
            key@,
            (pviews(declared@), src@, pviews(member@)),
        ),
{
    let mut prefix = chars_of(m);
    crate::text::push_str_chars(&mut prefix, "::");
    proof {
        reveal_strlit("::");
    }
    if str_eq(key, m) {
        push_same_mod_items(out, recs, key, &prefix);
    } else {
        let k = chars_of(key);
        let name = if has_prefix(&k, &prefix) {
            slice_chars(&k, prefix.len(), k.len())
        } else {
            k
        };
        let kind = resolve(p, declared, src, member, key);
        let ghost mid = records_view(out@);
        push_record(out, GroupRecord::TypeSub { name: string_of(&name), kind });
        push_deep_items(out, recs, key, &prefix);
        assert(records_view(out@) =~= records_view(old(out)@) + emit_key(
            rviews(recs@),
            m@,
            key@,
            (pviews(declared@), src@, pviews(member@)),
        ));
    }
}

fn emit_module_exec(
    out: &mut Vec<GroupRecord>,
    p: &GroupPatterns,
    recs: &Vec<(String, String, String)>,
    keys: &Vec<String>,
    mods: &Vec<String>,
    m: &str,
    declared: &Vec<(String, String)>,
    src: &Vec<(String, String)>,
    member: &Vec<(String, String)>,
)
    requires
        p.wf(),
        sviews(keys@) == keys_of(rviews(recs@)),
        sviews(mods@) == mods_of(rviews(recs@)),
    ensures
        records_view(final(out)@) == records_view(old(out)@) + emit_module(
            rviews(recs@),
            m@,
            (pviews(declared@), src@, pviews(member@)),
        ),
{
    let ghost kinds = (pviews(declared@), src@, pviews(member@));
    let ghost rv = rviews(recs@);
    let ghost base = records_view(out@);
    push_record(out, GroupRecord::ModHeader(string_of(&chars_of(m))));
    let types = mod_keys_exec(recs, keys, mods, m);
    let ghost tv = sviews(types@);
    let ghost head = records_view(out@);
    let mut i: usize = 0;
    assert(records_view(out@) =~= head + emit_keys(rv, m@, tv.take(0), kinds));
    while i < types.len()
        invariant
            p.wf(),
            i <= types.len(),
            kinds == (pviews(declared@), src@, pviews(member@)),
            rv == rviews(recs@),
            tv == sviews(types@),
            records_view(out@) == head + emit_keys(rv, m@, tv.take(i as int), kinds),
        decreases types.len() - i,
    {
        assert(tv.take(i + 1).drop_last() =~= tv.take(i as int));
        assert(tv.take(i + 1).last() == tv[i as int]);
        emit_key_exec(out, p, recs, m, types[i].as_str(), declared, src, member);
        assert(records_view(out@) =~= head + emit_keys(rv, m@, tv.take(i + 1), kinds));
        i += 1;
    }
    assert(tv.take(types.len() as int) =~= tv);
    assert(records_view(out@) =~= base + emit_module(rv, m@, kinds));
}

fn emit_modules_exec(
    out: &mut Vec<GroupRecord>,
    p: &GroupPatterns,
    recs: &Vec<(String, String, String)>,
    keys: &Vec<String>,
    mods: &Vec<String>,
    order: &Vec<String>,
    declared: &Vec<(String, String)>,
    src: &Vec<(String, String)>,
    member: &Vec<(String, String)>,
    crate_prefix: &str,
    ext: bool,
)
    requires
        p.wf(),
        sviews(keys@) == keys_of(rviews(recs@)),
        sviews(mods@) == mods_of(rviews(recs@)),
    ensures
        records_view(final(out)@) == records_view(old(out)@) + emit_modules(
            rviews(recs@),
            sviews(order@),
            (pviews(declared@), src@, pviews(member@)),
            crate_prefix@,
            ext,
        ),
{
    let ghost kinds = (pviews(declared@), src@, pviews(member@));
    let ghost rv = rviews(recs@);
    let ghost ov = sviews(order@);
    let ghost base = records_view(out@);
    let mut i: usize = 0;
    assert(records_view(out@) =~= base + emit_modules(rv, ov.take(0), kinds, crate_prefix@, ext));
    while i < order.len()
        invariant
            p.wf(),
            i <= order.len(),
            kinds == (pviews(declared@), src@, pviews(member@)),
            rv == rviews(recs@),
            ov == sviews(order@),
            sviews(keys@) == keys_of(rv),
            sviews(mods@) == mods_of(rv),
            records_view(out@) == base + emit_modules(rv, ov.take(i as int), kinds, crate_prefix@, ext),
        decreases order.len() - i,
    {
        assert(ov.take(i + 1).drop_last() =~= ov.take(i as int));
        assert(ov.take(i + 1).last() == ov[i as int]);
        if is_ext(order[i].as_str(), crate_prefix) == ext {
            emit_module_exec(out, p, recs, keys, mods, order[i].as_str(), declared, src, member);
        }
        assert(records_view(out@) =~= base + emit_modules(rv, ov.take(i + 1), kinds, crate_prefix@, ext));
        i += 1;
    }
    assert(ov.take(order.len() as int) =~= ov);
}

fn group_by_mod_exec(
    p: &GroupPatterns,
    recs: &Vec<(String, String, String)>,
    declared: &Vec<(String, String)>,
    src: &Vec<(String, String)>,
    member: &Vec<(String, String)>,
    crate_prefix: &str,
) -> (r: Vec<GroupRecord>)
    requires
        p.wf(),
    ensures
        records_view(r@) == group_by_mod(
            rviews(recs@),
            (pviews(declared@), src@, pviews(member@)),
            crate_prefix@,
        ),
{
    let (keys, mods) = projections(recs);
    let order = firsts_exec(&mods);
    let mut out: Vec<GroupRecord> = Vec::new();
    assert(records_view(out@) =~= Seq::<RecordView>::empty());
    emit_modules_exec(&mut out, p, recs, &keys, &mods, &order, declared, src, member, crate_prefix, false);
    let ghost mid = records_view(out@);
    if any_ext_exec(&order, crate_prefix) {
        push_record(&mut out, GroupRecord::ExtDivider);
    }
    assert(records_view(out@) =~= mid + divider(sviews(order@), crate_prefix@));
    emit_modules_exec(&mut out, p, recs, &keys, &mods, &order, declared, src, member, crate_prefix, true);
    out
}

/// Groups the lines of a diff section with compiled patterns.
pub fn group_with(
    p: &GroupPatterns,
    lines: &Vec<String>,
    section: Section,
    mode: GroupMode,
    crate_prefix: &str,
    src_kinds: &Vec<(String, String)>,
) -> (r: Vec<GroupRecord>)
    requires
        p.wf(),
    ensures
        records_view(r@) == spec_group(sviews(lines@), section, mode, crate_prefix@, src_kinds@),
{
    if mode == GroupMode::Flat {
        let out: Vec<GroupRecord> = Vec::new();
        assert(records_view(out@) =~= Seq::<RecordView>::empty());
        return out;
    }
    let (recs, declared, member) = scan(p, lines, section);
    if mode == GroupMode::Type {
        group_by_type_exec(p, &recs, &declared, src_kinds, &member, crate_prefix)
    } else {
        group_by_mod_exec(p, &recs, &declared, src_kinds, &member, crate_prefix)
    }
}

/// Groups public API signatures while preserving each key's first appearance. Flat mode
/// gives no records and needs no pattern; otherwise `None` only if a fixed pattern of the
/// grouping does not compile.
pub fn group(
    lines: &Vec<String>,
    section: Section,
    mode: GroupMode,
    crate_prefix: &str,
    src_kinds: &Vec<(String, String)>,
) -> (r: Option<Vec<GroupRecord>>)
    ensures
        r is Some <==> (mode == GroupMode::Flat || patterns_compile()),
        mode == GroupMode::Flat ==> (r matches Some(v) && v@.len() == 0),
        r matches Some(v) ==> records_view(v@) == spec_group(
            sviews(lines@),
            section,
            mode,
            crate_prefix@,
            src_kinds@,
        ),
{
    if mode == GroupMode::Flat {
        let out: Vec<GroupRecord> = Vec::new();
        assert(records_view(out@) =~= Seq::<RecordView>::empty());
        return Some(out);
    }
    match GroupPatterns::compile() {
        Some(p) => Some(group_with(&p, lines, section, mode, crate_prefix, src_kinds)),
        None => None,
    }
}

/// How many item records a record stream holds.
pub open spec fn item_count(rs: Seq<RecordView>) -> nat
    decreases rs.len(),
{
    if rs.len() == 0 {
        0
    } else {
        item_count(rs.drop_last()) + if rs.last() is Item || rs.last() is DeepItem {
            1nat
        } else {
            0nat
        }
    }
}

/// How many lines are not blank.
pub open spec fn nonblank_count(ls: Seq<Seq<char>>) -> nat
    decreases ls.len(),
{
    if ls.len() == 0 {
        0
    } else {
        nonblank_count(ls.drop_last()) + if trim(ls.last()).len() == 0 {
            0nat
        } else {
            1nat
        }
    }
}

/// How many grouped lines have the key.
pub open spec fn key_count(recs: Seq<RecView>, k: Seq<char>) -> nat
    decreases recs.len(),
{
    if recs.len() == 0 {
        0
    } else {
        key_count(recs.drop_last(), k) + if recs.last().1 == k {
            1nat
        } else {
            0nat
        }
    }
}

/// How many grouped lines have one of the keys, each key counted where it is listed.
pub open spec fn keys_total(recs: Seq<RecView>, ks: Seq<Seq<char>>) -> nat
    decreases ks.len(),
{
    if ks.len() == 0 {
        0
    } else {
        keys_total(recs, ks.drop_last()) + key_count(recs, ks.last())
    }
}

/// `keys_total` over the keys inside (`ext` false) or outside (`ext` true) the crate.
pub open spec fn keys_total_ext(recs: Seq<RecView>, ks: Seq<Seq<char>>, crate_prefix: Seq<char>, ext: bool) -> nat
    decreases ks.len(),
{
    if ks.len() == 0 {
        0
    } else {
        keys_total_ext(recs, ks.drop_last(), crate_prefix, ext) + if spec_is_ext(ks.last(), crate_prefix) == ext {
            key_count(recs, ks.last())
        } else {
            0nat
        }
    }
}

/// How many times a key is listed.
pub open spec fn occurrences(ks: Seq<Seq<char>>, k: Seq<char>) -> nat
    decreases ks.len(),
{
    if ks.len() == 0 {
        0
    } else {
        occurrences(ks.drop_last(), k) + if ks.last() == k {
            1nat
        } else {
            0nat
        }
    }
}

proof fn lemma_item_count_one(x: RecordView)
    ensures
        item_count(seq![x]) == if x is Item || x is DeepItem {
            1nat
        } else {
            0nat
        },
{
    let s = seq![x];
    assert(s.len() == 1);
    assert(s.drop_last() =~= Seq::<RecordView>::empty());
    assert(item_count(s.drop_last()) == 0);
    assert(s.last() == x);
}

proof fn lemma_item_count_add(a: Seq<RecordView>, b: Seq<RecordView>)
    ensures
        item_count(a + b) == item_count(a) + item_count(b),
    decreases b.len(),
{
    if b.len() == 0 {
        assert(a + b =~= a);
    } else {
        lemma_item_count_add(a, b.drop_last());
        assert((a + b).drop_last() =~= a + b.drop_last());
        assert((a + b).last() == b.last());
    }
}

proof fn lemma_type_items_count(recs: Seq<RecView>, key: Seq<char>, prefix: Seq<char>)
    ensures
        item_count(type_items(recs, key, prefix)) == key_count(recs, key),
    decreases recs.len(),
{
    if recs.len() > 0 {
        lemma_type_items_count(recs.drop_last(), key, prefix);
        let prev = type_items(recs.drop_last(), key, prefix);
        if recs.last().1 == key {
            let item = seq![RecordView::Item(replace_all(recs.last().0, prefix, ""@))];
            assert(type_items(recs, key, prefix) == prev + item);
            lemma_item_count_add(prev, item);
            lemma_item_count_one(RecordView::Item(replace_all(recs.last().0, prefix, ""@)));
        } else {
            assert(type_items(recs, key, prefix) == prev + Seq::<RecordView>::empty());
            assert(prev + Seq::<RecordView>::empty() =~= prev);
        }
    }
}

proof fn lemma_emit_types_count(recs: Seq<RecView>, order: Seq<Seq<char>>, kinds: KindsView, crate_prefix: Seq<char>, ext: bool)
    ensures
        item_count(emit_types(recs, order, kinds, crate_prefix, ext)) == keys_total_ext(recs, order, crate_prefix, ext),
    decreases order.len(),
{
    if order.len() > 0 {
        lemma_emit_types_count(recs, order.drop_last(), kinds, crate_prefix, ext);
        let prev = emit_types(recs, order.drop_last(), kinds, crate_prefix, ext);
        let key = order.last();
        if spec_is_ext(key, crate_prefix) == ext {
            let head = seq![RecordView::TypeHeader(key, spec_resolve(kinds, key))];
            let items = type_items(recs, key, module_prefix(key));
            lemma_type_items_count(recs, key, module_prefix(key));
            lemma_item_count_add(head, items);
            lemma_item_count_one(RecordView::TypeHeader(key, spec_resolve(kinds, key)));
            assert(emit_type(recs, key, kinds) == head + items);
            assert(emit_types(recs, order, kinds, crate_prefix, ext) == prev + (head + items));
            lemma_item_count_add(prev, head + items);
        } else {
            assert(emit_types(recs, order, kinds, crate_prefix, ext) == prev + Seq::<RecordView>::empty());
            assert(prev + Seq::<RecordView>::empty() =~= prev);
        }
    }
}

proof fn lemma_keys_total_split(recs: Seq<RecView>, ks: Seq<Seq<char>>, crate_prefix: Seq<char>)
    ensures
        keys_total_ext(recs, ks, crate_prefix, false) + keys_total_ext(recs, ks, crate_prefix, true) == keys_total(recs, ks),
    decreases ks.len(),
{
    if ks.len() > 0 {
        lemma_keys_total_split(recs, ks.drop_last(), crate_prefix);
    }
}

proof fn lemma_keys_total_push(recs: Seq<RecView>, r: RecView, ks: Seq<Seq<char>>)
    ensures
        keys_total(recs.push(r), ks) == keys_total(recs, ks) + occurrences(ks, r.1),
    decreases ks.len(),
{
    if ks.len() > 0 {
        lemma_keys_total_push(recs, r, ks.drop_last());
        assert(recs.push(r).drop_last() =~= recs);
    }
}

proof fn lemma_key_count_absent(recs: Seq<RecView>, k: Seq<char>)
    requires
        !keys_of(recs).contains(k),
    ensures
        key_count(recs, k) == 0,
    decreases recs.len(),
{
    if recs.len() > 0 {
        assert(keys_of(recs.drop_last()) =~= keys_of(recs).drop_last());
        assert(!keys_of(recs.drop_last()).contains(k)) by {
            if keys_of(recs.drop_last()).contains(k) {
                let i = choose|i: int| 0 <= i < keys_of(recs.drop_last()).len() && keys_of(recs.drop_last())[i] == k;
                assert(keys_of(recs)[i] == k);
            }
        }
        assert(keys_of(recs)[recs.len() - 1] == recs.last().1);
        lemma_key_count_absent(recs.drop_last(), k);
    }
}

/// `firsts` lists each value of `s` once.
proof fn lemma_firsts_occurrences(s: Seq<Seq<char>>, x: Seq<char>)
    ensures
        occurrences(firsts(s), x) == if s.contains(x) {
            1nat
        } else {
            0nat
        },
    decreases s.len(),
{
    if s.len() > 0 {
        let init = s.drop_last();
        lemma_firsts_occurrences(init, x);
        let f = firsts(init);
        assert(s.contains(x) <==> init.contains(x) || s.last() == x) by {
            if s.contains(x) {
                let i = choose|i: int| 0 <= i < s.len() && s[i] == x;
                if i < init.len() {
                    assert(init[i] == x);
                }
            }
            if init.contains(x) {
                let i = choose|i: int| 0 <= i < init.len() && init[i] == x;
                assert(s[i] == x);
            }
            if s.last() == x {
                assert(s[s.len() - 1] == x);
            }
        }
        if init.contains(s.last()) {
            assert(firsts(s) == f + Seq::<Seq<char>>::empty());
            assert(f + Seq::<Seq<char>>::empty() =~= f);
        } else {
            assert(firsts(s) == f + seq![s.last()]);
            assert((f + seq![s.last()]).drop_last() =~= f);
        }
    }
}

proof fn lemma_firsts_total(recs: Seq<RecView>)
    ensures
        keys_total(recs, firsts(keys_of(recs))) == recs.len(),
    decreases recs.len(),
{
    if recs.len() > 0 {
        let init = recs.drop_last();
        let r = recs.last();
        lemma_firsts_total(init);
        assert(init.push(r) =~= recs);
        assert(keys_of(recs).drop_last() =~= keys_of(init));
        assert(keys_of(recs).last() == r.1);
        let f = firsts(keys_of(init));
        lemma_keys_total_push(init, r, f);
        lemma_firsts_occurrences(keys_of(init), r.1);
        if keys_of(init).contains(r.1) {
            assert(firsts(keys_of(recs)) == f + Seq::<Seq<char>>::empty());
            assert(f + Seq::<Seq<char>>::empty() =~= f);
        } else {
            assert(firsts(keys_of(recs)) == f + seq![r.1]);
            assert((f + seq![r.1]).drop_last() =~= f);
            lemma_key_count_absent(init, r.1);
            assert(key_count(recs, r.1) == key_count(init, r.1) + 1);
        }
    }
}

proof fn lemma_scan_len(lines: Seq<Seq<char>>, section: Section)
    ensures
        spec_scan(lines, section).0.len() == nonblank_count(lines),
    decreases lines.len(),
{
    if lines.len() > 0 {
        lemma_scan_len(lines.drop_last(), section);
    }
}

/// `--by-type` grouping lists every non-blank line of a section once: the grouped records
/// hold exactly as many items as the section has non-blank lines.
pub proof fn law_type_grouping_keeps_every_line(
    lines: Seq<Seq<char>>,
    section: Section,
    crate_prefix: Seq<char>,
    src_kinds: Seq<(String, String)>,
)
    ensures
        item_count(spec_group(lines, section, GroupMode::Type, crate_prefix, src_kinds)) == nonblank_count(lines),
{
    let st = spec_scan(lines, section);
    let recs = st.0;
    let kinds = (st.1, src_kinds, st.2);
    let order = firsts(keys_of(recs));
    let a = emit_types(recs, order, kinds, crate_prefix, false);
    let d = divider(order, crate_prefix);
    let b = emit_types(recs, order, kinds, crate_prefix, true);
    lemma_emit_types_count(recs, order, kinds, crate_prefix, false);
    lemma_emit_types_count(recs, order, kinds, crate_prefix, true);
    lemma_item_count_add(a, d);
    lemma_item_count_add(a + d, b);
    assert(spec_group(lines, section, GroupMode::Type, crate_prefix, src_kinds) == a + d + b);
    if any_ext(order, crate_prefix) {
        lemma_item_count_one(RecordView::ExtDivider);
    } else {
        assert(item_count(d) == 0);
    }
    lemma_keys_total_split(recs, order, crate_prefix);
    lemma_firsts_total(recs);
    lemma_scan_len(lines, section);
}

/// `keys_total` of each module's keys, over a list of modules.
pub open spec fn mods_total(recs: Seq<RecView>, ms: Seq<Seq<char>>) -> nat
    decreases ms.len(),
{
    if ms.len() == 0 {
        0
    } else {
        mods_total(recs, ms.drop_last()) + keys_total(recs, mod_keys(recs, ms.last()))
    }
}

/// `mods_total` over the modules inside (`ext` false) or outside (`ext` true) the crate.
pub open spec fn mods_total_ext(recs: Seq<RecView>, ms: Seq<Seq<char>>, crate_prefix: Seq<char>, ext: bool) -> nat
    decreases ms.len(),
{
    if ms.len() == 0 {
        0
    } else {
        mods_total_ext(recs, ms.drop_last(), crate_prefix, ext) + if spec_is_ext(ms.last(), crate_prefix) == ext {
            keys_total(recs, mod_keys(recs, ms.last()))
        } else {
            0nat
        }
    }
}

/// Every grouped line's module is the module of its key.
pub open spec fn well_moduled(recs: Seq<RecView>) -> bool {
    forall|i: int| 0 <= i < recs.len() ==> (#[trigger] recs[i]).2 == spec_mod_of(recs[i].1)
}

proof fn lemma_scan_moduled(lines: Seq<Seq<char>>, section: Section)
    ensures
        well_moduled(spec_scan(lines, section).0),
    decreases lines.len(),
{
    if lines.len() > 0 {
        lemma_scan_moduled(lines.drop_last(), section);
        let prev = spec_scan(lines.drop_last(), section).0;
        let now = spec_scan(lines, section).0;
        assert forall|i: int| 0 <= i < now.len() implies (#[trigger] now[i]).2 == spec_mod_of(now[i].1) by {
            if i < prev.len() {
                assert(now[i] == prev[i]);
            }
        }
    }
}

proof fn lemma_same_mod_items_count(recs: Seq<RecView>, key: Seq<char>, prefix: Seq<char>)
    ensures
        item_count(same_mod_items(recs, key, prefix)) == key_count(recs, key),
    decreases recs.len(),
{
    if recs.len() > 0 {
        lemma_same_mod_items_count(recs.drop_last(), key, prefix);
        let prev = same_mod_items(recs.drop_last(), key, prefix);
        if recs.last().1 == key {
            let x = RecordView::Item(mod_item_text(replace_all(recs.last().0, prefix, ""@)));
            assert(same_mod_items(recs, key, prefix) == prev + seq![x]);
            lemma_item_count_add(prev, seq![x]);
            lemma_item_count_one(x);
        } else {
            assert(same_mod_items(recs, key, prefix) == prev + Seq::<RecordView>::empty());
            assert(prev + Seq::<RecordView>::empty() =~= prev);
        }
    }
}

proof fn lemma_deep_items_count(recs: Seq<RecView>, key: Seq<char>, prefix: Seq<char>)
    ensures
        item_count(deep_items(recs, key, prefix)) == key_count(recs, key),
    decreases recs.len(),
{
    if recs.len() > 0 {
        lemma_deep_items_count(recs.drop_last(), key, prefix);
        let prev = deep_items(recs.drop_last(), key, prefix);
        if recs.last().1 == key {
            let x = RecordView::DeepItem(replace_all(owner_stripped(key, recs.last().0), prefix, ""@));
            assert(deep_items(recs, key, prefix) == prev + seq![x]);
            lemma_item_count_add(prev, seq![x]);
            lemma_item_count_one(x);
        } else {
            assert(deep_items(recs, key, prefix) == prev + Seq::<RecordView>::empty());
            assert(prev + Seq::<RecordView>::empty() =~= prev);
        }
    }
}

proof fn lemma_emit_keys_count(recs: Seq<RecView>, m: Seq<char>, keys: Seq<Seq<char>>, kinds: KindsView)
    ensures
        item_count(emit_keys(recs, m, keys, kinds)) == keys_total(recs, keys),
    decreases keys.len(),
{
    if keys.len() > 0 {
        lemma_emit_keys_count(recs, m, keys.drop_last(), kinds);
        let prev = emit_keys(recs, m, keys.drop_last(), kinds);
        let key = keys.last();
        let prefix = m + "::"@;
        let ek = emit_key(recs, m, key, kinds);
        if key == m {
            lemma_same_mod_items_count(recs, key, prefix);
        } else {
            let head = seq![RecordView::TypeSub(strip_prefix(key, prefix), spec_resolve(kinds, key))];
            lemma_deep_items_count(recs, key, prefix);
            lemma_item_count_add(head, deep_items(recs, key, prefix));
            lemma_item_count_one(RecordView::TypeSub(strip_prefix(key, prefix), spec_resolve(kinds, key)));
        }
        assert(item_count(ek) == key_count(recs, key));
        assert(emit_keys(recs, m, keys, kinds) == prev + ek);
        lemma_item_count_add(prev, ek);
    }
}

proof fn lemma_emit_modules_count(recs: Seq<RecView>, order: Seq<Seq<char>>, kinds: KindsView, crate_prefix: Seq<char>, ext: bool)
    ensures
        item_count(emit_modules(recs, order, kinds, crate_prefix, ext)) == mods_total_ext(recs, order, crate_prefix, ext),
    decreases order.len(),
{
    if order.len() > 0 {
        lemma_emit_modules_count(recs, order.drop_last(), kinds, crate_prefix, ext);
        let prev = emit_modules(recs, order.drop_last(), kinds, crate_prefix, ext);
        let m = order.last();
        if spec_is_ext(m, crate_prefix) == ext {
            let head = seq![RecordView::ModHeader(m)];
            let body = emit_keys(recs, m, mod_keys(recs, m), kinds);
            lemma_emit_keys_count(recs, m, mod_keys(recs, m), kinds);
            lemma_item_count_one(RecordView::ModHeader(m));
            lemma_item_count_add(head, body);
            assert(emit_module(recs, m, kinds) == head + body);
            assert(emit_modules(recs, order, kinds, crate_prefix, ext) == prev + (head + body));
            lemma_item_count_add(prev, head + body);
        } else {
            assert(emit_modules(recs, order, kinds, crate_prefix, ext) == prev + Seq::<RecordView>::empty());
            assert(prev + Seq::<RecordView>::empty() =~= prev);
        }
    }
}

proof fn lemma_mods_total_split(recs: Seq<RecView>, ms: Seq<Seq<char>>, crate_prefix: Seq<char>)
    ensures
        mods_total_ext(recs, ms, crate_prefix, false) + mods_total_ext(recs, ms, crate_prefix, true) == mods_total(recs, ms),
    decreases ms.len(),
{
    if ms.len() > 0 {
        lemma_mods_total_split(recs, ms.drop_last(), crate_prefix);
    }
}

proof fn lemma_keys_of_push(recs: Seq<RecView>, r: RecView, k: Seq<char>)
    ensures
        keys_of(recs.push(r)).contains(k) <==> keys_of(recs).contains(k) || r.1 == k,
        mods_of(recs.push(r)).contains(k) <==> mods_of(recs).contains(k) || r.2 == k,
{
    let a = keys_of(recs.push(r));
    let b = mods_of(recs.push(r));
    assert(a =~= keys_of(recs).push(r.1));
    assert(b =~= mods_of(recs).push(r.2));
    if a.contains(k) {
        let i = choose|i: int| 0 <= i < a.len() && a[i] == k;
        if i < recs.len() {
            assert(keys_of(recs)[i] == k);
        }
    }
    if keys_of(recs).contains(k) {
        let i = choose|i: int| 0 <= i < keys_of(recs).len() && keys_of(recs)[i] == k;
        assert(a[i] == k);
    }
    if r.1 == k {
        assert(a[recs.len() as int] == k);
    }
    if b.contains(k) {
        let i = choose|i: int| 0 <= i < b.len() && b[i] == k;
        if i < recs.len() {
            assert(mods_of(recs)[i] == k);
        }
    }
    if mods_of(recs).contains(k) {
        let i = choose|i: int| 0 <= i < mods_of(recs).len() && mods_of(recs)[i] == k;
        assert(b[i] == k);
    }
    if r.2 == k {
        assert(b[recs.len() as int] == k);
    }
}

proof fn lemma_occurrences_push(ks: Seq<Seq<char>>, x: Seq<char>, k: Seq<char>)
    ensures
        occurrences(ks + seq![x], k) == occurrences(ks, k) + if x == k {
            1nat
        } else {
            0nat
        },
        occurrences(ks + Seq::<Seq<char>>::empty(), k) == occurrences(ks, k),
{
    assert((ks + seq![x]).drop_last() =~= ks);
    assert(ks + Seq::<Seq<char>>::empty() =~= ks);
}

proof fn lemma_keys_total_append(recs: Seq<RecView>, ks: Seq<Seq<char>>, x: Seq<char>)
    ensures
        keys_total(recs, ks + seq![x]) == keys_total(recs, ks) + key_count(recs, x),
        keys_total(recs, ks + Seq::<Seq<char>>::empty()) == keys_total(recs, ks),
{
    assert((ks + seq![x]).drop_last() =~= ks);
    assert(ks + Seq::<Seq<char>>::empty() =~= ks);
}

proof fn lemma_mod_keys_occurrences(recs: Seq<RecView>, m: Seq<char>, k: Seq<char>)
    requires
        well_moduled(recs),
    ensures
        occurrences(mod_keys(recs, m), k) == if keys_of(recs).contains(k) && m == spec_mod_of(k) {
            1nat
        } else {
            0nat
        },
    decreases recs.len(),
{
    if recs.len() > 0 {
        let init = recs.drop_last();
        let r = recs.last();
        assert(forall|i: int| 0 <= i < init.len() ==> #[trigger] init[i] == recs[i]);
        assert(well_moduled(init));
        assert(r == recs[recs.len() - 1]);
        lemma_mod_keys_occurrences(init, m, k);
        lemma_keys_of_push(init, r, k);
        assert(init.push(r) =~= recs);
        assert(keys_of(recs.drop_last()) =~= keys_of(init));
        let fresh = r.2 == m && !keys_of(init).contains(r.1);
        if fresh {
            assert(mod_keys(recs, m) == mod_keys(init, m) + seq![r.1]);
            lemma_occurrences_push(mod_keys(init, m), r.1, k);
        } else {
            assert(mod_keys(recs, m) == mod_keys(init, m) + Seq::<Seq<char>>::empty());
            lemma_occurrences_push(mod_keys(init, m), r.1, k);
        }
    }
}

proof fn lemma_mod_keys_empty(recs: Seq<RecView>, m: Seq<char>)
    requires
        !mods_of(recs).contains(m),
    ensures
        mod_keys(recs, m).len() == 0,
    decreases recs.len(),
{
    if recs.len() > 0 {
        let init = recs.drop_last();
        let r = recs.last();
        assert(init.push(r) =~= recs);
        lemma_keys_of_push(init, r, m);
        lemma_mod_keys_empty(init, m);
    }
}

proof fn lemma_mods_total_push(init: Seq<RecView>, r: RecView, ms: Seq<Seq<char>>)
    requires
        well_moduled(init.push(r)),
    ensures
        mods_total(init.push(r), ms) == mods_total(init, ms) + occurrences(ms, r.2),
    decreases ms.len(),
{
    let recs = init.push(r);
    assert(forall|i: int| 0 <= i < init.len() ==> #[trigger] init[i] == recs[i]);
    assert(well_moduled(init));
    assert(recs[init.len() as int] == r);
    if ms.len() > 0 {
        lemma_mods_total_push(init, r, ms.drop_last());
        let m = ms.last();
        assert(recs.drop_last() =~= init);
        assert(keys_of(recs.drop_last()) =~= keys_of(init));
        let base = mod_keys(init, m);
        lemma_keys_total_push(init, r, base);
        lemma_mod_keys_occurrences(init, m, r.1);
        let fresh = r.2 == m && !keys_of(init).contains(r.1);
        if fresh {
            assert(mod_keys(recs, m) == base + seq![r.1]);
            lemma_keys_total_append(recs, base, r.1);
            lemma_key_count_absent(init, r.1);
            assert(key_count(recs, r.1) == key_count(init, r.1) + 1);
        } else {
            assert(mod_keys(recs, m) == base + Seq::<Seq<char>>::empty());
            lemma_keys_total_append(recs, base, r.1);
        }
    }
}

proof fn lemma_modules_total(recs: Seq<RecView>)
    requires
        well_moduled(recs),
    ensures
        mods_total(recs, firsts(mods_of(recs))) == recs.len(),
    decreases recs.len(),
{
    if recs.len() > 0 {
        let init = recs.drop_last();
        let r = recs.last();
        assert(init.push(r) =~= recs);
        assert(forall|i: int| 0 <= i < init.len() ==> #[trigger] init[i] == recs[i]);
        assert(well_moduled(init));
        assert(r == recs[recs.len() - 1]);
        lemma_modules_total(init);
        assert(mods_of(recs).drop_last() =~= mods_of(init));
        assert(mods_of(recs).last() == r.2);
        let f = firsts(mods_of(init));
        lemma_mods_total_push(init, r, f);
        lemma_firsts_occurrences(mods_of(init), r.2);
        if mods_of(init).contains(r.2) {
            assert(firsts(mods_of(recs)) == f + Seq::<Seq<char>>::empty());
            assert(f + Seq::<Seq<char>>::empty() =~= f);
        } else {
            assert(firsts(mods_of(recs)) == f + seq![r.2]);
            assert((f + seq![r.2]).drop_last() =~= f);
            assert(mods_total(recs, f + seq![r.2]) == mods_total(recs, f) + keys_total(recs, mod_keys(recs, r.2)));
            lemma_mod_keys_empty(init, r.2);
            assert(!keys_of(init).contains(r.1)) by {
                if keys_of(init).contains(r.1) {
                    let i = choose|i: int| 0 <= i < keys_of(init).len() && keys_of(init)[i] == r.1;
                    assert(init[i].2 == spec_mod_of(init[i].1));
                    assert(mods_of(init)[i] == r.2);
                }
            }
            assert(keys_of(recs.drop_last()) =~= keys_of(init));
            assert(mod_keys(recs, r.2) == mod_keys(init, r.2) + seq![r.1]);
            assert(mod_keys(init, r.2) =~= Seq::<Seq<char>>::empty());
            assert(mod_keys(recs, r.2) =~= seq![r.1]);
            lemma_keys_total_append(recs, Seq::<Seq<char>>::empty(), r.1);
            assert(Seq::<Seq<char>>::empty() + seq![r.1] =~= seq![r.1]);
            lemma_key_count_absent(init, r.1);
            assert(key_count(recs, r.1) == key_count(init, r.1) + 1);
        }
    }
}

/// Module grouping lists every non-blank line of a section once: the grouped records hold
/// exactly as many items as the section has non-blank lines.
pub proof fn law_module_grouping_keeps_every_line(
    lines: Seq<Seq<char>>,
    section: Section,
    crate_prefix: Seq<char>,
    src_kinds: Seq<(String, String)>,
)
    ensures
        item_count(spec_group(lines, section, GroupMode::Mod, crate_prefix, src_kinds)) == nonblank_count(lines),
{
    let st = spec_scan(lines, section);
    let recs = st.0;
    let kinds = (st.1, src_kinds, st.2);
    let order = firsts(mods_of(recs));
    let a = emit_modules(recs, order, kinds, crate_prefix, false);
    let d = divider(order, crate_prefix);
    let b = emit_modules(recs, order, kinds, crate_prefix, true);
    lemma_emit_modules_count(recs, order, kinds, crate_prefix, false);
    lemma_emit_modules_count(recs, order, kinds, crate_prefix, true);
    lemma_item_count_add(a, d);
    lemma_item_count_add(a + d, b);
    assert(spec_group(lines, section, GroupMode::Mod, crate_prefix, src_kinds) == a + d + b);
    if any_ext(order, crate_prefix) {
        lemma_item_count_one(RecordView::ExtDivider);
    } else {
        assert(item_count(d) == 0);
    }
    lemma_mods_total_split(recs, order, crate_prefix);
    lemma_scan_moduled(lines, section);
    lemma_modules_total(recs);
    lemma_scan_len(lines, section);
}

/// The names of the top-level headers among records: type headers and module headers.
pub open spec fn headers(rs: Seq<RecordView>) -> Seq<Seq<char>>
    decreases rs.len(),
{
    if rs.len() == 0 {
        Seq::empty()
    } else {
        headers(rs.drop_last()) + match rs.last() {
            RecordView::TypeHeader(k, _) => seq![k],
            RecordView::ModHeader(m) => seq![m],
            _ => Seq::empty(),
        }
    }
}

/// The number of external-section dividers among records.
pub open spec fn dividers(rs: Seq<RecordView>) -> nat
    decreases rs.len(),
{
    if rs.len() == 0 {
        0
    } else {
        dividers(rs.drop_last()) + if rs.last() is ExtDivider { 1nat } else { 0nat }
    }
}

/// The keys of `order` inside (`ext` false) or outside (`ext` true) the crate, in order.
pub open spec fn keys_where(order: Seq<Seq<char>>, crate_prefix: Seq<char>, ext: bool) -> Seq<Seq<char>>
    decreases order.len(),
{
    if order.len() == 0 {
        Seq::empty()
    } else {
        keys_where(order.drop_last(), crate_prefix, ext) + if spec_is_ext(order.last(), crate_prefix)
            == ext {
            seq![order.last()]
        } else {
            Seq::empty()
        }
    }
}

proof fn lemma_headers_add(a: Seq<RecordView>, b: Seq<RecordView>)
    ensures
        headers(a + b) == headers(a) + headers(b),
        dividers(a + b) == dividers(a) + dividers(b),
    decreases b.len(),
{
    if b.len() == 0 {
        assert(a + b =~= a);
        assert(headers(a) + headers(b) =~= headers(a));
    } else {
        lemma_headers_add(a, b.drop_last());
        assert((a + b).drop_last() =~= a + b.drop_last());
        assert((a + b).last() == b.last());
        assert(headers(a + b) =~= headers(a) + headers(b));
    }
}

/// Records that are all items, deep items or sub-headers hold no header and no divider.
pub open spec fn plain_records(rs: Seq<RecordView>) -> bool {
    forall|i: int| 0 <= i < rs.len() ==> ((#[trigger] rs[i]) is Item || rs[i] is DeepItem || rs[i] is TypeSub)
}

proof fn lemma_plain_headers(rs: Seq<RecordView>)
    requires
        plain_records(rs),
    ensures
        headers(rs) == Seq::<Seq<char>>::empty(),
        dividers(rs) == 0,
    decreases rs.len(),
{
    if rs.len() > 0 {
        assert(plain_records(rs.drop_last())) by {
            assert forall|i: int| 0 <= i < rs.drop_last().len() implies ((#[trigger] rs.drop_last()[i]) is Item || rs.drop_last()[i] is DeepItem || rs.drop_last()[i] is TypeSub) by {
                assert(rs.drop_last()[i] == rs[i]);
            }
        }
        lemma_plain_headers(rs.drop_last());
        assert(rs.last() == rs[rs.len() - 1]);
    }
}

proof fn lemma_plain_add(a: Seq<RecordView>, b: Seq<RecordView>)
    requires
        plain_records(a),
        plain_records(b),
    ensures
        plain_records(a + b),
{
    assert forall|i: int| 0 <= i < (a + b).len() implies ((#[trigger] (a + b)[i]) is Item || (a + b)[i] is DeepItem || (a + b)[i] is TypeSub) by {
        if i < a.len() {
            assert((a + b)[i] == a[i]);
        } else {
            assert((a + b)[i] == b[i - a.len()]);
        }
    }
}

proof fn lemma_type_items_plain(recs: Seq<RecView>, key: Seq<char>, prefix: Seq<char>)
    ensures
        plain_records(type_items(recs, key, prefix)),
        plain_records(same_mod_items(recs, key, prefix)),
        plain_records(deep_items(recs, key, prefix)),
    decreases recs.len(),
{
    if recs.len() > 0 {
        lemma_type_items_plain(recs.drop_last(), key, prefix);
        let e: Seq<RecordView> = Seq::empty();
        assert(plain_records(e));
        let t = seq![RecordView::Item(replace_all(recs.last().0, prefix, ""@))];
        assert(plain_records(t));
        let m = seq![RecordView::Item(mod_item_text(replace_all(recs.last().0, prefix, ""@)))];
        assert(plain_records(m));
        let d = seq![RecordView::DeepItem(replace_all(owner_stripped(key, recs.last().0), prefix, ""@))];
        assert(plain_records(d));
        lemma_plain_add(type_items(recs.drop_last(), key, prefix), if recs.last().1 == key { t } else { e });
        lemma_plain_add(same_mod_items(recs.drop_last(), key, prefix), if recs.last().1 == key { m } else { e });
        lemma_plain_add(deep_items(recs.drop_last(), key, prefix), if recs.last().1 == key { d } else { e });
    }
}

proof fn lemma_emit_keys_plain(recs: Seq<RecView>, m: Seq<char>, keys: Seq<Seq<char>>, kinds: KindsView)
    ensures
        plain_records(emit_keys(recs, m, keys, kinds)),
    decreases keys.len(),
{
    if keys.len() == 0 {
        let e: Seq<RecordView> = Seq::empty();
        assert(plain_records(e));
    } else {
        lemma_emit_keys_plain(recs, m, keys.drop_last(), kinds);
        let key = keys.last();
        let prefix = m + "::"@;
        lemma_type_items_plain(recs, key, prefix);
        let sub = seq![RecordView::TypeSub(strip_prefix(key, prefix), spec_resolve(kinds, key))];
        assert(plain_records(sub));
        lemma_plain_add(sub, deep_items(recs, key, prefix));
        lemma_plain_add(emit_keys(recs, m, keys.drop_last(), kinds), emit_key(recs, m, key, kinds));
    }
}

/// The headers of the grouped keys or modules on one side of the divider: one per key, in
/// order; and no divider among them. The groups start with the first key's header.
proof fn lemma_emit_headers(recs: Seq<RecView>, order: Seq<Seq<char>>, kinds: KindsView, crate_prefix: Seq<char>, ext: bool)
    ensures
        headers(emit_types(recs, order, kinds, crate_prefix, ext)) == keys_where(order, crate_prefix, ext),
        dividers(emit_types(recs, order, kinds, crate_prefix, ext)) == 0,
        keys_where(order, crate_prefix, ext).len() > 0 ==> emit_types(recs, order, kinds, crate_prefix, ext).len() > 0
            && emit_types(recs, order, kinds, crate_prefix, ext)[0] == RecordView::TypeHeader(
                keys_where(order, crate_prefix, ext)[0],
                spec_resolve(kinds, keys_where(order, crate_prefix, ext)[0]),
            ),
        headers(emit_modules(recs, order, kinds, crate_prefix, ext)) == keys_where(order, crate_prefix, ext),
        dividers(emit_modules(recs, order, kinds, crate_prefix, ext)) == 0,
        keys_where(order, crate_prefix, ext).len() == 0 ==> emit_types(recs, order, kinds, crate_prefix, ext).len() == 0
            && emit_modules(recs, order, kinds, crate_prefix, ext).len() == 0,
        keys_where(order, crate_prefix, ext).len() > 0 ==> emit_modules(recs, order, kinds, crate_prefix, ext).len() > 0
            && emit_modules(recs, order, kinds, crate_prefix, ext)[0] == RecordView::ModHeader(
                keys_where(order, crate_prefix, ext)[0],
            ),
    decreases order.len(),
{
    if order.len() > 0 {
        let d = order.drop_last();
        let k = order.last();
        lemma_emit_headers(recs, d, kinds, crate_prefix, ext);
        let pt = emit_types(recs, d, kinds, crate_prefix, ext);
        let pm = emit_modules(recs, d, kinds, crate_prefix, ext);
        let e: Seq<RecordView> = Seq::empty();
        if spec_is_ext(k, crate_prefix) == ext {
            let et = emit_type(recs, k, kinds);
            lemma_type_items_plain(recs, k, module_prefix(k));
            let h = seq![RecordView::TypeHeader(k, spec_resolve(kinds, k))];
            lemma_headers_add(h, type_items(recs, k, module_prefix(k)));
            lemma_plain_headers(type_items(recs, k, module_prefix(k)));
            assert(headers(h) =~= seq![k]) by {
                assert(h.drop_last() =~= Seq::<RecordView>::empty());
                assert(headers(h.drop_last()) =~= Seq::<Seq<char>>::empty());
                assert(h.last() == RecordView::TypeHeader(k, spec_resolve(kinds, k)));
            }
            assert(dividers(h) == 0) by {
                assert(h.drop_last() =~= Seq::<RecordView>::empty());
                assert(dividers(Seq::<RecordView>::empty()) == 0);
                assert(dividers(h.drop_last()) == 0);
                assert(h.last() == RecordView::TypeHeader(k, spec_resolve(kinds, k)));
            }
            lemma_headers_add(pt, et);
            let em = emit_module(recs, k, kinds);
            lemma_emit_keys_plain(recs, k, mod_keys(recs, k), kinds);
            let hm = seq![RecordView::ModHeader(k)];
            lemma_headers_add(hm, emit_keys(recs, k, mod_keys(recs, k), kinds));
            lemma_plain_headers(emit_keys(recs, k, mod_keys(recs, k), kinds));
            assert(headers(hm) =~= seq![k]) by {
                assert(hm.drop_last() =~= Seq::<RecordView>::empty());
                assert(headers(hm.drop_last()) =~= Seq::<Seq<char>>::empty());
                assert(hm.last() == RecordView::ModHeader(k));
            }
            assert(dividers(hm) == 0) by {
                assert(hm.drop_last() =~= Seq::<RecordView>::empty());
                assert(dividers(Seq::<RecordView>::empty()) == 0);
                assert(dividers(hm.drop_last()) == 0);
                assert(hm.last() == RecordView::ModHeader(k));
            }
            lemma_headers_add(pm, em);
            assert(keys_where(order, crate_prefix, ext) == keys_where(d, crate_prefix, ext) + seq![k]);
            if keys_where(d, crate_prefix, ext).len() == 0 {
                assert(pt.len() == 0 && pm.len() == 0);
                assert(emit_types(recs, order, kinds, crate_prefix, ext) =~= pt + et);
                assert(emit_modules(recs, order, kinds, crate_prefix, ext) =~= pm + em);
            } else {
                assert(emit_types(recs, order, kinds, crate_prefix, ext) =~= pt + et);
                assert(emit_modules(recs, order, kinds, crate_prefix, ext) =~= pm + em);
            }
        } else {
            lemma_headers_add(pt, e);
            lemma_headers_add(pm, e);
            assert(pt + e =~= pt);
            assert(pm + e =~= pm);
            assert(keys_where(order, crate_prefix, ext) =~= keys_where(d, crate_prefix, ext));
        }
    }
}

proof fn lemma_keys_where(order: Seq<Seq<char>>, crate_prefix: Seq<char>)
    ensures
        any_ext(order, crate_prefix) <==> keys_where(order, crate_prefix, true).len() > 0,
        forall|i: int| 0 <= i < keys_where(order, crate_prefix, true).len() ==> spec_is_ext(#[trigger] keys_where(order, crate_prefix, true)[i], crate_prefix),
        forall|i: int| 0 <= i < keys_where(order, crate_prefix, false).len() ==> !spec_is_ext(#[trigger] keys_where(order, crate_prefix, false)[i], crate_prefix),
    decreases order.len(),
{
    if order.len() > 0 {
        let d = order.drop_last();
        lemma_keys_where(d, crate_prefix);
        assert(order.last() == order[order.len() - 1]);
        assert(any_ext(order, crate_prefix) <==> any_ext(d, crate_prefix) || spec_is_ext(order.last(), crate_prefix)) by {
            if any_ext(order, crate_prefix) {
                let i = choose|i: int| 0 <= i < order.len() && spec_is_ext(#[trigger] order[i], crate_prefix);
                if i < d.len() {
                    assert(d[i] == order[i]);
                }
            }
            if any_ext(d, crate_prefix) {
                let i = choose|i: int| 0 <= i < d.len() && spec_is_ext(#[trigger] d[i], crate_prefix);
                assert(order[i] == d[i]);
            }
        }
        let t = keys_where(order, crate_prefix, true);
        let f = keys_where(order, crate_prefix, false);
        assert forall|i: int| 0 <= i < t.len() implies spec_is_ext(#[trigger] t[i], crate_prefix) by {
            if i < keys_where(d, crate_prefix, true).len() {
                assert(t[i] == keys_where(d, crate_prefix, true)[i]);
            }
        }
        assert forall|i: int| 0 <= i < f.len() implies !spec_is_ext(#[trigger] f[i], crate_prefix) by {
            if i < keys_where(d, crate_prefix, false).len() {
                assert(f[i] == keys_where(d, crate_prefix, false)[i]);
            }
        }
    }
}

/// Grouping names each key (`--by-type`) or module (module mode) of the section's non-blank
/// lines in exactly one header, in first-appearance order, those of the crate itself before
/// those outside it (a key is outside when the crate prefix is set and the key is neither the
/// prefix nor under it); a divider stands exactly once, right before the first outside header,
/// when there is one, and never otherwise. Flat mode gives no records.
pub proof fn law_group_headers(
    lines: Seq<Seq<char>>,
    section: Section,
    mode: GroupMode,
    crate_prefix: Seq<char>,
    src_kinds: Seq<(String, String)>,
)
    ensures
        mode == GroupMode::Flat ==> spec_group(lines, section, mode, crate_prefix, src_kinds).len() == 0,
        mode != GroupMode::Flat ==> ({
            let recs = spec_scan(lines, section).0;
            let names = if mode == GroupMode::Type { keys_of(recs) } else { mods_of(recs) };
            let order = firsts(names);
            let inside = keys_where(order, crate_prefix, false);
            let outside = keys_where(order, crate_prefix, true);
            let r = spec_group(lines, section, mode, crate_prefix, src_kinds);
            &&& forall|x: Seq<char>| #[trigger] occurrences(order, x) == if names.contains(x) { 1nat } else { 0nat }
            &&& forall|i: int| 0 <= i < inside.len() ==> !spec_is_ext(#[trigger] inside[i], crate_prefix)
            &&& forall|i: int| 0 <= i < outside.len() ==> spec_is_ext(#[trigger] outside[i], crate_prefix)
            &&& headers(r) == inside + outside
            &&& dividers(r) == if outside.len() > 0 { 1nat } else { 0nat }
            &&& outside.len() > 0 ==> exists|p: int|
                0 <= p && p + 1 < r.len() && #[trigger] r[p] == RecordView::ExtDivider && headers(r.take(p)) == inside
                    && (r[p + 1] == RecordView::ModHeader(outside[0]) || r[p + 1] == RecordView::TypeHeader(
                    outside[0],
                    spec_resolve((spec_scan(lines, section).1, src_kinds, spec_scan(lines, section).2), outside[0]),
                ))
        }),
{
    if mode != GroupMode::Flat {
        let st = spec_scan(lines, section);
        let recs = st.0;
        let kinds = (st.1, src_kinds, st.2);
        let names = if mode == GroupMode::Type { keys_of(recs) } else { mods_of(recs) };
        let order = firsts(names);
        let inside = keys_where(order, crate_prefix, false);
        let outside = keys_where(order, crate_prefix, true);
        let r = spec_group(lines, section, mode, crate_prefix, src_kinds);
        assert forall|x: Seq<char>| #[trigger] occurrences(order, x) == if names.contains(x) { 1nat } else { 0nat } by {
            lemma_firsts_occurrences(names, x);
        }
        lemma_keys_where(order, crate_prefix);
        lemma_emit_headers(recs, order, kinds, crate_prefix, false);
        lemma_emit_headers(recs, order, kinds, crate_prefix, true);
        let dv = divider(order, crate_prefix);
        let a = if mode == GroupMode::Type {
            emit_types(recs, order, kinds, crate_prefix, false)
        } else {
            emit_modules(recs, order, kinds, crate_prefix, false)
        };
        let b = if mode == GroupMode::Type {
            emit_types(recs, order, kinds, crate_prefix, true)
        } else {
            emit_modules(recs, order, kinds, crate_prefix, true)
        };
        assert(r == a + dv + b);
        lemma_headers_add(a, dv);
        lemma_headers_add(a + dv, b);
        if outside.len() > 0 {
            assert(dv == seq![RecordView::ExtDivider]);
            assert(headers(dv) =~= Seq::<Seq<char>>::empty()) by {
                assert(dv.drop_last() =~= Seq::<RecordView>::empty());
                assert(headers(dv.drop_last()) =~= Seq::<Seq<char>>::empty());
            }
            assert(dividers(dv) == 1) by {
                assert(dv.drop_last() =~= Seq::<RecordView>::empty());
                assert(dividers(Seq::<RecordView>::empty()) == 0);
                assert(dividers(dv.drop_last()) == 0);
            }
            let p = a.len() as int;
            assert(r[p] == RecordView::ExtDivider);
            assert(r[p + 1] == b[0]);
            assert(r.take(p) =~= a);
            assert(headers(r) =~= inside + outside);
        } else {
            assert(dv =~= Seq::<RecordView>::empty());
            assert(b.len() == 0);
            assert(headers(r) =~= inside + outside);
        }
    }
}

/// The positions of the grouped lines with key `k`, in input order.
pub open spec fn key_positions(recs: Seq<RecView>, k: Seq<char>) -> Seq<int>
    decreases recs.len(),
{
    if recs.len() == 0 {
        Seq::empty()
    } else {
        key_positions(recs.drop_last(), k) + if recs.last().1 == k {
            seq![recs.len() - 1]
        } else {
            Seq::empty()
        }
    }
}

proof fn lemma_key_positions(recs: Seq<RecView>, k: Seq<char>)
    ensures
        forall|a: int, b: int| 0 <= a < b < key_positions(recs, k).len() ==> #[trigger] key_positions(recs, k)[a] < #[trigger] key_positions(recs, k)[b],
        forall|a: int| 0 <= a < key_positions(recs, k).len() ==> 0 <= #[trigger] key_positions(recs, k)[a] < recs.len()
            && recs[key_positions(recs, k)[a]].1 == k,
        forall|i: int| 0 <= i < recs.len() && (#[trigger] recs[i]).1 == k ==> key_positions(recs, k).contains(i),
    decreases recs.len(),
{
    if recs.len() > 0 {
        let d = recs.drop_last();
        lemma_key_positions(d, k);
        let pd = key_positions(d, k);
        let ps = key_positions(recs, k);
        let n = recs.len() - 1;
        assert forall|a: int| 0 <= a < pd.len() implies ps[a] == pd[a] by {}
        assert forall|a: int, b: int| 0 <= a < b < ps.len() implies #[trigger] ps[a] < #[trigger] ps[b] by {
            if b >= pd.len() {
                assert(ps[b] == n);
                assert(ps[a] == pd[a]);
            } else {
                assert(ps[a] == pd[a] && ps[b] == pd[b]);
            }
        }
        assert forall|a: int| 0 <= a < ps.len() implies 0 <= #[trigger] ps[a] < recs.len() && recs[ps[a]].1 == k by {
            if a < pd.len() {
                assert(ps[a] == pd[a]);
                assert(d[pd[a]] == recs[pd[a]]);
            } else {
                assert(recs.last() == recs[n]);
            }
        }
        assert forall|i: int| 0 <= i < recs.len() && (#[trigger] recs[i]).1 == k implies ps.contains(i) by {
            if i < n {
                assert(d[i] == recs[i]);
                assert(pd.contains(i));
                let a = choose|a: int| 0 <= a < pd.len() && pd[a] == i;
                assert(ps[a] == i);
            } else {
                assert(recs.last() == recs[n]);
                assert(ps[pd.len() as int] == n);
            }
        }
    }
}

proof fn lemma_items_at_positions(recs: Seq<RecView>, k: Seq<char>, prefix: Seq<char>)
    ensures
        type_items(recs, k, prefix) == key_positions(recs, k).map_values(
            |i: int| RecordView::Item(replace_all(recs[i].0, prefix, ""@)),
        ),
        deep_items(recs, k, prefix) == key_positions(recs, k).map_values(
            |i: int| RecordView::DeepItem(replace_all(owner_stripped(k, recs[i].0), prefix, ""@)),
        ),
        same_mod_items(recs, k, prefix) == key_positions(recs, k).map_values(
            |i: int| RecordView::Item(mod_item_text(replace_all(recs[i].0, prefix, ""@))),
        ),
    decreases recs.len(),
{
    if recs.len() > 0 {
        let d = recs.drop_last();
        lemma_items_at_positions(d, k, prefix);
        lemma_key_positions(d, k);
        let pd = key_positions(d, k);
        let n = recs.len() - 1;
        assert(recs.last() == recs[n]);
        assert forall|a: int| 0 <= a < pd.len() implies recs[#[trigger] pd[a]] == d[pd[a]] by {}
        assert(type_items(recs, k, prefix) =~= key_positions(recs, k).map_values(
            |i: int| RecordView::Item(replace_all(recs[i].0, prefix, ""@)),
        ));
        assert(deep_items(recs, k, prefix) =~= key_positions(recs, k).map_values(
            |i: int| RecordView::DeepItem(replace_all(owner_stripped(k, recs[i].0), prefix, ""@)),
        ));
        assert(same_mod_items(recs, k, prefix) =~= key_positions(recs, k).map_values(
            |i: int| RecordView::Item(mod_item_text(replace_all(recs[i].0, prefix, ""@))),
        ));
    } else {
        assert(type_items(recs, k, prefix) =~= Seq::<RecordView>::empty());
    }
}

/// Under each key's header the items are its lines, one item per line, in input order: the
/// `j`-th item comes from the `j`-th line with that key (in `--by-type` mode with the module
/// prefix removed; in module mode the module's own items with the module prefix removed, and
/// a type's deep items with the owner's path and the module prefix removed).
pub proof fn law_items_follow_their_lines(recs: Seq<RecView>, k: Seq<char>, prefix: Seq<char>)
    ensures
        ({
            let pos = key_positions(recs, k);
            &&& forall|a: int, b: int| 0 <= a < b < pos.len() ==> #[trigger] pos[a] < #[trigger] pos[b]
            &&& forall|a: int| 0 <= a < pos.len() ==> 0 <= #[trigger] pos[a] < recs.len() && recs[pos[a]].1 == k
            &&& forall|i: int| 0 <= i < recs.len() && (#[trigger] recs[i]).1 == k ==> pos.contains(i)
            &&& type_items(recs, k, prefix).len() == pos.len()
            &&& forall|a: int| 0 <= a < pos.len() ==> #[trigger] type_items(recs, k, prefix)[a] == RecordView::Item(
                replace_all(recs[pos[a]].0, prefix, ""@),
            )
            &&& deep_items(recs, k, prefix).len() == pos.len()
            &&& forall|a: int| 0 <= a < pos.len() ==> #[trigger] deep_items(recs, k, prefix)[a] == RecordView::DeepItem(
                replace_all(owner_stripped(k, recs[pos[a]].0), prefix, ""@),
            )
            &&& same_mod_items(recs, k, prefix).len() == pos.len()
            &&& forall|a: int| 0 <= a < pos.len() ==> #[trigger] same_mod_items(recs, k, prefix)[a] == RecordView::Item(
                mod_item_text(replace_all(recs[pos[a]].0, prefix, ""@)),
            )
        }),
{
    lemma_key_positions(recs, k);
    lemma_items_at_positions(recs, k, prefix);
}

} // verus!
