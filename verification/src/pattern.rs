//! Regular expressions from the `regex` crate as this library uses them: compiled from a
//! pattern, then asked whether they match a text, or used to replace matches.
//!
//! Regular-expression matching is the `regex` crate's, not this library's: what a compiled
//! pattern answers on a text is named below by a function of the pattern and the text, and
//! the library's contracts speak of those names.

use vstd::prelude::*;

verus! {

#[verifier::external_type_specification]
#[verifier::external_body]
pub struct ExRegex(regex::Regex);

/// Whether `Regex::new` accepts the pattern.
pub uninterp spec fn regex_compiles(pattern: Seq<char>) -> bool;

/// What `Regex::is_match` answers for a text.
pub uninterp spec fn regex_is_match(pattern: Seq<char>, text: Seq<char>) -> bool;

/// What `Regex::replace` returns: the leftmost-first match replaced.
pub uninterp spec fn regex_replace(pattern: Seq<char>, text: Seq<char>, rep: Seq<char>) -> Seq<
    char,
>;

/// What `Regex::replace_all` returns: every non-overlapping match replaced.
pub uninterp spec fn regex_replace_all(pattern: Seq<char>, text: Seq<char>, rep: Seq<char>) -> Seq<
    char,
>;

/// A character that has a meaning in a regular expression (`regex_syntax::is_meta_character`).
pub open spec fn is_regex_meta(c: char) -> bool {
    c == '\\' || c == '.' || c == '+' || c == '*' || c == '?' || c == '(' || c == ')' || c == '|'
        || c == '[' || c == ']' || c == '{' || c == '}' || c == '^' || c == '$' || c == '#' || c
        == '&' || c == '-' || c == '~'
}

/// What `regex::escape` returns: the text with a backslash put before every meta character.
pub open spec fn regex_escape(text: Seq<char>) -> Seq<char>
    decreases text.len(),
{
    if text.len() == 0 {
        Seq::empty()
    } else {
        regex_escape(text.drop_last()) + if is_regex_meta(text.last()) {
            seq!['\\', text.last()]
        } else {
            seq![text.last()]
        }
    }
}

/// A compiled regular expression and the pattern it was compiled from.
pub struct Pattern {
    re: regex::Regex,
    source: Ghost<Seq<char>>,
}

impl Pattern {
    /// The pattern this expression was compiled from.
    pub closed spec fn source(&self) -> Seq<char> {
        self.source@
    }

    /// Compiles a pattern (`Regex::new`): `None` where the crate rejects it.
    #[verifier::external_body]
    pub(crate) fn compile(pattern: &str) -> (r: Option<Pattern>)
        ensures
            r is Some <==> regex_compiles(pattern@),
            r matches Some(p) ==> p.source() == pattern@,
    {
        match regex::Regex::new(pattern) {
            Ok(re) => Some(Pattern { re, source: Ghost(pattern@) }),
            Err(_) => None,
        }
    }

    /// Whether the expression matches somewhere in the text (`Regex::is_match`).
    #[verifier::external_body]
    pub(crate) fn is_match(&self, text: &str) -> (r: bool)
        ensures
            r == regex_is_match(self.source(), text@),
    {
        self.re.is_match(text)
    }

    /// The text with its leftmost-first match replaced (`Regex::replace`); the text itself
    /// where nothing matches, as the crate documents.
    #[verifier::external_body]
    pub(crate) fn replace(&self, text: &str, rep: &str) -> (r: String)
        ensures
            r@ == regex_replace(self.source(), text@, rep@),
            !regex_is_match(self.source(), text@) ==> r@ == text@,
    {
        self.re.replace(text, rep).into_owned()
    }

    /// The text with every non-overlapping match replaced (`Regex::replace_all`); the text
    /// itself where nothing matches, as the crate documents.
    #[verifier::external_body]
    pub(crate) fn replace_all(&self, text: &str, rep: &str) -> (r: String)
        ensures
            r@ == regex_replace_all(self.source(), text@, rep@),
            !regex_is_match(self.source(), text@) ==> r@ == text@,
    {
        self.re.replace_all(text, rep).into_owned()
    }
}

/// The text with regular-expression meta characters escaped (`regex::escape`, which pushes
/// a backslash before each char that `is_meta_character` accepts, then the char).
#[verifier::external_body]
pub(crate) fn escape(text: &str) -> (r: String)
    ensures
        r@ == regex_escape(text@),
{
    regex::escape(text)
}

} // verus!
