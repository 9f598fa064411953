//! Regular-expression searches, made with the `regex` crate.
//!
//! A [`Searcher`] compiles its pattern once with `regex::Regex::new` and,
//! when it compiles, runs searches on haystacks. Whether a pattern compiles,
//! and what a search finds, are named by uninterpreted functions of the
//! pattern's text and the haystack; the scanners' specifications are stated
//! over those names. A pattern that does not compile matches nothing. Spans are byte ranges
//! `start..end` of the haystack's UTF-8 encoding.

use vstd::prelude::*;
use vstd::utf8::*;
use vstd::string::StringSliceAdditionalSpecFns;

verus! {

/// A byte range `start..end` of a haystack.
pub type Span = (usize, usize);

/// `sp` is a range of `b` whose ends are character boundaries.
pub open spec fn span_in(b: Seq<u8>, sp: Span) -> bool {
    &&& sp.0 <= sp.1 <= b.len()
    &&& is_char_boundary(b, sp.0 as int)
    &&& is_char_boundary(b, sp.1 as int)
}

/// Every present group of `groups` is a range of `b`.
pub open spec fn groups_in(b: Seq<u8>, groups: Seq<Option<Span>>) -> bool {
    forall|g: int| 0 <= g < groups.len() ==> (#[trigger] groups[g] matches Some(sp) ==> span_in(b, sp))
}

/// The capture groups of one match: group 0, the whole match, is present.
pub open spec fn captures_wf(b: Seq<u8>, groups: Seq<Option<Span>>) -> bool {
    &&& groups.len() >= 1
    &&& groups[0] is Some
    &&& groups_in(b, groups)
}

#[verifier::external_type_specification]
#[verifier::external_body]
pub struct ExRegex(regex::Regex);

/// A compiled regular expression and the text it was compiled from.
pub struct Pattern {
    text: String,
    regex: regex::Regex,
}

impl View for Pattern {
    type V = Seq<char>;

    /// The text of the pattern.
    closed spec fn view(&self) -> Seq<char> {
        self.text@
    }
}

/// Whether `regex::Regex::new(pattern)` succeeds.
pub uninterp spec fn regex_compiles(pattern: Seq<char>) -> bool;

/// What `Regex::is_match(haystack)` returns for the regex compiled from
/// `pattern`.
pub uninterp spec fn regex_is_match(pattern: Seq<char>, haystack: Seq<char>) -> bool;

/// The spans of the successive non-overlapping matches that
/// `Regex::find_iter(haystack)` yields for the regex compiled from `pattern`.
pub uninterp spec fn regex_find_iter(pattern: Seq<char>, haystack: Seq<char>) -> Seq<Span>;

/// The capture groups (by index, `None` for a group that did not take part)
/// of the first match that `Regex::captures(haystack)` returns for the regex
/// compiled from `pattern`, or `None` when nothing matches.
pub uninterp spec fn regex_captures(pattern: Seq<char>, haystack: Seq<char>) -> Option<Seq<Option<Span>>>;

/// The capture groups of each match that `Regex::captures_iter(haystack)`
/// yields for the regex compiled from `pattern`.
pub uninterp spec fn regex_captures_iter(pattern: Seq<char>, haystack: Seq<char>) -> Seq<Seq<Option<Span>>>;

/// Calls `regex::Regex::new`, keeping the pattern's text beside the compiled
/// regex. The contract claims that whether it succeeds is a function of the
/// pattern, and that the result holds the pattern's text.
#[verifier::external_body]
fn compile(pattern: &str) -> (r: Option<Pattern>)
    ensures
        r is Some == regex_compiles(pattern@),
        r matches Some(p) ==> p@ == pattern@,
{
    match regex::Regex::new(pattern) {
        Ok(regex) => Some(Pattern { text: pattern.to_string(), regex }),
        Err(_) => None,
    }
}

/// Calls `Regex::is_match`. The contract claims only that the result is a
/// function of the pattern and the haystack.
#[verifier::external_body]
fn regex_is_match_call(p: &Pattern, haystack: &str) -> (r: bool)
    ensures
        r == regex_is_match(p@, haystack@),
{
    p.regex.is_match(haystack)
}

/// Calls `Regex::find_iter`, keeping each match's `start()` and `end()`. The
/// contract claims that the result is a function of the pattern and the
/// haystack, and that each span lies in the haystack with both ends on
/// character boundaries, as the documentation of `regex::Match` guarantees.
#[verifier::external_body]
fn regex_find_iter_call(p: &Pattern, haystack: &str) -> (r: Vec<Span>)
    ensures
        r@ == regex_find_iter(p@, haystack@),
        forall|i: int| 0 <= i < r@.len() ==> span_in(haystack.spec_bytes(), #[trigger] r@[i]),
{
    p.regex.find_iter(haystack).map(|m| (m.start(), m.end())).collect()
}

/// Calls `Regex::captures`, keeping the span of each group
/// (`Captures::iter`). The contract claims that the result is a function of
/// the pattern and the haystack, that group 0 is present, and that every span
/// lies in the haystack on character boundaries, as the documentation of
/// `regex::Captures` and `regex::Match` guarantees.
#[verifier::external_body]
fn regex_captures_call(p: &Pattern, haystack: &str) -> (r: Option<Vec<Option<Span>>>)
    ensures
        r is Some == regex_captures(p@, haystack@) is Some,
        r matches Some(g) ==> regex_captures(p@, haystack@) == Some(g@),
        r matches Some(g) ==> captures_wf(haystack.spec_bytes(), g@),
{
    p.regex.captures(haystack).map(|c| c.iter().map(|m| m.map(|m| (m.start(), m.end()))).collect())
}

/// Calls `Regex::captures_iter`, keeping the span of each group of each
/// match. The contract claims that the result is a function of the pattern
/// and the haystack, that group 0 of each match is present, and that every
/// span lies in the haystack on character boundaries, as the documentation
/// of `regex::Captures` and `regex::Match` guarantees.
#[verifier::external_body]
fn regex_captures_iter_call(p: &Pattern, haystack: &str) -> (r: Vec<Vec<Option<Span>>>)
    ensures
        r.deep_view() == regex_captures_iter(p@, haystack@),
        forall|i: int| 0 <= i < r@.len() ==> captures_wf(haystack.spec_bytes(), #[trigger] r.deep_view()[i]),
{
    p.regex.captures_iter(haystack).map(|c| c.iter().map(|m| m.map(|m| (m.start(), m.end()))).collect()).collect()
}

/// `pattern` compiles and matches somewhere in `haystack`.
pub open spec fn is_match(pattern: Seq<char>, haystack: Seq<char>) -> bool {
    regex_compiles(pattern) && regex_is_match(pattern, haystack)
}

/// The spans of the matches of `pattern` in `haystack` (none when the
/// pattern does not compile).
pub open spec fn find_all(pattern: Seq<char>, haystack: Seq<char>) -> Seq<Span> {
    if regex_compiles(pattern) {
        regex_find_iter(pattern, haystack)
    } else {
        seq![]
    }
}

/// The capture groups of the first match of `pattern` in `haystack`.
pub open spec fn first_captures(pattern: Seq<char>, haystack: Seq<char>) -> Option<Seq<Option<Span>>> {
    if regex_compiles(pattern) {
        regex_captures(pattern, haystack)
    } else {
        None
    }
}

/// The capture groups of every match of `pattern` in `haystack`.
pub open spec fn all_captures(pattern: Seq<char>, haystack: Seq<char>) -> Seq<Seq<Option<Span>>> {
    if regex_compiles(pattern) {
        regex_captures_iter(pattern, haystack)
    } else {
        seq![]
    }
}

/// A regular expression compiled once from its text, to be searched with
/// many times. It matches nothing when its text does not compile.
pub struct Searcher {
    compiled: Option<Pattern>,
    text: Ghost<Seq<char>>,
}

impl Searcher {
    #[verifier::type_invariant]
    spec fn inv(self) -> bool {
        &&& (self.compiled is Some) == regex_compiles(self.text@)
        &&& (self.compiled matches Some(p) ==> p@ == self.text@)
    }
}

impl View for Searcher {
    type V = Seq<char>;

    /// The text of the regular expression.
    closed spec fn view(&self) -> Seq<char> {
        self.text@
    }
}

impl Searcher {
    /// Compiles `pattern`.
    pub fn new(pattern: &str) -> (r: Self)
        ensures
            r@ == pattern@,
    {
        Searcher { compiled: compile(pattern), text: Ghost(pattern@) }
    }

    /// Whether the regular expression matches somewhere in `haystack`.
    pub fn matches_in(&self, haystack: &str) -> (r: bool)
        ensures
            r == is_match(self@, haystack@),
    {
        proof {
            use_type_invariant(self);
        }
        match &self.compiled {
            Some(p) => regex_is_match_call(p, haystack),
            None => false,
        }
    }

    /// The spans of its matches in `haystack`.
    pub fn find_spans(&self, haystack: &str) -> (r: Vec<Span>)
        ensures
            r@ == find_all(self@, haystack@),
            forall|i: int| 0 <= i < r@.len() ==> span_in(haystack.spec_bytes(), #[trigger] r@[i]),
    {
        proof {
            use_type_invariant(self);
        }
        match &self.compiled {
            Some(p) => regex_find_iter_call(p, haystack),
            None => Vec::new(),
        }
    }

    /// The capture groups of its first match in `haystack`.
    pub fn captures_first(&self, haystack: &str) -> (r: Option<Vec<Option<Span>>>)
        ensures
            r is Some == first_captures(self@, haystack@) is Some,
            r matches Some(g) ==> first_captures(self@, haystack@) == Some(g@),
            r matches Some(g) ==> captures_wf(haystack.spec_bytes(), g@),
    {
        proof {
            use_type_invariant(self);
        }
        match &self.compiled {
            Some(p) => regex_captures_call(p, haystack),
            None => None,
        }
    }

    /// The capture groups of each of its matches in `haystack`.
    pub fn captures_all(&self, haystack: &str) -> (r: Vec<Vec<Option<Span>>>)
        ensures
            r.deep_view() == all_captures(self@, haystack@),
            forall|i: int| 0 <= i < r@.len() ==> captures_wf(haystack.spec_bytes(), #[trigger] r.deep_view()[i]),
    {
        proof {
            use_type_invariant(self);
        }
        match &self.compiled {
            Some(p) => regex_captures_iter_call(p, haystack),
            None => {
                let v: Vec<Vec<Option<Span>>> = Vec::new();
                assert(v.deep_view() =~= Seq::<Seq<Option<Span>>>::empty());
                v
            },
        }
    }
}

} // verus!
