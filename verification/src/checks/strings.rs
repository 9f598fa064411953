//! Hardcoded string check — slint/validation.md
//!
//! BANNED: String literals used directly as property values in component body.
//! Exempt: globals/, tokens/, theme/, state/ folders; single-char strings,
//! empty strings, allowed props (icon, source, etc.).
//! Severity: warning.

use vstd::prelude::*;
use vstd::utf8::*;
use vstd::string::StringSliceAdditionalSpecFns;

use crate::context::{groups_view, is_comment_line, trimmed_starts_with, FileContext};
use crate::issue::{warning_view, Issue, IssueView};
use crate::pattern::{captures_wf, first_captures, is_match, span_in, Searcher, Span};
use crate::text::{
    byte_len, contains, contains_bytes, find_bytes, find_from, join5, lemma_ascii_byte_boundary, lemma_ascii_str,
    lemma_find_from, lowercase, slice_text, str_eq, substr, to_lowercase,
};

verus! {

broadcast use {vstd::seq_lib::group_seq_properties, vstd::utf8::encode_utf8_decode_utf8, vstd::utf8::encode_utf8_valid_utf8};

pub const RULE: &'static str = "slint/validation/no-hardcoded-string";

/// A property assigned a string literal of at least two characters.
pub const HARDCODED_STR: &'static str = r#"^\s*([\w-]+)\s*:\s*"([^"]{2,})""#;

/// Values that are not UI text: references, colors, paths, numbers, blocks.
pub const ALLOWED_PATTERNS: &'static str = r"^(@|#|/|\\|\d|\{|\[)";

pub const MSG_A: &'static str = "hardcoded string '";

pub const MSG_B: &'static str = "' in component \u{2014} expose as an `in property <string> ";

pub const MSG_C: &'static str = "` so callers can configure it";

/// Properties whose string values are allowed.
pub open spec fn is_allowed_prop(prop: Seq<char>) -> bool {
    ||| prop == "accessible-label"@
    ||| prop == "icon"@
    ||| prop == "source"@
    ||| prop == "background-image"@
}

/// The issue (a warning) of a code line `raw` (line number `lineno`): a property, other
/// than an allowed one (compared in lowercase), assigned a string literal
/// that is not a reference, color, path, number or block, on a line whose
/// text before the first `"` does not contain `property`. The column is that
/// of the first `"`.
pub open spec fn code_line_issue(path: Seq<char>, lineno: int, raw: Seq<char>) -> Seq<IssueView> {
    string_issue_from(path, lineno, raw, first_captures(HARDCODED_STR@, raw))
}

/// The issue of code line `raw` whose hardcoded-string match, if any, has
/// the capture groups `caps` (1: the property, 2: the value).
pub open spec fn string_issue_from(path: Seq<char>, lineno: int, raw: Seq<char>, caps: Option<Seq<Option<Span>>>) -> Seq<IssueView> {
    let b = encode_utf8(raw);
    match caps {
        Some(g) => if g.len() > 2 && g[1] is Some && g[2] is Some {
            let psp = g[1]->0;
            let vsp = g[2]->0;
            let prop = lowercase(slice_text(b, psp.0 as int, psp.1 as int));
            let value = slice_text(b, vsp.0 as int, vsp.1 as int);
            if is_allowed_prop(prop) || is_match(ALLOWED_PATTERNS@, value) {
                seq![]
            } else {
                match find_from(b, "\"".spec_bytes(), 0) {
                    Some(q) => if contains(b.subrange(0, q), "property".spec_bytes()) {
                        seq![]
                    } else {
                        seq![warning_view(path, lineno, q + 1, RULE@, MSG_A@ + value + MSG_B@ + prop + MSG_C@)]
                    },
                    None => seq![warning_view(path, lineno, 1, RULE@, MSG_A@ + value + MSG_B@ + prop + MSG_C@)],
                }
            }
        } else {
            seq![]
        },
        None => seq![],
    }
}

/// The issues of the first `n` lines: comment lines have none.
pub open spec fn issues_upto(path: Seq<char>, lines: Seq<Seq<char>>, n: int) -> Seq<IssueView>
    decreases n,
{
    if n <= 0 {
        seq![]
    } else {
        issues_upto(path, lines, n - 1) + if is_comment_line(encode_utf8(lines[n - 1])) {
            seq![]
        } else {
            code_line_issue(path, n, lines[n - 1])
        }
    }
}

/// The issues of a file: none in a definition folder.
pub open spec fn spec_check(path: Seq<char>, is_definition_file: bool, lines: Seq<Seq<char>>) -> Seq<IssueView> {
    if is_definition_file {
        seq![]
    } else {
        issues_upto(path, lines, lines.len() as int)
    }
}

/// The regular expressions of the hardcoded-string check, compiled once.
pub struct Searchers {
    pub hardcoded: Searcher,
    pub allowed: Searcher,
}

impl Searchers {
    /// Each searcher was compiled from its pattern.
    pub open spec fn wf(&self) -> bool {
        &&& self.hardcoded@ == HARDCODED_STR@
        &&& self.allowed@ == ALLOWED_PATTERNS@
    }

    /// Compiles the patterns of the hardcoded-string check.
    pub fn new() -> (r: Self)
        ensures
            r.wf(),
    {
        Searchers { hardcoded: Searcher::new(HARDCODED_STR), allowed: Searcher::new(ALLOWED_PATTERNS) }
    }
}

/// Whether `prop` is one of the properties whose string values are allowed.
fn allowed_prop(prop: &str) -> (r: bool)
    ensures
        r == is_allowed_prop(prop@),
{
    str_eq(prop, "accessible-label") || str_eq(prop, "icon") || str_eq(prop, "source") || str_eq(
        prop,
        "background-image",
    )
}

/// The issue, if any, of one code line, given the capture groups `caps` of
/// its hardcoded-string match.
pub fn string_issue_of(path: &str, lineno: usize, raw: &str, caps: &Option<Vec<Option<Span>>>, allowed: &Searcher) -> (r: Option<Issue>)
    requires
        caps matches Some(g) ==> captures_wf(raw.spec_bytes(), g@),
        allowed@ == ALLOWED_PATTERNS@,
    ensures
        match r {
            Some(iss) => string_issue_from(path@, lineno as int, raw@, groups_view(*caps)) == seq![iss@],
            None => string_issue_from(path@, lineno as int, raw@, groups_view(*caps)) == Seq::<IssueView>::empty(),
        },
{
    // A string holds at most isize::MAX bytes, so a column (offset + 1) fits.
    let _ = byte_len(raw);
    let b = raw.as_bytes();
    match caps {
        Some(g) => {
            if g.len() > 2 && g[1].is_some() && g[2].is_some() {
                let psp: Span = g[1].unwrap();
                let vsp: Span = g[2].unwrap();
                assert(g@[1] matches Some(s) ==> span_in(raw.spec_bytes(), s));
                assert(g@[2] matches Some(s) ==> span_in(raw.spec_bytes(), s));
                let prop = to_lowercase(substr(raw, psp.0, psp.1));
                let value = substr(raw, vsp.0, vsp.1);
                if allowed_prop(prop.as_str()) || allowed.matches_in(value) {
                    return None;
                }
                let quote = "\"".as_bytes();
                let found = find_bytes(b, quote, 0);
                let msg = join5(MSG_A, value, MSG_B, prop.as_str(), MSG_C);
                match found {
                    Some(q) => {
                        proof {
                            lemma_find_from(b@, quote@, 0);
                            reveal_strlit("\"");
                            lemma_ascii_str("\"");
                            assert(b@.subrange(q as int, q + quote@.len())[0] == b@[q as int]);
                            lemma_ascii_byte_boundary(b@, q as int);
                            vstd::utf8::is_char_boundary_start_end_of_seq(b@);
                        }
                        let before = substr(raw, 0, q);
                        if contains_bytes(before.as_bytes(), "property".as_bytes()) {
                            return None;
                        }
                        Some(Issue::warning(path, lineno, q + 1, RULE, msg))
                    },
                    None => Some(Issue::warning(path, lineno, 1, RULE, msg)),
                }
            } else {
                None
            }
        },
        None => None,
    }
}

/// Scan for hardcoded string literals in property values — detect string assignments to text, title, and similar properties.
pub fn check(ctx: &FileContext, lines: &[&str], issues: &mut Vec<Issue>)
    ensures
        final(issues).deep_view() == old(issues).deep_view() + spec_check(ctx.path@, ctx.is_definition_file, lines.deep_view()),
{
    check_with(ctx, lines, &Searchers::new(), issues);
}

/// [`check`], with the patterns compiled beforehand.
pub fn check_with(ctx: &FileContext, lines: &[&str], s: &Searchers, issues: &mut Vec<Issue>)
    requires
        s.wf(),
    ensures
        final(issues).deep_view() == old(issues).deep_view() + spec_check(ctx.path@, ctx.is_definition_file, lines.deep_view()),
{
    if ctx.is_definition_file {
        assert(issues.deep_view() =~= old(issues).deep_view() + Seq::<IssueView>::empty());
        return;
    }
    let ghost path = ctx.path@;
    let ghost ls = lines.deep_view();
    let mut i: usize = 0;
    assert(issues.deep_view() =~= old(issues).deep_view() + issues_upto(path, ls, 0));
    while i < lines.len()
        invariant
            i <= lines.len(),
            path == ctx.path@,
            ls == lines.deep_view(),
            s.wf(),
            issues.deep_view() == old(issues).deep_view() + issues_upto(path, ls, i as int),
        decreases lines.len() - i,
    {
        let raw = lines[i];
        assert(ls[i as int] == raw@);
        let ghost prev = issues.deep_view();
        if !trimmed_starts_with(raw, "//") {
            let caps = s.hardcoded.captures_first(raw);
            match string_issue_of(ctx.path, i + 1, raw, &caps, &s.allowed) {
                Some(iss) => issues.push(iss),
                None => {},
            }
        }
        assert(issues.deep_view() =~= prev + if is_comment_line(encode_utf8(ls[i as int])) {
            Seq::<IssueView>::empty()
        } else {
            code_line_issue(path, i + 1, ls[i as int])
        });
        i = i + 1;
    }
}

} // verus!
