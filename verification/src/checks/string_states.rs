//! String state checks — slint/validation.md
//!
//! BANNED: String literals (>=3 chars) used in == comparisons
//!         without central definition in globals/.
//! Exempt: token/globals/theme folders, UI text (spaces, paths, etc.).

use vstd::prelude::*;
use vstd::utf8::*;
use vstd::string::StringSliceAdditionalSpecFns;

use crate::context::{comment_at, comment_start, is_comment_line, trimmed_starts_with, FileContext};
use crate::issue::{error_view, Issue, IssueView};
use crate::pattern::{all_captures, is_match, span_in, Searcher, Span};
use crate::text::{byte_len, join3, slice_text, substr};

verus! {

broadcast use {vstd::seq_lib::group_seq_properties, vstd::utf8::encode_utf8_decode_utf8, vstd::utf8::encode_utf8_valid_utf8};

pub const RULE: &'static str = "slint/validation/string-state-comparison";

/// A comparison with a string literal of at least three characters.
pub const STR_COMPARE: &'static str = r#"[!=]=\s*"([^"]{3,})""#;

/// Compared values that are UI text rather than state: capitalised, with
/// spaces, paths, file names, versions and numbers.
pub const SKIP_VALUES: &'static str = r"^(?:[A-Z]|.*\s.*|.*[/\\].*|.*\.slint|.*\.png|.*\.svg|v\d|\d)";

pub const MSG_BEFORE: &'static str = "stringly-typed state == \"";

pub const MSG_AFTER: &'static str = "\" \u{2014} all state values must be named constants defined in globals/ or moved to a Rust enum";

/// The issue for one comparison match `cap` on line `lineno`, whose comment-free
/// part is `seg`.
pub open spec fn comparison_issue(path: Seq<char>, lineno: int, seg: Seq<u8>, cap: Seq<Option<Span>>) -> Seq<IssueView> {
    if cap.len() > 1 && cap[1] is Some {
        let sp = cap[1]->0;
        let val = slice_text(seg, sp.0 as int, sp.1 as int);
        if is_match(SKIP_VALUES@, val) {
            seq![]
        } else {
            let whole = cap[0]->0;
            seq![error_view(path, lineno, whole.0 + 1, RULE@, MSG_BEFORE@ + val + MSG_AFTER@)]
        }
    } else {
        seq![]
    }
}

/// The issues of the first `n` comparison matches of a line.
pub open spec fn comparison_issues(path: Seq<char>, lineno: int, seg: Seq<u8>, caps: Seq<Seq<Option<Span>>>, n: int) -> Seq<IssueView>
    decreases n,
{
    if n <= 0 {
        seq![]
    } else {
        comparison_issues(path, lineno, seg, caps, n - 1) + comparison_issue(path, lineno, seg, caps[n - 1])
    }
}

/// The issues of line index `i`: none for a comment line; otherwise one per
/// comparison with a string literal in the code before the comment whose
/// value is not UI text.
pub open spec fn line_issues(path: Seq<char>, i: int, raw: Seq<char>) -> Seq<IssueView> {
    let b = encode_utf8(raw);
    if is_comment_line(b) {
        seq![]
    } else {
        let seg = b.subrange(0, comment_at(b));
        let caps = all_captures(STR_COMPARE@, decode_utf8(seg));
        comparison_issues(path, i + 1, seg, caps, caps.len() as int)
    }
}

/// The issues of the first `n` lines.
pub open spec fn issues_upto(path: Seq<char>, lines: Seq<Seq<char>>, n: int) -> Seq<IssueView>
    decreases n,
{
    if n <= 0 {
        seq![]
    } else {
        issues_upto(path, lines, n - 1) + line_issues(path, n - 1, lines[n - 1])
    }
}

/// The issues of a file: none in a definition folder.
pub open spec fn spec_check(path: Seq<char>, is_definition_file: bool, lines: Seq<Seq<char>>) -> Seq<IssueView> {
    if is_definition_file {
        seq![]
    } else {
        issues_upto(path, lines, lines.len() as int)
    }
}

/// The regular expressions of the string-state check, compiled once.
pub struct Searchers {
    pub compare: Searcher,
    pub skip: Searcher,
}

impl Searchers {
    /// Each searcher was compiled from its pattern.
    pub open spec fn wf(&self) -> bool {
        &&& self.compare@ == STR_COMPARE@
        &&& self.skip@ == SKIP_VALUES@
    }

    /// Compiles the patterns of the string-state check.
    pub fn new() -> (r: Self)
        ensures
            r.wf(),
    {
        Searchers { compare: Searcher::new(STR_COMPARE), skip: Searcher::new(SKIP_VALUES) }
    }
}

/// The issue, if any, for one comparison match of a line.
pub fn comparison_issue_of(path: &str, lineno: usize, seg: &str, cap: &Vec<Option<Span>>, skip: &Searcher) -> (r: Option<Issue>)
    requires
        skip@ == SKIP_VALUES@,
        cap@.len() >= 1,
        cap@[0] matches Some(sp) && span_in(seg.spec_bytes(), sp),
        forall|g: int| 0 <= g < cap@.len() ==> (#[trigger] cap@[g] matches Some(sp) ==> span_in(seg.spec_bytes(), sp)),
        seg.spec_bytes().len() <= isize::MAX,
    ensures
        match r {
            Some(iss) => comparison_issue(path@, lineno as int, seg.spec_bytes(), cap@) == seq![iss@],
            None => comparison_issue(path@, lineno as int, seg.spec_bytes(), cap@) == Seq::<IssueView>::empty(),
        },
{
    if cap.len() > 1 && cap[1].is_some() {
        let sp = cap[1].unwrap();
        assert(cap@[1] matches Some(s) ==> span_in(seg.spec_bytes(), s));
        let val = substr(seg, sp.0, sp.1);
        if skip.matches_in(val) {
            return None;
        }
        let whole = cap[0].unwrap();
        let msg = join3(MSG_BEFORE, val, MSG_AFTER);
        Some(Issue::error(path, lineno, whole.0 + 1, RULE, msg))
    } else {
        None
    }
}

/// Scan for string literal comparisons — detect == and != operators comparing string literals to identifiers.
pub fn check(ctx: &FileContext, lines: &[&str], issues: &mut Vec<Issue>)
    ensures
        final(issues).deep_view() == old(issues).deep_view() + spec_check(ctx.path@, ctx.is_definition_file, lines.deep_view()),
{
    check_with(ctx, lines, &Searchers::new(), issues);
}

/// [`check`], with the patterns compiled beforehand.
pub fn check_with(ctx: &FileContext, lines: &[&str], s: &Searchers, issues: &mut Vec<Issue>)
    requires
        s.wf(),
    ensures
        final(issues).deep_view() == old(issues).deep_view() + spec_check(ctx.path@, ctx.is_definition_file, lines.deep_view()),
{
    if ctx.is_definition_file {
        assert(issues.deep_view() =~= old(issues).deep_view() + Seq::<IssueView>::empty());
        return;
    }
    let ghost path = ctx.path@;
    let ghost ls = lines.deep_view();
    let mut i: usize = 0;
    assert(issues.deep_view() =~= old(issues).deep_view() + issues_upto(path, ls, 0));
    while i < lines.len()
        invariant
            i <= lines.len(),
            path == ctx.path@,
            ls == lines.deep_view(),
            s.wf(),
            issues.deep_view() == old(issues).deep_view() + issues_upto(path, ls, i as int),
        decreases lines.len() - i,
    {
        let raw = lines[i];
        assert(ls[i as int] == raw@);
        let lineno = i + 1;
        if trimmed_starts_with(raw, "//") {
            assert(issues_upto(path, ls, i + 1) =~= issues_upto(path, ls, i as int));
            i = i + 1;
            continue;
        }
        let c = comment_start(raw);
        // A string holds at most isize::MAX bytes, so a column (offset + 1) fits.
        let _ = byte_len(raw);
        let seg = substr(raw, 0, c);
        let caps = s.compare.captures_all(seg);
        let ghost before = issues.deep_view();
        let mut k: usize = 0;
        while k < caps.len()
            invariant
                k <= caps@.len(),
                path == ctx.path@,
                s.wf(),
                seg.spec_bytes().len() <= isize::MAX,
                caps.deep_view() == all_captures(STR_COMPARE@, seg@),
                forall|j: int| 0 <= j < caps@.len() ==> crate::pattern::captures_wf(seg.spec_bytes(), #[trigger] caps.deep_view()[j]),
                issues.deep_view() == before + comparison_issues(path, lineno as int, seg.spec_bytes(), caps.deep_view(), k as int),
            decreases caps.len() - k,
        {
            let cap = &caps[k];
            assert(caps.deep_view()[k as int] == cap@);
            let ghost prev = issues.deep_view();
            match comparison_issue_of(ctx.path, lineno, seg, cap, &s.skip) {
                Some(iss) => {
                    issues.push(iss);
                    assert(issues.deep_view() =~= prev + seq![iss@]);
                },
                None => {},
            }
            assert(issues.deep_view() =~= before + comparison_issues(path, lineno as int, seg.spec_bytes(), caps.deep_view(), k + 1));
            k = k + 1;
        }
        assert(seg.spec_bytes() == raw.spec_bytes().subrange(0, comment_at(raw.spec_bytes())));
        assert(issues_upto(path, ls, i + 1) =~= issues_upto(path, ls, i as int) + line_issues(path, i as int, raw@));
        i = i + 1;
    }
}

} // verus!
