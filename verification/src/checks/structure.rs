//! Structure check — global/module-tree.md
//!
//! RULE: One component per file.
//! BANNED: Multiple export component definitions in one .slint file.

use vstd::prelude::*;
use vstd::utf8::*;
use vstd::string::StringSliceAdditionalSpecFns;
use vstd::string::StringExecFns;

use crate::context::FileContext;
use crate::issue::{error_view, Issue, IssueView};
use crate::pattern::{all_captures, captures_wf, span_in, Searcher, Span};
use crate::text::{byte_len, count_byte, count_byte_from, slice_text, substr};

verus! {

broadcast use {vstd::seq_lib::group_seq_properties, vstd::utf8::encode_utf8_decode_utf8, vstd::utf8::encode_utf8_valid_utf8};

pub const RULE: &'static str = "global/module-tree/one-component-per-file";

/// A component definition at the start of a line: the declaration
/// (`component`, or `export component`) and the component's name.
pub const COMPONENT_DEF: &'static str = r"(?m)^\s*((?:export\s+)?component)\s+(\w+)";

pub const MSG_A: &'static str = "component '";

pub const MSG_B: &'static str = "' \u{2014} multiple components in one file (primary: '";

pub const MSG_C: &'static str = "'). Before extracting: (1) check widgets/ for an existing generic component, (2) if generic (in property + callback only) \u{2192} extract to widgets/";

pub const MSG_D: &'static str = ".slint, (3) if view-specific \u{2192} extract to a new child file";

/// The lines joined with `\n` between them (`<[&str]>::join`).
pub open spec fn join_lines(lines: Seq<Seq<char>>) -> Seq<char>
    decreases lines.len(),
{
    if lines.len() == 0 {
        seq![]
    } else if lines.len() == 1 {
        lines[0]
    } else {
        join_lines(lines.drop_last()) + seq!['\n'] + lines.last()
    }
}

/// The text of group `g` of a match in `text`, or nothing when the group did
/// not take part.
pub open spec fn group_text(text: Seq<u8>, cap: Seq<Option<Span>>, g: int) -> Seq<char> {
    if 0 <= g < cap.len() && cap[g] is Some {
        let sp = cap[g]->0;
        slice_text(text, sp.0 as int, sp.1 as int)
    } else {
        seq![]
    }
}

/// The message for a further component `name` in a file whose first is `primary`.
pub open spec fn message(name: Seq<char>, primary: Seq<char>) -> Seq<char> {
    MSG_A@ + name + MSG_B@ + primary + MSG_C@ + name + MSG_D@
}

/// The line of byte `k` of `text`: one more than the newlines before it (a
/// position past the end counts every newline).
pub open spec fn line_of(text: Seq<u8>, k: int) -> int {
    count_byte(text.subrange(0, if k <= text.len() { k } else { text.len() as int }), 0x0a) + 1
}

/// The issue for one further component definition: on the line where its
/// declaration starts (leading blank lines that the match spans are not the
/// component's), column 1.
pub open spec fn component_issue(path: Seq<char>, text: Seq<u8>, primary: Seq<char>, cap: Seq<Option<Span>>) -> Seq<IssueView> {
    if cap.len() > 2 && cap[1] is Some && cap[2] is Some {
        let decl = cap[1]->0;
        let line = line_of(text, decl.0 as int);
        seq![error_view(path, line, 1, RULE@, message(group_text(text, cap, 2), primary))]
    } else {
        seq![]
    }
}

/// The issues for the definitions `1..n` (the first one is the primary).
pub open spec fn component_issues(path: Seq<char>, text: Seq<u8>, primary: Seq<char>, caps: Seq<Seq<Option<Span>>>, n: int) -> Seq<IssueView>
    decreases n,
{
    if n <= 1 {
        seq![]
    } else {
        component_issues(path, text, primary, caps, n - 1) + component_issue(path, text, primary, caps[n - 1])
    }
}

/// The issues for the component definitions `caps` found in `text`: with two
/// or more, one for each after the first, which names the primary component.
pub open spec fn definitions_issues(path: Seq<char>, text: Seq<u8>, caps: Seq<Seq<Option<Span>>>) -> Seq<IssueView> {
    if caps.len() <= 1 {
        seq![]
    } else {
        component_issues(path, text, group_text(text, caps[0], 2), caps, caps.len() as int)
    }
}

/// The issues of a file: those of the component definitions in its lines
/// joined with `\n`.
pub open spec fn spec_check(path: Seq<char>, lines: Seq<Seq<char>>) -> Seq<IssueView> {
    let text = join_lines(lines);
    definitions_issues(path, encode_utf8(text), all_captures(COMPONENT_DEF@, text))
}

/// The lines joined with `\n` between them.
pub fn join_with_newlines(lines: &[&str]) -> (r: String)
    ensures
        r@ == join_lines(lines.deep_view()),
{
    let ghost ls = lines.deep_view();
    let mut out = String::new();
    let mut i: usize = 0;
    let nl = "\n";
    proof {
        reveal_strlit("\n");
    }
    while i < lines.len()
        invariant
            i <= lines.len(),
            ls == lines.deep_view(),
            nl@ == seq!['\n'],
            out@ == join_lines(ls.subrange(0, i as int)),
        decreases lines.len() - i,
    {
        if i > 0 {
            out.append(nl);
        }
        out.append(lines[i]);
        proof {
            let s = ls.subrange(0, i + 1);
            assert(s.drop_last() =~= ls.subrange(0, i as int));
            assert(s.last() == lines@[i as int]@);
            if i == 0 {
                assert(s.len() == 1);
                assert(out@ =~= join_lines(s));
            }
        }
        i = i + 1;
    }
    assert(ls.subrange(0, lines.len() as int) =~= ls);
    out
}

/// The text of group `g` of a match.
fn group_str<'a>(text: &'a str, cap: &Vec<Option<Span>>, g: usize) -> (r: &'a str)
    requires
        forall|k: int| 0 <= k < cap@.len() ==> (#[trigger] cap@[k] matches Some(sp) ==> span_in(text.spec_bytes(), sp)),
    ensures
        r@ == group_text(text.spec_bytes(), cap@, g as int),
{
    if g < cap.len() && cap[g].is_some() {
        let sp = cap[g].unwrap();
        assert(cap@[g as int] matches Some(s) ==> span_in(text.spec_bytes(), s));
        substr(text, sp.0, sp.1)
    } else {
        proof {
            reveal_strlit("");
        }
        ""
    }
}

/// Appends the issues for the component definitions `caps` found in `text`.
pub fn push_definitions_issues(path: &str, text: &str, caps: &Vec<Vec<Option<Span>>>, issues: &mut Vec<Issue>)
    requires
        forall|j: int| 0 <= j < caps@.len() ==> captures_wf(text.spec_bytes(), #[trigger] caps.deep_view()[j]),
    ensures
        final(issues).deep_view() == old(issues).deep_view() + definitions_issues(path@, text.spec_bytes(), caps.deep_view()),
{
    // A string holds at most isize::MAX bytes, so a line number (newlines + 1) fits.
    let _ = byte_len(text);
    if caps.len() <= 1 {
        assert(issues.deep_view() =~= old(issues).deep_view() + Seq::<IssueView>::empty());
        return;
    }
    let ghost tb = text.spec_bytes();
    let ghost cv = caps.deep_view();
    assert(captures_wf(tb, cv[0]));
    assert(cv[0] == caps@[0]@);
    let primary = group_str(text, &caps[0], 2);
    let mut k: usize = 1;
    assert(issues.deep_view() =~= old(issues).deep_view() + component_issues(path@, tb, primary@, cv, 1));
    while k < caps.len()
        invariant
            1 <= k <= caps@.len(),
            tb == text.spec_bytes(),
            cv == caps.deep_view(),
            tb.len() <= isize::MAX,
            forall|j: int| 0 <= j < caps@.len() ==> captures_wf(tb, #[trigger] caps.deep_view()[j]),
            issues.deep_view() == old(issues).deep_view() + component_issues(path@, tb, primary@, cv, k as int),
        decreases caps.len() - k,
    {
        let cap = &caps[k];
        assert(cv[k as int] == cap@);
        assert(captures_wf(tb, cap@));
        let ghost prev = issues.deep_view();
        if cap.len() > 2 && cap[1].is_some() && cap[2].is_some() {
            let decl: Span = cap[1].unwrap();
            assert(cap@[1] matches Some(s) ==> span_in(tb, s));
            let name = group_str(text, cap, 2);
            let before = substr(text, 0, decl.0);
            let line = count_byte_from(before.as_bytes(), 0, 0x0a) + 1;
            assert(before.spec_bytes().subrange(0, before.spec_bytes().len() as int) =~= tb.subrange(0, decl.0 as int));
            let mut msg = MSG_A.to_owned();
            msg.append(name);
            msg.append(MSG_B);
            msg.append(primary);
            msg.append(MSG_C);
            msg.append(name);
            msg.append(MSG_D);
            issues.push(Issue::error(path, line, 1, RULE, msg));
        }
        assert(issues.deep_view() =~= prev + component_issue(path@, tb, primary@, cap@));
        k = k + 1;
    }
}

/// Scan for multiple component definitions in a single file — emit issues for files with 2+ components.
pub fn check(ctx: &FileContext, lines: &[&str], issues: &mut Vec<Issue>)
    ensures
        final(issues).deep_view() == old(issues).deep_view() + spec_check(ctx.path@, lines.deep_view()),
{
    check_with(ctx, lines, &Searcher::new(COMPONENT_DEF), issues);
}

/// [`check`], with the component-definition pattern compiled beforehand.
pub fn check_with(ctx: &FileContext, lines: &[&str], component_def: &Searcher, issues: &mut Vec<Issue>)
    requires
        component_def@ == COMPONENT_DEF@,
    ensures
        final(issues).deep_view() == old(issues).deep_view() + spec_check(ctx.path@, lines.deep_view()),
{
    let joined = join_with_newlines(lines);
    let text = joined.as_str();
    let caps = component_def.captures_all(text);
    push_definitions_issues(ctx.path, text, &caps, issues);
}

} // verus!
