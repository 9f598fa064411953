//! Every issue a file scan reports points into that file: its path, a line
//! between 1 and the number of lines, a column of at least 1, and error
//! severity (warning severity for hardcoded strings).

use vstd::prelude::*;
use vstd::utf8::*;
use vstd::string::StringSliceAdditionalSpecFns;

use crate::checks::{events, mother_child, string_states, strings, structure, tokens};
use crate::config::ConfigView;
use crate::context::{callbacks_from, CallbackView};
use crate::issue::{IssueView, Severity};
use crate::laws::{callback_within, law_callbacks_are_blocks_of_the_file};
use crate::pattern::Span;
use crate::spec_scan_file;
use crate::text::{
    count_byte, find_from, lemma_after_ascii_boundary, lemma_ascii_byte_boundary, lemma_ascii_str,
    lemma_count_byte_bound, lemma_find_from, line_end, lines_from, text_lines,
};

verus! {

broadcast use {vstd::seq_lib::group_seq_properties, vstd::utf8::encode_utf8_decode_utf8, vstd::utf8::encode_utf8_valid_utf8};

/// Every issue is in file `path`, on a line in `lo..=hi`, at a column of at
/// least 1, with error severity, or warning severity for a hardcoded string.
pub open spec fn placed(issues: Seq<IssueView>, path: Seq<char>, lo: int, hi: int) -> bool {
    forall|k: int|
        0 <= k < issues.len() ==> {
            let i = #[trigger] issues[k];
            &&& i.file == path
            &&& lo <= i.line <= hi
            &&& i.col >= 1
            &&& (i.severity == Severity::Error || (i.severity == Severity::Warning && i.rule == strings::RULE@))
        }
}

proof fn lemma_placed_concat(a: Seq<IssueView>, b: Seq<IssueView>, path: Seq<char>, lo: int, hi: int)
    requires
        placed(a, path, lo, hi),
        placed(b, path, lo, hi),
    ensures
        placed(a + b, path, lo, hi),
{
    assert forall|k: int| 0 <= k < (a + b).len() implies {
        let i = #[trigger] (a + b)[k];
        &&& i.file == path
        &&& lo <= i.line <= hi
        &&& i.col >= 1
        &&& (i.severity == Severity::Error || (i.severity == Severity::Warning && i.rule == strings::RULE@))
    } by {
        if k >= a.len() {
            assert((a + b)[k] == b[k - a.len()]);
        }
    }
}

proof fn lemma_placed_widen(a: Seq<IssueView>, path: Seq<char>, lo: int, hi: int, lo2: int, hi2: int)
    requires
        placed(a, path, lo, hi),
        lo2 <= lo,
        hi <= hi2,
    ensures
        placed(a, path, lo2, hi2),
{
}

// ── Line-by-line checks ─────────────────────────────────────────────────────

proof fn lemma_literal_issues_placed(kind: tokens::Literal, path: Seq<char>, lineno: int, raw: Seq<u8>, seg: Seq<u8>, spans: Seq<Span>, n: int)
    ensures
        placed(tokens::literal_issues(kind, path, lineno, raw, seg, spans, n), path, lineno, lineno),
    decreases n,
{
    if n > 0 {
        lemma_literal_issues_placed(kind, path, lineno, raw, seg, spans, n - 1);
        lemma_placed_concat(
            tokens::literal_issues(kind, path, lineno, raw, seg, spans, n - 1),
            tokens::literal_issue(kind, path, lineno, raw, seg, spans[n - 1]),
            path,
            lineno,
            lineno,
        );
    }
}

proof fn lemma_number_issues_placed(
    is_float: bool,
    path: Seq<char>,
    lineno: int,
    raw: Seq<u8>,
    seg: Seq<u8>,
    covered: Seq<Span>,
    caps: Seq<Seq<Option<Span>>>,
    n: int,
)
    ensures
        placed(tokens::number_issues(is_float, path, lineno, raw, seg, covered, caps, n), path, lineno, lineno),
    decreases n,
{
    if n > 0 {
        lemma_number_issues_placed(is_float, path, lineno, raw, seg, covered, caps, n - 1);
        lemma_placed_concat(
            tokens::number_issues(is_float, path, lineno, raw, seg, covered, caps, n - 1),
            tokens::number_issue(is_float, path, lineno, raw, seg, covered, caps[n - 1]),
            path,
            lineno,
            lineno,
        );
    }
}

proof fn lemma_token_line_placed(path: Seq<char>, i: int, raw: Seq<char>)
    ensures
        placed(tokens::line_issues(path, i, raw), path, i + 1, i + 1),
{
    let b = encode_utf8(raw);
    let seg = b.subrange(0, crate::context::comment_at(b));
    let t = decode_utf8(seg);
    let l = i + 1;
    let a1 = tokens::all_literal_issues(tokens::Literal::Color, tokens::HEX_COLOR@, path, l, b, seg);
    let a2 = tokens::all_literal_issues(tokens::Literal::ColorFunction, tokens::RGB_FUNC@, path, l, b, seg);
    let a3 = tokens::all_literal_issues(tokens::Literal::Size, tokens::PIXEL_VALUE@, path, l, b, seg);
    let a4 = tokens::all_literal_issues(tokens::Literal::Percentage, tokens::PERCENT_VALUE@, path, l, b, seg);
    let a5 = tokens::all_literal_issues(tokens::Literal::Duration, tokens::DURATION_VALUE@, path, l, b, seg);
    let a6 = tokens::all_number_issues(true, path, l, b, seg);
    let a7 = tokens::all_number_issues(false, path, l, b, seg);
    let s1 = crate::pattern::find_all(tokens::HEX_COLOR@, t);
    let s2 = crate::pattern::find_all(tokens::RGB_FUNC@, t);
    let s3 = crate::pattern::find_all(tokens::PIXEL_VALUE@, t);
    let s4 = crate::pattern::find_all(tokens::PERCENT_VALUE@, t);
    let s5 = crate::pattern::find_all(tokens::DURATION_VALUE@, t);
    lemma_literal_issues_placed(tokens::Literal::Color, path, l, b, seg, s1, s1.len() as int);
    lemma_literal_issues_placed(tokens::Literal::ColorFunction, path, l, b, seg, s2, s2.len() as int);
    lemma_literal_issues_placed(tokens::Literal::Size, path, l, b, seg, s3, s3.len() as int);
    lemma_literal_issues_placed(tokens::Literal::Percentage, path, l, b, seg, s4, s4.len() as int);
    lemma_literal_issues_placed(tokens::Literal::Duration, path, l, b, seg, s5, s5.len() as int);
    let covered = s3 + s4 + s5 + s1;
    let fc = crate::pattern::all_captures(tokens::FLOAT_VALUE@, t);
    let ic = crate::pattern::all_captures(tokens::INT_VALUE@, t);
    lemma_number_issues_placed(true, path, l, b, seg, covered, fc, fc.len() as int);
    lemma_number_issues_placed(false, path, l, b, seg, covered, ic, ic.len() as int);
    lemma_placed_concat(a1, a2, path, l, l);
    lemma_placed_concat(a1 + a2, a3, path, l, l);
    lemma_placed_concat(a1 + a2 + a3, a4, path, l, l);
    lemma_placed_concat(a1 + a2 + a3 + a4, a5, path, l, l);
    lemma_placed_concat(a1 + a2 + a3 + a4 + a5, a6, path, l, l);
    lemma_placed_concat(a1 + a2 + a3 + a4 + a5 + a6, a7, path, l, l);
}

proof fn lemma_tokens_placed(path: Seq<char>, lines: Seq<Seq<char>>, n: int)
    requires
        0 <= n <= lines.len(),
    ensures
        placed(tokens::issues_upto(path, lines, n), path, 1, n),
    decreases n,
{
    if n > 0 {
        lemma_tokens_placed(path, lines, n - 1);
        lemma_token_line_placed(path, n - 1, lines[n - 1]);
        lemma_placed_widen(tokens::issues_upto(path, lines, n - 1), path, 1, n - 1, 1, n);
        lemma_placed_widen(tokens::line_issues(path, n - 1, lines[n - 1]), path, n, n, 1, n);
        lemma_placed_concat(tokens::issues_upto(path, lines, n - 1), tokens::line_issues(path, n - 1, lines[n - 1]), path, 1, n);
    }
}

proof fn lemma_code_line_placed(path: Seq<char>, lineno: int, raw: Seq<char>)
    ensures
        placed(strings::code_line_issue(path, lineno, raw), path, lineno, lineno),
{
    lemma_find_from(encode_utf8(raw), "\"".spec_bytes(), 0);
}

proof fn lemma_strings_placed(path: Seq<char>, lines: Seq<Seq<char>>, n: int)
    requires
        0 <= n <= lines.len(),
    ensures
        placed(strings::issues_upto(path, lines, n), path, 1, n),
    decreases n,
{
    if n > 0 {
        lemma_strings_placed(path, lines, n - 1);
        let prev = strings::issues_upto(path, lines, n - 1);
        lemma_placed_widen(prev, path, 1, n - 1, 1, n);
        let here = if crate::context::is_comment_line(encode_utf8(lines[n - 1])) {
            Seq::<IssueView>::empty()
        } else {
            strings::code_line_issue(path, n, lines[n - 1])
        };
        lemma_code_line_placed(path, n, lines[n - 1]);
        lemma_placed_widen(strings::code_line_issue(path, n, lines[n - 1]), path, n, n, 1, n);
        lemma_placed_concat(prev, here, path, 1, n);
    }
}

proof fn lemma_comparisons_placed(path: Seq<char>, lineno: int, seg: Seq<u8>, caps: Seq<Seq<Option<Span>>>, n: int)
    ensures
        placed(string_states::comparison_issues(path, lineno, seg, caps, n), path, lineno, lineno),
    decreases n,
{
    if n > 0 {
        lemma_comparisons_placed(path, lineno, seg, caps, n - 1);
        lemma_placed_concat(
            string_states::comparison_issues(path, lineno, seg, caps, n - 1),
            string_states::comparison_issue(path, lineno, seg, caps[n - 1]),
            path,
            lineno,
            lineno,
        );
    }
}

proof fn lemma_string_states_placed(path: Seq<char>, lines: Seq<Seq<char>>, n: int)
    requires
        0 <= n <= lines.len(),
    ensures
        placed(string_states::issues_upto(path, lines, n), path, 1, n),
    decreases n,
{
    if n > 0 {
        lemma_string_states_placed(path, lines, n - 1);
        let prev = string_states::issues_upto(path, lines, n - 1);
        lemma_placed_widen(prev, path, 1, n - 1, 1, n);
        let raw = lines[n - 1];
        let b = encode_utf8(raw);
        if !crate::context::is_comment_line(b) {
            let seg = b.subrange(0, crate::context::comment_at(b));
            let caps = crate::pattern::all_captures(string_states::STR_COMPARE@, decode_utf8(seg));
            lemma_comparisons_placed(path, n, seg, caps, caps.len() as int);
        }
        let here = string_states::line_issues(path, n - 1, raw);
        lemma_placed_widen(here, path, n, n, 1, n);
        lemma_placed_concat(prev, here, path, 1, n);
    }
}

proof fn lemma_state_issues_placed(path: Seq<char>, lines: Seq<Seq<char>>, n: int)
    requires
        0 <= n <= lines.len(),
    ensures
        placed(mother_child::state_issues_upto(path, lines, n), path, 1, n),
        placed(mother_child::import_issues_upto(path, lines, n), path, 1, n),
    decreases n,
{
    if n > 0 {
        lemma_state_issues_placed(path, lines, n - 1);
        let p1 = mother_child::state_issues_upto(path, lines, n - 1);
        let p2 = mother_child::import_issues_upto(path, lines, n - 1);
        lemma_placed_widen(p1, path, 1, n - 1, 1, n);
        lemma_placed_widen(p2, path, 1, n - 1, 1, n);
        let h1 = mother_child::state_issue(path, n - 1, lines[n - 1]);
        let h2 = mother_child::import_issue(path, n - 1, lines[n - 1]);
        assert(placed(h1, path, 1, n));
        assert(placed(h2, path, 1, n));
        lemma_placed_concat(p1, h1, path, 1, n);
        lemma_placed_concat(p2, h2, path, 1, n);
    }
}

proof fn lemma_mother_child_placed(path: Seq<char>, m: bool, g: bool, v: bool, lines: Seq<Seq<char>>)
    ensures
        placed(mother_child::spec_check(path, m, g, v, lines), path, 1, lines.len() as int),
{
    lemma_state_issues_placed(path, lines, lines.len() as int);
    if !(m || g) {
        let a = mother_child::state_issues_upto(path, lines, lines.len() as int);
        let b = if v { mother_child::import_issues_upto(path, lines, lines.len() as int) } else { Seq::<IssueView>::empty() };
        lemma_placed_concat(a, b, path, 1, lines.len() as int);
    }
}


// ── Callbacks ───────────────────────────────────────────────────────────────

/// The meaningful lines of a body are lines of the body.
proof fn lemma_meaningful_from_body(body: Seq<(usize, Seq<char>)>, k: int)
    requires
        0 <= k <= body.len(),
    ensures
        forall|a: int| 0 <= a < events::meaningful_upto(body, k).len() ==> exists|j: int| 0 <= j < k && #[trigger] events::meaningful_upto(body, k)[a] == body[j],
    decreases k,
{
    if k > 0 {
        lemma_meaningful_from_body(body, k - 1);
        let prev = events::meaningful_upto(body, k - 1);
        let cur = events::meaningful_upto(body, k);
        assert forall|a: int| 0 <= a < cur.len() implies exists|j: int| 0 <= j < k && #[trigger] cur[a] == body[j] by {
            if a < prev.len() {
                assert(cur[a] == prev[a]);
                let j = choose|j: int| 0 <= j < k - 1 && prev[a] == body[j];
                assert(cur[a] == body[j]);
            } else {
                assert(cur[a] == body[k - 1]);
            }
        }
    }
}

/// The first line with an `if` is one of the lines.
proof fn lemma_first_if_from(m: Seq<(usize, Seq<char>)>, n: int)
    requires
        0 <= n <= m.len(),
    ensures
        events::first_if_line(m, n) matches Some(x) ==> exists|a: int| 0 <= a < n && x == m[a],
    decreases n,
{
    if n > 0 {
        lemma_first_if_from(m, n - 1);
    }
}

/// When some line assigns a root property, the first such line's number is
/// that of one of the lines (whose numbers are positive).
proof fn lemma_first_assign_from(m: Seq<(usize, Seq<char>)>, n: int)
    requires
        0 <= n <= m.len(),
        forall|a: int| 0 <= a < m.len() ==> (#[trigger] m[a]).0 >= 1,
    ensures
        events::props_upto(m, n).len() > 0 ==> exists|a: int| 0 <= a < n && events::first_assign_upto(m, n) == m[a].0,
        events::props_upto(m, n).len() == 0 ==> events::first_assign_upto(m, n) == 0,
    decreases n,
{
    if n > 0 {
        lemma_first_assign_from(m, n - 1);
        if events::props_upto(m, n - 1).len() > 0 {
            let a = choose|a: int| 0 <= a < n - 1 && events::first_assign_upto(m, n - 1) == m[a].0;
            assert(m[a].0 >= 1);
        }
    }
}

proof fn lemma_callback_placed(path: Seq<char>, cb: CallbackView, lines: Seq<Seq<char>>)
    requires
        callback_within(lines, cb, 0, lines.len() as int),
    ensures
        placed(events::callback_issues(path, cb), path, 1, lines.len() as int),
{
    let n = lines.len() as int;
    let body = cb.body;
    let m = events::meaningful_upto(body, body.len() as int);
    lemma_meaningful_from_body(body, body.len() as int);
    assert forall|a: int| 0 <= a < m.len() implies 1 <= (#[trigger] m[a]).0 <= n by {
        let j = choose|j: int| 0 <= j < body.len() && m[a] == body[j];
        assert(cb.start_line <= body[j].0 <= n);
    }
    lemma_first_if_from(m, m.len() as int);
    lemma_first_assign_from(m, m.len() as int);
    let fi = events::first_if_line(m, m.len() as int);
    let props = events::props_upto(m, m.len() as int);
    if fi is Some {
        let a = choose|a: int| 0 <= a < m.len() && fi->0 == m[a];
        assert(1 <= m[a].0 <= n);
    }
    if props.len() > 0 {
        let a = choose|a: int| 0 <= a < m.len() && events::first_assign_upto(m, m.len() as int) == m[a].0;
        assert(1 <= m[a].0 <= n);
    }
    let fa = events::first_assign_upto(m, m.len() as int);
    let if_issue = match fi {
        Some(x) => seq![crate::issue::error_view(path, x.0 as int, events::if_column(x.1), events::RULE_NO_CALLBACK_LOGIC@, events::MSG_CALLBACK@ + cb.name + events::MSG_IF@)],
        None => Seq::<IssueView>::empty(),
    };
    let mutation_issue = if props.len() >= 2 {
        seq![crate::issue::error_view(path, fa as int, 1, events::RULE_NO_STATE_MUTATION@,
            events::MSG_CALLBACK@ + cb.name + events::MSG_SEP@ + crate::issue::decimal(props.len()) + events::MSG_MUTATIONS@ + events::props_display(props) + events::MSG_MUTATIONS_END@)]
    } else if props.len() == 1 && events::has_bridge_upto(m, m.len() as int) {
        seq![crate::issue::error_view(path, fa as int, 1, events::RULE_NO_STATE_MUTATION@, events::MSG_CALLBACK@ + cb.name + events::MSG_MIX@ + props[0] + events::MSG_MIX_END@)]
    } else {
        Seq::<IssueView>::empty()
    };
    let long_issue = if m.len() > 3 && fi is None && props.len() < 2 {
        seq![crate::issue::error_view(path, cb.start_line as int, 1, events::RULE_NO_CALLBACK_LOGIC@,
            events::MSG_CALLBACK@ + cb.name + events::MSG_SEP@ + crate::issue::decimal(m.len()) + events::MSG_LONG@)]
    } else {
        Seq::<IssueView>::empty()
    };
    if fi is Some {
        let a = choose|a: int| 0 <= a < m.len() && fi->0 == m[a];
        assert(1 <= m[a].0 <= n);
        let x = fi->0;
        assert(if_issue[0].line == x.0);
    }
    assert(placed(if_issue, path, 1, n)) by {
        if fi is Some {
            let a = choose|a: int| 0 <= a < m.len() && fi->0 == m[a];
            assert(1 <= m[a].0 <= n);
            crate::text::lemma_find_from(encode_utf8(m[a].1), "if".spec_bytes(), 0);
        }
    }
    assert(placed(mutation_issue, path, 1, n));
    assert(placed(long_issue, path, 1, n));
    lemma_placed_concat(if_issue, mutation_issue, path, 1, n);
    lemma_placed_concat(if_issue + mutation_issue, long_issue, path, 1, n);
    assert(events::callback_issues(path, cb) == if_issue + mutation_issue + long_issue);
}

proof fn lemma_callbacks_placed(path: Seq<char>, cbs: Seq<CallbackView>, lines: Seq<Seq<char>>, k: int)
    requires
        0 <= k <= cbs.len(),
        forall|j: int| 0 <= j < cbs.len() ==> callback_within(lines, #[trigger] cbs[j], 0, lines.len() as int),
    ensures
        placed(events::callbacks_issues(path, cbs, k), path, 1, lines.len() as int),
    decreases k,
{
    if k > 0 {
        lemma_callbacks_placed(path, cbs, lines, k - 1);
        lemma_callback_placed(path, cbs[k - 1], lines);
        lemma_placed_concat(events::callbacks_issues(path, cbs, k - 1), events::callback_issues(path, cbs[k - 1]), path, 1, lines.len() as int);
    }
}

proof fn lemma_events_placed(path: Seq<char>, lines: Seq<Seq<char>>)
    requires
        lines.len() <= usize::MAX,
    ensures
        placed(events::spec_check(path, lines), path, 1, lines.len() as int),
{
    law_callbacks_are_blocks_of_the_file(lines);
    let cbs = callbacks_from(lines, 0);
    lemma_callbacks_placed(path, cbs, lines, cbs.len() as int);
}


// ── Newlines ────────────────────────────────────────────────────────────────

proof fn lemma_encode_concat(a: Seq<char>, b: Seq<char>)
    ensures
        encode_utf8(a + b) == encode_utf8(a) + encode_utf8(b),
    decreases a.len(),
{
    if a.len() > 0 {
        assert((a + b).drop_first() =~= a.drop_first() + b);
        assert((a + b)[0] == a[0]);
        lemma_encode_concat(a.drop_first(), b);
    } else {
        assert(a + b =~= b);
    }
}

proof fn lemma_count_concat(x: Seq<u8>, y: Seq<u8>, c: u8)
    ensures
        count_byte(x + y, c) == count_byte(x, c) + count_byte(y, c),
    decreases y.len(),
{
    if y.len() > 0 {
        assert((x + y).drop_last() =~= x + y.drop_last());
        lemma_count_concat(x, y.drop_last(), c);
    } else {
        assert(x + y =~= x);
    }
}

proof fn lemma_count_prefix(x: Seq<u8>, k: int, c: u8)
    requires
        0 <= k <= x.len(),
    ensures
        count_byte(x.subrange(0, k), c) <= count_byte(x, c),
{
    assert(x =~= x.subrange(0, k) + x.subrange(k, x.len() as int));
    lemma_count_concat(x.subrange(0, k), x.subrange(k, x.len() as int), c);
    lemma_count_byte_bound(x.subrange(k, x.len() as int), c);
}

proof fn lemma_count_absent(x: Seq<u8>, c: u8)
    requires
        forall|i: int| 0 <= i < x.len() ==> x[i] != c,
    ensures
        count_byte(x, c) == 0,
    decreases x.len(),
{
    if x.len() > 0 {
        lemma_count_absent(x.drop_last(), c);
    }
}

/// A line holds no newline byte.
pub open spec fn no_newline(l: Seq<char>) -> bool {
    count_byte(encode_utf8(l), 0x0a) == 0
}

/// Lines without newlines, joined with newlines, hold one newline fewer than
/// there are lines.
proof fn lemma_join_newlines(lines: Seq<Seq<char>>)
    requires
        lines.len() >= 1,
        forall|k: int| 0 <= k < lines.len() ==> no_newline(#[trigger] lines[k]),
    ensures
        count_byte(encode_utf8(structure::join_lines(lines)), 0x0a) == lines.len() - 1,
    decreases lines.len(),
{
    if lines.len() > 1 {
        let init = lines.drop_last();
        assert forall|k: int| 0 <= k < init.len() implies no_newline(#[trigger] init[k]) by {
            assert(init[k] == lines[k]);
        }
        lemma_join_newlines(init);
        let j = structure::join_lines(init);
        let nl = seq!['\n'];
        assert(no_newline(lines[lines.len() - 1]));
        lemma_encode_concat(j, nl);
        lemma_encode_concat(j + nl, lines.last());
        vstd::utf8::is_ascii_chars_encode_utf8(nl);
        assert(encode_utf8(nl) =~= seq![0x0au8]);
        lemma_count_concat(encode_utf8(j), encode_utf8(nl), 0x0a);
        lemma_count_concat(encode_utf8(j) + encode_utf8(nl), encode_utf8(lines.last()), 0x0a);
        assert(count_byte(seq![0x0au8], 0x0a) == 1) by {
            let one = seq![0x0au8];
            assert(one.drop_last() =~= Seq::<u8>::empty());
            assert(count_byte(one.drop_last(), 0x0a) == 0);
            assert(one.last() == 0x0a);
        }
    }
}

/// The bytes `a..e` of valid UTF-8 between two character boundaries are
/// valid UTF-8.
proof fn lemma_sub_valid(b: Seq<u8>, a: int, e: int)
    requires
        valid_utf8(b),
        0 <= a <= e <= b.len(),
        is_char_boundary(b, a),
        is_char_boundary(b, e),
    ensures
        valid_utf8(b.subrange(a, e)),
{
    valid_utf8_split(b, e);
    let p = b.subrange(0, e);
    is_char_boundary_start_end_of_seq(p);
    if a < e {
        is_char_boundary_iff_not_is_continuation_byte(b, a);
        is_char_boundary_iff_not_is_continuation_byte(p, a);
    }
    valid_utf8_split(p, a);
    assert(p.subrange(a, e) =~= b.subrange(a, e));
}

/// The lines of valid UTF-8 text hold no newline.
proof fn lemma_lines_from_no_newline(b: Seq<u8>, from: int)
    requires
        valid_utf8(b),
        0 <= from <= b.len(),
        is_char_boundary(b, from),
    ensures
        forall|k: int| 0 <= k < lines_from(b, from).len() ==> no_newline(#[trigger] lines_from(b, from)[k]),
    decreases b.len() - from,
{
    if from < b.len() {
        let nl = "\n".spec_bytes();
        reveal_strlit("\n");
        lemma_ascii_str("\n");
        assert(nl =~= seq![0x0au8]);
        lemma_find_from(b, nl, from);
        is_char_boundary_start_end_of_seq(b);
        let ls = lines_from(b, from);
        match find_from(b, nl, from) {
            Some(k) => {
                assert(b.subrange(k, k + 1)[0] == b[k]);
                lemma_ascii_byte_boundary(b, k);
                lemma_after_ascii_boundary(b, k);
                let e = line_end(b, from, k);
                if e < k {
                    lemma_ascii_byte_boundary(b, e);
                }
                lemma_sub_valid(b, from, e);
                let sub = b.subrange(from, e);
                decode_utf8_encode_utf8(sub);
                assert forall|i: int| 0 <= i < sub.len() implies sub[i] != 0x0a by {
                    assert(sub[i] == b[from + i]);
                    if b[from + i] == 0x0a {
                        assert(b.subrange(from + i, from + i + nl.len()) =~= nl);
                    }
                }
                lemma_count_absent(sub, 0x0a);
                lemma_lines_from_no_newline(b, k + 1);
                let rest = lines_from(b, k + 1);
                assert(ls == seq![decode_utf8(sub)] + rest);
                assert forall|j: int| 0 <= j < ls.len() implies no_newline(#[trigger] ls[j]) by {
                    if j > 0 {
                        assert(ls[j] == rest[j - 1]);
                    }
                }
            },
            None => {
                lemma_sub_valid(b, from, b.len() as int);
                let sub = b.subrange(from, b.len() as int);
                decode_utf8_encode_utf8(sub);
                assert forall|i: int| 0 <= i < sub.len() implies sub[i] != 0x0a by {
                    assert(sub[i] == b[from + i]);
                    if b[from + i] == 0x0a {
                        assert(b.subrange(from + i, from + i + nl.len()) =~= nl);
                    }
                }
                lemma_count_absent(sub, 0x0a);
            },
        }
    }
}

proof fn lemma_text_lines_nonempty(b: Seq<u8>)
    requires
        b.len() > 0,
    ensures
        text_lines(b).len() >= 1,
{
    lemma_find_from(b, "\n".spec_bytes(), 0);
}

// ── Structure ───────────────────────────────────────────────────────────────

proof fn lemma_components_placed(path: Seq<char>, text: Seq<u8>, primary: Seq<char>, caps: Seq<Seq<Option<Span>>>, k: int, hi: int)
    requires
        count_byte(text, 0x0a) + 1 <= hi,
        k <= caps.len(),
    ensures
        placed(structure::component_issues(path, text, primary, caps, k), path, 1, hi),
    decreases k,
{
    if k > 1 {
        lemma_components_placed(path, text, primary, caps, k - 1, hi);
        let cap = caps[k - 1];
        if cap.len() > 2 && cap[1] is Some && cap[2] is Some {
            let decl = cap[1]->0;
            let e = if decl.0 <= text.len() { decl.0 as int } else { text.len() as int };
            lemma_count_prefix(text, e, 0x0a);
            lemma_count_byte_bound(text.subrange(0, e), 0x0a);
        }
        lemma_placed_concat(
            structure::component_issues(path, text, primary, caps, k - 1),
            structure::component_issue(path, text, primary, cap),
            path,
            1,
            hi,
        );
    }
}


proof fn lemma_structure_placed(path: Seq<char>, lines: Seq<Seq<char>>)
    requires
        lines.len() >= 1,
        forall|k: int| 0 <= k < lines.len() ==> no_newline(#[trigger] lines[k]),
    ensures
        placed(structure::spec_check(path, lines), path, 1, lines.len() as int),
{
    let text = structure::join_lines(lines);
    let caps = crate::pattern::all_captures(structure::COMPONENT_DEF@, text);
    lemma_join_newlines(lines);
    if caps.len() > 1 {
        let tb = encode_utf8(text);
        lemma_components_placed(path, tb, structure::group_text(tb, caps[0], 2), caps, caps.len() as int, lines.len() as int);
    }
}

/// Every issue that scanning a non-empty file reports points into the file:
/// the file's path, a line between 1 and the number of lines, a column of at
/// least 1, and error severity (warning severity for a hardcoded string).
pub proof fn law_issues_point_into_the_file(path: Seq<char>, content: Seq<char>, cfg: ConfigView)
    requires
        content.len() > 0,
        text_lines(encode_utf8(content)).len() <= usize::MAX,
    ensures
        placed(spec_scan_file(path, content, cfg), path, 1, text_lines(encode_utf8(content)).len() as int),
{
    let b = encode_utf8(content);
    let lines = text_lines(b);
    let n = lines.len() as int;
    let pb = encode_utf8(path);
    assert(b.len() > 0) by {
        vstd::utf8::encode_utf8_first_scalar(content);
    }
    lemma_text_lines_nonempty(b);
    is_char_boundary_start_end_of_seq(b);
    lemma_lines_from_no_newline(b, 0);
    let is_def = crate::context::spec_is_definition_file(pb);
    let p1 = if cfg.check_tokens { tokens::spec_check(path, is_def, lines) } else { Seq::<IssueView>::empty() };
    let p2 = if cfg.check_strings { strings::spec_check(path, is_def, lines) } else { Seq::<IssueView>::empty() };
    let p3 = if cfg.check_structure { structure::spec_check(path, lines) } else { Seq::<IssueView>::empty() };
    let p4 = if cfg.check_events { events::spec_check(path, lines) } else { Seq::<IssueView>::empty() };
    let p5 = if cfg.check_mother_child {
        mother_child::spec_check(path, crate::context::spec_is_mother(lines), crate::context::spec_is_global_file(lines), crate::context::spec_is_views_folder(pb), lines)
    } else {
        Seq::<IssueView>::empty()
    };
    let p6 = if cfg.check_string_states { string_states::spec_check(path, is_def, lines) } else { Seq::<IssueView>::empty() };
    lemma_tokens_placed(path, lines, n);
    lemma_strings_placed(path, lines, n);
    lemma_structure_placed(path, lines);
    lemma_events_placed(path, lines);
    lemma_mother_child_placed(path, crate::context::spec_is_mother(lines), crate::context::spec_is_global_file(lines), crate::context::spec_is_views_folder(pb), lines);
    lemma_string_states_placed(path, lines, n);
    lemma_placed_concat(p1, p2, path, 1, n);
    lemma_placed_concat(p1 + p2, p3, path, 1, n);
    lemma_placed_concat(p1 + p2 + p3, p4, path, 1, n);
    lemma_placed_concat(p1 + p2 + p3 + p4, p5, path, 1, n);
    lemma_placed_concat(p1 + p2 + p3 + p4 + p5, p6, path, 1, n);
}

} // verus!
