//! What each check reports: every violation on a line (or in a callback, or
//! among the gateway calls) gives its own issue, whatever the other lines,
//! matches or callbacks hold.

use vstd::prelude::*;
use vstd::utf8::*;
use vstd::string::StringSliceAdditionalSpecFns;

use crate::checks::{architecture, events, mother_child, string_states, strings, structure, tokens};
use crate::context::{callbacks_from, comment_at, is_comment_line, CallbackView};
use crate::issue::{error_view, warning_view, IssueView};
use crate::pattern::{all_captures, find_all, first_captures, is_match, Span};
use crate::checks::architecture::{
    call_count, call_issues, dominant_upto, files_calls, lemma_receivers_distinct, receivers_issues, receivers_upto,
    spec_check_tree, Call,
};
use crate::SourceFileView;
use crate::text::{contains, count_byte, find_from, lowercase, slice_text, starts_with};

verus! {

broadcast use {vstd::seq_lib::group_seq_properties, vstd::utf8::encode_utf8_decode_utf8, vstd::utf8::encode_utf8_valid_utf8};

/// An item of either part of a concatenation is an item of the whole.
pub proof fn lemma_contains_concat<A>(a: Seq<A>, b: Seq<A>, x: A)
    ensures
        a.contains(x) ==> (a + b).contains(x),
        b.contains(x) ==> (a + b).contains(x),
{
    if a.contains(x) {
        let k = choose|k: int| 0 <= k < a.len() && a[k] == x;
        assert((a + b)[k] == x);
    }
    if b.contains(x) {
        let k = choose|k: int| 0 <= k < b.len() && b[k] == x;
        assert((a + b)[a.len() + k] == x);
    }
}

// ── String states ───────────────────────────────────────────────────────────

proof fn lemma_comparisons_contain(path: Seq<char>, lineno: int, seg: Seq<u8>, caps: Seq<Seq<Option<Span>>>, n: int, k: int, x: IssueView)
    requires
        0 <= k < n <= caps.len(),
        string_states::comparison_issue(path, lineno, seg, caps[k]).contains(x),
    ensures
        string_states::comparison_issues(path, lineno, seg, caps, n).contains(x),
    decreases n,
{
    if k == n - 1 {
        lemma_contains_concat(string_states::comparison_issues(path, lineno, seg, caps, n - 1), string_states::comparison_issue(path, lineno, seg, caps[k]), x);
    } else {
        lemma_comparisons_contain(path, lineno, seg, caps, n - 1, k, x);
        lemma_contains_concat(string_states::comparison_issues(path, lineno, seg, caps, n - 1), string_states::comparison_issue(path, lineno, seg, caps[n - 1]), x);
    }
}

proof fn lemma_string_states_upto_contain(path: Seq<char>, lines: Seq<Seq<char>>, n: int, i: int, x: IssueView)
    requires
        0 <= i < n <= lines.len(),
        string_states::line_issues(path, i, lines[i]).contains(x),
    ensures
        string_states::issues_upto(path, lines, n).contains(x),
    decreases n,
{
    if i < n - 1 {
        lemma_string_states_upto_contain(path, lines, n - 1, i, x);
    }
    lemma_contains_concat(string_states::issues_upto(path, lines, n - 1), string_states::line_issues(path, n - 1, lines[n - 1]), x);
}

/// Every comparison with a string literal of at least three characters, in
/// the code of a line that is not a comment, whose value is not UI text,
/// gives its own issue: at its line, at the column where the match starts,
/// naming the value — whatever else the line and the file hold.
pub proof fn law_every_string_state_comparison_is_reported(path: Seq<char>, lines: Seq<Seq<char>>, i: int, k: int)
    requires
        0 <= i < lines.len(),
        !is_comment_line(encode_utf8(lines[i])),
        ({
            let b = encode_utf8(lines[i]);
            let seg = b.subrange(0, comment_at(b));
            let caps = all_captures(string_states::STR_COMPARE@, decode_utf8(seg));
            &&& 0 <= k < caps.len()
            &&& caps[k].len() > 1
            &&& caps[k][1] is Some
            &&& !is_match(string_states::SKIP_VALUES@, slice_text(seg, (caps[k][1]->0).0 as int, (caps[k][1]->0).1 as int))
        }),
    ensures
        ({
            let b = encode_utf8(lines[i]);
            let seg = b.subrange(0, comment_at(b));
            let caps = all_captures(string_states::STR_COMPARE@, decode_utf8(seg));
            let sp = caps[k][1]->0;
            let val = slice_text(seg, sp.0 as int, sp.1 as int);
            string_states::spec_check(path, false, lines).contains(
                error_view(path, i + 1, (caps[k][0]->0).0 + 1, string_states::RULE@, string_states::MSG_BEFORE@ + val + string_states::MSG_AFTER@),
            )
        }),
{
    let b = encode_utf8(lines[i]);
    let seg = b.subrange(0, comment_at(b));
    let caps = all_captures(string_states::STR_COMPARE@, decode_utf8(seg));
    let sp = caps[k][1]->0;
    let val = slice_text(seg, sp.0 as int, sp.1 as int);
    let x = error_view(path, i + 1, (caps[k][0]->0).0 + 1, string_states::RULE@, string_states::MSG_BEFORE@ + val + string_states::MSG_AFTER@);
    assert(string_states::comparison_issue(path, i + 1, seg, caps[k])[0] == x);
    lemma_comparisons_contain(path, i + 1, seg, caps, caps.len() as int, k, x);
    lemma_string_states_upto_contain(path, lines, lines.len() as int, i, x);
}

// ── Mother and children ────────────────────────────────────────────────────

proof fn lemma_imports_upto_contain(path: Seq<char>, lines: Seq<Seq<char>>, n: int, i: int, x: IssueView)
    requires
        0 <= i < n <= lines.len(),
        mother_child::import_issue(path, i, lines[i]).contains(x),
    ensures
        mother_child::import_issues_upto(path, lines, n).contains(x),
    decreases n,
{
    if i < n - 1 {
        lemma_imports_upto_contain(path, lines, n - 1, i, x);
    }
    lemma_contains_concat(mother_child::import_issues_upto(path, lines, n - 1), mother_child::import_issue(path, n - 1, lines[n - 1]), x);
}

proof fn lemma_states_upto_contain(path: Seq<char>, lines: Seq<Seq<char>>, n: int, i: int, x: IssueView)
    requires
        0 <= i < n <= lines.len(),
        mother_child::state_issue(path, i, lines[i]).contains(x),
    ensures
        mother_child::state_issues_upto(path, lines, n).contains(x),
    decreases n,
{
    if i < n - 1 {
        lemma_states_upto_contain(path, lines, n - 1, i, x);
    }
    lemma_contains_concat(mother_child::state_issues_upto(path, lines, n - 1), mother_child::state_issue(path, n - 1, lines[n - 1]), x);
}

/// In a `views/` folder, in a file that is neither the mother nor a global
/// file, every line whose import brings in a file other than the standard
/// widgets and not by a relative path (`../`, `./`) gives a sibling-import
/// issue at that line and the column of the imported path — whatever the
/// other lines import.
pub proof fn law_every_sibling_import_is_reported(path: Seq<char>, lines: Seq<Seq<char>>, i: int)
    requires
        0 <= i < lines.len(),
        ({
            let caps = first_captures(mother_child::IMPORT@, lines[i]);
            let b = encode_utf8(lines[i]);
            &&& caps matches Some(g)
            &&& g.len() > 1
            &&& g[1] is Some
            &&& !is_match(mother_child::STD_IMPORT@, decode_utf8(b.subrange((g[1]->0).0 as int, (g[1]->0).1 as int)))
            &&& !starts_with(b.subrange((g[1]->0).0 as int, (g[1]->0).1 as int), "../".spec_bytes())
            &&& !starts_with(b.subrange((g[1]->0).0 as int, (g[1]->0).1 as int), "./".spec_bytes())
        }),
    ensures
        ({
            let g = first_captures(mother_child::IMPORT@, lines[i])->0;
            let sp = g[1]->0;
            let target = decode_utf8(encode_utf8(lines[i]).subrange(sp.0 as int, sp.1 as int));
            mother_child::spec_check(path, false, false, true, lines).contains(
                error_view(path, i + 1, sp.0 + 1, mother_child::RULE_SIBLING_IMPORT@,
                    mother_child::MSG_SIBLING_BEFORE@ + target + mother_child::MSG_SIBLING_AFTER@),
            )
        }),
{
    let g = first_captures(mother_child::IMPORT@, lines[i])->0;
    let sp = g[1]->0;
    let target = decode_utf8(encode_utf8(lines[i]).subrange(sp.0 as int, sp.1 as int));
    let x = error_view(path, i + 1, sp.0 + 1, mother_child::RULE_SIBLING_IMPORT@,
        mother_child::MSG_SIBLING_BEFORE@ + target + mother_child::MSG_SIBLING_AFTER@);
    assert(mother_child::import_issue(path, i, lines[i])[0] == x);
    lemma_imports_upto_contain(path, lines, lines.len() as int, i, x);
    let n = lines.len() as int;
    lemma_contains_concat(mother_child::state_issues_upto(path, lines, n), mother_child::import_issues_upto(path, lines, n), x);
}

/// In a file that is neither the mother nor a global file, every line that
/// is not a comment and declares an `in-out property` without `<=>` gives a
/// child-state issue at that line — whatever the other lines hold.
pub proof fn law_every_child_state_is_reported(path: Seq<char>, is_views_folder: bool, lines: Seq<Seq<char>>, i: int)
    requires
        0 <= i < lines.len(),
        !is_comment_line(encode_utf8(lines[i])),
        is_match(mother_child::IN_OUT_PROP@, lines[i]),
        !is_match(mother_child::DELEGATION@, lines[i]),
    ensures
        mother_child::spec_check(path, false, false, is_views_folder, lines).contains(
            error_view(path, i + 1, 1, mother_child::RULE_CHILD_HAS_STATE@, mother_child::MSG_CHILD_HAS_STATE@),
        ),
{
    let x = error_view(path, i + 1, 1, mother_child::RULE_CHILD_HAS_STATE@, mother_child::MSG_CHILD_HAS_STATE@);
    assert(mother_child::state_issue(path, i, lines[i])[0] == x);
    lemma_states_upto_contain(path, lines, lines.len() as int, i, x);
    let n = lines.len() as int;
    let rest = if is_views_folder { mother_child::import_issues_upto(path, lines, n) } else { Seq::<IssueView>::empty() };
    lemma_contains_concat(mother_child::state_issues_upto(path, lines, n), rest, x);
}

// ── Tokens ──────────────────────────────────────────────────────────────────

/// The pattern of a kind of literal.
pub open spec fn literal_pattern(kind: tokens::Literal) -> Seq<char> {
    match kind {
        tokens::Literal::Color => tokens::HEX_COLOR@,
        tokens::Literal::ColorFunction => tokens::RGB_FUNC@,
        tokens::Literal::Size => tokens::PIXEL_VALUE@,
        tokens::Literal::Percentage => tokens::PERCENT_VALUE@,
        tokens::Literal::Duration => tokens::DURATION_VALUE@,
    }
}

/// The line may hold literals: it is not a comment and its code holds no
/// `@image-url(` and no `@tr(`.
pub open spec fn literal_line(raw: Seq<char>) -> bool {
    let b = encode_utf8(raw);
    let t = decode_utf8(b.subrange(0, comment_at(b)));
    &&& !is_comment_line(b)
    &&& !is_match(tokens::IMAGE_URL@, t)
    &&& !is_match(tokens::TR_MACRO@, t)
}

proof fn lemma_literals_contain(kind: tokens::Literal, path: Seq<char>, lineno: int, raw: Seq<u8>, seg: Seq<u8>, spans: Seq<Span>, n: int, k: int, x: IssueView)
    requires
        0 <= k < n <= spans.len(),
        tokens::literal_issue(kind, path, lineno, raw, seg, spans[k]).contains(x),
    ensures
        tokens::literal_issues(kind, path, lineno, raw, seg, spans, n).contains(x),
    decreases n,
{
    if k < n - 1 {
        lemma_literals_contain(kind, path, lineno, raw, seg, spans, n - 1, k, x);
    }
    lemma_contains_concat(tokens::literal_issues(kind, path, lineno, raw, seg, spans, n - 1), tokens::literal_issue(kind, path, lineno, raw, seg, spans[n - 1]), x);
}

proof fn lemma_numbers_contain(is_float: bool, path: Seq<char>, lineno: int, raw: Seq<u8>, seg: Seq<u8>, covered: Seq<Span>, caps: Seq<Seq<Option<Span>>>, n: int, k: int, x: IssueView)
    requires
        0 <= k < n <= caps.len(),
        tokens::number_issue(is_float, path, lineno, raw, seg, covered, caps[k]).contains(x),
    ensures
        tokens::number_issues(is_float, path, lineno, raw, seg, covered, caps, n).contains(x),
    decreases n,
{
    if k < n - 1 {
        lemma_numbers_contain(is_float, path, lineno, raw, seg, covered, caps, n - 1, k, x);
    }
    lemma_contains_concat(tokens::number_issues(is_float, path, lineno, raw, seg, covered, caps, n - 1), tokens::number_issue(is_float, path, lineno, raw, seg, covered, caps[n - 1]), x);
}

proof fn lemma_tokens_upto_contain(path: Seq<char>, lines: Seq<Seq<char>>, n: int, i: int, x: IssueView)
    requires
        0 <= i < n <= lines.len(),
        tokens::line_issues(path, i, lines[i]).contains(x),
    ensures
        tokens::issues_upto(path, lines, n).contains(x),
    decreases n,
{
    if i < n - 1 {
        lemma_tokens_upto_contain(path, lines, n - 1, i, x);
    }
    lemma_contains_concat(tokens::issues_upto(path, lines, n - 1), tokens::line_issues(path, n - 1, lines[n - 1]), x);
}

/// An issue of one of the parts of a line's token issues is an issue of the line.
proof fn lemma_line_part_contain(path: Seq<char>, i: int, raw: Seq<char>, x: IssueView)
    requires
        literal_line(raw),
        ({
            let b = encode_utf8(raw);
            let seg = b.subrange(0, comment_at(b));
            let l = i + 1;
            ||| tokens::all_literal_issues(tokens::Literal::Color, tokens::HEX_COLOR@, path, l, b, seg).contains(x)
            ||| tokens::all_literal_issues(tokens::Literal::ColorFunction, tokens::RGB_FUNC@, path, l, b, seg).contains(x)
            ||| tokens::all_literal_issues(tokens::Literal::Size, tokens::PIXEL_VALUE@, path, l, b, seg).contains(x)
            ||| tokens::all_literal_issues(tokens::Literal::Percentage, tokens::PERCENT_VALUE@, path, l, b, seg).contains(x)
            ||| tokens::all_literal_issues(tokens::Literal::Duration, tokens::DURATION_VALUE@, path, l, b, seg).contains(x)
            ||| tokens::all_number_issues(true, path, l, b, seg).contains(x)
            ||| tokens::all_number_issues(false, path, l, b, seg).contains(x)
        }),
    ensures
        tokens::line_issues(path, i, raw).contains(x),
{
    let b = encode_utf8(raw);
    let seg = b.subrange(0, comment_at(b));
    let l = i + 1;
    let p1 = tokens::all_literal_issues(tokens::Literal::Color, tokens::HEX_COLOR@, path, l, b, seg);
    let p2 = tokens::all_literal_issues(tokens::Literal::ColorFunction, tokens::RGB_FUNC@, path, l, b, seg);
    let p3 = tokens::all_literal_issues(tokens::Literal::Size, tokens::PIXEL_VALUE@, path, l, b, seg);
    let p4 = tokens::all_literal_issues(tokens::Literal::Percentage, tokens::PERCENT_VALUE@, path, l, b, seg);
    let p5 = tokens::all_literal_issues(tokens::Literal::Duration, tokens::DURATION_VALUE@, path, l, b, seg);
    let p6 = tokens::all_number_issues(true, path, l, b, seg);
    let p7 = tokens::all_number_issues(false, path, l, b, seg);
    lemma_contains_concat(p1, p2, x);
    lemma_contains_concat(p1 + p2, p3, x);
    lemma_contains_concat(p1 + p2 + p3, p4, x);
    lemma_contains_concat(p1 + p2 + p3 + p4, p5, x);
    lemma_contains_concat(p1 + p2 + p3 + p4 + p5, p6, x);
    lemma_contains_concat(p1 + p2 + p3 + p4 + p5 + p6, p7, x);
    assert(tokens::line_issues(path, i, raw) == p1 + p2 + p3 + p4 + p5 + p6 + p7);
}

/// In a file outside the definition folders, on a line that may hold
/// literals, every match of a hex color, an `rgb(`/`rgba(` call, a pixel
/// size, a percentage or a duration in the line's code gives its own issue,
/// at the column where the match starts — unless it is a size, percentage
/// or duration inside a property declaration (`property <` before it).
/// Other matches, on the line or elsewhere, do not hide it.
pub proof fn law_every_literal_is_reported(path: Seq<char>, lines: Seq<Seq<char>>, i: int, kind: tokens::Literal, k: int)
    requires
        0 <= i < lines.len(),
        literal_line(lines[i]),
        ({
            let b = encode_utf8(lines[i]);
            let spans = find_all(literal_pattern(kind), decode_utf8(b.subrange(0, comment_at(b))));
            &&& 0 <= k < spans.len()
            &&& !(kind is Color || kind is ColorFunction) ==> !is_match(tokens::PROPERTY_DECL@, slice_text(b, 0, spans[k].0 as int))
        }),
    ensures
        ({
            let b = encode_utf8(lines[i]);
            let seg = b.subrange(0, comment_at(b));
            let sp = find_all(literal_pattern(kind), decode_utf8(seg))[k];
            tokens::spec_check(path, false, lines).contains(
                error_view(path, i + 1, sp.0 + 1, tokens::literal_rule(kind), tokens::literal_message(kind, seg.subrange(sp.0 as int, sp.1 as int))),
            )
        }),
{
    let b = encode_utf8(lines[i]);
    let seg = b.subrange(0, comment_at(b));
    let spans = find_all(literal_pattern(kind), decode_utf8(seg));
    let sp = spans[k];
    let x = error_view(path, i + 1, sp.0 + 1, tokens::literal_rule(kind), tokens::literal_message(kind, seg.subrange(sp.0 as int, sp.1 as int)));
    assert(tokens::literal_issue(kind, path, i + 1, b, seg, sp)[0] == x);
    lemma_literals_contain(kind, path, i + 1, b, seg, spans, spans.len() as int, k, x);
    assert(tokens::all_literal_issues(kind, literal_pattern(kind), path, i + 1, b, seg).contains(x));
    lemma_line_part_contain(path, i, lines[i], x);
    lemma_tokens_upto_contain(path, lines, lines.len() as int, i, x);
}

/// In a file outside the definition folders, on a line that may hold
/// literals, every float (or integer) match in the line's code that is not
/// skipped — inside a size, percentage, duration or color, in a property
/// declaration, next to `#`, `.`, `_` or a letter, before a unit, or an
/// integer on a grid `row:`/`col:` line — gives its own issue at its column.
/// Other numbers, on the line or elsewhere, do not hide it.
pub proof fn law_every_number_is_reported(path: Seq<char>, lines: Seq<Seq<char>>, i: int, is_float: bool, k: int)
    requires
        0 <= i < lines.len(),
        literal_line(lines[i]),
        ({
            let b = encode_utf8(lines[i]);
            let seg = b.subrange(0, comment_at(b));
            let t = decode_utf8(seg);
            let covered = find_all(tokens::PIXEL_VALUE@, t) + find_all(tokens::PERCENT_VALUE@, t)
                + find_all(tokens::DURATION_VALUE@, t) + find_all(tokens::HEX_COLOR@, t);
            let caps = all_captures(if is_float { tokens::FLOAT_VALUE@ } else { tokens::INT_VALUE@ }, t);
            &&& 0 <= k < caps.len()
            &&& caps[k].len() > 1
            &&& caps[k][1] is Some
            &&& !tokens::number_skipped(is_float, b, seg, covered, (caps[k][1]->0).0 as int, (caps[k][1]->0).1 as int)
        }),
    ensures
        ({
            let b = encode_utf8(lines[i]);
            let seg = b.subrange(0, comment_at(b));
            let caps = all_captures(if is_float { tokens::FLOAT_VALUE@ } else { tokens::INT_VALUE@ }, decode_utf8(seg));
            let sp = caps[k][1]->0;
            tokens::spec_check(path, false, lines).contains(
                error_view(path, i + 1, sp.0 + 1, tokens::RULE_NUMBER@, tokens::number_message(is_float, slice_text(seg, sp.0 as int, sp.1 as int))),
            )
        }),
{
    let b = encode_utf8(lines[i]);
    let seg = b.subrange(0, comment_at(b));
    let t = decode_utf8(seg);
    let covered = find_all(tokens::PIXEL_VALUE@, t) + find_all(tokens::PERCENT_VALUE@, t)
        + find_all(tokens::DURATION_VALUE@, t) + find_all(tokens::HEX_COLOR@, t);
    let caps = all_captures(if is_float { tokens::FLOAT_VALUE@ } else { tokens::INT_VALUE@ }, t);
    let sp = caps[k][1]->0;
    let x = error_view(path, i + 1, sp.0 + 1, tokens::RULE_NUMBER@, tokens::number_message(is_float, slice_text(seg, sp.0 as int, sp.1 as int)));
    assert(tokens::number_issue(is_float, path, i + 1, b, seg, covered, caps[k])[0] == x);
    lemma_numbers_contain(is_float, path, i + 1, b, seg, covered, caps, caps.len() as int, k, x);
    assert(tokens::all_number_issues(is_float, path, i + 1, b, seg).contains(x));
    lemma_line_part_contain(path, i, lines[i], x);
    lemma_tokens_upto_contain(path, lines, lines.len() as int, i, x);
}

// ── Hardcoded strings ───────────────────────────────────────────────────────

proof fn lemma_strings_upto_contain(path: Seq<char>, lines: Seq<Seq<char>>, n: int, i: int, x: IssueView)
    requires
        0 <= i < n <= lines.len(),
        !is_comment_line(encode_utf8(lines[i])),
        strings::code_line_issue(path, i + 1, lines[i]).contains(x),
    ensures
        strings::issues_upto(path, lines, n).contains(x),
    decreases n,
{
    if i < n - 1 {
        lemma_strings_upto_contain(path, lines, n - 1, i, x);
    }
    let here = if is_comment_line(encode_utf8(lines[n - 1])) {
        Seq::<IssueView>::empty()
    } else {
        strings::code_line_issue(path, n, lines[n - 1])
    };
    lemma_contains_concat(strings::issues_upto(path, lines, n - 1), here, x);
}

/// In a file outside the definition folders, every line that is not a
/// comment and assigns a property, other than an allowed one, a string
/// literal that is not a reference, color, path, number or block, with no
/// `property` before its first `"`, gives a warning at the column of that
/// `"` — whatever the other lines hold.
pub proof fn law_every_hardcoded_string_is_reported(path: Seq<char>, lines: Seq<Seq<char>>, i: int)
    requires
        0 <= i < lines.len(),
        !is_comment_line(encode_utf8(lines[i])),
        ({
            let b = encode_utf8(lines[i]);
            let caps = first_captures(strings::HARDCODED_STR@, lines[i]);
            &&& caps matches Some(g)
            &&& g.len() > 2
            &&& g[1] is Some
            &&& g[2] is Some
            &&& !strings::is_allowed_prop(lowercase(slice_text(b, (g[1]->0).0 as int, (g[1]->0).1 as int)))
            &&& !is_match(strings::ALLOWED_PATTERNS@, slice_text(b, (g[2]->0).0 as int, (g[2]->0).1 as int))
            &&& find_from(b, "\"".spec_bytes(), 0) matches Some(q)
            &&& !contains(b.subrange(0, q), "property".spec_bytes())
        }),
    ensures
        ({
            let b = encode_utf8(lines[i]);
            let g = first_captures(strings::HARDCODED_STR@, lines[i])->0;
            let prop = lowercase(slice_text(b, (g[1]->0).0 as int, (g[1]->0).1 as int));
            let value = slice_text(b, (g[2]->0).0 as int, (g[2]->0).1 as int);
            let q = find_from(b, "\"".spec_bytes(), 0)->0;
            strings::spec_check(path, false, lines).contains(
                warning_view(path, i + 1, q + 1, strings::RULE@, strings::MSG_A@ + value + strings::MSG_B@ + prop + strings::MSG_C@),
            )
        }),
{
    let b = encode_utf8(lines[i]);
    let g = first_captures(strings::HARDCODED_STR@, lines[i])->0;
    let prop = lowercase(slice_text(b, (g[1]->0).0 as int, (g[1]->0).1 as int));
    let value = slice_text(b, (g[2]->0).0 as int, (g[2]->0).1 as int);
    let q = find_from(b, "\"".spec_bytes(), 0)->0;
    let x = warning_view(path, i + 1, q + 1, strings::RULE@, strings::MSG_A@ + value + strings::MSG_B@ + prop + strings::MSG_C@);
    assert(strings::code_line_issue(path, i + 1, lines[i])[0] == x);
    lemma_strings_upto_contain(path, lines, lines.len() as int, i, x);
}

// ── Single gateway ──────────────────────────────────────────────────────────

/// An item of a concatenation is an item of one of its parts.
pub proof fn lemma_contains_split<A>(a: Seq<A>, b: Seq<A>, x: A)
    requires
        (a + b).contains(x),
    ensures
        a.contains(x) || b.contains(x),
{
    let k = choose|k: int| 0 <= k < (a + b).len() && (a + b)[k] == x;
    if k < a.len() {
        assert(a[k] == x);
    } else {
        assert(b[k - a.len()] == x);
    }
}

/// The issue for a call `c` of an object other than the gateway `gateway`.
pub open spec fn gateway_issue(c: Call, gateway: Seq<char>) -> IssueView {
    error_view(c.1, c.2 as int, 1, architecture::RULE@, architecture::MSG_A@ + c.0 + architecture::MSG_B@ + gateway + architecture::MSG_C@)
}

/// The index of the first of the first `n` calls that calls `x`, or `n`
/// when none does.
pub open spec fn first_index(calls: Seq<Call>, x: Seq<char>, n: int) -> int
    decreases n,
{
    if n <= 0 {
        0
    } else {
        let f = first_index(calls, x, n - 1);
        if f < n - 1 {
            f
        } else if calls[n - 1].0 == x {
            n - 1
        } else {
            n
        }
    }
}

proof fn lemma_first_index(calls: Seq<Call>, x: Seq<char>, n: int)
    requires
        0 <= n <= calls.len(),
    ensures
        0 <= first_index(calls, x, n) <= n,
        first_index(calls, x, n) < n ==> calls[first_index(calls, x, n)].0 == x,
        forall|i: int| 0 <= i < first_index(calls, x, n) ==> (#[trigger] calls[i]).0 != x,
    decreases n,
{
    if n > 0 {
        lemma_first_index(calls, x, n - 1);
    }
}

/// The receivers of the first `n` calls are exactly the objects those calls
/// call, listed in order of first call.
proof fn lemma_receivers(calls: Seq<Call>, n: int)
    requires
        0 <= n <= calls.len(),
    ensures
        forall|j: int| 0 <= j < n ==> receivers_upto(calls, n).contains(#[trigger] calls[j].0),
        forall|a: int| 0 <= a < receivers_upto(calls, n).len()
            ==> first_index(calls, #[trigger] receivers_upto(calls, n)[a], n) < n,
        forall|a: int, b: int|
            0 <= a < b < receivers_upto(calls, n).len() ==> first_index(calls, #[trigger] receivers_upto(calls, n)[a], n)
                < first_index(calls, #[trigger] receivers_upto(calls, n)[b], n),
    decreases n,
{
    if n > 0 {
        lemma_receivers(calls, n - 1);
        let d = receivers_upto(calls, n - 1);
        let x = calls[n - 1].0;
        let r = receivers_upto(calls, n);
        assert forall|y: Seq<char>| first_index(calls, y, n - 1) < n - 1 implies #[trigger] first_index(calls, y, n) == first_index(calls, y, n - 1) by {}
        if d.contains(x) {
            assert(r == d);
        } else {
            assert(r == d.push(x));
            lemma_first_index(calls, x, n - 1);
            assert(first_index(calls, x, n - 1) == n - 1) by {
                if first_index(calls, x, n - 1) < n - 1 {
                    assert(d.contains(calls[first_index(calls, x, n - 1)].0));
                }
            }
            assert(first_index(calls, x, n) == n - 1);
            assert forall|j: int| 0 <= j < n implies r.contains(#[trigger] calls[j].0) by {
                if j < n - 1 {
                    let k = choose|k: int| 0 <= k < d.len() && d[k] == calls[j].0;
                    assert(r[k] == calls[j].0);
                } else {
                    assert(r[d.len() as int] == x);
                }
            }
            assert forall|a: int| 0 <= a < r.len() implies first_index(calls, #[trigger] r[a], n) < n by {
                if a < d.len() {
                    assert(r[a] == d[a]);
                }
            }
            assert forall|a: int, b: int| 0 <= a < b < r.len() implies first_index(calls, #[trigger] r[a], n)
                < first_index(calls, #[trigger] r[b], n) by {
                assert(r[a] == d[a]);
                if b < d.len() {
                    assert(r[b] == d[b]);
                }
            }
        }
    }
}

/// The chosen receiver is called at least as often as every one of the first
/// `m`, and more often than every one before it.
proof fn lemma_dominant(receivers: Seq<Seq<char>>, calls: Seq<Call>, m: int)
    requires
        1 <= m <= receivers.len(),
    ensures
        ({
            let d = dominant_upto(receivers, calls, m);
            let n = calls.len() as int;
            &&& 0 <= d < m
            &&& forall|k: int| 0 <= k < m ==> call_count(calls, #[trigger] receivers[k], n) <= call_count(calls, receivers[d], n)
            &&& forall|k: int| 0 <= k < d ==> call_count(calls, #[trigger] receivers[k], n) < call_count(calls, receivers[d], n)
        }),
    decreases m,
{
    if m > 1 {
        lemma_dominant(receivers, calls, m - 1);
    }
}

proof fn lemma_call_issues_contain(calls: Seq<Call>, r: Seq<char>, g: Seq<char>, n: int, j: int)
    requires
        0 <= j < n <= calls.len(),
        calls[j].0 == r,
    ensures
        call_issues(calls, r, g, n).contains(gateway_issue(calls[j], g)),
    decreases n,
{
    let x = gateway_issue(calls[j], g);
    if j < n - 1 {
        lemma_call_issues_contain(calls, r, g, n - 1, j);
        let here = if calls[n - 1].0 == r {
            seq![error_view(calls[n - 1].1, calls[n - 1].2 as int, 1, architecture::RULE@, architecture::MSG_A@ + r + architecture::MSG_B@ + g + architecture::MSG_C@)]
        } else {
            Seq::<IssueView>::empty()
        };
        lemma_contains_concat(call_issues(calls, r, g, n - 1), here, x);
    } else {
        let here = seq![x];
        assert(here[0] == x);
        lemma_contains_concat(call_issues(calls, r, g, n - 1), here, x);
    }
}

proof fn lemma_call_issues_from(calls: Seq<Call>, r: Seq<char>, g: Seq<char>, n: int, x: IssueView)
    requires
        0 <= n <= calls.len(),
        call_issues(calls, r, g, n).contains(x),
    ensures
        exists|j: int| 0 <= j < n && calls[j].0 == r && x == gateway_issue(#[trigger] calls[j], g),
    decreases n,
{
    if n > 0 {
        let here = if calls[n - 1].0 == r {
            seq![error_view(calls[n - 1].1, calls[n - 1].2 as int, 1, architecture::RULE@, architecture::MSG_A@ + r + architecture::MSG_B@ + g + architecture::MSG_C@)]
        } else {
            Seq::<IssueView>::empty()
        };
        lemma_contains_split(call_issues(calls, r, g, n - 1), here, x);
        if call_issues(calls, r, g, n - 1).contains(x) {
            lemma_call_issues_from(calls, r, g, n - 1, x);
        } else {
            assert(x == gateway_issue(calls[n - 1], g));
        }
    }
}

proof fn lemma_receivers_issues_contain(rs: Seq<Seq<char>>, calls: Seq<Call>, g: Seq<char>, m: int, k: int, j: int)
    requires
        0 <= k < m <= rs.len(),
        0 <= j < calls.len(),
        calls[j].0 == rs[k],
        rs[k] != g,
    ensures
        receivers_issues(rs, calls, g, m).contains(gateway_issue(calls[j], g)),
    decreases m,
{
    let x = gateway_issue(calls[j], g);
    let here = if rs[m - 1] == g { Seq::<IssueView>::empty() } else { call_issues(calls, rs[m - 1], g, calls.len() as int) };
    if k < m - 1 {
        lemma_receivers_issues_contain(rs, calls, g, m - 1, k, j);
    } else {
        lemma_call_issues_contain(calls, rs[k], g, calls.len() as int, j);
    }
    lemma_contains_concat(receivers_issues(rs, calls, g, m - 1), here, x);
}

proof fn lemma_receivers_issues_from(rs: Seq<Seq<char>>, calls: Seq<Call>, g: Seq<char>, m: int, x: IssueView)
    requires
        0 <= m <= rs.len(),
        receivers_issues(rs, calls, g, m).contains(x),
    ensures
        exists|j: int| 0 <= j < calls.len() && calls[j].0 != g && x == gateway_issue(#[trigger] calls[j], g),
    decreases m,
{
    if m > 0 {
        let here = if rs[m - 1] == g { Seq::<IssueView>::empty() } else { call_issues(calls, rs[m - 1], g, calls.len() as int) };
        lemma_contains_split(receivers_issues(rs, calls, g, m - 1), here, x);
        if receivers_issues(rs, calls, g, m - 1).contains(x) {
            lemma_receivers_issues_from(rs, calls, g, m - 1, x);
        } else {
            lemma_call_issues_from(calls, rs[m - 1], g, calls.len() as int, x);
        }
    }
}

/// `g` is the gateway of the calls `calls` (`n` of them) and `issues` are
/// its issues: `g` is called, and called at least as often as every other
/// object; among objects called as often it is the first called (a call of
/// `g` comes before every call of another object called as often); every
/// call of another object gives its issue naming `g`, and every issue is
/// such an issue.
pub open spec fn is_the_gateway(calls: Seq<Call>, n: int, issues: Seq<IssueView>, g: Seq<char>) -> bool {
    &&& exists|j: int| 0 <= j < n && (#[trigger] calls[j]).0 == g
    &&& forall|j: int| 0 <= j < n ==> call_count(calls, (#[trigger] calls[j]).0, n) <= call_count(calls, g, n)
    &&& forall|j: int|
        0 <= j < n && (#[trigger] calls[j]).0 != g && call_count(calls, calls[j].0, n) == call_count(calls, g, n)
            ==> exists|i: int| 0 <= i < j && (#[trigger] calls[i]).0 == g
    &&& forall|j: int| 0 <= j < n && (#[trigger] calls[j]).0 != g ==> issues.contains(gateway_issue(calls[j], g))
    &&& forall|x: IssueView| #[trigger] issues.contains(x)
        ==> exists|j: int| 0 <= j < n && (#[trigger] calls[j]).0 != g && x == gateway_issue(calls[j], g)
}

/// The single-gateway check over all gateway calls of a project: when every
/// call is of one object (or there is none), no issue; otherwise the issues
/// are those of the gateway, the first called of the most called objects.
pub proof fn law_gateway_is_the_first_most_called_object(files: Seq<SourceFileView>)
    ensures
        ({
            let calls = files_calls(files, files.len() as int);
            let n = calls.len() as int;
            let issues = spec_check_tree(files);
            &&& (forall|j: int, k: int| 0 <= j < n && 0 <= k < n ==> (#[trigger] calls[j]).0 == (#[trigger] calls[k]).0)
                ==> issues == Seq::<IssueView>::empty()
            &&& (exists|j: int, k: int| 0 <= j < n && 0 <= k < n && (#[trigger] calls[j]).0 != (#[trigger] calls[k]).0)
                ==> exists|g: Seq<char>| #[trigger] is_the_gateway(calls, n, issues, g)
        }),
{
    let calls = files_calls(files, files.len() as int);
    let n = calls.len() as int;
    let rs = receivers_upto(calls, n);
    let issues = spec_check_tree(files);
    lemma_receivers(calls, n);
    lemma_receivers_distinct(calls, n);
    if forall|j: int, k: int| 0 <= j < n && 0 <= k < n ==> (#[trigger] calls[j]).0 == (#[trigger] calls[k]).0 {
        if rs.len() > 1 {
            lemma_first_index(calls, rs[0], n);
            lemma_first_index(calls, rs[1], n);
            let j0 = first_index(calls, rs[0], n);
            let j1 = first_index(calls, rs[1], n);
            assert(calls[j0].0 == calls[j1].0);
            assert(false);
        }
    }
    if exists|j: int, k: int| 0 <= j < n && 0 <= k < n && (#[trigger] calls[j]).0 != (#[trigger] calls[k]).0 {
        let (j, k) = choose|j: int, k: int| 0 <= j < n && 0 <= k < n && (#[trigger] calls[j]).0 != (#[trigger] calls[k]).0;
        assert(rs.contains(calls[j].0));
        assert(rs.contains(calls[k].0));
        assert(rs.len() >= 2) by {
            if rs.len() <= 1 {
                let a = choose|a: int| 0 <= a < rs.len() && rs[a] == calls[j].0;
                let b = choose|b: int| 0 <= b < rs.len() && rs[b] == calls[k].0;
            }
        }
        let m = rs.len() as int;
        lemma_dominant(rs, calls, m);
        let d = dominant_upto(rs, calls, m);
        let g = rs[d];
        assert(issues == receivers_issues(rs, calls, g, m));
        lemma_first_index(calls, g, n);
        assert(calls[first_index(calls, g, n)].0 == g);
        assert forall|j: int| 0 <= j < n implies call_count(calls, (#[trigger] calls[j]).0, n) <= call_count(calls, g, n) by {
            let b = choose|b: int| 0 <= b < rs.len() && rs[b] == calls[j].0;
            assert(call_count(calls, rs[b], n) <= call_count(calls, rs[d], n));
        }
        assert forall|j: int|
            0 <= j < n && (#[trigger] calls[j]).0 != g && call_count(calls, calls[j].0, n) == call_count(calls, g, n)
            implies exists|i: int| 0 <= i < j && (#[trigger] calls[i]).0 == g by {
            let b = choose|b: int| 0 <= b < rs.len() && rs[b] == calls[j].0;
            if b < d {
                assert(call_count(calls, rs[b], n) < call_count(calls, rs[d], n));
            }
            assert(b != d);
            lemma_first_index(calls, rs[b], n);
            lemma_first_index(calls, rs[d], n);
            let i = first_index(calls, rs[d], n);
            assert(first_index(calls, rs[d], n) < first_index(calls, rs[b], n));
            assert(first_index(calls, rs[b], n) <= j);
            assert(calls[i].0 == g);
        }
        assert forall|j: int| 0 <= j < n && (#[trigger] calls[j]).0 != g implies issues.contains(gateway_issue(calls[j], g)) by {
            let b = choose|b: int| 0 <= b < rs.len() && rs[b] == calls[j].0;
            lemma_receivers_issues_contain(rs, calls, g, m, b, j);
        }
        assert forall|x: IssueView| #[trigger] issues.contains(x)
            implies exists|j: int| 0 <= j < n && (#[trigger] calls[j]).0 != g && x == gateway_issue(calls[j], g) by {
            lemma_receivers_issues_from(rs, calls, g, m, x);
        }
        assert(is_the_gateway(calls, n, issues, g));
    }
}

// ── Callbacks ───────────────────────────────────────────────────────────────

/// A body line that says something and holds an `if`.
pub open spec fn is_if_line(l: Seq<char>) -> bool {
    events::is_meaningful(l) && is_match(events::IF_STMT@, l)
}

proof fn lemma_first_if_prefix(m: Seq<(usize, Seq<char>)>, e: (usize, Seq<char>), k: int)
    requires
        0 <= k <= m.len(),
    ensures
        events::first_if_line(m.push(e), k) == events::first_if_line(m, k),
    decreases k,
{
    if k > 0 {
        lemma_first_if_prefix(m, e, k - 1);
        assert(m.push(e)[k - 1] == m[k - 1]);
    }
}

/// Among the meaningful lines of the first `n` body lines, the first with
/// an `if` is the first body line that says something and holds an `if`.
proof fn lemma_first_if(body: Seq<(usize, Seq<char>)>, n: int)
    requires
        0 <= n <= body.len(),
    ensures
        ({
            let m = events::meaningful_upto(body, n);
            &&& (forall|j: int| 0 <= j < n ==> !is_if_line((#[trigger] body[j]).1)) ==> events::first_if_line(m, m.len() as int) is None
            &&& forall|j0: int|
                0 <= j0 < n && is_if_line((#[trigger] body[j0]).1) && (forall|j: int| 0 <= j < j0 ==> !is_if_line((#[trigger] body[j]).1))
                    ==> events::first_if_line(m, m.len() as int) == Some(body[j0])
        }),
    decreases n,
{
    if n > 0 {
        lemma_first_if(body, n - 1);
        let prev = events::meaningful_upto(body, n - 1);
        if events::is_meaningful(body[n - 1].1) {
            let m = prev.push(body[n - 1]);
            lemma_first_if_prefix(prev, body[n - 1], prev.len() as int);
            assert(m[m.len() - 1] == body[n - 1]);
            assert(events::first_if_line(m, m.len() as int) == match events::first_if_line(prev, prev.len() as int) {
                Some(x) => Some(x),
                None => if is_match(events::IF_STMT@, body[n - 1].1) { Some(body[n - 1]) } else { None },
            });
        }
    }
}

proof fn lemma_callbacks_issues_contain(path: Seq<char>, cbs: Seq<CallbackView>, n: int, c: int, x: IssueView)
    requires
        0 <= c < n <= cbs.len(),
        events::callback_issues(path, cbs[c]).contains(x),
    ensures
        events::callbacks_issues(path, cbs, n).contains(x),
    decreases n,
{
    if c < n - 1 {
        lemma_callbacks_issues_contain(path, cbs, n - 1, c, x);
    }
    lemma_contains_concat(events::callbacks_issues(path, cbs, n - 1), events::callback_issues(path, cbs[n - 1]), x);
}

/// Every callback of a file with a body line that says something and holds
/// an `if` gets a no-callback-logic issue at the first such line, at the
/// column of its first `if`, naming the callback — whatever its other lines
/// and the other callbacks hold.
pub proof fn law_every_if_in_a_callback_is_reported(path: Seq<char>, lines: Seq<Seq<char>>, c: int, j0: int)
    requires
        0 <= c < callbacks_from(lines, 0).len(),
        ({
            let body = callbacks_from(lines, 0)[c].body;
            &&& 0 <= j0 < body.len()
            &&& is_if_line(body[j0].1)
            &&& forall|j: int| 0 <= j < j0 ==> !is_if_line((#[trigger] body[j]).1)
        }),
    ensures
        ({
            let cb = callbacks_from(lines, 0)[c];
            let l = cb.body[j0];
            events::spec_check(path, lines).contains(
                error_view(path, l.0 as int, events::if_column(l.1), events::RULE_NO_CALLBACK_LOGIC@,
                    events::MSG_CALLBACK@ + cb.name + events::MSG_IF@),
            )
        }),
{
    let cbs = callbacks_from(lines, 0);
    let cb = cbs[c];
    let body = cb.body;
    let l = body[j0];
    let x = error_view(path, l.0 as int, events::if_column(l.1), events::RULE_NO_CALLBACK_LOGIC@, events::MSG_CALLBACK@ + cb.name + events::MSG_IF@);
    lemma_first_if(body, body.len() as int);
    let m = events::meaningful_upto(body, body.len() as int);
    assert(events::first_if_line(m, m.len() as int) == Some(l));
    assert(events::callback_issues(path, cb)[0] == x);
    assert(events::callback_issues(path, cb).contains(x));
    lemma_callbacks_issues_contain(path, cbs, cbs.len() as int, c, x);
}

proof fn lemma_meaningful_mono(body: Seq<(usize, Seq<char>)>, k: int, n: int)
    requires
        0 <= k <= n <= body.len(),
    ensures
        events::meaningful_upto(body, k).len() <= events::meaningful_upto(body, n).len(),
    decreases n - k,
{
    if k < n {
        lemma_meaningful_mono(body, k, n - 1);
    }
}

/// A meaningful body line `j` stands, among the meaningful lines, at the
/// position that counts the meaningful lines before it.
proof fn lemma_meaningful_pos(body: Seq<(usize, Seq<char>)>, j: int, n: int)
    requires
        0 <= j < n <= body.len(),
        events::is_meaningful(body[j].1),
    ensures
        events::meaningful_upto(body, j + 1).len() == events::meaningful_upto(body, j).len() + 1,
        events::meaningful_upto(body, j).len() < events::meaningful_upto(body, n).len(),
        events::meaningful_upto(body, n)[events::meaningful_upto(body, j).len() as int] == body[j],
    decreases n - j,
{
    if n > j + 1 {
        lemma_meaningful_pos(body, j, n - 1);
        let prev = events::meaningful_upto(body, n - 1);
        if events::is_meaningful(body[n - 1].1) {
            assert(events::meaningful_upto(body, n) == prev.push(body[n - 1]));
        }
    }
}

/// Each meaningful line is a body line that says something.
proof fn lemma_meaningful_member(body: Seq<(usize, Seq<char>)>, n: int, i: int)
    requires
        0 <= n <= body.len(),
        0 <= i < events::meaningful_upto(body, n).len(),
    ensures
        exists|j: int| 0 <= j < n && #[trigger] body[j] == events::meaningful_upto(body, n)[i] && events::is_meaningful(body[j].1),
    decreases n,
{
    let prev = events::meaningful_upto(body, n - 1);
    if i < prev.len() {
        lemma_meaningful_member(body, n - 1, i);
        if events::is_meaningful(body[n - 1].1) {
            assert(events::meaningful_upto(body, n)[i] == prev[i]);
        }
    } else {
        assert(events::meaningful_upto(body, n)[i] == body[n - 1]);
    }
}

proof fn lemma_props_none(m: Seq<(usize, Seq<char>)>, n: int)
    requires
        0 <= n <= m.len(),
        forall|i: int| 0 <= i < n ==> events::line_props((#[trigger] m[i]).1).len() == 0,
    ensures
        events::props_upto(m, n).len() == 0,
    decreases n,
{
    if n > 0 {
        lemma_props_none(m, n - 1);
    }
}

proof fn lemma_props_mono(m: Seq<(usize, Seq<char>)>, k: int, n: int)
    requires
        0 <= k <= n <= m.len(),
    ensures
        events::props_upto(m, k).len() <= events::props_upto(m, n).len(),
    decreases n - k,
{
    if k < n {
        lemma_props_mono(m, k, n - 1);
    }
}

/// Two lines of a callback body that say something and each assign a
/// property of `root` give the callback a state-mutation issue in column 1.
proof fn lemma_mutations_in_callback(path: Seq<char>, cb: CallbackView, ja: int, jb: int)
    requires
        0 <= ja < jb < cb.body.len(),
        events::is_meaningful(cb.body[ja].1) && events::line_props(cb.body[ja].1).len() > 0,
        events::is_meaningful(cb.body[jb].1) && events::line_props(cb.body[jb].1).len() > 0,
    ensures
        exists|x: IssueView| #[trigger] events::callback_issues(path, cb).contains(x) && x.file == path && x.col == 1
            && x.rule == events::RULE_NO_STATE_MUTATION@,
{
    let body = cb.body;
    let n = body.len() as int;
    let m = events::meaningful_upto(body, n);
    lemma_meaningful_pos(body, ja, n);
    lemma_meaningful_pos(body, jb, n);
    lemma_meaningful_mono(body, ja + 1, jb);
    let pa = events::meaningful_upto(body, ja).len() as int;
    let pb = events::meaningful_upto(body, jb).len() as int;
    lemma_props_mono(m, pa + 1, pb);
    lemma_props_mono(m, pb + 1, m.len() as int);
    assert(events::props_upto(m, m.len() as int).len() >= 2);
    let issues = events::callback_issues(path, cb);
    let fi = events::first_if_line(m, m.len() as int);
    let if_len: int = if fi is Some { 1 } else { 0 };
    let x = issues[if_len];
    assert(x.rule == events::RULE_NO_STATE_MUTATION@ && x.col == 1 && x.file == path);
    assert(issues.contains(x));
}

/// Every callback of a file whose body has two lines that say something and
/// each assign a property of `root` gets a state-mutation issue, in column
/// 1 — whatever its other lines and the other callbacks hold.
pub proof fn law_repeated_root_mutations_are_reported(path: Seq<char>, lines: Seq<Seq<char>>, c: int, ja: int, jb: int)
    requires
        0 <= c < callbacks_from(lines, 0).len(),
        ({
            let body = callbacks_from(lines, 0)[c].body;
            &&& 0 <= ja < jb < body.len()
            &&& events::is_meaningful(body[ja].1) && events::line_props(body[ja].1).len() > 0
            &&& events::is_meaningful(body[jb].1) && events::line_props(body[jb].1).len() > 0
        }),
    ensures
        exists|x: IssueView| #[trigger] events::spec_check(path, lines).contains(x) && x.file == path && x.col == 1
            && x.rule == events::RULE_NO_STATE_MUTATION@,
{
    let cbs = callbacks_from(lines, 0);
    lemma_mutations_in_callback(path, cbs[c], ja, jb);
    let x = choose|x: IssueView| #[trigger] events::callback_issues(path, cbs[c]).contains(x) && x.file == path && x.col == 1
        && x.rule == events::RULE_NO_STATE_MUTATION@;
    lemma_callbacks_issues_contain(path, cbs, cbs.len() as int, c, x);
    assert(events::spec_check(path, lines) == events::callbacks_issues(path, cbs, cbs.len() as int));
    assert(events::spec_check(path, lines).contains(x));
}

/// A callback body with four or more lines that say something, none of them
/// holding an `if` or assigning a property of `root`, gives the callback a
/// long-body issue at its first line, column 1.
proof fn lemma_long_callback(path: Seq<char>, cb: CallbackView, j1: int, j2: int, j3: int, j4: int)
    requires
        0 <= j1 < j2 < j3 < j4 < cb.body.len(),
        events::is_meaningful(cb.body[j1].1),
        events::is_meaningful(cb.body[j2].1),
        events::is_meaningful(cb.body[j3].1),
        events::is_meaningful(cb.body[j4].1),
        forall|j: int| 0 <= j < cb.body.len() ==> !is_if_line((#[trigger] cb.body[j]).1),
        forall|j: int| 0 <= j < cb.body.len() && events::is_meaningful((#[trigger] cb.body[j]).1) ==> events::line_props(cb.body[j].1).len() == 0,
    ensures
        exists|x: IssueView| #[trigger] events::callback_issues(path, cb).contains(x) && x.file == path
            && x.line == cb.start_line && x.col == 1 && x.rule == events::RULE_NO_CALLBACK_LOGIC@,
{
    let body = cb.body;
    let n = body.len() as int;
    let m = events::meaningful_upto(body, n);
    lemma_meaningful_pos(body, j1, n);
    lemma_meaningful_pos(body, j2, n);
    lemma_meaningful_pos(body, j3, n);
    lemma_meaningful_pos(body, j4, n);
    lemma_meaningful_mono(body, j1 + 1, j2);
    lemma_meaningful_mono(body, j2 + 1, j3);
    lemma_meaningful_mono(body, j3 + 1, j4);
    assert(m.len() > 3);
    lemma_first_if(body, n);
    assert(events::first_if_line(m, m.len() as int) is None);
    assert forall|i: int| 0 <= i < m.len() implies events::line_props((#[trigger] m[i]).1).len() == 0 by {
        lemma_meaningful_member(body, n, i);
    }
    lemma_props_none(m, m.len() as int);
    let issues = events::callback_issues(path, cb);
    let x = issues[0];
    assert(x.rule == events::RULE_NO_CALLBACK_LOGIC@ && x.col == 1 && x.file == path && x.line == cb.start_line);
    assert(issues.contains(x));
}

/// Every callback of a file with four or more lines that say something,
/// none of them holding an `if` or assigning a property of `root`, gets a
/// long-body issue at the callback's first line, column 1 — whatever the
/// other callbacks hold.
pub proof fn law_long_callbacks_are_reported(path: Seq<char>, lines: Seq<Seq<char>>, c: int, j1: int, j2: int, j3: int, j4: int)
    requires
        0 <= c < callbacks_from(lines, 0).len(),
        ({
            let body = callbacks_from(lines, 0)[c].body;
            &&& 0 <= j1 < j2 < j3 < j4 < body.len()
            &&& events::is_meaningful(body[j1].1)
            &&& events::is_meaningful(body[j2].1)
            &&& events::is_meaningful(body[j3].1)
            &&& events::is_meaningful(body[j4].1)
            &&& forall|j: int| 0 <= j < body.len() ==> !is_if_line((#[trigger] body[j]).1)
            &&& forall|j: int| 0 <= j < body.len() && events::is_meaningful((#[trigger] body[j]).1) ==> events::line_props(body[j].1).len() == 0
        }),
    ensures
        ({
            let cb = callbacks_from(lines, 0)[c];
            exists|x: IssueView| #[trigger] events::spec_check(path, lines).contains(x) && x.file == path
                && x.line == cb.start_line && x.col == 1 && x.rule == events::RULE_NO_CALLBACK_LOGIC@
        }),
{
    let cbs = callbacks_from(lines, 0);
    let cb = cbs[c];
    lemma_long_callback(path, cb, j1, j2, j3, j4);
    let x = choose|x: IssueView| #[trigger] events::callback_issues(path, cb).contains(x) && x.file == path
        && x.line == cb.start_line && x.col == 1 && x.rule == events::RULE_NO_CALLBACK_LOGIC@;
    lemma_callbacks_issues_contain(path, cbs, cbs.len() as int, c, x);
    assert(events::spec_check(path, lines) == events::callbacks_issues(path, cbs, cbs.len() as int));
    assert(events::spec_check(path, lines).contains(x));
}

// ── One component per file ──────────────────────────────────────────────────

proof fn lemma_components_contain(path: Seq<char>, text: Seq<u8>, primary: Seq<char>, caps: Seq<Seq<Option<Span>>>, n: int, k: int, x: IssueView)
    requires
        1 <= k < n <= caps.len(),
        structure::component_issue(path, text, primary, caps[k]).contains(x),
    ensures
        structure::component_issues(path, text, primary, caps, n).contains(x),
    decreases n,
{
    if k < n - 1 {
        lemma_components_contain(path, text, primary, caps, n - 1, k, x);
    }
    lemma_contains_concat(structure::component_issues(path, text, primary, caps, n - 1), structure::component_issue(path, text, primary, caps[n - 1]), x);
}

/// Every component definition after the first in a file's text (its lines
/// joined with `\n`) gives its own issue, on the line where its declaration
/// starts, column 1, naming it and the first component — whatever the other
/// definitions are.
pub proof fn law_every_extra_component_is_reported(path: Seq<char>, lines: Seq<Seq<char>>, k: int)
    requires
        ({
            let text = structure::join_lines(lines);
            let tb = encode_utf8(text);
            let caps = all_captures(structure::COMPONENT_DEF@, text);
            &&& 1 <= k < caps.len()
            &&& caps[k].len() > 2 && caps[k][1] is Some && caps[k][2] is Some
            &&& (caps[k][1]->0).0 <= tb.len()
        }),
    ensures
        ({
            let text = structure::join_lines(lines);
            let tb = encode_utf8(text);
            let caps = all_captures(structure::COMPONENT_DEF@, text);
            let decl = caps[k][1]->0;
            let name = structure::group_text(tb, caps[k], 2);
            let primary = structure::group_text(tb, caps[0], 2);
            structure::spec_check(path, lines).contains(
                error_view(path, count_byte(tb.subrange(0, decl.0 as int), 0x0a) + 1, 1, structure::RULE@,
                    structure::MSG_A@ + name + structure::MSG_B@ + primary + structure::MSG_C@ + name + structure::MSG_D@),
            )
        }),
{
    let text = structure::join_lines(lines);
    let tb = encode_utf8(text);
    let caps = all_captures(structure::COMPONENT_DEF@, text);
    let decl = caps[k][1]->0;
    let name = structure::group_text(tb, caps[k], 2);
    let primary = structure::group_text(tb, caps[0], 2);
    let x = error_view(path, count_byte(tb.subrange(0, decl.0 as int), 0x0a) + 1, 1, structure::RULE@,
        structure::MSG_A@ + name + structure::MSG_B@ + primary + structure::MSG_C@ + name + structure::MSG_D@);
    assert(structure::component_issue(path, tb, primary, caps[k])[0] == x);
    lemma_components_contain(path, tb, primary, caps, caps.len() as int, k, x);
}

} // verus!
