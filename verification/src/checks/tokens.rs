//! Zero-literal enforcement for Slint — slint/states.md + uiux/tokens.md
//!
//! BANNED in component files:
//!   - Hardcoded hex colors (#rgb, #rrggbb, #rrggbbaa)
//!   - rgb()/rgba() calls
//!   - Pixel sizes (ALL, including 0px)
//!   - Percentages (ALL)
//!   - Durations (ALL ms/s values)
//!   - Bare integers and floats
//!
//! Exempt: globals/, tokens/, theme/, state/ folders.
//! Syntax exceptions: GridLayout row/col, @image-url, @tr.

use vstd::prelude::*;
use vstd::utf8::*;
use vstd::string::StringSliceAdditionalSpecFns;

use crate::context::{comment_at, comment_start, is_comment_line, trimmed_starts_with, FileContext};
use crate::issue::{error_view, Issue, IssueView};
use crate::pattern::{all_captures, captures_wf, find_all, is_match, span_in, Searcher, Span};
use crate::text::{
    ascii_alpha, byte_len, is_ascii_alpha, join3, lemma_prefix_boundary, slice_text, substr, trim, trim_bytes,
};

verus! {

broadcast use {vstd::seq_lib::group_seq_properties, vstd::utf8::encode_utf8_decode_utf8, vstd::utf8::encode_utf8_valid_utf8};

pub const RULE_COLORS: &'static str = "uiux/tokens/no-hardcoded-color";

pub const RULE_SIZES: &'static str = "slint/states/no-hardcoded-size";

pub const RULE_DURATION: &'static str = "slint/states/no-hardcoded-duration";

pub const RULE_NUMBER: &'static str = "slint/states/no-hardcoded-number";

pub const HEX_COLOR: &'static str = r"#(?:[0-9a-fA-F]{3,4}|[0-9a-fA-F]{6}|[0-9a-fA-F]{8})\b";

pub const RGB_FUNC: &'static str = r"\brgba?\s*\(";

pub const PIXEL_VALUE: &'static str = r"\b\d+(?:\.\d+)?\s*px\b";

pub const PERCENT_VALUE: &'static str = r"\b\d+(?:\.\d+)?\s*%";

pub const DURATION_VALUE: &'static str = r"\b\d+(?:\.\d+)?\s*(?:ms|s)\b";

pub const FLOAT_VALUE: &'static str = r"\b(\d+\.\d+)\b";

pub const INT_VALUE: &'static str = r"\b(\d+)\b";

/// Units that claim numbers — if a number is followed by a unit it's already
/// caught by the px/percent/duration checks.
pub const UNIT_SUFFIX: &'static str = r"^\s*(?:px|%|ms|s)\b";

// Syntax exceptions
pub const GRID_ROW_COL: &'static str = r"\b(?:row|col)\s*:\s*\d+";

pub const IMAGE_URL: &'static str = r"@image-url\s*\(";

pub const TR_MACRO: &'static str = r"@tr\s*\(";

pub const PROPERTY_DECL: &'static str = r"\bproperty\s*<";

pub const MSG_COLOR_A: &'static str = "hardcoded color '";

pub const MSG_COLOR_B: &'static str = "' \u{2014} use Colors.* token";

pub const MSG_RGB: &'static str = "hardcoded rgb/rgba() \u{2014} use Colors.* token";

pub const MSG_SIZE_A: &'static str = "hardcoded size '";

pub const MSG_SIZE_B: &'static str = "' \u{2014} use Sizes.* or Spacing.* variable";

pub const MSG_PERCENT_A: &'static str = "hardcoded percentage '";

pub const MSG_PERCENT_B: &'static str = "' \u{2014} use Sizes.full / Sizes.half variable";

pub const MSG_DURATION_A: &'static str = "hardcoded duration '";

pub const MSG_DURATION_B: &'static str = "' \u{2014} use Durations.* variable";

pub const MSG_FLOAT_A: &'static str = "hardcoded float '";

pub const MSG_FLOAT_B: &'static str = "' \u{2014} use state variable or theme token";

pub const MSG_INT_A: &'static str = "hardcoded integer '";

pub const MSG_INT_B: &'static str = "' \u{2014} use state variable (ViewStates.*, Sizes.*)";

/// The kinds of literal that are reported match by match.
pub enum Literal {
    Color,
    ColorFunction,
    Size,
    Percentage,
    Duration,
}

/// The rule of a kind of literal.
pub open spec fn literal_rule(kind: Literal) -> Seq<char> {
    match kind {
        Literal::Color | Literal::ColorFunction => RULE_COLORS@,
        Literal::Size | Literal::Percentage => RULE_SIZES@,
        Literal::Duration => RULE_DURATION@,
    }
}

/// The message for a literal whose matched text is `text`.
pub open spec fn literal_message(kind: Literal, text: Seq<u8>) -> Seq<char> {
    match kind {
        Literal::Color => MSG_COLOR_A@ + decode_utf8(text) + MSG_COLOR_B@,
        Literal::ColorFunction => MSG_RGB@,
        Literal::Size => MSG_SIZE_A@ + decode_utf8(trim_bytes(text)) + MSG_SIZE_B@,
        Literal::Percentage => MSG_PERCENT_A@ + decode_utf8(trim_bytes(text)) + MSG_PERCENT_B@,
        Literal::Duration => MSG_DURATION_A@ + decode_utf8(trim_bytes(text)) + MSG_DURATION_B@,
    }
}

/// The text of the line before byte `k` declares a property type
/// (`property <`): numbers there are part of the declaration.
pub open spec fn spec_is_property_decl(line: Seq<u8>, k: int) -> bool {
    is_match(PROPERTY_DECL@, slice_text(line, 0, k))
}

/// The issue for one match `sp` of a literal in the code part `seg` of line
/// `raw`: sizes, percentages and durations are exempt inside a property
/// declaration.
pub open spec fn literal_issue(kind: Literal, path: Seq<char>, lineno: int, raw: Seq<u8>, seg: Seq<u8>, sp: Span) -> Seq<IssueView> {
    let exempt = match kind {
        Literal::Color | Literal::ColorFunction => false,
        _ => spec_is_property_decl(raw, sp.0 as int),
    };
    if exempt {
        seq![]
    } else {
        seq![error_view(path, lineno, sp.0 + 1, literal_rule(kind), literal_message(kind, seg.subrange(sp.0 as int, sp.1 as int)))]
    }
}

/// The issues for the first `n` matches `spans` of a literal.
pub open spec fn literal_issues(kind: Literal, path: Seq<char>, lineno: int, raw: Seq<u8>, seg: Seq<u8>, spans: Seq<Span>, n: int) -> Seq<IssueView>
    decreases n,
{
    if n <= 0 {
        seq![]
    } else {
        literal_issues(kind, path, lineno, raw, seg, spans, n - 1) + literal_issue(kind, path, lineno, raw, seg, spans[n - 1])
    }
}

/// `s..e` lies within one of `covered`.
pub open spec fn is_covered(covered: Seq<Span>, s: int, e: int) -> bool {
    exists|k: int| 0 <= k < covered.len() && (#[trigger] covered[k]).0 <= s && e <= covered[k].1
}

/// A unit follows byte `e` of `seg`.
pub open spec fn unit_follows(seg: Seq<u8>, e: int) -> bool {
    is_match(UNIT_SUFFIX@, slice_text(seg, e, seg.len() as int))
}

/// A number match `s..e` (group 1) is skipped: it is inside a sized,
/// percentage, duration or color match, in a property declaration, right
/// after `#`, or followed by a unit. Integers are also skipped on a line with
/// a grid `row:`/`col:`, after `.`, `_` or a letter, and before `.`, `_` or
/// a letter.
pub open spec fn number_skipped(is_float: bool, raw: Seq<u8>, seg: Seq<u8>, covered: Seq<Span>, s: int, e: int) -> bool {
    ||| is_covered(covered, s, e)
    ||| spec_is_property_decl(raw, s)
    ||| (is_float && s > 0 && seg[s - 1] == 0x23)
    ||| (!is_float && is_match(GRID_ROW_COL@, decode_utf8(raw)))
    ||| (!is_float && s > 0 && (seg[s - 1] == 0x23 || seg[s - 1] == 0x2e || seg[s - 1] == 0x5f || is_ascii_alpha(seg[s - 1])))
    ||| (!is_float && e < seg.len() && (seg[e] == 0x2e || is_ascii_alpha(seg[e]) || seg[e] == 0x5f))
    ||| unit_follows(seg, e)
}

/// The message for a number.
pub open spec fn number_message(is_float: bool, text: Seq<char>) -> Seq<char> {
    if is_float {
        MSG_FLOAT_A@ + text + MSG_FLOAT_B@
    } else {
        MSG_INT_A@ + text + MSG_INT_B@
    }
}

/// The issue for one number match (its group 1).
pub open spec fn number_issue(is_float: bool, path: Seq<char>, lineno: int, raw: Seq<u8>, seg: Seq<u8>, covered: Seq<Span>, cap: Seq<Option<Span>>) -> Seq<IssueView> {
    if cap.len() > 1 && cap[1] is Some {
        let sp = cap[1]->0;
        if number_skipped(is_float, raw, seg, covered, sp.0 as int, sp.1 as int) {
            seq![]
        } else {
            seq![error_view(path, lineno, sp.0 + 1, RULE_NUMBER@, number_message(is_float, slice_text(seg, sp.0 as int, sp.1 as int)))]
        }
    } else {
        seq![]
    }
}

/// The issues for the first `n` number matches.
pub open spec fn number_issues(is_float: bool, path: Seq<char>, lineno: int, raw: Seq<u8>, seg: Seq<u8>, covered: Seq<Span>, caps: Seq<Seq<Option<Span>>>, n: int) -> Seq<IssueView>
    decreases n,
{
    if n <= 0 {
        seq![]
    } else {
        number_issues(is_float, path, lineno, raw, seg, covered, caps, n - 1) + number_issue(is_float, path, lineno, raw, seg, covered, caps[n - 1])
    }
}

/// All the issues of a literal kind on a line.
pub open spec fn all_literal_issues(kind: Literal, pattern: Seq<char>, path: Seq<char>, lineno: int, raw: Seq<u8>, seg: Seq<u8>) -> Seq<IssueView> {
    let spans = find_all(pattern, decode_utf8(seg));
    literal_issues(kind, path, lineno, raw, seg, spans, spans.len() as int)
}

/// All the number issues on a line.
pub open spec fn all_number_issues(is_float: bool, path: Seq<char>, lineno: int, raw: Seq<u8>, seg: Seq<u8>) -> Seq<IssueView> {
    let t = decode_utf8(seg);
    let covered = find_all(PIXEL_VALUE@, t) + find_all(PERCENT_VALUE@, t) + find_all(DURATION_VALUE@, t) + find_all(HEX_COLOR@, t);
    let caps = all_captures(if is_float { FLOAT_VALUE@ } else { INT_VALUE@ }, t);
    number_issues(is_float, path, lineno, raw, seg, covered, caps, caps.len() as int)
}

/// The issues of line index `i`: none for a comment line or a line whose code
/// holds `@image-url(` or `@tr(`; otherwise, in order, hex colors, rgb/rgba
/// calls, pixel sizes, percentages, durations, floats and integers.
pub open spec fn line_issues(path: Seq<char>, i: int, raw: Seq<char>) -> Seq<IssueView> {
    let b = encode_utf8(raw);
    let seg = b.subrange(0, comment_at(b));
    let t = decode_utf8(seg);
    let lineno = i + 1;
    if is_comment_line(b) || is_match(IMAGE_URL@, t) || is_match(TR_MACRO@, t) {
        seq![]
    } else {
        all_literal_issues(Literal::Color, HEX_COLOR@, path, lineno, b, seg)
            + all_literal_issues(Literal::ColorFunction, RGB_FUNC@, path, lineno, b, seg)
            + all_literal_issues(Literal::Size, PIXEL_VALUE@, path, lineno, b, seg)
            + all_literal_issues(Literal::Percentage, PERCENT_VALUE@, path, lineno, b, seg)
            + all_literal_issues(Literal::Duration, DURATION_VALUE@, path, lineno, b, seg)
            + all_number_issues(true, path, lineno, b, seg)
            + all_number_issues(false, path, lineno, b, seg)
    }
}

/// The issues of the first `n` lines.
pub open spec fn issues_upto(path: Seq<char>, lines: Seq<Seq<char>>, n: int) -> Seq<IssueView>
    decreases n,
{
    if n <= 0 {
        seq![]
    } else {
        issues_upto(path, lines, n - 1) + line_issues(path, n - 1, lines[n - 1])
    }
}

/// The issues of a file: none in a definition folder.
pub open spec fn spec_check(path: Seq<char>, is_definition_file: bool, lines: Seq<Seq<char>>) -> Seq<IssueView> {
    if is_definition_file {
        seq![]
    } else {
        issues_upto(path, lines, lines.len() as int)
    }
}

/// The regular expressions of the token check, compiled once.
pub struct Searchers {
    pub hex_color: Searcher,
    pub rgb_func: Searcher,
    pub pixel_value: Searcher,
    pub percent_value: Searcher,
    pub duration_value: Searcher,
    pub float_value: Searcher,
    pub int_value: Searcher,
    pub unit_suffix: Searcher,
    pub grid_row_col: Searcher,
    pub image_url: Searcher,
    pub tr_macro: Searcher,
    pub property_decl: Searcher,
}

impl Searchers {
    /// Each searcher was compiled from its pattern.
    pub open spec fn wf(&self) -> bool {
        &&& self.hex_color@ == HEX_COLOR@
        &&& self.rgb_func@ == RGB_FUNC@
        &&& self.pixel_value@ == PIXEL_VALUE@
        &&& self.percent_value@ == PERCENT_VALUE@
        &&& self.duration_value@ == DURATION_VALUE@
        &&& self.float_value@ == FLOAT_VALUE@
        &&& self.int_value@ == INT_VALUE@
        &&& self.unit_suffix@ == UNIT_SUFFIX@
        &&& self.grid_row_col@ == GRID_ROW_COL@
        &&& self.image_url@ == IMAGE_URL@
        &&& self.tr_macro@ == TR_MACRO@
        &&& self.property_decl@ == PROPERTY_DECL@
    }

    /// Compiles the patterns of the token check.
    pub fn new() -> (r: Self)
        ensures
            r.wf(),
    {
        Searchers {
            hex_color: Searcher::new(HEX_COLOR),
            rgb_func: Searcher::new(RGB_FUNC),
            pixel_value: Searcher::new(PIXEL_VALUE),
            percent_value: Searcher::new(PERCENT_VALUE),
            duration_value: Searcher::new(DURATION_VALUE),
            float_value: Searcher::new(FLOAT_VALUE),
            int_value: Searcher::new(INT_VALUE),
            unit_suffix: Searcher::new(UNIT_SUFFIX),
            grid_row_col: Searcher::new(GRID_ROW_COL),
            image_url: Searcher::new(IMAGE_URL),
            tr_macro: Searcher::new(TR_MACRO),
            property_decl: Searcher::new(PROPERTY_DECL),
        }
    }
}

/// Whether the text of `line` before byte `match_start` declares a property type.
pub fn is_property_decl(line: &str, match_start: usize, property_decl: &Searcher) -> (r: bool)
    requires
        property_decl@ == PROPERTY_DECL@,
        match_start <= line.spec_bytes().len(),
        is_char_boundary(line.spec_bytes(), match_start as int),
    ensures
        r == spec_is_property_decl(line.spec_bytes(), match_start as int),
{
    proof {
        vstd::utf8::is_char_boundary_start_end_of_seq(line.spec_bytes());
    }
    property_decl.matches_in(substr(line, 0, match_start))
}

/// The issue, if any, for one match of a literal.
pub fn literal_issue_of(kind: &Literal, path: &str, lineno: usize, raw: &str, seg: &str, sp: Span, property_decl: &Searcher) -> (r: Option<Issue>)
    requires
        property_decl@ == PROPERTY_DECL@,
        span_in(seg.spec_bytes(), sp),
        seg.spec_bytes() == raw.spec_bytes().subrange(0, seg.spec_bytes().len() as int),
        seg.spec_bytes().len() <= raw.spec_bytes().len() <= isize::MAX,
        is_char_boundary(raw.spec_bytes(), seg.spec_bytes().len() as int),
    ensures
        match r {
            Some(iss) => literal_issue(*kind, path@, lineno as int, raw.spec_bytes(), seg.spec_bytes(), sp) == seq![iss@],
            None => literal_issue(*kind, path@, lineno as int, raw.spec_bytes(), seg.spec_bytes(), sp) == Seq::<IssueView>::empty(),
        },
{
    let exempt = match kind {
        Literal::Color | Literal::ColorFunction => false,
        _ => {
            proof {
                lemma_prefix_boundary(raw.spec_bytes(), seg.spec_bytes().len() as int, sp.0 as int);
            }
            is_property_decl(raw, sp.0, property_decl)
        },
    };
    if exempt {
        return None;
    }
    let text = substr(seg, sp.0, sp.1);
    let msg = match kind {
        Literal::Color => join3(MSG_COLOR_A, text, MSG_COLOR_B),
        Literal::ColorFunction => MSG_RGB.to_owned(),
        Literal::Size => join3(MSG_SIZE_A, trim(text), MSG_SIZE_B),
        Literal::Percentage => join3(MSG_PERCENT_A, trim(text), MSG_PERCENT_B),
        Literal::Duration => join3(MSG_DURATION_A, trim(text), MSG_DURATION_B),
    };
    let rule = match kind {
        Literal::Color | Literal::ColorFunction => RULE_COLORS,
        Literal::Size | Literal::Percentage => RULE_SIZES,
        Literal::Duration => RULE_DURATION,
    };
    Some(Issue::error(path, lineno, sp.0 + 1, rule, msg))
}

/// Appends the issues for the matches `spans` of a literal.
fn push_literal_issues(kind: Literal, path: &str, lineno: usize, raw: &str, seg: &str, spans: &Vec<Span>, property_decl: &Searcher, issues: &mut Vec<Issue>)
    requires
        property_decl@ == PROPERTY_DECL@,
        forall|k: int| 0 <= k < spans@.len() ==> span_in(seg.spec_bytes(), #[trigger] spans@[k]),
        seg.spec_bytes() == raw.spec_bytes().subrange(0, seg.spec_bytes().len() as int),
        seg.spec_bytes().len() <= raw.spec_bytes().len() <= isize::MAX,
        is_char_boundary(raw.spec_bytes(), seg.spec_bytes().len() as int),
    ensures
        final(issues).deep_view() == old(issues).deep_view() + literal_issues(kind, path@, lineno as int, raw.spec_bytes(), seg.spec_bytes(), spans@, spans@.len() as int),
{
    let mut k: usize = 0;
    assert(issues.deep_view() =~= old(issues).deep_view() + literal_issues(kind, path@, lineno as int, raw.spec_bytes(), seg.spec_bytes(), spans@, 0));
    while k < spans.len()
        invariant
            k <= spans@.len(),
            property_decl@ == PROPERTY_DECL@,
            forall|j: int| 0 <= j < spans@.len() ==> span_in(seg.spec_bytes(), #[trigger] spans@[j]),
            seg.spec_bytes() == raw.spec_bytes().subrange(0, seg.spec_bytes().len() as int),
            seg.spec_bytes().len() <= raw.spec_bytes().len() <= isize::MAX,
            is_char_boundary(raw.spec_bytes(), seg.spec_bytes().len() as int),
            issues.deep_view() == old(issues).deep_view() + literal_issues(kind, path@, lineno as int, raw.spec_bytes(), seg.spec_bytes(), spans@, k as int),
        decreases spans.len() - k,
    {
        let ghost prev = issues.deep_view();
        match literal_issue_of(&kind, path, lineno, raw, seg, spans[k], property_decl) {
            Some(iss) => issues.push(iss),
            None => {},
        }
        assert(issues.deep_view() =~= prev + literal_issue(kind, path@, lineno as int, raw.spec_bytes(), seg.spec_bytes(), spans@[k as int]));
        k = k + 1;
    }
}

/// Whether `s..e` lies within one of `covered`.
pub fn covered_by(covered: &Vec<Span>, s: usize, e: usize) -> (r: bool)
    ensures
        r == is_covered(covered@, s as int, e as int),
{
    let mut k: usize = 0;
    while k < covered.len()
        invariant
            k <= covered@.len(),
            forall|j: int| 0 <= j < k ==> !((#[trigger] covered@[j]).0 <= s && e <= covered@[j].1),
        decreases covered.len() - k,
    {
        if covered[k].0 <= s && e <= covered[k].1 {
            return true;
        }
        k = k + 1;
    }
    false
}

/// Whether the number match `s..e` of `seg` is skipped.
pub fn number_is_skipped(is_float: bool, raw: &str, seg: &str, covered: &Vec<Span>, grid: bool, s: usize, e: usize, ts: &Searchers) -> (r: bool)
    requires
        ts.wf(),
        span_in(seg.spec_bytes(), (s, e)),
        seg.spec_bytes() == raw.spec_bytes().subrange(0, seg.spec_bytes().len() as int),
        seg.spec_bytes().len() <= raw.spec_bytes().len(),
        is_char_boundary(raw.spec_bytes(), seg.spec_bytes().len() as int),
        !is_float ==> grid == is_match(GRID_ROW_COL@, raw@),
    ensures
        r == number_skipped(is_float, raw.spec_bytes(), seg.spec_bytes(), covered@, s as int, e as int),
{
    let sb = seg.as_bytes();
    if covered_by(covered, s, e) {
        return true;
    }
    proof {
        lemma_prefix_boundary(raw.spec_bytes(), seg.spec_bytes().len() as int, s as int);
    }
    if is_property_decl(raw, s, &ts.property_decl) {
        return true;
    }
    if is_float && s > 0 && sb[s - 1] == 0x23 {
        return true;
    }
    if !is_float && grid {
        return true;
    }
    if !is_float && s > 0 {
        let prev = sb[s - 1];
        if prev == 0x23 || prev == 0x2e || prev == 0x5f || ascii_alpha(prev) {
            return true;
        }
    }
    if !is_float && e < sb.len() {
        let next = sb[e];
        if next == 0x2e || ascii_alpha(next) || next == 0x5f {
            return true;
        }
    }
    proof {
        vstd::utf8::is_char_boundary_start_end_of_seq(seg.spec_bytes());
    }
    ts.unit_suffix.matches_in(substr(seg, e, sb.len()))
}

/// Appends the issues for the number matches `caps` (floats, or integers)
/// of the code part `seg` of line `raw`, where `covered` are the spans of the
/// sized, percentage, duration and color matches.
pub fn push_number_issues(
    is_float: bool,
    path: &str,
    lineno: usize,
    raw: &str,
    seg: &str,
    covered: &Vec<Span>,
    caps: &Vec<Vec<Option<Span>>>,
    ts: &Searchers,
    issues: &mut Vec<Issue>,
)
    requires
        ts.wf(),
        forall|k: int| 0 <= k < caps@.len() ==> captures_wf(seg.spec_bytes(), #[trigger] caps.deep_view()[k]),
        seg.spec_bytes() == raw.spec_bytes().subrange(0, seg.spec_bytes().len() as int),
        seg.spec_bytes().len() <= raw.spec_bytes().len() <= isize::MAX,
        is_char_boundary(raw.spec_bytes(), seg.spec_bytes().len() as int),
    ensures
        final(issues).deep_view() == old(issues).deep_view() + number_issues(is_float, path@, lineno as int, raw.spec_bytes(), seg.spec_bytes(), covered@, caps.deep_view(), caps@.len() as int),
{
    let grid = if is_float { false } else { ts.grid_row_col.matches_in(raw) };
    let ghost g = is_match(GRID_ROW_COL@, raw@);
    let ghost cv = caps.deep_view();
    let mut k: usize = 0;
    assert(issues.deep_view() =~= old(issues).deep_view() + number_issues(is_float, path@, lineno as int, raw.spec_bytes(), seg.spec_bytes(), covered@, cv, 0));
    while k < caps.len()
        invariant
            k <= caps@.len(),
            cv == caps.deep_view(),
            ts.wf(),
            !is_float ==> grid == g,
            g == is_match(GRID_ROW_COL@, raw@),
            forall|j: int| 0 <= j < caps@.len() ==> captures_wf(seg.spec_bytes(), #[trigger] caps.deep_view()[j]),
            seg.spec_bytes() == raw.spec_bytes().subrange(0, seg.spec_bytes().len() as int),
            seg.spec_bytes().len() <= raw.spec_bytes().len() <= isize::MAX,
            is_char_boundary(raw.spec_bytes(), seg.spec_bytes().len() as int),
            issues.deep_view() == old(issues).deep_view() + number_issues(is_float, path@, lineno as int, raw.spec_bytes(), seg.spec_bytes(), covered@, cv, k as int),
        decreases caps.len() - k,
    {
        let cap = &caps[k];
        assert(cv[k as int] == cap@);
        assert(captures_wf(seg.spec_bytes(), cap@));
        let ghost prev = issues.deep_view();
        if cap.len() > 1 && cap[1].is_some() {
            let sp: Span = cap[1].unwrap();
            assert(cap@[1] matches Some(x) ==> span_in(seg.spec_bytes(), x));
            let skip = number_is_skipped(is_float, raw, seg, covered, grid, sp.0, sp.1, ts);
            if !skip {
                let text = substr(seg, sp.0, sp.1);
                let msg = if is_float { join3(MSG_FLOAT_A, text, MSG_FLOAT_B) } else { join3(MSG_INT_A, text, MSG_INT_B) };
                issues.push(Issue::error(path, lineno, sp.0 + 1, RULE_NUMBER, msg));
            }
        }
        assert(issues.deep_view() =~= prev + number_issue(is_float, path@, lineno as int, raw.spec_bytes(), seg.spec_bytes(), covered@, cv[k as int]));
        k = k + 1;
    }
}


/// Appends `src` to `dst`.
fn append_spans(dst: &mut Vec<Span>, src: &Vec<Span>)
    ensures
        final(dst)@ == old(dst)@ + src@,
{
    let mut k: usize = 0;
    while k < src.len()
        invariant
            k <= src@.len(),
            dst@ == old(dst)@ + src@.subrange(0, k as int),
        decreases src.len() - k,
    {
        dst.push(src[k]);
        assert(src@.subrange(0, k + 1) =~= src@.subrange(0, k as int).push(src@[k as int]));
        k = k + 1;
    }
    assert(src@.subrange(0, src@.len() as int) =~= src@);
}

/// The literal issues of a code segment, in order: hex colors, rgb/rgba
/// calls, pixel sizes, percentages, durations.
fn push_all_literal_issues(path: &str, lineno: usize, raw: &str, segment: &str, ts: &Searchers, issues: &mut Vec<Issue>) -> (covered: Vec<Span>)
    requires
        ts.wf(),
        segment.spec_bytes() == raw.spec_bytes().subrange(0, segment.spec_bytes().len() as int),
        segment.spec_bytes().len() <= raw.spec_bytes().len() <= isize::MAX,
        is_char_boundary(raw.spec_bytes(), segment.spec_bytes().len() as int),
    ensures
        final(issues).deep_view() == old(issues).deep_view()
            + all_literal_issues(Literal::Color, HEX_COLOR@, path@, lineno as int, raw.spec_bytes(), segment.spec_bytes())
            + all_literal_issues(Literal::ColorFunction, RGB_FUNC@, path@, lineno as int, raw.spec_bytes(), segment.spec_bytes())
            + all_literal_issues(Literal::Size, PIXEL_VALUE@, path@, lineno as int, raw.spec_bytes(), segment.spec_bytes())
            + all_literal_issues(Literal::Percentage, PERCENT_VALUE@, path@, lineno as int, raw.spec_bytes(), segment.spec_bytes())
            + all_literal_issues(Literal::Duration, DURATION_VALUE@, path@, lineno as int, raw.spec_bytes(), segment.spec_bytes()),
        covered@ == find_all(PIXEL_VALUE@, segment@) + find_all(PERCENT_VALUE@, segment@)
            + find_all(DURATION_VALUE@, segment@) + find_all(HEX_COLOR@, segment@),
{
    proof {
        assert(decode_utf8(segment.spec_bytes()) == segment@);
    }
    let hex = ts.hex_color.find_spans(segment);
    push_literal_issues(Literal::Color, path, lineno, raw, segment, &hex, &ts.property_decl, issues);
    let rgb = ts.rgb_func.find_spans(segment);
    push_literal_issues(Literal::ColorFunction, path, lineno, raw, segment, &rgb, &ts.property_decl, issues);
    let px = ts.pixel_value.find_spans(segment);
    push_literal_issues(Literal::Size, path, lineno, raw, segment, &px, &ts.property_decl, issues);
    let pct = ts.percent_value.find_spans(segment);
    push_literal_issues(Literal::Percentage, path, lineno, raw, segment, &pct, &ts.property_decl, issues);
    let dur = ts.duration_value.find_spans(segment);
    push_literal_issues(Literal::Duration, path, lineno, raw, segment, &dur, &ts.property_decl, issues);
    let mut covered: Vec<Span> = Vec::new();
    append_spans(&mut covered, &px);
    append_spans(&mut covered, &pct);
    append_spans(&mut covered, &dur);
    append_spans(&mut covered, &hex);
    assert(covered@ =~= find_all(PIXEL_VALUE@, segment@) + find_all(PERCENT_VALUE@, segment@)
        + find_all(DURATION_VALUE@, segment@) + find_all(HEX_COLOR@, segment@));
    covered
}

/// Appends the issues of one line.
#[verifier::spinoff_prover]
#[verifier::rlimit(40)]
pub fn check_line(path: &str, lineno: usize, raw: &str, ts: &Searchers, issues: &mut Vec<Issue>)
    requires
        lineno >= 1,
        ts.wf(),
    ensures
        final(issues).deep_view() == old(issues).deep_view() + line_issues(path@, lineno - 1, raw@),
{
    if trimmed_starts_with(raw, "//") {
        assert(issues.deep_view() =~= old(issues).deep_view() + Seq::<IssueView>::empty());
        return;
    }
    // A string holds at most isize::MAX bytes, so a column (offset + 1) fits.
    let _ = byte_len(raw);
    let comment_at = comment_start(raw);
    let segment = substr(raw, 0, comment_at);
    proof {
        vstd::utf8::is_char_boundary_start_end_of_seq(raw.spec_bytes());
    }
    // Syntax exceptions
    if ts.image_url.matches_in(segment) || ts.tr_macro.matches_in(segment) {
        assert(issues.deep_view() =~= old(issues).deep_view() + Seq::<IssueView>::empty());
        return;
    }
    let ghost rb = raw.spec_bytes();
    let ghost sb = segment.spec_bytes();
    let covered = push_all_literal_issues(path, lineno, raw, segment, ts, issues);
    let ghost s5 = issues.deep_view();
    let floats = ts.float_value.captures_all(segment);
    push_number_issues(true, path, lineno, raw, segment, &covered, &floats, ts, issues);
    let ghost s6 = issues.deep_view();
    let ints = ts.int_value.captures_all(segment);
    push_number_issues(false, path, lineno, raw, segment, &covered, &ints, ts, issues);
    proof {
        assert(s6 == s5 + all_number_issues(true, path@, lineno as int, rb, sb));
        assert(issues.deep_view() == s6 + all_number_issues(false, path@, lineno as int, rb, sb));
        assert(issues.deep_view() =~= old(issues).deep_view() + line_issues(path@, lineno - 1, raw@));
    }
}

/// Scan for hardcoded zero-literals — detect colors, sizes, durations, and plain numbers in component definitions.
pub fn check(ctx: &FileContext, lines: &[&str], issues: &mut Vec<Issue>)
    ensures
        final(issues).deep_view() == old(issues).deep_view() + spec_check(ctx.path@, ctx.is_definition_file, lines.deep_view()),
{
    check_with(ctx, lines, &Searchers::new(), issues);
}

/// [`check`], with the patterns compiled beforehand.
pub fn check_with(ctx: &FileContext, lines: &[&str], ts: &Searchers, issues: &mut Vec<Issue>)
    requires
        ts.wf(),
    ensures
        final(issues).deep_view() == old(issues).deep_view() + spec_check(ctx.path@, ctx.is_definition_file, lines.deep_view()),
{
    if ctx.is_definition_file {
        assert(issues.deep_view() =~= old(issues).deep_view() + Seq::<IssueView>::empty());
        return;
    }
    let ghost ls = lines.deep_view();
    let mut i: usize = 0;
    assert(issues.deep_view() =~= old(issues).deep_view() + issues_upto(ctx.path@, ls, 0));
    while i < lines.len()
        invariant
            i <= lines.len(),
            ls == lines.deep_view(),
            ts.wf(),
            issues.deep_view() == old(issues).deep_view() + issues_upto(ctx.path@, ls, i as int),
        decreases lines.len() - i,
    {
        assert(ls[i as int] == lines@[i as int]@);
        check_line(ctx.path, i + 1, lines[i], ts, issues);
        i = i + 1;
    }
}

} // verus!
