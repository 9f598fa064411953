//! Properties of the scanners as a whole, proved over their specifications.

use vstd::prelude::*;
use vstd::utf8::*;
use vstd::string::StringSliceAdditionalSpecFns;

use crate::checks::{events, mother_child, string_states, strings, structure, tokens};
use crate::checks::architecture::{
    body_calls, body_line_calls, callbacks_calls, file_calls, is_builtin_receiver, line_calls, BRIDGE_CALL,
    call_count, call_issues, dominant_upto, files_calls, lemma_count_absent, lemma_receivers_distinct, receivers_issues,
    receivers_upto, spec_check_tree, Call,
};
use crate::config::{default_config, spec_from_settings, ConfigView};
use crate::context::{body_from, brace_delta, callback_opening, callbacks_from, comment_at, is_comment_line, spec_is_definition_file, CallbackView};
use crate::issue::IssueView;
use crate::pattern::{all_captures, first_captures, is_match, Span};
use crate::text::{lowercase, slice_text, text_lines};
use crate::walker::{has_extension, SLINT_EXT};
use crate::{spec_scan_at, spec_scan_file, SourceFileView};

verus! {

/// Files in definition folders (`globals/`, `tokens/`, `theme/`, `state/`)
/// are exempt from the literal checks: scanning one gives the same issues as
/// scanning it with the token, hardcoded-string and string-state checks
/// turned off.
pub proof fn law_definition_files_exempt_from_literal_checks(path: Seq<char>, content: Seq<char>, cfg: ConfigView)
    requires
        spec_is_definition_file(encode_utf8(path)),
    ensures
        spec_scan_file(path, content, cfg) == spec_scan_file(
            path,
            content,
            ConfigView { check_tokens: false, check_strings: false, check_string_states: false, ..cfg },
        ),
{
}

/// A disabled scanner reports nothing.
pub proof fn law_disabled_scanner_reports_nothing(cfg: ConfigView, files: Seq<SourceFileView>)
    requires
        !cfg.enabled,
    ensures
        spec_scan_at(cfg, files) == Seq::<IssueView>::empty(),
{
}

/// A file with every check turned off has no issues.
pub proof fn law_no_checks_no_issues(path: Seq<char>, content: Seq<char>, cfg: ConfigView)
    requires
        !cfg.check_tokens,
        !cfg.check_strings,
        !cfg.check_structure,
        !cfg.check_events,
        !cfg.check_mother_child,
        !cfg.check_string_states,
    ensures
        spec_scan_file(path, content, cfg) == Seq::<IssueView>::empty(),
{
    assert(spec_scan_file(path, content, cfg) =~= Seq::<IssueView>::empty());
}

/// `@image-url(...)` and `@tr(...)` need literals: a line whose code holds
/// either has no token issues.
pub proof fn law_image_url_and_tr_exempt(path: Seq<char>, i: int, raw: Seq<char>)
    requires
        ({
            let b = encode_utf8(raw);
            let code = decode_utf8(b.subrange(0, comment_at(b)));
            is_match(tokens::IMAGE_URL@, code) || is_match(tokens::TR_MACRO@, code)
        }),
    ensures
        tokens::line_issues(path, i, raw) == Seq::<IssueView>::empty(),
{
}

/// GridLayout `row`/`col` need integers: on a line with a `row:`/`col:`
/// setting no integer is reported.
pub proof fn law_grid_row_col_exempt(path: Seq<char>, lineno: int, raw: Seq<u8>, seg: Seq<u8>)
    requires
        is_match(tokens::GRID_ROW_COL@, decode_utf8(raw)),
    ensures
        tokens::all_number_issues(false, path, lineno, raw, seg) == Seq::<IssueView>::empty(),
{
    let t = decode_utf8(seg);
    let covered = crate::pattern::find_all(tokens::PIXEL_VALUE@, t) + crate::pattern::find_all(tokens::PERCENT_VALUE@, t)
        + crate::pattern::find_all(tokens::DURATION_VALUE@, t) + crate::pattern::find_all(tokens::HEX_COLOR@, t);
    let caps = all_captures(tokens::INT_VALUE@, t);
    lemma_no_integer_issues(path, lineno, raw, seg, covered, caps, caps.len() as int);
}

proof fn lemma_no_integer_issues(
    path: Seq<char>,
    lineno: int,
    raw: Seq<u8>,
    seg: Seq<u8>,
    covered: Seq<crate::pattern::Span>,
    caps: Seq<Seq<Option<crate::pattern::Span>>>,
    n: int,
)
    requires
        is_match(tokens::GRID_ROW_COL@, decode_utf8(raw)),
    ensures
        tokens::number_issues(false, path, lineno, raw, seg, covered, caps, n) == Seq::<IssueView>::empty(),
    decreases n,
{
    if n > 0 {
        lemma_no_integer_issues(path, lineno, raw, seg, covered, caps, n - 1);
        assert(tokens::number_issues(false, path, lineno, raw, seg, covered, caps, n) =~= Seq::<IssueView>::empty());
    }
}

/// Full-line comments are never reported by the token, string-state and
/// child-state checks.
pub proof fn law_comment_lines_exempt(path: Seq<char>, i: int, raw: Seq<char>)
    requires
        is_comment_line(encode_utf8(raw)),
    ensures
        tokens::line_issues(path, i, raw) == Seq::<IssueView>::empty(),
        string_states::line_issues(path, i, raw) == Seq::<IssueView>::empty(),
        mother_child::state_issue(path, i, raw) == Seq::<IssueView>::empty(),
{
}

/// The mother (a window) may own state, and global definition files are
/// exempt: the mother-child check reports nothing for either.
pub proof fn law_mother_and_globals_exempt(path: Seq<char>, is_mother: bool, is_global_file: bool, is_views_folder: bool, lines: Seq<Seq<char>>)
    requires
        is_mother || is_global_file,
    ensures
        mother_child::spec_check(path, is_mother, is_global_file, is_views_folder, lines) == Seq::<IssueView>::empty(),
{
}


/// The lines of a body are lines of the file, numbered from 1, in
/// increasing order, each within `lo..=hi`.
pub open spec fn body_within(lines: Seq<Seq<char>>, body: Seq<(usize, Seq<char>)>, lo: int, hi: int) -> bool {
    &&& forall|j: int| 0 <= j < body.len() ==> lo <= (#[trigger] body[j]).0 <= hi
    &&& forall|j: int| 0 <= j < body.len() ==> 1 <= (#[trigger] body[j]).0 <= lines.len() && body[j].1 == lines[body[j].0 - 1]
    &&& forall|j: int, k: int| 0 <= j < k < body.len() ==> (#[trigger] body[j]).0 < (#[trigger] body[k]).0
}

/// A callback starts on a line after line `lo` and its body lies between its
/// first line and line `hi`.
pub open spec fn callback_within(lines: Seq<Seq<char>>, cb: CallbackView, lo: int, hi: int) -> bool {
    &&& lo < cb.start_line <= hi
    &&& body_within(lines, cb.body, cb.start_line as int, hi)
}

/// Every line that `body_from` collects is a line of the file after `j`, in
/// order, and the scan ends within the file.
proof fn lemma_body_from_within(lines: Seq<Seq<char>>, j: int, depth: int)
    requires
        0 <= j <= lines.len() <= usize::MAX,
    ensures
        j <= body_from(lines, j, depth).1 <= lines.len(),
        body_within(lines, body_from(lines, j, depth).0, j + 1, body_from(lines, j, depth).1),
    decreases lines.len() - j,
{
    if 0 <= j < lines.len() && depth > 0 {
        let d2 = depth + brace_delta(encode_utf8(lines[j]));
        lemma_body_from_within(lines, j + 1, d2);
        let (rest, next) = body_from(lines, j + 1, d2);
        if d2 > 0 {
            let body = seq![((j + 1) as usize, lines[j])] + rest;
            assert forall|a: int| 0 <= a < body.len() implies j + 1 <= (#[trigger] body[a]).0 <= next by {
                if a > 0 {
                    assert(body[a] == rest[a - 1]);
                }
            }
            assert forall|a: int| 0 <= a < body.len() implies 1 <= (#[trigger] body[a]).0 <= lines.len() && body[a].1 == lines[body[a].0 - 1] by {
                if a > 0 {
                    assert(body[a] == rest[a - 1]);
                }
            }
            assert forall|a: int, b: int| 0 <= a < b < body.len() implies (#[trigger] body[a]).0 < (#[trigger] body[b]).0 by {
                assert(body[b] == rest[b - 1]);
                if a > 0 {
                    assert(body[a] == rest[a - 1]);
                }
            }
        }
    }
}

/// Callbacks found from line index `i` on are blocks of the file that start
/// after line `i`, in order, none overlapping the next.
proof fn lemma_callbacks_within(lines: Seq<Seq<char>>, i: int)
    requires
        0 <= i <= lines.len() <= usize::MAX,
    ensures
        forall|k: int| 0 <= k < callbacks_from(lines, i).len() ==> callback_within(lines, #[trigger] callbacks_from(lines, i)[k], i, lines.len() as int),
        forall|k: int, l: int|
            0 <= k < l < callbacks_from(lines, i).len() ==> (forall|j: int|
                0 <= j < (#[trigger] callbacks_from(lines, i)[k]).body.len() ==> (#[trigger] callbacks_from(lines, i)[k].body[j]).0 < (#[trigger] callbacks_from(lines, i)[l]).start_line),
        forall|k: int, l: int|
            0 <= k < l < callbacks_from(lines, i).len() ==> (#[trigger] callbacks_from(lines, i)[k]).start_line < (#[trigger] callbacks_from(lines, i)[l]).start_line,
    decreases lines.len() - i,
{
    if i < lines.len() {
        let cbs = callbacks_from(lines, i);
        match callback_opening(lines[i]) {
            Some((name, depth)) => {
                let n = lines.len() as int;
                let (head, next) = if depth <= 0 {
                    (CallbackView { start_line: (i + 1) as usize, name, body: seq![((i + 1) as usize, lines[i])] }, i + 1)
                } else {
                    lemma_body_from_within(lines, i + 1, depth);
                    let (body, next) = body_from(lines, i + 1, depth);
                    (CallbackView { start_line: (i + 1) as usize, name, body }, next)
                };
                lemma_callbacks_within(lines, next);
                let rest = callbacks_from(lines, next);
                assert(cbs == seq![head] + rest);
                assert(callback_within(lines, head, i, n));
                assert forall|j: int| 0 <= j < head.body.len() implies (#[trigger] head.body[j]).0 <= next by {}
                assert forall|k: int| 0 <= k < cbs.len() implies callback_within(lines, #[trigger] cbs[k], i, n) by {
                    if k > 0 {
                        assert(cbs[k] == rest[k - 1]);
                    }
                }
                assert forall|k: int, l: int| 0 <= k < l < cbs.len() implies (forall|j: int|
                    0 <= j < (#[trigger] cbs[k]).body.len() ==> (#[trigger] cbs[k].body[j]).0 < (#[trigger] cbs[l]).start_line) by {
                    assert(cbs[l] == rest[l - 1]);
                    if k > 0 {
                        assert(cbs[k] == rest[k - 1]);
                    }
                }
                assert forall|k: int, l: int| 0 <= k < l < cbs.len() implies (#[trigger] cbs[k]).start_line < (#[trigger] cbs[l]).start_line by {
                    assert(cbs[l] == rest[l - 1]);
                    if k > 0 {
                        assert(cbs[k] == rest[k - 1]);
                    }
                }
            },
            None => {
                lemma_callbacks_within(lines, i + 1);
                assert(cbs == callbacks_from(lines, i + 1));
                assert forall|k: int| 0 <= k < cbs.len() implies callback_within(lines, #[trigger] cbs[k], i, lines.len() as int) by {
                    assert(callback_within(lines, cbs[k], i + 1, lines.len() as int));
                }
            },
        }
    }
}

/// The callbacks of a file are blocks of its lines: each starts on a line of
/// the file, its body is made of lines of the file (with their numbers), from
/// its first line on and in order, and each ends before the next one starts.
pub proof fn law_callbacks_are_blocks_of_the_file(lines: Seq<Seq<char>>)
    requires
        lines.len() <= usize::MAX,
    ensures
        forall|k: int| 0 <= k < callbacks_from(lines, 0).len() ==> callback_within(lines, #[trigger] callbacks_from(lines, 0)[k], 0, lines.len() as int),
        forall|k: int, l: int|
            0 <= k < l < callbacks_from(lines, 0).len() ==> (forall|j: int|
                0 <= j < (#[trigger] callbacks_from(lines, 0)[k]).body.len() ==> (#[trigger] callbacks_from(lines, 0)[k].body[j]).0 < (#[trigger] callbacks_from(lines, 0)[l]).start_line),
{
    lemma_callbacks_within(lines, 0);
}


/// Each call of `r` gives one issue.
proof fn lemma_call_issues_len(calls: Seq<Call>, r: Seq<char>, g: Seq<char>, n: int)
    ensures
        call_issues(calls, r, g, n).len() == call_count(calls, r, n),
    decreases n,
{
    if n > 0 {
        lemma_call_issues_len(calls, r, g, n - 1);
    }
}

/// How many calls the first `m` receivers other than `g` have.
pub open spec fn other_calls(rec: Seq<Seq<char>>, calls: Seq<Call>, g: Seq<char>, m: int) -> int
    decreases m,
{
    if m <= 0 {
        0
    } else {
        other_calls(rec, calls, g, m - 1) + if rec[m - 1] == g { 0 } else { call_count(calls, rec[m - 1], calls.len() as int) }
    }
}

/// How many calls, among the first `n`, the first `m` receivers have.
pub open spec fn all_calls(rec: Seq<Seq<char>>, calls: Seq<Call>, n: int, m: int) -> int
    decreases m,
{
    if m <= 0 {
        0
    } else {
        all_calls(rec, calls, n, m - 1) + call_count(calls, rec[m - 1], n)
    }
}

/// How many of the first `m` receivers are `x`.
pub open spec fn occurrences(rec: Seq<Seq<char>>, x: Seq<char>, m: int) -> int
    decreases m,
{
    if m <= 0 {
        0
    } else {
        occurrences(rec, x, m - 1) + if rec[m - 1] == x { 1int } else { 0int }
    }
}

proof fn lemma_receivers_issues_len(rec: Seq<Seq<char>>, calls: Seq<Call>, g: Seq<char>, m: int)
    requires
        0 <= m <= rec.len(),
    ensures
        receivers_issues(rec, calls, g, m).len() == other_calls(rec, calls, g, m),
    decreases m,
{
    if m > 0 {
        lemma_receivers_issues_len(rec, calls, g, m - 1);
        lemma_call_issues_len(calls, rec[m - 1], g, calls.len() as int);
    }
}

/// In a list without repeats, `x` occurs once if it is there, else never.
proof fn lemma_occurrences_distinct(rec: Seq<Seq<char>>, x: Seq<char>, m: int)
    requires
        0 <= m <= rec.len(),
        forall|a: int, b: int| 0 <= a < b < rec.len() ==> rec[a] != rec[b],
    ensures
        occurrences(rec, x, m) == if (exists|k: int| 0 <= k < m && rec[k] == x) { 1int } else { 0int },
    decreases m,
{
    if m > 0 {
        lemma_occurrences_distinct(rec, x, m - 1);
        if rec[m - 1] == x {
            assert forall|k: int| 0 <= k < m - 1 implies rec[k] != x by {
                assert(rec[k] != rec[m - 1]);
            }
        }
    }
}

/// Counting one more call adds one to the receiver it calls.
proof fn lemma_all_calls_step(rec: Seq<Seq<char>>, calls: Seq<Call>, n: int, m: int)
    requires
        0 < n <= calls.len(),
        0 <= m <= rec.len(),
    ensures
        all_calls(rec, calls, n, m) == all_calls(rec, calls, n - 1, m) + occurrences(rec, calls[n - 1].0, m),
    decreases m,
{
    if m > 0 {
        lemma_all_calls_step(rec, calls, n, m - 1);
    }
}

/// All calls but the gateway's: every receiver's calls, less the gateway's.
proof fn lemma_other_calls(rec: Seq<Seq<char>>, calls: Seq<Call>, g: Seq<char>, m: int)
    requires
        0 <= m <= rec.len(),
        forall|a: int, b: int| 0 <= a < b < rec.len() ==> rec[a] != rec[b],
    ensures
        other_calls(rec, calls, g, m) + (if (exists|k: int| 0 <= k < m && rec[k] == g) {
            call_count(calls, g, calls.len() as int)
        } else {
            0
        }) == all_calls(rec, calls, calls.len() as int, m),
    decreases m,
{
    if m > 0 {
        lemma_other_calls(rec, calls, g, m - 1);
        if rec[m - 1] == g {
            assert forall|k: int| 0 <= k < m - 1 implies rec[k] != g by {
                assert(rec[k] != rec[m - 1]);
            }
        } else {
            if exists|k: int| 0 <= k < m && rec[k] == g {
                let k = choose|k: int| 0 <= k < m && rec[k] == g;
                assert(k < m - 1);
            }
        }
    }
}

/// The receivers of the first `n` calls account for all of them.
proof fn lemma_all_calls_total(calls: Seq<Call>, n: int)
    requires
        0 <= n <= calls.len(),
    ensures
        all_calls(receivers_upto(calls, n), calls, n, receivers_upto(calls, n).len() as int) == n,
    decreases n,
{
    if n > 0 {
        lemma_all_calls_total(calls, n - 1);
        let d = receivers_upto(calls, n - 1);
        let e = receivers_upto(calls, n);
        let x = calls[n - 1].0;
        lemma_receivers_distinct(calls, n);
        lemma_receivers_distinct(calls, n - 1);
        lemma_all_calls_step(e, calls, n, e.len() as int);
        lemma_occurrences_distinct(e, x, e.len() as int);
        if d.contains(x) {
            let k = choose|k: int| 0 <= k < d.len() && d[k] == x;
            assert(e[k] == x);
            assert(e == d);
        } else {
            assert(e == d.push(x));
            assert(e[d.len() as int] == x);
            lemma_count_absent(calls, x, n - 1);
            assert(all_calls(e, calls, n - 1, d.len() as int) == all_calls(d, calls, n - 1, d.len() as int)) by {
                lemma_all_calls_prefix(d, e, calls, n - 1, d.len() as int);
            }
        }
    }
}

proof fn lemma_all_calls_prefix(d: Seq<Seq<char>>, e: Seq<Seq<char>>, calls: Seq<Call>, n: int, m: int)
    requires
        0 <= m <= d.len() <= e.len(),
        forall|k: int| 0 <= k < d.len() ==> d[k] == e[k],
    ensures
        all_calls(e, calls, n, m) == all_calls(d, calls, n, m),
    decreases m,
{
    if m > 0 {
        lemma_all_calls_prefix(d, e, calls, n, m - 1);
    }
}

/// With two or more gateway objects called, every call is reported but
/// those of the gateway: the single-gateway check gives as many issues as
/// there are calls of other objects.
pub proof fn law_every_call_off_the_gateway_is_reported(files: Seq<SourceFileView>)
    ensures
        ({
            let calls = files_calls(files, files.len() as int);
            let rec = receivers_upto(calls, calls.len() as int);
            let gateway = rec[dominant_upto(rec, calls, rec.len() as int)];
            &&& rec.len() <= 1 ==> spec_check_tree(files) == Seq::<IssueView>::empty()
            &&& rec.len() >= 2 ==> spec_check_tree(files).len() == calls.len() - call_count(calls, gateway, calls.len() as int)
        }),
{
    let calls = files_calls(files, files.len() as int);
    let rec = receivers_upto(calls, calls.len() as int);
    if rec.len() >= 2 {
        let d = dominant_upto(rec, calls, rec.len() as int);
        lemma_dominant_in_range(rec, calls, rec.len() as int);
        let gateway = rec[d];
        lemma_receivers_distinct(calls, calls.len() as int);
        lemma_receivers_issues_len(rec, calls, gateway, rec.len() as int);
        lemma_other_calls(rec, calls, gateway, rec.len() as int);
        lemma_all_calls_total(calls, calls.len() as int);
        assert(exists|k: int| 0 <= k < rec.len() && rec[k] == gateway);
    }
}

proof fn lemma_dominant_in_range(rec: Seq<Seq<char>>, calls: Seq<Call>, m: int)
    requires
        1 <= m,
    ensures
        0 <= dominant_upto(rec, calls, m) < m,
    decreases m,
{
    if m > 1 {
        lemma_dominant_in_range(rec, calls, m - 1);
    }
}


/// Without a settings file the configuration is the default one: enabled,
/// not blocking the build, every check on, nothing excluded, flat.
pub proof fn law_missing_settings_give_defaults()
    ensures
        spec_from_settings(None) == default_config(),
{
}

/// String values of the allowed properties (`accessible-label`, `icon`,
/// `source`, `background-image`, in any case) are never reported.
pub proof fn law_allowed_properties_exempt(path: Seq<char>, lineno: int, raw: Seq<char>)
    requires
        ({
            let b = encode_utf8(raw);
            first_captures(strings::HARDCODED_STR@, raw) matches Some(g) && g.len() > 2 && g[1] is Some && {
                let sp = g[1]->0;
                strings::is_allowed_prop(lowercase(slice_text(b, sp.0 as int, sp.1 as int)))
            }
        }),
    ensures
        strings::code_line_issue(path, lineno, raw) == Seq::<IssueView>::empty(),
{
}

/// A callback of at most three meaningful lines, without `if` and without
/// assignments to `root`, is a delegation: it has no issue.
pub proof fn law_short_delegations_are_fine(path: Seq<char>, cb: CallbackView)
    requires
        ({
            let m = events::meaningful_upto(cb.body, cb.body.len() as int);
            &&& m.len() <= 3
            &&& events::first_if_line(m, m.len() as int) is None
            &&& events::props_upto(m, m.len() as int).len() == 0
        }),
    ensures
        events::callback_issues(path, cb) == Seq::<IssueView>::empty(),
{
    assert(events::callback_issues(path, cb) =~= Seq::<IssueView>::empty());
}

proof fn lemma_component_issues_count(path: Seq<char>, text: Seq<u8>, primary: Seq<char>, caps: Seq<Seq<Option<Span>>>, n: int)
    requires
        1 <= n <= caps.len(),
    ensures
        structure::component_issues(path, text, primary, caps, n).len() <= n - 1,
        (forall|k: int| 1 <= k < n ==> (#[trigger] caps[k]).len() > 2 && caps[k][1] is Some && caps[k][2] is Some)
            ==> structure::component_issues(path, text, primary, caps, n).len() == n - 1,
    decreases n,
{
    if n > 1 {
        lemma_component_issues_count(path, text, primary, caps, n - 1);
    }
}

/// One component per file: with at most one component definition there is
/// no issue, and with more, at most one issue for each definition after the
/// first — exactly one when every definition names its component.
pub proof fn law_one_issue_per_extra_component(path: Seq<char>, lines: Seq<Seq<char>>)
    ensures
        ({
            let caps = all_captures(structure::COMPONENT_DEF@, structure::join_lines(lines));
            &&& caps.len() <= 1 ==> structure::spec_check(path, lines) == Seq::<IssueView>::empty()
            &&& caps.len() > 1 ==> structure::spec_check(path, lines).len() <= caps.len() - 1
            &&& (caps.len() > 1 && forall|k: int| 1 <= k < caps.len() ==> (#[trigger] caps[k]).len() > 2 && caps[k][1] is Some && caps[k][2] is Some)
                ==> structure::spec_check(path, lines).len() == caps.len() - 1
        }),
{
    let text = structure::join_lines(lines);
    let caps = all_captures(structure::COMPONENT_DEF@, text);
    if caps.len() > 1 {
        let tb = encode_utf8(text);
        lemma_component_issues_count(path, tb, structure::group_text(tb, caps[0], 2), caps, caps.len() as int);
    }
}


// ── Gateway check: which files and objects count ───────────────────────────

/// The file's extension is `slint`.
pub open spec fn is_slint_file(f: SourceFileView) -> bool {
    has_extension(encode_utf8(f.path), SLINT_EXT.spec_bytes())
}

proof fn lemma_files_calls_prefix(a: Seq<SourceFileView>, b: Seq<SourceFileView>, n: int)
    requires
        0 <= n <= a.len(),
        n <= b.len(),
        forall|k: int| 0 <= k < n ==> a[k] == b[k],
    ensures
        files_calls(a, n) == files_calls(b, n),
    decreases n,
{
    if n > 0 {
        lemma_files_calls_prefix(a, b, n - 1);
    }
}

proof fn lemma_files_calls_filter(files: Seq<SourceFileView>)
    ensures
        files_calls(files.filter(|f: SourceFileView| is_slint_file(f)), files.filter(|f: SourceFileView| is_slint_file(f)).len() as int)
            == files_calls(files, files.len() as int),
    decreases files.len(),
{
    let p = |f: SourceFileView| is_slint_file(f);
    reveal(Seq::filter);
    if files.len() > 0 {
        let init = files.drop_last();
        let last = files.last();
        lemma_files_calls_filter(init);
        lemma_files_calls_prefix(files, init, init.len() as int);
        let fi = init.filter(p);
        assert(files.filter(p) == if p(last) { fi.push(last) } else { fi });
        if p(last) {
            lemma_files_calls_prefix(fi.push(last), fi, fi.len() as int);
        } else {
            assert(file_calls(last) =~= Seq::<Call>::empty());
            assert(files_calls(files, files.len() as int) =~= files_calls(files, init.len() as int));
        }
    }
}

/// Only `.slint` files take part in the single-gateway check: dropping the
/// files whose extension is not `slint` leaves its issues unchanged.
pub proof fn law_only_slint_files_count_for_the_gateway(files: Seq<SourceFileView>)
    ensures
        spec_check_tree(files.filter(|f: SourceFileView| is_slint_file(f))) == spec_check_tree(files),
{
    lemma_files_calls_filter(files);
}

/// None of `calls` calls a language or style object.
pub open spec fn no_builtin_calls(calls: Seq<Call>) -> bool {
    forall|k: int| 0 <= k < calls.len() ==> !is_builtin_receiver(#[trigger] calls[k].0)
}

proof fn lemma_no_builtin_concat(a: Seq<Call>, b: Seq<Call>)
    requires
        no_builtin_calls(a),
        no_builtin_calls(b),
    ensures
        no_builtin_calls(a + b),
{
    assert forall|k: int| 0 <= k < (a + b).len() implies !is_builtin_receiver(#[trigger] (a + b)[k].0) by {
        if k >= a.len() {
            assert((a + b)[k] == b[k - a.len()]);
        }
    }
}

proof fn lemma_line_calls_no_builtin(path: Seq<char>, lineno: usize, line: Seq<u8>, caps: Seq<Seq<Option<Span>>>, n: int)
    ensures
        no_builtin_calls(line_calls(path, lineno, line, caps, n)),
    decreases n,
{
    if n > 0 {
        lemma_line_calls_no_builtin(path, lineno, line, caps, n - 1);
        let prev = line_calls(path, lineno, line, caps, n - 1);
        let here = line_calls(path, lineno, line, caps, n).subrange(prev.len() as int, line_calls(path, lineno, line, caps, n).len() as int);
        assert(line_calls(path, lineno, line, caps, n) =~= prev + here);
        lemma_no_builtin_concat(prev, here);
    }
}

proof fn lemma_body_calls_no_builtin(path: Seq<char>, body: Seq<(usize, Seq<char>)>, n: int)
    ensures
        no_builtin_calls(body_calls(path, body, n)),
    decreases n,
{
    if n > 0 {
        lemma_body_calls_no_builtin(path, body, n - 1);
        let caps = all_captures(BRIDGE_CALL@, body[n - 1].1);
        lemma_line_calls_no_builtin(path, body[n - 1].0, encode_utf8(body[n - 1].1), caps, caps.len() as int);
        lemma_no_builtin_concat(body_calls(path, body, n - 1), body_line_calls(path, body[n - 1].0, body[n - 1].1));
    }
}

proof fn lemma_callbacks_calls_no_builtin(path: Seq<char>, cbs: Seq<CallbackView>, n: int)
    ensures
        no_builtin_calls(callbacks_calls(path, cbs, n)),
    decreases n,
{
    if n > 0 {
        lemma_callbacks_calls_no_builtin(path, cbs, n - 1);
        lemma_body_calls_no_builtin(path, cbs[n - 1].body, cbs[n - 1].body.len() as int);
        lemma_no_builtin_concat(callbacks_calls(path, cbs, n - 1), body_calls(path, cbs[n - 1].body, cbs[n - 1].body.len() as int));
    }
}

proof fn lemma_files_calls_no_builtin(files: Seq<SourceFileView>, n: int)
    requires
        n <= files.len(),
    ensures
        no_builtin_calls(files_calls(files, n)),
    decreases n,
{
    if n > 0 {
        lemma_files_calls_no_builtin(files, n - 1);
        let f = files[n - 1];
        if has_extension(encode_utf8(f.path), SLINT_EXT.spec_bytes()) {
            let cbs = callbacks_from(text_lines(encode_utf8(f.content)), 0);
            lemma_callbacks_calls_no_builtin(f.path, cbs, cbs.len() as int);
        }
        lemma_no_builtin_concat(files_calls(files, n - 1), file_calls(f));
    }
}

proof fn lemma_receivers_not_builtin(calls: Seq<Call>, n: int)
    requires
        n <= calls.len(),
        no_builtin_calls(calls),
    ensures
        forall|k: int| 0 <= k < receivers_upto(calls, n).len() ==> !is_builtin_receiver(#[trigger] receivers_upto(calls, n)[k]),
    decreases n,
{
    if n > 0 {
        lemma_receivers_not_builtin(calls, n - 1);
        let d = receivers_upto(calls, n - 1);
        assert(!is_builtin_receiver(calls[n - 1].0));
        if !d.contains(calls[n - 1].0) {
            assert forall|k: int| 0 <= k < d.push(calls[n - 1].0).len() implies !is_builtin_receiver(#[trigger] d.push(calls[n - 1].0)[k]) by {
                if k < d.len() {
                    assert(d.push(calls[n - 1].0)[k] == d[k]);
                }
            }
        }
    }
}

/// Objects of the language and the style (`Math`, `Colors`, `Palette`,
/// `Theme`, `StyleMetrics`, `TextInputInterface`) are never gateways: no
/// gateway call names one, so none is among the objects the single-gateway
/// check compares.
pub proof fn law_builtin_objects_are_not_gateways(files: Seq<SourceFileView>)
    ensures
        no_builtin_calls(files_calls(files, files.len() as int)),
        ({
            let calls = files_calls(files, files.len() as int);
            forall|k: int|
                0 <= k < receivers_upto(calls, calls.len() as int).len()
                    ==> !is_builtin_receiver(#[trigger] receivers_upto(calls, calls.len() as int)[k])
        }),
{
    let calls = files_calls(files, files.len() as int);
    lemma_files_calls_no_builtin(files, files.len() as int);
    lemma_receivers_not_builtin(calls, calls.len() as int);
}

// ── Fewer checks, fewer issues ──────────────────────────────────────────────

/// `idx` picks, in increasing order, positions of `b` that hold the items of
/// `a`, one for each.
pub open spec fn embeds<A>(a: Seq<A>, b: Seq<A>, idx: Seq<int>) -> bool {
    &&& idx.len() == a.len()
    &&& forall|i: int| 0 <= i < idx.len() ==> 0 <= #[trigger] idx[i] < b.len() && a[i] == b[idx[i]]
    &&& forall|i: int, j: int| 0 <= i < j < idx.len() ==> idx[i] < idx[j]
}

/// `a` is a subsequence of `b`: `b` with some items left out.
pub open spec fn is_subsequence<A>(a: Seq<A>, b: Seq<A>) -> bool {
    exists|idx: Seq<int>| embeds(a, b, idx)
}

proof fn lemma_embeds_self<A>(a: Seq<A>) -> (idx: Seq<int>)
    ensures
        embeds(a, a, idx),
{
    Seq::new(a.len(), |i: int| i)
}

proof fn lemma_embeds_concat<A>(a1: Seq<A>, b1: Seq<A>, i1: Seq<int>, a2: Seq<A>, b2: Seq<A>, i2: Seq<int>) -> (idx: Seq<int>)
    requires
        embeds(a1, b1, i1),
        embeds(a2, b2, i2),
    ensures
        embeds(a1 + a2, b1 + b2, idx),
{
    let idx = i1 + Seq::new(i2.len(), |k: int| i2[k] + b1.len());
    assert forall|i: int| 0 <= i < idx.len() implies 0 <= #[trigger] idx[i] < (b1 + b2).len() && (a1 + a2)[i] == (b1 + b2)[idx[i]] by {
        if i >= i1.len() {
            let k = i - i1.len();
            assert(idx[i] == i2[k] + b1.len());
            assert(0 <= i2[k] < b2.len());
            assert((b1 + b2)[idx[i]] == b2[i2[k]]);
        }
    }
    assert forall|i: int, j: int| 0 <= i < j < idx.len() implies idx[i] < idx[j] by {
        if j < i1.len() {
        } else if i >= i1.len() {
            assert(i2[i - i1.len()] < i2[j - i1.len()]);
        } else {
            assert(0 <= i1[i] < b1.len());
            assert(0 <= i2[j - i1.len()]);
        }
    }
    idx
}

/// An optional part of a scan: `b` when its check is on in `cfg1`, and the
/// same part when it is on in `cfg2`, else nothing.
proof fn lemma_part_embeds(on1: bool, on2: bool, b: Seq<IssueView>) -> (idx: Seq<int>)
    requires
        on2 ==> on1,
    ensures
        embeds(
            if on2 { b } else { Seq::<IssueView>::empty() },
            if on1 { b } else { Seq::<IssueView>::empty() },
            idx,
        ),
{
    if on2 {
        lemma_embeds_self(b)
    } else {
        Seq::<int>::empty()
    }
}

/// Turning per-file checks off only leaves issues out: a file scanned with
/// fewer checks on gives a subsequence of the issues it gives with more, and
/// the same issues when the same checks are on (whatever the other settings).
pub proof fn law_fewer_checks_fewer_issues(path: Seq<char>, content: Seq<char>, cfg1: ConfigView, cfg2: ConfigView)
    requires
        cfg2.check_tokens ==> cfg1.check_tokens,
        cfg2.check_strings ==> cfg1.check_strings,
        cfg2.check_structure ==> cfg1.check_structure,
        cfg2.check_events ==> cfg1.check_events,
        cfg2.check_mother_child ==> cfg1.check_mother_child,
        cfg2.check_string_states ==> cfg1.check_string_states,
    ensures
        is_subsequence(spec_scan_file(path, content, cfg2), spec_scan_file(path, content, cfg1)),
        (cfg2.check_tokens == cfg1.check_tokens && cfg2.check_strings == cfg1.check_strings
            && cfg2.check_structure == cfg1.check_structure && cfg2.check_events == cfg1.check_events
            && cfg2.check_mother_child == cfg1.check_mother_child
            && cfg2.check_string_states == cfg1.check_string_states)
            ==> spec_scan_file(path, content, cfg2) == spec_scan_file(path, content, cfg1),
{
    let lines = text_lines(encode_utf8(content));
    let pb = encode_utf8(path);
    let is_def = spec_is_definition_file(pb);
    let t = tokens::spec_check(path, is_def, lines);
    let st = strings::spec_check(path, is_def, lines);
    let sc = structure::spec_check(path, lines);
    let ev = events::spec_check(path, lines);
    let mc = mother_child::spec_check(path, crate::context::spec_is_mother(lines), crate::context::spec_is_global_file(lines), crate::context::spec_is_views_folder(pb), lines);
    let ss = string_states::spec_check(path, is_def, lines);
    let e = Seq::<IssueView>::empty();
    let (x1, y1) = (if cfg2.check_tokens { t } else { e }, if cfg1.check_tokens { t } else { e });
    let (x2, y2) = (if cfg2.check_strings { st } else { e }, if cfg1.check_strings { st } else { e });
    let (x3, y3) = (if cfg2.check_structure { sc } else { e }, if cfg1.check_structure { sc } else { e });
    let (x4, y4) = (if cfg2.check_events { ev } else { e }, if cfg1.check_events { ev } else { e });
    let (x5, y5) = (if cfg2.check_mother_child { mc } else { e }, if cfg1.check_mother_child { mc } else { e });
    let (x6, y6) = (if cfg2.check_string_states { ss } else { e }, if cfg1.check_string_states { ss } else { e });
    let i1 = lemma_part_embeds(cfg1.check_tokens, cfg2.check_tokens, t);
    let i2 = lemma_part_embeds(cfg1.check_strings, cfg2.check_strings, st);
    let i3 = lemma_part_embeds(cfg1.check_structure, cfg2.check_structure, sc);
    let i4 = lemma_part_embeds(cfg1.check_events, cfg2.check_events, ev);
    let i5 = lemma_part_embeds(cfg1.check_mother_child, cfg2.check_mother_child, mc);
    let i6 = lemma_part_embeds(cfg1.check_string_states, cfg2.check_string_states, ss);
    let j2 = lemma_embeds_concat(x1, y1, i1, x2, y2, i2);
    let j3 = lemma_embeds_concat(x1 + x2, y1 + y2, j2, x3, y3, i3);
    let j4 = lemma_embeds_concat(x1 + x2 + x3, y1 + y2 + y3, j3, x4, y4, i4);
    let j5 = lemma_embeds_concat(x1 + x2 + x3 + x4, y1 + y2 + y3 + y4, j4, x5, y5, i5);
    let j6 = lemma_embeds_concat(x1 + x2 + x3 + x4 + x5, y1 + y2 + y3 + y4 + y5, j5, x6, y6, i6);
    assert(spec_scan_file(path, content, cfg2) == x1 + x2 + x3 + x4 + x5 + x6);
    assert(spec_scan_file(path, content, cfg1) == y1 + y2 + y3 + y4 + y5 + y6);
    assert(embeds(spec_scan_file(path, content, cfg2), spec_scan_file(path, content, cfg1), j6));
}

// ── Gateway check: what it depends on ───────────────────────────────────────

/// The call is of an object other than the language and style objects.
pub open spec fn is_gateway_call(c: Call) -> bool {
    !is_builtin_receiver(c.0)
}

/// Every object call among the first `n` object-call matches `caps` of a
/// body line, language and style objects included.
pub open spec fn line_object_calls(path: Seq<char>, lineno: usize, line: Seq<u8>, caps: Seq<Seq<Option<Span>>>, n: int) -> Seq<Call>
    decreases n,
{
    if n <= 0 {
        seq![]
    } else {
        line_object_calls(path, lineno, line, caps, n - 1) + if caps[n - 1].len() > 1 && caps[n - 1][1] is Some {
            let sp = caps[n - 1][1]->0;
            seq![(slice_text(line, sp.0 as int, sp.1 as int), path, lineno)]
        } else {
            seq![]
        }
    }
}

/// Every object call of the first `n` lines of a callback body.
pub open spec fn body_object_calls(path: Seq<char>, body: Seq<(usize, Seq<char>)>, n: int) -> Seq<Call>
    decreases n,
{
    if n <= 0 {
        seq![]
    } else {
        let caps = all_captures(BRIDGE_CALL@, body[n - 1].1);
        body_object_calls(path, body, n - 1) + line_object_calls(path, body[n - 1].0, encode_utf8(body[n - 1].1), caps, caps.len() as int)
    }
}

/// Every object call of the first `n` callbacks.
pub open spec fn callbacks_object_calls(path: Seq<char>, cbs: Seq<CallbackView>, n: int) -> Seq<Call>
    decreases n,
{
    if n <= 0 {
        seq![]
    } else {
        callbacks_object_calls(path, cbs, n - 1) + body_object_calls(path, cbs[n - 1].body, cbs[n - 1].body.len() as int)
    }
}

/// Every object call in the callbacks of a `.slint` file (none for another file).
pub open spec fn file_object_calls(f: SourceFileView) -> Seq<Call> {
    if is_slint_file(f) {
        let cbs = callbacks_from(text_lines(encode_utf8(f.content)), 0);
        callbacks_object_calls(f.path, cbs, cbs.len() as int)
    } else {
        seq![]
    }
}

/// Every object call in the callbacks of the first `n` files, in order.
pub open spec fn files_object_calls(files: Seq<SourceFileView>, n: int) -> Seq<Call>
    decreases n,
{
    if n <= 0 {
        seq![]
    } else {
        files_object_calls(files, n - 1) + file_object_calls(files[n - 1])
    }
}

proof fn lemma_filter_one(c: Call)
    ensures
        seq![c].filter(|x: Call| is_gateway_call(x)) == if is_gateway_call(c) { seq![c] } else { Seq::<Call>::empty() },
{
    reveal_with_fuel(Seq::filter, 2);
    assert(seq![c].drop_last() =~= Seq::<Call>::empty());
    assert(Seq::<Call>::empty().filter(|x: Call| is_gateway_call(x)) =~= Seq::<Call>::empty()) by {
        reveal(Seq::filter);
    }
}

proof fn lemma_line_object_calls(path: Seq<char>, lineno: usize, line: Seq<u8>, caps: Seq<Seq<Option<Span>>>, n: int)
    ensures
        line_calls(path, lineno, line, caps, n) == line_object_calls(path, lineno, line, caps, n).filter(|x: Call| is_gateway_call(x)),
    decreases n,
{
    let p = |x: Call| is_gateway_call(x);
    if n <= 0 {
        reveal(Seq::filter);
    } else {
        lemma_line_object_calls(path, lineno, line, caps, n - 1);
        let prev = line_object_calls(path, lineno, line, caps, n - 1);
        if caps[n - 1].len() > 1 && caps[n - 1][1] is Some {
            let sp = caps[n - 1][1]->0;
            let c = (slice_text(line, sp.0 as int, sp.1 as int), path, lineno);
            Seq::filter_distributes_over_add(prev, seq![c], p);
            lemma_filter_one(c);
        } else {
            assert(line_object_calls(path, lineno, line, caps, n) =~= prev + Seq::<Call>::empty());
            Seq::filter_distributes_over_add(prev, Seq::<Call>::empty(), p);
            assert(Seq::<Call>::empty().filter(p) =~= Seq::<Call>::empty()) by {
                reveal(Seq::filter);
            }
        }
    }
}

proof fn lemma_body_object_calls(path: Seq<char>, body: Seq<(usize, Seq<char>)>, n: int)
    ensures
        body_calls(path, body, n) == body_object_calls(path, body, n).filter(|x: Call| is_gateway_call(x)),
    decreases n,
{
    let p = |x: Call| is_gateway_call(x);
    if n <= 0 {
        reveal(Seq::filter);
    } else {
        lemma_body_object_calls(path, body, n - 1);
        let caps = all_captures(BRIDGE_CALL@, body[n - 1].1);
        let l = encode_utf8(body[n - 1].1);
        lemma_line_object_calls(path, body[n - 1].0, l, caps, caps.len() as int);
        Seq::filter_distributes_over_add(
            body_object_calls(path, body, n - 1),
            line_object_calls(path, body[n - 1].0, l, caps, caps.len() as int),
            p,
        );
    }
}

proof fn lemma_callbacks_object_calls(path: Seq<char>, cbs: Seq<CallbackView>, n: int)
    ensures
        callbacks_calls(path, cbs, n) == callbacks_object_calls(path, cbs, n).filter(|x: Call| is_gateway_call(x)),
    decreases n,
{
    let p = |x: Call| is_gateway_call(x);
    if n <= 0 {
        reveal(Seq::filter);
    } else {
        lemma_callbacks_object_calls(path, cbs, n - 1);
        let body = cbs[n - 1].body;
        lemma_body_object_calls(path, body, body.len() as int);
        Seq::filter_distributes_over_add(
            callbacks_object_calls(path, cbs, n - 1),
            body_object_calls(path, body, body.len() as int),
            p,
        );
    }
}

proof fn lemma_files_object_calls(files: Seq<SourceFileView>, n: int)
    requires
        n <= files.len(),
    ensures
        files_calls(files, n) == files_object_calls(files, n).filter(|x: Call| is_gateway_call(x)),
    decreases n,
{
    let p = |x: Call| is_gateway_call(x);
    if n <= 0 {
        reveal(Seq::filter);
    } else {
        lemma_files_object_calls(files, n - 1);
        let f = files[n - 1];
        if is_slint_file(f) {
            let cbs = callbacks_from(text_lines(encode_utf8(f.content)), 0);
            lemma_callbacks_object_calls(f.path, cbs, cbs.len() as int);
        } else {
            assert(Seq::<Call>::empty().filter(p) =~= Seq::<Call>::empty()) by {
                reveal(Seq::filter);
            }
        }
        Seq::filter_distributes_over_add(files_object_calls(files, n - 1), file_object_calls(f), p);
    }
}

/// The gateway calls of a project are its object calls in `.slint` files,
/// in order, less those of the language and style objects.
pub proof fn law_gateway_calls_are_object_calls_without_builtins(files: Seq<SourceFileView>)
    ensures
        files_calls(files, files.len() as int)
            == files_object_calls(files, files.len() as int).filter(|x: Call| is_gateway_call(x)),
{
    lemma_files_object_calls(files, files.len() as int);
}

/// The single-gateway check depends only on the calls of objects other than
/// the language and style objects, in `.slint` files: two projects whose
/// `.slint` files make the same such calls, in the same order, get the same
/// issues, whatever other files they hold (files that could not be read are
/// not among them) and whatever calls of built-in objects they make.
pub proof fn law_gateway_issues_depend_only_on_gateway_calls(files1: Seq<SourceFileView>, files2: Seq<SourceFileView>)
    requires
        ({
            let s1 = files1.filter(|f: SourceFileView| is_slint_file(f));
            let s2 = files2.filter(|f: SourceFileView| is_slint_file(f));
            files_object_calls(s1, s1.len() as int).filter(|x: Call| is_gateway_call(x))
                == files_object_calls(s2, s2.len() as int).filter(|x: Call| is_gateway_call(x))
        }),
    ensures
        spec_check_tree(files1) == spec_check_tree(files2),
{
    let s1 = files1.filter(|f: SourceFileView| is_slint_file(f));
    let s2 = files2.filter(|f: SourceFileView| is_slint_file(f));
    lemma_files_calls_filter(files1);
    lemma_files_calls_filter(files2);
    lemma_files_object_calls(s1, s1.len() as int);
    lemma_files_object_calls(s2, s2.len() as int);
}

} // verus!
