//! Event/callback architecture checks — uiux/state-flow.md
//!
//! RULE: UI callbacks delegate to gateway — one call per callback.
//! BANNED: if/else inside callback body.
//! BANNED: Multiple root.x = assignments in one callback.
//! BANNED: Callback body longer than 3 meaningful lines.

use vstd::prelude::*;
use vstd::utf8::*;
use vstd::string::StringSliceAdditionalSpecFns;
use vstd::string::StringExecFns;

use crate::context::{callbacks_from, extract_callbacks_with, Callback, CallbackView, FileContext, CB_START};
use crate::issue::{decimal, error_view, push_decimal, Issue, IssueView};
use crate::pattern::{all_captures, captures_wf, is_match, span_in, Searcher, Span};
use crate::text::{byte_len, find_bytes, find_from, slice_text, starts_with, starts_with_bytes, substr, trim, trim_bytes};

verus! {

broadcast use {vstd::seq_lib::group_seq_properties, vstd::utf8::encode_utf8_decode_utf8, vstd::utf8::encode_utf8_valid_utf8};

pub const RULE_NO_CALLBACK_LOGIC: &'static str = "uiux/state-flow/no-callback-logic";

pub const RULE_NO_STATE_MUTATION: &'static str = "uiux/state-flow/no-state-mutation-in-callback";

/// An `if`.
pub const IF_STMT: &'static str = r"\bif\b";

/// An assignment to a property of `root`, and the property.
pub const ROOT_ASSIGN: &'static str = r"\broot\.([\w-]+)\s*=[^=]";

/// A call of a method of an object.
pub const BRIDGE_CALL: &'static str = r"\w+\.\w+\s*\(";

/// The most lines a callback body may have.
pub const MAX_CALLBACK_LINES: usize = 3;

pub const MSG_CALLBACK: &'static str = "callback '";

pub const MSG_SEP: &'static str = "': ";

pub const MSG_IF: &'static str = "': if-statement in UI callback \u{2014} move conditional logic to a single AppBridge method";

pub const MSG_MUTATIONS: &'static str = " root state mutations (";

pub const MSG_MORE: &'static str = " ...";

pub const MSG_MUTATIONS_END: &'static str = ") \u{2014} replace with a single AppBridge call";

pub const MSG_MIX: &'static str = "': mixes root.";

pub const MSG_MIX_END: &'static str = " mutation with a bridge call \u{2014} let the bridge own all state changes";

pub const MSG_LONG: &'static str = "-line body \u{2014} callbacks should be a single delegation call";

pub const LIST_SEP: &'static str = ", ";

/// A body line that says something: not blank and not a comment once trimmed.
pub open spec fn is_meaningful(l: Seq<char>) -> bool {
    let t = trim_bytes(encode_utf8(l));
    t.len() > 0 && !starts_with(t, "//".spec_bytes())
}

/// The meaningful lines among the first `n` lines of a body.
pub open spec fn meaningful_upto(body: Seq<(usize, Seq<char>)>, n: int) -> Seq<(usize, Seq<char>)>
    decreases n,
{
    if n <= 0 {
        seq![]
    } else {
        let prev = meaningful_upto(body, n - 1);
        if is_meaningful(body[n - 1].1) {
            prev.push(body[n - 1])
        } else {
            prev
        }
    }
}

/// The first of the first `n` lines of `m` that holds an `if`.
pub open spec fn first_if_line(m: Seq<(usize, Seq<char>)>, n: int) -> Option<(usize, Seq<char>)>
    decreases n,
{
    if n <= 0 {
        None
    } else {
        match first_if_line(m, n - 1) {
            Some(x) => Some(x),
            None => if is_match(IF_STMT@, m[n - 1].1) {
                Some(m[n - 1])
            } else {
                None
            },
        }
    }
}

/// The column of the first `if` of a line (1 when there is none).
pub open spec fn if_column(l: Seq<char>) -> int {
    match find_from(encode_utf8(l), "if".spec_bytes(), 0) {
        Some(k) => k + 1,
        None => 1,
    }
}

/// The properties assigned by the first `n` root assignments of a line.
pub open spec fn props_of_caps(b: Seq<u8>, caps: Seq<Seq<Option<Span>>>, n: int) -> Seq<Seq<char>>
    decreases n,
{
    if n <= 0 {
        seq![]
    } else {
        props_of_caps(b, caps, n - 1) + if caps[n - 1].len() > 1 && caps[n - 1][1] is Some {
            let sp = caps[n - 1][1]->0;
            seq![slice_text(b, sp.0 as int, sp.1 as int)]
        } else {
            seq![]
        }
    }
}

/// The properties of `root` that a line assigns, in order.
pub open spec fn line_props(l: Seq<char>) -> Seq<Seq<char>> {
    let caps = all_captures(ROOT_ASSIGN@, l);
    props_of_caps(encode_utf8(l), caps, caps.len() as int)
}

/// The properties assigned by the first `n` lines of `m`.
pub open spec fn props_upto(m: Seq<(usize, Seq<char>)>, n: int) -> Seq<Seq<char>>
    decreases n,
{
    if n <= 0 {
        seq![]
    } else {
        props_upto(m, n - 1) + line_props(m[n - 1].1)
    }
}

/// The line number of the first of the first `n` lines of `m` that assigns
/// a root property, or 0.
pub open spec fn first_assign_upto(m: Seq<(usize, Seq<char>)>, n: int) -> usize
    decreases n,
{
    if n <= 0 {
        0
    } else {
        let f = first_assign_upto(m, n - 1);
        if f == 0 && line_props(m[n - 1].1).len() > 0 {
            m[n - 1].0
        } else {
            f
        }
    }
}

/// Some of the first `n` lines of `m` call a method of an object.
pub open spec fn has_bridge_upto(m: Seq<(usize, Seq<char>)>, n: int) -> bool
    decreases n,
{
    n > 0 && (has_bridge_upto(m, n - 1) || is_match(BRIDGE_CALL@, m[n - 1].1))
}

/// The first `k` properties, separated by `, `.
pub open spec fn join_props(props: Seq<Seq<char>>, k: int) -> Seq<char>
    decreases k,
{
    if k <= 0 {
        seq![]
    } else if k == 1 {
        props[0]
    } else {
        join_props(props, k - 1) + LIST_SEP@ + props[k - 1]
    }
}

/// How the mutated properties are listed: the first three, and ` ...` when
/// there are more.
pub open spec fn props_display(props: Seq<Seq<char>>) -> Seq<char> {
    if props.len() > 3 {
        join_props(props, 3) + MSG_MORE@
    } else {
        join_props(props, props.len() as int)
    }
}

/// The issues of one callback, in order:
/// - an `if` in a meaningful body line: one issue at the first such line and
///   the column of its first `if`;
/// - two or more root assignments: one issue at the first assigning line; a
///   single root assignment beside a method call: one issue there;
/// - more than three meaningful lines, when neither of the above holds with
///   an `if` or two assignments: one issue at the callback's first line.
pub open spec fn callback_issues(path: Seq<char>, cb: CallbackView) -> Seq<IssueView> {
    let m = meaningful_upto(cb.body, cb.body.len() as int);
    let fi = first_if_line(m, m.len() as int);
    let props = props_upto(m, m.len() as int);
    let fa = first_assign_upto(m, m.len() as int);
    let if_issue = match fi {
        Some(x) => seq![error_view(path, x.0 as int, if_column(x.1), RULE_NO_CALLBACK_LOGIC@, MSG_CALLBACK@ + cb.name + MSG_IF@)],
        None => seq![],
    };
    let mutation_issue = if props.len() >= 2 {
        seq![error_view(path, fa as int, 1, RULE_NO_STATE_MUTATION@,
            MSG_CALLBACK@ + cb.name + MSG_SEP@ + decimal(props.len()) + MSG_MUTATIONS@ + props_display(props) + MSG_MUTATIONS_END@)]
    } else if props.len() == 1 && has_bridge_upto(m, m.len() as int) {
        seq![error_view(path, fa as int, 1, RULE_NO_STATE_MUTATION@, MSG_CALLBACK@ + cb.name + MSG_MIX@ + props[0] + MSG_MIX_END@)]
    } else {
        seq![]
    };
    let long_issue = if m.len() > 3 && fi is None && props.len() < 2 {
        seq![error_view(path, cb.start_line as int, 1, RULE_NO_CALLBACK_LOGIC@,
            MSG_CALLBACK@ + cb.name + MSG_SEP@ + decimal(m.len()) + MSG_LONG@)]
    } else {
        seq![]
    };
    if_issue + mutation_issue + long_issue
}

/// The issues of the first `n` callbacks.
pub open spec fn callbacks_issues(path: Seq<char>, cbs: Seq<CallbackView>, n: int) -> Seq<IssueView>
    decreases n,
{
    if n <= 0 {
        seq![]
    } else {
        callbacks_issues(path, cbs, n - 1) + callback_issues(path, cbs[n - 1])
    }
}

/// The issues of a file: those of each of its callbacks.
pub open spec fn spec_check(path: Seq<char>, lines: Seq<Seq<char>>) -> Seq<IssueView> {
    let cbs = callbacks_from(lines, 0);
    callbacks_issues(path, cbs, cbs.len() as int)
}

/// The regular expressions of the callback check, compiled once.
pub struct Searchers {
    pub if_stmt: Searcher,
    pub root_assign: Searcher,
    pub bridge_call: Searcher,
    pub cb_start: Searcher,
}

impl Searchers {
    /// Each searcher was compiled from its pattern.
    pub open spec fn wf(&self) -> bool {
        &&& self.if_stmt@ == IF_STMT@
        &&& self.root_assign@ == ROOT_ASSIGN@
        &&& self.bridge_call@ == BRIDGE_CALL@
        &&& self.cb_start@ == CB_START@
    }

    /// Compiles the patterns of the callback check.
    pub fn new() -> (r: Self)
        ensures
            r.wf(),
    {
        Searchers {
            if_stmt: Searcher::new(IF_STMT),
            root_assign: Searcher::new(ROOT_ASSIGN),
            bridge_call: Searcher::new(BRIDGE_CALL),
            cb_start: Searcher::new(CB_START),
        }
    }
}

/// Whether a body line says something.
fn meaningful_line(l: &str) -> (r: bool)
    ensures
        r == is_meaningful(l@),
{
    let t = trim(l);
    let tb = t.as_bytes();
    tb.len() > 0 && !starts_with_bytes(tb, "//".as_bytes())
}

/// The meaningful lines of a callback body.
pub fn meaningful_lines(body: &Vec<(usize, String)>) -> (r: Vec<(usize, &str)>)
    ensures
        r.deep_view() == meaningful_upto(body.deep_view(), body@.len() as int),
{
    let mut out: Vec<(usize, &str)> = Vec::new();
    let mut k: usize = 0;
    while k < body.len()
        invariant
            k <= body@.len(),
            out.deep_view() == meaningful_upto(body.deep_view(), k as int),
        decreases body.len() - k,
    {
        let l = body[k].1.as_str();
        assert(body.deep_view()[k as int] == (body@[k as int].0, l@));
        let ghost prev = out.deep_view();
        if meaningful_line(l) {
            out.push((body[k].0, l));
            assert(out.deep_view() =~= prev.push(body.deep_view()[k as int]));
        }
        k = k + 1;
    }
    out
}

/// The index in `m` of the first line that holds an `if`.
fn first_if_index(m: &Vec<(usize, &str)>, if_stmt: &Searcher) -> (r: Option<usize>)
    requires
        if_stmt@ == IF_STMT@,
    ensures
        match r {
            Some(k) => k < m@.len() && first_if_line(m.deep_view(), m@.len() as int) == Some(m.deep_view()[k as int]),
            None => first_if_line(m.deep_view(), m@.len() as int) is None,
        },
{
    let ghost mv = m.deep_view();
    let mut k: usize = 0;
    while k < m.len()
        invariant
            k <= m@.len(),
            mv == m.deep_view(),
            if_stmt@ == IF_STMT@,
            first_if_line(mv, k as int) is None,
        decreases m.len() - k,
    {
        assert(mv[k as int].1 == m@[k as int].1@);
        if if_stmt.matches_in(m[k].1) {
            proof {
                lemma_first_if_stable(mv, k + 1, m@.len() as int);
            }
            return Some(k);
        }
        k = k + 1;
    }
    None
}

/// Once an `if` line is found, later lines do not change which is first.
proof fn lemma_first_if_stable(m: Seq<(usize, Seq<char>)>, k: int, n: int)
    requires
        0 <= k <= n,
        first_if_line(m, k) is Some,
    ensures
        first_if_line(m, n) == first_if_line(m, k),
    decreases n - k,
{
    if n > k {
        lemma_first_if_stable(m, k, n - 1);
    }
}

/// The properties of `root` that line `l` assigns, given the capture groups
/// of each root-assignment match on it.
pub fn root_props_of(l: &str, caps: &Vec<Vec<Option<Span>>>) -> (r: Vec<String>)
    requires
        forall|j: int| 0 <= j < caps@.len() ==> captures_wf(l.spec_bytes(), #[trigger] caps.deep_view()[j]),
    ensures
        r.deep_view() == props_of_caps(l.spec_bytes(), caps.deep_view(), caps@.len() as int),
{
    let mut out: Vec<String> = Vec::new();
    let mut k: usize = 0;
    while k < caps.len()
        invariant
            k <= caps@.len(),
            forall|j: int| 0 <= j < caps@.len() ==> captures_wf(l.spec_bytes(), #[trigger] caps.deep_view()[j]),
            out.deep_view() == props_of_caps(l.spec_bytes(), caps.deep_view(), k as int),
        decreases caps.len() - k,
    {
        let cap = &caps[k];
        assert(caps.deep_view()[k as int] == cap@);
        let ghost prev = out.deep_view();
        if cap.len() > 1 && cap[1].is_some() {
            let sp: Span = cap[1].unwrap();
            assert(cap@[1] matches Some(s) ==> span_in(l.spec_bytes(), s));
            let p = substr(l, sp.0, sp.1).to_owned();
            out.push(p);
            assert(out.deep_view() =~= prev + seq![p@]);
        } else {
            assert(out.deep_view() =~= prev + Seq::<Seq<char>>::empty());
        }
        k = k + 1;
    }
    out
}

/// The root properties assigned by the lines of `m`, and the line number of
/// the first line that assigns one (0 if none does).
fn collect_props(m: &Vec<(usize, &str)>, root_assign: &Searcher) -> (r: (Vec<String>, usize))
    requires
        root_assign@ == ROOT_ASSIGN@,
    ensures
        r.0.deep_view() == props_upto(m.deep_view(), m@.len() as int),
        r.1 == first_assign_upto(m.deep_view(), m@.len() as int),
{
    let ghost mv = m.deep_view();
    let mut all: Vec<String> = Vec::new();
    let mut first: usize = 0;
    let mut k: usize = 0;
    while k < m.len()
        invariant
            k <= m@.len(),
            mv == m.deep_view(),
            root_assign@ == ROOT_ASSIGN@,
            all.deep_view() == props_upto(mv, k as int),
            first == first_assign_upto(mv, k as int),
        decreases m.len() - k,
    {
        assert(mv[k as int] == (m@[k as int].0, m@[k as int].1@));
        let caps = root_assign.captures_all(m[k].1);
        let mut props = root_props_of(m[k].1, &caps);
        if props.len() > 0 && first == 0 {
            first = m[k].0;
        }
        let ghost prev = all.deep_view();
        let ghost pv = props.deep_view();
        all.append(&mut props);
        assert(all.deep_view() =~= prev + pv);
        k = k + 1;
    }
    (all, first)
}

/// Whether some line of `m` calls a method of an object.
fn has_bridge_call(m: &Vec<(usize, &str)>, bridge_call: &Searcher) -> (r: bool)
    requires
        bridge_call@ == BRIDGE_CALL@,
    ensures
        r == has_bridge_upto(m.deep_view(), m@.len() as int),
{
    let ghost mv = m.deep_view();
    let mut k: usize = 0;
    while k < m.len()
        invariant
            k <= m@.len(),
            mv == m.deep_view(),
            bridge_call@ == BRIDGE_CALL@,
            !has_bridge_upto(mv, k as int),
        decreases m.len() - k,
    {
        assert(mv[k as int].1 == m@[k as int].1@);
        if bridge_call.matches_in(m[k].1) {
            proof {
                lemma_bridge_stable(mv, k + 1, m@.len() as int);
            }
            return true;
        }
        k = k + 1;
    }
    false
}

proof fn lemma_bridge_stable(m: Seq<(usize, Seq<char>)>, k: int, n: int)
    requires
        0 <= k <= n,
        has_bridge_upto(m, k),
    ensures
        has_bridge_upto(m, n),
    decreases n - k,
{
    if n > k {
        lemma_bridge_stable(m, k, n - 1);
    }
}

/// The listing of mutated properties: the first three, `, `-separated, then
/// ` ...` when there are more.
fn display_props(props: &Vec<String>) -> (r: String)
    ensures
        r@ == props_display(props.deep_view()),
{
    let ghost pv = props.deep_view();
    let shown = if props.len() > MAX_CALLBACK_LINES { MAX_CALLBACK_LINES } else { props.len() };
    let mut out = String::new();
    let mut k: usize = 0;
    while k < shown
        invariant
            k <= shown <= props@.len(),
            shown == if props@.len() > 3 { 3 } else { props@.len() },
            pv == props.deep_view(),
            out@ == join_props(pv, k as int),
        decreases shown - k,
    {
        if k > 0 {
            out.append(LIST_SEP);
        }
        out.append(props[k].as_str());
        proof {
            assert(pv[k as int] == props@[k as int]@);
            if k == 0 {
                assert(out@ =~= join_props(pv, 1));
            }
        }
        k = k + 1;
    }
    if props.len() > MAX_CALLBACK_LINES {
        out.append(MSG_MORE);
    }
    out
}

/// Appends the issues of one callback.
pub fn check_callback(path: &str, cb: &Callback, s: &Searchers, issues: &mut Vec<Issue>)
    requires
        s.wf(),
    ensures
        final(issues).deep_view() == old(issues).deep_view() + callback_issues(path@, cb@),
{
    let meaningful = meaningful_lines(&cb.body);
    let ghost m = meaningful.deep_view();
    let first_if = first_if_index(&meaningful, &s.if_stmt);
    let ghost start = issues.deep_view();
    // 1. Conditional logic
    match first_if {
        Some(k) => {
            let ln = meaningful[k].0;
            let l = meaningful[k].1;
            assert(m[k as int] == (ln, l@));
            let lb = l.as_bytes();
            // A string holds at most isize::MAX bytes, so a column (offset + 1) fits.
            let _ = byte_len(l);
            let col = match find_bytes(lb, "if".as_bytes(), 0) {
                Some(p) => {
                    proof {
                        crate::text::lemma_find_from(lb@, "if".spec_bytes(), 0);
                    }
                    p + 1
                },
                None => 1,
            };
            let msg = crate::text::join3(MSG_CALLBACK, cb.name.as_str(), MSG_IF);
            issues.push(Issue::error(path, ln, col, RULE_NO_CALLBACK_LOGIC, msg));
        },
        None => {},
    }
    let ghost after_if = issues.deep_view();
    // 2. Root state mutations
    let (all_props, first_assign_ln) = collect_props(&meaningful, &s.root_assign);
    let ghost props = all_props.deep_view();
    if all_props.len() >= 2 {
        let mut msg = MSG_CALLBACK.to_owned();
        msg.append(cb.name.as_str());
        msg.append(MSG_SEP);
        push_decimal(&mut msg, all_props.len());
        msg.append(MSG_MUTATIONS);
        let shown = display_props(&all_props);
        msg.append(shown.as_str());
        msg.append(MSG_MUTATIONS_END);
        issues.push(Issue::error(path, first_assign_ln, 1, RULE_NO_STATE_MUTATION, msg));
    } else if all_props.len() == 1 {
        if has_bridge_call(&meaningful, &s.bridge_call) {
            let mut msg = MSG_CALLBACK.to_owned();
            msg.append(cb.name.as_str());
            msg.append(MSG_MIX);
            msg.append(all_props[0].as_str());
            msg.append(MSG_MIX_END);
            assert(props[0] == all_props@[0]@);
            issues.push(Issue::error(path, first_assign_ln, 1, RULE_NO_STATE_MUTATION, msg));
        }
    }
    let ghost after_mut = issues.deep_view();
    // 3. Too long
    if meaningful.len() > MAX_CALLBACK_LINES && first_if.is_none() && all_props.len() < 2 {
        let mut msg = MSG_CALLBACK.to_owned();
        msg.append(cb.name.as_str());
        msg.append(MSG_SEP);
        push_decimal(&mut msg, meaningful.len());
        msg.append(MSG_LONG);
        issues.push(Issue::error(path, cb.start_line, 1, RULE_NO_CALLBACK_LOGIC, msg));
    }
    assert(issues.deep_view() =~= old(issues).deep_view() + callback_issues(path@, cb@));
}

/// Scan for callback body complexity — detect if-statements, multiple root assignments, and lengthy bodies.
pub fn check(ctx: &FileContext, lines: &[&str], issues: &mut Vec<Issue>)
    ensures
        final(issues).deep_view() == old(issues).deep_view() + spec_check(ctx.path@, lines.deep_view()),
{
    check_with(ctx, lines, &Searchers::new(), issues);
}

/// [`check`], with the patterns compiled beforehand.
pub fn check_with(ctx: &FileContext, lines: &[&str], s: &Searchers, issues: &mut Vec<Issue>)
    requires
        s.wf(),
    ensures
        final(issues).deep_view() == old(issues).deep_view() + spec_check(ctx.path@, lines.deep_view()),
{
    let cbs = extract_callbacks_with(lines, &s.cb_start);
    let ghost cv = cbs.deep_view();
    let mut k: usize = 0;
    assert(issues.deep_view() =~= old(issues).deep_view() + callbacks_issues(ctx.path@, cv, 0));
    while k < cbs.len()
        invariant
            k <= cbs@.len(),
            s.wf(),
            cv == cbs.deep_view(),
            cv == callbacks_from(lines.deep_view(), 0),
            issues.deep_view() == old(issues).deep_view() + callbacks_issues(ctx.path@, cv, k as int),
        decreases cbs.len() - k,
    {
        assert(cv[k as int] == cbs@[k as int]@);
        check_callback(ctx.path, &cbs[k], s, issues);
        k = k + 1;
    }
}

} // verus!
