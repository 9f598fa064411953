//! Architecture check — uiux/state-flow.md
//!
//! RULE: All UI callbacks delegate to exactly ONE gateway object.
//! Tree-level check: scans all .slint files then reports if callbacks
//! use multiple different gateway objects.

use vstd::prelude::*;
use vstd::utf8::*;
use vstd::string::StringSliceAdditionalSpecFns;

use crate::context::{callbacks_from, extract_callbacks_with, CallbackView, CB_START};
use crate::issue::{error_view, Issue, IssueView};
use crate::pattern::{all_captures, captures_wf, span_in, Searcher, Span};
use crate::text::{join5, slice_text, split_lines, str_eq, substr, text_lines};
use crate::walker::{has_extension, has_slint_extension, SLINT_EXT};
use crate::{SourceFile, SourceFileView};

verus! {

broadcast use {vstd::seq_lib::group_seq_properties, vstd::utf8::encode_utf8_decode_utf8, vstd::utf8::encode_utf8_valid_utf8};

pub const RULE: &'static str = "uiux/state-flow/single-gateway";

/// A call of a method of a capitalised object, and the object.
pub const BRIDGE_CALL: &'static str = r"\b([A-Z][A-Za-z0-9]*)\.([\w-]+)\s*\(";

pub const MSG_A: &'static str = "callback calls '";

pub const MSG_B: &'static str = "' but the gateway is '";

pub const MSG_C: &'static str = "' \u{2014} all UI callbacks must delegate through the single gateway object";

/// Objects of the language and the style, which are not gateways.
pub open spec fn is_builtin_receiver(r: Seq<char>) -> bool {
    ||| r == "Math"@
    ||| r == "Colors"@
    ||| r == "Palette"@
    ||| r == "Theme"@
    ||| r == "StyleMetrics"@
    ||| r == "TextInputInterface"@
}

/// A call of a gateway: the object called, the file and the line.
pub type Call = (Seq<char>, Seq<char>, usize);

/// The gateway calls among the first `n` object calls of a body line.
pub open spec fn line_calls(path: Seq<char>, lineno: usize, line: Seq<u8>, caps: Seq<Seq<Option<Span>>>, n: int) -> Seq<Call>
    decreases n,
{
    if n <= 0 {
        seq![]
    } else {
        line_calls(path, lineno, line, caps, n - 1) + if caps[n - 1].len() > 1 && caps[n - 1][1] is Some {
            let sp = caps[n - 1][1]->0;
            let r = slice_text(line, sp.0 as int, sp.1 as int);
            if is_builtin_receiver(r) {
                seq![]
            } else {
                seq![(r, path, lineno)]
            }
        } else {
            seq![]
        }
    }
}

/// The gateway calls of one body line.
pub open spec fn body_line_calls(path: Seq<char>, lineno: usize, line: Seq<char>) -> Seq<Call> {
    let caps = all_captures(BRIDGE_CALL@, line);
    line_calls(path, lineno, encode_utf8(line), caps, caps.len() as int)
}

/// The gateway calls of the first `n` lines of a callback body.
pub open spec fn body_calls(path: Seq<char>, body: Seq<(usize, Seq<char>)>, n: int) -> Seq<Call>
    decreases n,
{
    if n <= 0 {
        seq![]
    } else {
        body_calls(path, body, n - 1) + body_line_calls(path, body[n - 1].0, body[n - 1].1)
    }
}

/// The gateway calls of the first `n` callbacks.
pub open spec fn callbacks_calls(path: Seq<char>, cbs: Seq<CallbackView>, n: int) -> Seq<Call>
    decreases n,
{
    if n <= 0 {
        seq![]
    } else {
        callbacks_calls(path, cbs, n - 1) + body_calls(path, cbs[n - 1].body, cbs[n - 1].body.len() as int)
    }
}

/// The gateway calls of a file: none unless its extension is `slint`.
pub open spec fn file_calls(f: SourceFileView) -> Seq<Call> {
    if has_extension(encode_utf8(f.path), SLINT_EXT.spec_bytes()) {
        let cbs = callbacks_from(text_lines(encode_utf8(f.content)), 0);
        callbacks_calls(f.path, cbs, cbs.len() as int)
    } else {
        seq![]
    }
}

/// The gateway calls of the first `n` files, in order.
pub open spec fn files_calls(files: Seq<SourceFileView>, n: int) -> Seq<Call>
    decreases n,
{
    if n <= 0 {
        seq![]
    } else {
        files_calls(files, n - 1) + file_calls(files[n - 1])
    }
}

/// The objects called by the first `n` calls, in order of first call.
pub open spec fn receivers_upto(calls: Seq<Call>, n: int) -> Seq<Seq<char>>
    decreases n,
{
    if n <= 0 {
        seq![]
    } else {
        let d = receivers_upto(calls, n - 1);
        if d.contains(calls[n - 1].0) {
            d
        } else {
            d.push(calls[n - 1].0)
        }
    }
}

/// How many of the first `n` calls call `r`.
pub open spec fn call_count(calls: Seq<Call>, r: Seq<char>, n: int) -> int
    decreases n,
{
    if n <= 0 {
        0
    } else {
        call_count(calls, r, n - 1) + if calls[n - 1].0 == r { 1int } else { 0int }
    }
}

/// Among the first `m` receivers, the index of the first one called most.
pub open spec fn dominant_upto(receivers: Seq<Seq<char>>, calls: Seq<Call>, m: int) -> int
    decreases m,
{
    if m <= 1 {
        0
    } else {
        let d = dominant_upto(receivers, calls, m - 1);
        if call_count(calls, receivers[m - 1], calls.len() as int) > call_count(calls, receivers[d], calls.len() as int) {
            m - 1
        } else {
            d
        }
    }
}

/// The issue for each of the first `n` calls that calls `r`, a receiver
/// other than the gateway `gateway`.
pub open spec fn call_issues(calls: Seq<Call>, r: Seq<char>, gateway: Seq<char>, n: int) -> Seq<IssueView>
    decreases n,
{
    if n <= 0 {
        seq![]
    } else {
        call_issues(calls, r, gateway, n - 1) + if calls[n - 1].0 == r {
            seq![error_view(calls[n - 1].1, calls[n - 1].2 as int, 1, RULE@, MSG_A@ + r + MSG_B@ + gateway + MSG_C@)]
        } else {
            seq![]
        }
    }
}

/// The issues for the first `m` receivers: every call of a receiver other
/// than the gateway.
pub open spec fn receivers_issues(receivers: Seq<Seq<char>>, calls: Seq<Call>, gateway: Seq<char>, m: int) -> Seq<IssueView>
    decreases m,
{
    if m <= 0 {
        seq![]
    } else {
        receivers_issues(receivers, calls, gateway, m - 1) + if receivers[m - 1] == gateway {
            seq![]
        } else {
            call_issues(calls, receivers[m - 1], gateway, calls.len() as int)
        }
    }
}

/// The issues of a project: when callbacks call two or more gateway objects,
/// the one called most (the first called, among equals) is the gateway, and
/// every call of another object is an issue, object by object in order of
/// first call.
pub open spec fn spec_check_tree(files: Seq<SourceFileView>) -> Seq<IssueView> {
    let calls = files_calls(files, files.len() as int);
    let receivers = receivers_upto(calls, calls.len() as int);
    if receivers.len() <= 1 {
        seq![]
    } else {
        let gateway = receivers[dominant_upto(receivers, calls, receivers.len() as int)];
        receivers_issues(receivers, calls, gateway, receivers.len() as int)
    }
}

/// Whether `r` is a language or style object.
fn builtin_receiver(r: &str) -> (b: bool)
    ensures
        b == is_builtin_receiver(r@),
{
    str_eq(r, "Math") || str_eq(r, "Colors") || str_eq(r, "Palette") || str_eq(r, "Theme") || str_eq(
        r,
        "StyleMetrics",
    ) || str_eq(r, "TextInputInterface")
}

/// The regular expressions of the single-gateway check, compiled once.
pub struct Searchers {
    pub bridge_call: Searcher,
    pub cb_start: Searcher,
}

impl Searchers {
    /// Each searcher was compiled from its pattern.
    pub open spec fn wf(&self) -> bool {
        &&& self.bridge_call@ == BRIDGE_CALL@
        &&& self.cb_start@ == CB_START@
    }

    /// Compiles the patterns of the single-gateway check.
    pub fn new() -> (r: Self)
        ensures
            r.wf(),
    {
        Searchers { bridge_call: Searcher::new(BRIDGE_CALL), cb_start: Searcher::new(CB_START) }
    }
}

/// Appends the gateway calls of body line `line` (number `lineno` of file
/// `path`), given the capture groups of each object-call match on it.
pub fn push_line_calls(
    path: &str,
    lineno: usize,
    line: &str,
    caps: &Vec<Vec<Option<Span>>>,
    calls: &mut Vec<(String, String, usize)>,
)
    requires
        forall|j: int| 0 <= j < caps@.len() ==> captures_wf(line.spec_bytes(), #[trigger] caps.deep_view()[j]),
    ensures
        final(calls).deep_view() == old(calls).deep_view() + line_calls(path@, lineno, line.spec_bytes(), caps.deep_view(), caps@.len() as int),
{
    let ghost cv = caps.deep_view();
    let mut k: usize = 0;
    assert(calls.deep_view() =~= old(calls).deep_view() + line_calls(path@, lineno, line.spec_bytes(), cv, 0));
    while k < caps.len()
        invariant
            k <= caps@.len(),
            cv == caps.deep_view(),
            forall|j: int| 0 <= j < caps@.len() ==> captures_wf(line.spec_bytes(), #[trigger] caps.deep_view()[j]),
            calls.deep_view() == old(calls).deep_view() + line_calls(path@, lineno, line.spec_bytes(), cv, k as int),
        decreases caps.len() - k,
    {
        let cap = &caps[k];
        assert(cv[k as int] == cap@);
        assert(captures_wf(line.spec_bytes(), cap@));
        let ghost prev = calls.deep_view();
        if cap.len() > 1 && cap[1].is_some() {
            let sp: Span = cap[1].unwrap();
            assert(cap@[1] matches Some(x) ==> span_in(line.spec_bytes(), x));
            let receiver = substr(line, sp.0, sp.1);
            if !builtin_receiver(receiver) {
                calls.push((receiver.to_owned(), path.to_owned(), lineno));
                assert(calls.deep_view() =~= prev + seq![(receiver@, path@, lineno)]);
            } else {
                assert(calls.deep_view() =~= prev + Seq::<Call>::empty());
            }
        } else {
            assert(calls.deep_view() =~= prev + Seq::<Call>::empty());
        }
        k = k + 1;
    }
}

/// Appends the gateway calls of a file.
fn push_file_calls(file: &SourceFile, s: &Searchers, calls: &mut Vec<(String, String, usize)>)
    requires
        s.wf(),
    ensures
        final(calls).deep_view() == old(calls).deep_view() + file_calls(file@),
{
    if !has_slint_extension(file.path.as_str()) {
        assert(calls.deep_view() =~= old(calls).deep_view() + Seq::<Call>::empty());
        return;
    }
    let lines = split_lines(file.content.as_str());
    let ls = lines.as_slice();
    assert(ls.deep_view() =~= lines.deep_view());
    let cbs = extract_callbacks_with(ls, &s.cb_start);
    let ghost cv = cbs.deep_view();
    let ghost path = file.path@;
    let mut c: usize = 0;
    assert(calls.deep_view() =~= old(calls).deep_view() + callbacks_calls(path, cv, 0));
    while c < cbs.len()
        invariant
            c <= cbs@.len(),
            cv == cbs.deep_view(),
            path == file.path@,
            s.wf(),
            calls.deep_view() == old(calls).deep_view() + callbacks_calls(path, cv, c as int),
        decreases cbs.len() - c,
    {
        let body = &cbs[c].body;
        assert(cv[c as int].body == body.deep_view());
        let ghost bv = body.deep_view();
        let ghost mid = calls.deep_view();
        let mut k: usize = 0;
        assert(calls.deep_view() =~= mid + body_calls(path, bv, 0));
        while k < body.len()
            invariant
                k <= body@.len(),
                bv == body.deep_view(),
                path == file.path@,
                s.wf(),
                calls.deep_view() == mid + body_calls(path, bv, k as int),
            decreases body.len() - k,
        {
            assert(bv[k as int] == (body@[k as int].0, body@[k as int].1@));
            let ghost before = calls.deep_view();
            let caps = s.bridge_call.captures_all(body[k].1.as_str());
            push_line_calls(file.path.as_str(), body[k].0, body[k].1.as_str(), &caps, calls);
            assert(calls.deep_view() =~= mid + body_calls(path, bv, k + 1));
            k = k + 1;
        }
        assert(calls.deep_view() =~= old(calls).deep_view() + callbacks_calls(path, cv, c + 1));
        c = c + 1;
    }
}


/// The gateway calls of all files, in order.
pub fn collect_calls(files: &[SourceFile], s: &Searchers) -> (r: Vec<(String, String, usize)>)
    requires
        s.wf(),
    ensures
        r.deep_view() == files_calls(files.deep_view(), files@.len() as int),
{
    let ghost fv = files.deep_view();
    let mut calls: Vec<(String, String, usize)> = Vec::new();
    let mut i: usize = 0;
    assert(calls.deep_view() =~= files_calls(fv, 0));
    while i < files.len()
        invariant
            i <= files@.len(),
            fv == files.deep_view(),
            s.wf(),
            calls.deep_view() == files_calls(fv, i as int),
        decreases files.len() - i,
    {
        assert(fv[i as int] == files@[i as int]@);
        push_file_calls(&files[i], s, &mut calls);
        i = i + 1;
    }
    calls
}

/// No receiver is listed twice.
pub proof fn lemma_receivers_distinct(calls: Seq<Call>, n: int)
    ensures
        forall|a: int, b: int|
            0 <= a < b < receivers_upto(calls, n).len() ==> receivers_upto(calls, n)[a] != receivers_upto(calls, n)[b],
    decreases n,
{
    if n > 0 {
        lemma_receivers_distinct(calls, n - 1);
        let d = receivers_upto(calls, n - 1);
        let x = calls[n - 1].0;
        if !d.contains(x) {
            let e = d.push(x);
            assert forall|a: int, b: int| 0 <= a < b < e.len() implies e[a] != e[b] by {
                if b == d.len() {
                    assert(!(d[a] == x));
                }
            }
        }
    }
}

/// A receiver not among those of the first `n` calls was not called by them.
pub proof fn lemma_count_absent(calls: Seq<Call>, r: Seq<char>, n: int)
    requires
        !receivers_upto(calls, n).contains(r),
    ensures
        call_count(calls, r, n) == 0,
    decreases n,
{
    if n > 0 {
        let d = receivers_upto(calls, n - 1);
        if !d.contains(calls[n - 1].0) {
            assert(receivers_upto(calls, n)[d.len() as int] == calls[n - 1].0);
        }
        assert(!d.contains(r)) by {
            if d.contains(r) {
                let k = choose|k: int| 0 <= k < d.len() && d[k] == r;
                assert(receivers_upto(calls, n)[k] == r);
            }
        }
        lemma_count_absent(calls, r, n - 1);
    }
}

proof fn lemma_count_bound(calls: Seq<Call>, r: Seq<char>, n: int)
    requires
        0 <= n,
    ensures
        0 <= call_count(calls, r, n) <= n,
    decreases n,
{
    if n > 0 {
        lemma_count_bound(calls, r, n - 1);
    }
}

/// The index of `r` among `names`.
fn find_name(names: &Vec<String>, r: &str) -> (k: Option<usize>)
    ensures
        match k {
            Some(k) => k < names@.len() && names.deep_view()[k as int] == r@,
            None => !names.deep_view().contains(r@),
        },
{
    let mut k: usize = 0;
    while k < names.len()
        invariant
            k <= names@.len(),
            forall|j: int| 0 <= j < k ==> names.deep_view()[j] != r@,
        decreases names.len() - k,
    {
        assert(names.deep_view()[k as int] == names@[k as int]@);
        if str_eq(names[k].as_str(), r) {
            return Some(k);
        }
        k = k + 1;
    }
    None
}

/// The receivers in order of first call, and how often each is called.
/// They are kept in a list rather than a hash map so that the gateway among
/// equally called receivers, and the order of the issues, do not depend on a
/// hash map's iteration order.
fn receiver_counts(calls: &Vec<(String, String, usize)>) -> (r: (Vec<String>, Vec<usize>))
    ensures
        r.0.deep_view() == receivers_upto(calls.deep_view(), calls@.len() as int),
        r.1@.len() == r.0@.len(),
        forall|k: int| 0 <= k < r.1@.len() ==> r.1@[k] == call_count(calls.deep_view(), #[trigger] r.0.deep_view()[k], calls@.len() as int),
{
    let ghost cv = calls.deep_view();
    let mut names: Vec<String> = Vec::new();
    let mut counts: Vec<usize> = Vec::new();
    let mut i: usize = 0;
    assert(names.deep_view() =~= receivers_upto(cv, 0));
    while i < calls.len()
        invariant
            i <= calls@.len(),
            cv == calls.deep_view(),
            names.deep_view() == receivers_upto(cv, i as int),
            counts@.len() == names@.len(),
            forall|k: int| 0 <= k < counts@.len() ==> counts@[k] == call_count(cv, #[trigger] names.deep_view()[k], i as int),
        decreases calls.len() - i,
    {
        let r = calls[i].0.as_str();
        assert(cv[i as int].0 == r@);
        let ghost old_names = names.deep_view();
        let ghost old_counts = counts@;
        proof {
            assert forall|k: int| 0 <= k < counts@.len() implies counts@[k] <= i by {
                lemma_count_bound(cv, names.deep_view()[k], i as int);
            }
        }
        match find_name(&names, r) {
            Some(k) => {
                let c = counts[k];
                counts.set(k, c + 1);
                assert(old_names.contains(r@));
                proof {
                    lemma_receivers_distinct(cv, i as int);
                }
                assert forall|j: int| 0 <= j < counts@.len() implies counts@[j] == call_count(cv, #[trigger] names.deep_view()[j], i + 1) by {
                    if j != k {
                        assert(counts@[j] == old_counts[j]);
                        assert(names.deep_view()[j] != names.deep_view()[k as int]);
                    }
                }
            },
            None => {
                proof {
                    lemma_count_absent(cv, r@, i as int);
                }
                names.push(r.to_owned());
                counts.push(1);
                assert(names.deep_view() =~= old_names.push(r@));
                assert forall|j: int| 0 <= j < counts@.len() implies counts@[j] == call_count(cv, #[trigger] names.deep_view()[j], i + 1) by {
                    if j < old_counts.len() {
                        assert(names.deep_view()[j] == old_names[j]);
                        assert(old_names[j] != r@);
                    }
                }
            },
        }
        i = i + 1;
    }
    (names, counts)
}

/// The index of the first receiver called most.
fn dominant_index(names: &Vec<String>, counts: &Vec<usize>, calls: Ghost<Seq<Call>>) -> (d: usize)
    requires
        counts@.len() == names@.len() >= 1,
        forall|k: int| 0 <= k < counts@.len() ==> counts@[k] == call_count(calls@, #[trigger] names.deep_view()[k], calls@.len() as int),
    ensures
        d < names@.len(),
        d == dominant_upto(names.deep_view(), calls@, names@.len() as int),
{
    let ghost nv = names.deep_view();
    let mut d: usize = 0;
    let mut m: usize = 1;
    while m < counts.len()
        invariant
            1 <= m <= counts@.len(),
            counts@.len() == names@.len(),
            nv == names.deep_view(),
            d < m,
            d == dominant_upto(nv, calls@, m as int),
            forall|k: int| 0 <= k < counts@.len() ==> counts@[k] == call_count(calls@, #[trigger] nv[k], calls@.len() as int),
        decreases counts.len() - m,
    {
        assert(counts@[m as int] == call_count(calls@, nv[m as int], calls@.len() as int));
        assert(counts@[d as int] == call_count(calls@, nv[d as int], calls@.len() as int));
        if counts[m] > counts[d] {
            d = m;
        }
        m = m + 1;
    }
    d
}

/// The issues for the gateway calls `calls` (object, file, line), in order:
/// when two or more objects are called, every call of an object other than
/// the one called most (the first called, among equals).
pub fn gateway_issues(calls: &Vec<(String, String, usize)>) -> (r: Vec<Issue>)
    ensures
        r.deep_view() == ({
            let cv = calls.deep_view();
            let receivers = receivers_upto(cv, cv.len() as int);
            if receivers.len() <= 1 {
                Seq::<IssueView>::empty()
            } else {
                receivers_issues(receivers, cv, receivers[dominant_upto(receivers, cv, receivers.len() as int)], receivers.len() as int)
            }
        }),
{
    let ghost cv = calls.deep_view();
    let (names, counts) = receiver_counts(calls);
    let ghost nv = names.deep_view();
    let mut issues: Vec<Issue> = Vec::new();
    if names.len() <= 1 {
        assert(issues.deep_view() =~= Seq::<IssueView>::empty());
        return issues;
    }
    let d = dominant_index(&names, &counts, Ghost(cv));
    let dominant = names[d].as_str();
    assert(nv[d as int] == dominant@);
    let mut k: usize = 0;
    assert(issues.deep_view() =~= receivers_issues(nv, cv, dominant@, 0));
    while k < names.len()
        invariant
            k <= names@.len(),
            nv == names.deep_view(),
            cv == calls.deep_view(),
            issues.deep_view() == receivers_issues(nv, cv, dominant@, k as int),
        decreases names.len() - k,
    {
        let receiver = names[k].as_str();
        assert(nv[k as int] == receiver@);
        if !str_eq(receiver, dominant) {
            let ghost mid = issues.deep_view();
            let mut i: usize = 0;
            assert(issues.deep_view() =~= mid + call_issues(cv, receiver@, dominant@, 0));
            while i < calls.len()
                invariant
                    i <= calls@.len(),
                    cv == calls.deep_view(),
                    issues.deep_view() == mid + call_issues(cv, receiver@, dominant@, i as int),
                decreases calls.len() - i,
            {
                assert(cv[i as int] == (calls@[i as int].0@, calls@[i as int].1@, calls@[i as int].2));
                let ghost before = issues.deep_view();
                if str_eq(calls[i].0.as_str(), receiver) {
                    let msg = join5(MSG_A, receiver, MSG_B, dominant, MSG_C);
                    let iss = Issue::error(calls[i].1.as_str(), calls[i].2, 1, RULE, msg);
                    assert(iss@ == error_view(cv[i as int].1, cv[i as int].2 as int, 1, RULE@, MSG_A@ + receiver@ + MSG_B@ + dominant@ + MSG_C@));
                    issues.push(iss);
                    assert(issues.deep_view() =~= before.push(iss@));
                } else {
                    assert(issues.deep_view() =~= before);
                }
                assert(issues.deep_view() =~= mid + call_issues(cv, receiver@, dominant@, i + 1));
                i = i + 1;
            }
        }
        assert(issues.deep_view() =~= receivers_issues(nv, cv, dominant@, k + 1));
        k = k + 1;
    }
    issues
}

/// Scan the entire project tree for callbacks delegating to multiple gateways — emit issues if 2+ different gateway objects are used.
pub fn check_tree(files: &[SourceFile]) -> (r: Vec<Issue>)
    ensures
        r.deep_view() == spec_check_tree(files.deep_view()),
{
    check_tree_with(files, &Searchers::new())
}

/// [`check_tree`], with the patterns compiled beforehand.
pub fn check_tree_with(files: &[SourceFile], s: &Searchers) -> (r: Vec<Issue>)
    requires
        s.wf(),
    ensures
        r.deep_view() == spec_check_tree(files.deep_view()),
{
    let calls = collect_calls(files, s);
    gateway_issues(&calls)
}

} // verus!
