//! What the scanners know about the file they scan.

use vstd::prelude::*;
use vstd::utf8::*;
use vstd::string::StringSliceAdditionalSpecFns;

use crate::text::{
    contains, contains_bytes, find_bytes, find_from, lemma_ascii_byte_boundary, lemma_ascii_str, lemma_find_from,
    starts_with, trim_start_at, trim_start_bytes, trim_start_index, slice_text, substr, count_byte,
    count_byte_from,
};
use crate::pattern::{captures_wf, first_captures, span_in, Searcher, Span};

verus! {

broadcast use {vstd::seq_lib::group_seq_properties, vstd::utf8::encode_utf8_decode_utf8, vstd::utf8::encode_utf8_valid_utf8};

/// Shared context for a .slint file being scanned.
pub struct FileContext<'a> {
    /// The file's path, as text.
    pub path: &'a str,
    pub is_definition_file: bool,
    pub is_mother: bool,
    pub is_global_file: bool,
    pub is_views_folder: bool,
}

/// `name` is the whole path component that starts at byte `i` of `path`
/// (components are separated by `/`).
pub open spec fn is_component_at(path: Seq<u8>, name: Seq<u8>, i: int) -> bool {
    &&& 0 <= i
    &&& i + name.len() <= path.len()
    &&& (i == 0 || path[i - 1] == 0x2f)
    &&& (i + name.len() == path.len() || path[i + name.len()] == 0x2f)
    &&& path.subrange(i, i + name.len()) == name
}

/// One of the components of `path` is `name`.
pub open spec fn has_component(path: Seq<u8>, name: Seq<u8>) -> bool {
    exists|i: int| is_component_at(path, name, i)
}

/// The path lies in a definition folder (`globals/`, `tokens/`, `theme/` or
/// `state/`): such files are where values are defined.
pub open spec fn spec_is_definition_file(path: Seq<u8>) -> bool {
    ||| has_component(path, "globals".spec_bytes())
    ||| has_component(path, "tokens".spec_bytes())
    ||| has_component(path, "theme".spec_bytes())
    ||| has_component(path, "state".spec_bytes())
}

/// The path lies in a `views/` folder.
pub open spec fn spec_is_views_folder(path: Seq<u8>) -> bool {
    has_component(path, "views".spec_bytes())
}

/// Some line declares a window: it contains `inherits Window`.
pub open spec fn spec_is_mother(lines: Seq<Seq<char>>) -> bool {
    exists|i: int| 0 <= i < lines.len() && contains(encode_utf8(#[trigger] lines[i]), "inherits Window".spec_bytes())
}

/// One of the first 40 lines, leading whitespace removed, starts with
/// `export global `.
pub open spec fn spec_is_global_file(lines: Seq<Seq<char>>) -> bool {
    exists|i: int|
        0 <= i < lines.len() && i < 40 && starts_with(
            trim_start_bytes(encode_utf8(#[trigger] lines[i])),
            "export global ".spec_bytes(),
        )
}

/// Where the comment of a line starts: the first `//`, or the end of the line.
pub open spec fn comment_at(line: Seq<u8>) -> int {
    match find_from(line, "//".spec_bytes(), 0) {
        Some(k) => k,
        None => line.len() as int,
    }
}

/// The line, leading whitespace removed, starts with `//`.
pub open spec fn is_comment_line(line: Seq<u8>) -> bool {
    starts_with(trim_start_bytes(line), "//".spec_bytes())
}

/// Whether one of the components of `path` is `name`.
fn has_component_exec(path: &[u8], name: &[u8]) -> (r: bool)
    ensures
        r == has_component(path@, name@),
{
    let n = name.len();
    if n > path.len() {
        return false;
    }
    let mut i: usize = 0;
    while i <= path.len() - n
        invariant
            n == name.len() <= path.len(),
            forall|j: int| 0 <= j < i ==> !is_component_at(path@, name@, j),
        decreases path.len() - n + 1 - i,
    {
        let starts = i == 0 || path[i - 1] == 0x2f;
        let ends = i + n == path.len() || path[i + n] == 0x2f;
        if starts && ends {
            let mut j: usize = 0;
            let mut same = true;
            while j < n
                invariant
                    j <= n == name.len(),
                    i + n <= path.len(),
                    same <==> forall|t: int| 0 <= t < j ==> path@[i + t] == name@[t],
                decreases n - j,
            {
                if path[i + j] != name[j] {
                    same = false;
                }
                j = j + 1;
            }
            if same {
                assert(path@.subrange(i as int, i + n) =~= name@);
                assert(is_component_at(path@, name@, i as int));
                return true;
            }
            assert(path@.subrange(i as int, i + n) != name@) by {
                let t = choose|t: int| 0 <= t < n && path@[i + t] != name@[t];
                assert(path@.subrange(i as int, i + n)[t] != name@[t]);
            }
        }
        if i == path.len() - n {
            return false;
        }
        i = i + 1;
    }
    false
}

/// Whether the path lies in a definition folder.
pub fn is_definition_file(path: &str) -> (r: bool)
    ensures
        r == spec_is_definition_file(path.spec_bytes()),
{
    let b = path.as_bytes();
    has_component_exec(b, "globals".as_bytes()) || has_component_exec(b, "tokens".as_bytes())
        || has_component_exec(b, "theme".as_bytes()) || has_component_exec(b, "state".as_bytes())
}

/// Whether the path lies in a `views/` folder.
pub fn is_views_folder(path: &str) -> (r: bool)
    ensures
        r == spec_is_views_folder(path.spec_bytes()),
{
    has_component_exec(path.as_bytes(), "views".as_bytes())
}

/// Whether some line contains `inherits Window`.
pub fn is_mother(lines: &[&str]) -> (r: bool)
    ensures
        r == spec_is_mother(lines.deep_view()),
{
    let needle = "inherits Window".as_bytes();
    let mut i: usize = 0;
    while i < lines.len()
        invariant
            i <= lines.len(),
            needle@ == "inherits Window".spec_bytes(),
            forall|j: int| 0 <= j < i ==> !contains(encode_utf8(#[trigger] lines.deep_view()[j]), needle@),
        decreases lines.len() - i,
    {
        if contains_bytes(lines[i].as_bytes(), needle) {
            assert(contains(encode_utf8(lines.deep_view()[i as int]), needle@));
            return true;
        }
        i = i + 1;
    }
    false
}

/// Whether the line, leading whitespace removed, starts with `prefix`.
pub fn trimmed_starts_with(line: &str, prefix: &str) -> (r: bool)
    ensures
        r == starts_with(trim_start_bytes(line.spec_bytes()), prefix.spec_bytes()),
{
    let b = line.as_bytes();
    let p = prefix.as_bytes();
    let a = trim_start_index(b);
    if p.len() > b.len() - a {
        return false;
    }
    let mut j: usize = 0;
    while j < p.len()
        invariant
            a <= b.len(),
            b@ == line.spec_bytes(),
            p@ == prefix.spec_bytes(),
            j <= p.len() <= b.len() - a,
            a == trim_start_at(b@),
            forall|t: int| 0 <= t < j ==> b@[a + t] == p@[t],
        decreases p.len() - j,
    {
        if b[a + j] != p[j] {
            assert(trim_start_bytes(b@).subrange(0, p@.len() as int)[j as int] != p@[j as int]);
            assert(trim_start_bytes(b@).subrange(0, p@.len() as int) != p@);
            return false;
        }
        j = j + 1;
    }
    assert(trim_start_bytes(b@).subrange(0, p@.len() as int) =~= p@);
    true
}

/// Whether one of the first 40 lines starts, after leading whitespace, with
/// `export global `.
pub fn is_global_file(lines: &[&str]) -> (r: bool)
    ensures
        r == spec_is_global_file(lines.deep_view()),
{
    let mut i: usize = 0;
    while i < lines.len() && i < 40
        invariant
            i <= lines.len(),
            i <= 40,
            forall|j: int|
                0 <= j < i ==> !starts_with(
                    trim_start_bytes(encode_utf8(#[trigger] lines.deep_view()[j])),
                    "export global ".spec_bytes(),
                ),
        decreases lines.len() - i,
    {
        if trimmed_starts_with(lines[i], "export global ") {
            assert(lines.deep_view()[i as int] == lines@[i as int]@);
            return true;
        }
        i = i + 1;
    }
    false
}

impl<'a> FileContext<'a> {
    /// Create a new FileContext for a .slint file being scanned, detecting its role and folder.
    pub fn new(path: &'a str, lines: &[&str]) -> (r: Self)
        ensures
            r.path == path,
            r.is_definition_file == spec_is_definition_file(path.spec_bytes()),
            r.is_mother == spec_is_mother(lines.deep_view()),
            r.is_global_file == spec_is_global_file(lines.deep_view()),
            r.is_views_folder == spec_is_views_folder(path.spec_bytes()),
    {
        FileContext {
            path,
            is_definition_file: is_definition_file(path),
            is_mother: is_mother(lines),
            is_global_file: is_global_file(lines),
            is_views_folder: is_views_folder(path),
        }
    }
}

/// Find comment start position on a line.
pub fn comment_start(line: &str) -> (r: usize)
    ensures
        r == comment_at(line.spec_bytes()),
        r <= line.spec_bytes().len(),
        is_char_boundary(line.spec_bytes(), r as int),
{
    let b = line.as_bytes();
    let needle = "//".as_bytes();
    let found = find_bytes(b, needle, 0);
    proof {
        broadcast use is_char_boundary_start_end_of_seq;
        lemma_find_from(b@, needle@, 0);
    }
    match found {
        Some(k) => {
            proof {
                reveal_strlit("//");
                lemma_ascii_str("//");
                assert(b@.subrange(k as int, k + needle@.len())[0] == b@[k as int]);
                lemma_ascii_byte_boundary(b@, k as int);
            }
            k
        },
        None => b.len(),
    }
}


/// The code lines of a file: every line that is not a full-line comment, as
/// `(line number, line, line without its comment)`; the first `n` lines.
pub open spec fn code_lines_upto(lines: Seq<Seq<char>>, n: int) -> Seq<(usize, Seq<char>, Seq<char>)>
    decreases n,
{
    if n <= 0 {
        seq![]
    } else {
        let prev = code_lines_upto(lines, n - 1);
        let b = encode_utf8(lines[n - 1]);
        if is_comment_line(b) {
            prev
        } else {
            prev.push((n as usize, lines[n - 1], slice_text(b, 0, comment_at(b))))
        }
    }
}

/// The code lines of a whole file.
pub open spec fn spec_code_lines(lines: Seq<Seq<char>>) -> Seq<(usize, Seq<char>, Seq<char>)> {
    code_lines_upto(lines, lines.len() as int)
}

/// Meaningful lines — skips full-line comments, yields `(lineno, raw, segment)`
/// where `segment` is `raw` with any inline comment stripped.
pub fn code_lines<'a>(lines: &'a [&'a str]) -> (r: Vec<(usize, &'a str, &'a str)>)
    ensures
        r.deep_view() == spec_code_lines(lines.deep_view()),
{
    let mut out: Vec<(usize, &'a str, &'a str)> = Vec::new();
    let mut i: usize = 0;
    while i < lines.len()
        invariant
            i <= lines.len(),
            out.deep_view() == code_lines_upto(lines.deep_view(), i as int),
        decreases lines.len() - i,
    {
        let raw = lines[i];
        let ghost prev = out.deep_view();
        if !trimmed_starts_with(raw, "//") {
            let c = comment_start(raw);
            proof {
                broadcast use is_char_boundary_start_end_of_seq;
            }
            let seg = substr(raw, 0, c);
            out.push((i + 1, raw, seg));
            assert(out.deep_view() =~= prev.push(((i + 1) as usize, raw@, seg@)));
        }
        assert(lines.deep_view()[i as int] == raw@);
        i = i + 1;
    }
    out
}

// ── Callback extraction ───────────────────────────────────────────────────────

/// Where a callback or event handler block opens: `name => {` or
/// `name(args) => {`.
pub const CB_START: &'static str = r"([\w-]+)\s*(?:\([^)]*\))?\s*=>\s*\{";

/// A parsed callback/event handler block from a .slint file.
pub struct Callback {
    pub start_line: usize,
    pub name: String,
    /// `(lineno, line content)`
    pub body: Vec<(usize, String)>,
}

/// The mathematical value of a [`Callback`].
pub struct CallbackView {
    pub start_line: usize,
    pub name: Seq<char>,
    pub body: Seq<(usize, Seq<char>)>,
}

impl View for Callback {
    type V = CallbackView;

    open spec fn view(&self) -> CallbackView {
        CallbackView { start_line: self.start_line, name: self.name@, body: self.body.deep_view() }
    }
}

impl DeepView for Callback {
    type V = CallbackView;

    open spec fn deep_view(&self) -> CallbackView {
        self@
    }
}

/// How much a line changes the brace depth: its `{` less its `}`.
pub open spec fn brace_delta(b: Seq<u8>) -> int {
    count_byte(b, 0x7b) - count_byte(b, 0x7d)
}

/// The body of a callback whose block is open at depth `depth` before line
/// index `j`: each following line changes the depth, and the lines after
/// which it is still positive belong to the body; the scan stops after the
/// line that closes the block (or at the end of the file). Also returns the
/// index of the line after the last one scanned.
pub open spec fn body_from(lines: Seq<Seq<char>>, j: int, depth: int) -> (Seq<(usize, Seq<char>)>, int)
    decreases lines.len() - j,
{
    if 0 <= j < lines.len() && depth > 0 {
        let d2 = depth + brace_delta(encode_utf8(lines[j]));
        let (rest, next) = body_from(lines, j + 1, d2);
        (if d2 > 0 { seq![((j + 1) as usize, lines[j])] + rest } else { rest }, next)
    } else {
        (seq![], j)
    }
}

pub proof fn lemma_body_from_next(lines: Seq<Seq<char>>, j: int, depth: int)
    requires
        0 <= j,
    ensures
        j <= body_from(lines, j, depth).1,
        body_from(lines, j, depth).1 <= lines.len() || body_from(lines, j, depth).1 == j,
    decreases lines.len() - j,
{
    if 0 <= j < lines.len() && depth > 0 {
        let d2 = depth + brace_delta(encode_utf8(lines[j]));
        lemma_body_from_next(lines, j + 1, d2);
    }
}

/// The capture groups as plain values.
pub open spec fn groups_view(caps: Option<Vec<Option<Span>>>) -> Option<Seq<Option<Span>>> {
    match caps {
        Some(g) => Some(g@),
        None => None,
    }
}

/// The name and opening depth of a callback on line `raw` whose
/// callback-start match has the capture groups `caps`: the name is group 1,
/// and the depth is one more than the `{` less the `}` after the match.
pub open spec fn opening_from(raw: Seq<char>, caps: Option<Seq<Option<Span>>>) -> Option<(Seq<char>, int)> {
    let b = encode_utf8(raw);
    match caps {
        Some(g) => if g.len() > 1 && g[1] is Some {
            let name_span = g[1]->0;
            let whole = g[0]->0;
            let name = slice_text(b, name_span.0 as int, name_span.1 as int);
            let after = b.subrange(whole.1 as int, b.len() as int);
            Some((name, 1 + brace_delta(after)))
        } else {
            None
        },
        None => None,
    }
}

/// The name and opening depth of a callback that opens on line `raw`, if one does.
pub open spec fn callback_opening(raw: Seq<char>) -> Option<(Seq<char>, int)> {
    opening_from(raw, first_captures(CB_START@, raw))
}

/// The callbacks found from line index `i` on: a line where a callback opens
/// starts one; when the opening line leaves the block closed, the body is
/// that line alone; otherwise the body is scanned with [`body_from`] and the
/// search resumes after the closing line.
pub open spec fn callbacks_from(lines: Seq<Seq<char>>, i: int) -> Seq<CallbackView>
    decreases lines.len() - i,
{
    if i < 0 || i >= lines.len() {
        seq![]
    } else {
        match callback_opening(lines[i]) {
            Some((name, depth)) => if depth <= 0 {
                seq![CallbackView { start_line: (i + 1) as usize, name, body: seq![((i + 1) as usize, lines[i])] }]
                    + callbacks_from(lines, i + 1)
            } else {
                let (body, next) = body_from(lines, i + 1, depth);
                proof {
                    lemma_body_from_next(lines, i + 1, depth);
                }
                seq![CallbackView { start_line: (i + 1) as usize, name, body }] + callbacks_from(lines, next)
            },
            None => callbacks_from(lines, i + 1),
        }
    }
}

/// The callback, if any, that opens on line `raw`, given the capture groups
/// of the callback-start match on it: its name, and the `{` and `}` after
/// the match.
pub fn opening_of(raw: &str, caps: &Option<Vec<Option<Span>>>) -> (r: Option<(String, usize, usize)>)
    requires
        caps matches Some(g) ==> captures_wf(raw.spec_bytes(), g@),
    ensures
        r is Some == opening_from(raw@, groups_view(*caps)) is Some,
        r matches Some(o) ==> opening_from(raw@, groups_view(*caps)) == Some((o.0@, 1 + o.1 - o.2)),
{
    let rb = raw.as_bytes();
    match caps {
        Some(g) => {
            if g.len() > 1 && g[1].is_some() {
                let name_span: Span = g[1].unwrap();
                let whole: Span = g[0].unwrap();
                assert(g@[1] matches Some(sp) ==> span_in(rb@, sp));
                assert(g@[0] matches Some(sp) ==> span_in(rb@, sp));
                let name = substr(raw, name_span.0, name_span.1).to_owned();
                let opens = count_byte_from(rb, whole.1, 0x7b);
                let closes = count_byte_from(rb, whole.1, 0x7d);
                Some((name, opens, closes))
            } else {
                None
            }
        },
        None => None,
    }
}

/// Extract all callback blocks from a .slint file's lines.
/// Shared between `checks::events` (body complexity) and `checks::architecture` (gateway detection).
pub fn extract_callbacks(lines: &[&str]) -> (r: Vec<Callback>)
    ensures
        r.deep_view() == callbacks_from(lines.deep_view(), 0),
{
    extract_callbacks_with(lines, &Searcher::new(CB_START))
}

/// [`extract_callbacks`], searching for callback starts with `cb_start`,
/// compiled from [`CB_START`].
pub fn extract_callbacks_with(lines: &[&str], cb_start: &Searcher) -> (r: Vec<Callback>)
    requires
        cb_start@ == CB_START@,
    ensures
        r.deep_view() == callbacks_from(lines.deep_view(), 0),
{
    let ghost ls = lines.deep_view();
    let mut results: Vec<Callback> = Vec::new();
    let mut i: usize = 0;
    while i < lines.len()
        invariant
            i <= lines.len(),
            ls == lines.deep_view(),
            cb_start@ == CB_START@,
            results.deep_view() + callbacks_from(ls, i as int) == callbacks_from(ls, 0),
        decreases lines.len() - i,
    {
        let raw = lines[i];
        assert(ls[i as int] == raw@);
        let caps = cb_start.captures_first(raw);
        match opening_of(raw, &caps) {
            Some((cb_name, opens, closes)) => {
                let start_ln = i + 1;
                let ghost depth0 = 1 + opens - closes;
                assert(callback_opening(ls[i as int]) == Some((cb_name@, depth0)));
                if (closes as u128) >= (opens as u128) + 1 {
                    let mut body: Vec<(usize, String)> = Vec::new();
                    body.push((i + 1, raw.to_owned()));
                    let cb = Callback { start_line: start_ln, name: cb_name, body };
                    let ghost prev = results.deep_view();
                    results.push(cb);
                    proof {
                        assert(cb.body.deep_view() =~= seq![((i + 1) as usize, ls[i as int])]);
                        assert(results.deep_view() =~= prev.push(cb@));
                        assert(callbacks_from(ls, i as int) == seq![cb@] + callbacks_from(ls, i + 1));
                        assert(results.deep_view() + callbacks_from(ls, i + 1) =~= prev + callbacks_from(ls, i as int));
                    }
                    i = i + 1;
                    continue;
                }
                let mut body: Vec<(usize, String)> = Vec::new();
                let mut total_open: u128 = 1 + opens as u128;
                let mut total_close: u128 = closes as u128;
                let ghost j0 = (i + 1) as int;
                i = i + 1;
                while i < lines.len() && total_open > total_close
                    invariant
                        1 <= j0 <= i <= lines.len(),
                        ls == lines.deep_view(),
                        total_open <= 1 + (i - j0 + 1) * 0xffff_ffff_ffff_ffffu128,
                        total_close <= (i - j0 + 1) * 0xffff_ffff_ffff_ffffu128,
                        i - j0 + 1 <= 0xffff_ffff_ffff_ffff,
                        body.deep_view() + body_from(ls, i as int, total_open - total_close).0
                            == body_from(ls, j0, depth0).0,
                        body_from(ls, i as int, total_open - total_close).1 == body_from(ls, j0, depth0).1,
                    decreases lines.len() - i,
                {
                    let lb = lines[i].as_bytes();
                    assert(ls[i as int] == lines@[i as int]@);
                    let o = count_byte_from(lb, 0, 0x7b);
                    let c = count_byte_from(lb, 0, 0x7d);
                    assert(lb@.subrange(0, lb@.len() as int) =~= lb@);
                    let ghost d = total_open - total_close;
                    total_open = total_open + o as u128;
                    total_close = total_close + c as u128;
                    let ghost prevb = body.deep_view();
                    if total_open > total_close {
                        body.push((i + 1, lines[i].to_owned()));
                        assert(body.deep_view() =~= prevb.push(((i + 1) as usize, ls[i as int])));
                    }
                    i = i + 1;
                }
                let cb = Callback { start_line: start_ln, name: cb_name, body };
                let ghost prev = results.deep_view();
                results.push(cb);
                proof {
                    assert(results.deep_view() =~= prev.push(cb@));
                }
                continue;
            },
            None => {},
        }
        i = i + 1;
    }
    results
}

} // verus!
