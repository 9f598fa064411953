//! Mother-child architecture checks — uiux/mother-child.md
//!
//! VITAL: Only the mother (inherits Window) may own state.
//! BANNED: in-out property in child components (except <=> delegation).
//! BANNED: View importing a sibling view (views/ folder).

use vstd::prelude::*;
use vstd::utf8::*;
use vstd::string::StringSliceAdditionalSpecFns;

use crate::context::{groups_view, is_comment_line, trimmed_starts_with, FileContext};
use crate::issue::{error_view, Issue, IssueView};
use crate::pattern::{captures_wf, first_captures, is_match, span_in, Searcher, Span};
use crate::text::{byte_len, join3, starts_with, starts_with_bytes, substr};

verus! {

broadcast use {vstd::seq_lib::group_seq_properties, vstd::utf8::encode_utf8_decode_utf8, vstd::utf8::encode_utf8_valid_utf8};

pub const RULE_BASE: &'static str = "uiux/mother-child";

pub const RULE_CHILD_HAS_STATE: &'static str = "uiux/mother-child/child-has-state";

pub const RULE_SIBLING_IMPORT: &'static str = "uiux/mother-child/sibling-import";

/// An `in-out property` declaration.
pub const IN_OUT_PROP: &'static str = r"^\s*in-out\s+property\b";

/// A two-way binding, which delegates state rather than owning it.
pub const DELEGATION: &'static str = r"<=>";

/// An import statement and the file it imports.
pub const IMPORT: &'static str = r#"import\s+\{[^}]*\}\s+from\s+"([^"]+)""#;

/// The standard widget library.
pub const STD_IMPORT: &'static str = r"^std-widgets\.slint$";

pub const MSG_CHILD_HAS_STATE: &'static str = "in-out property in child component \u{2014} children must be stateless. Use 'in property' to receive state from mother, 'callback' to emit events up.";

pub const MSG_SIBLING_BEFORE: &'static str = "view imports sibling view '";

pub const MSG_SIBLING_AFTER: &'static str = "' \u{2014} views must not know about each other. Route shared state through mother instead.";

/// The state issue of line index `i`: an `in-out property` without `<=>` on
/// a line that is not a comment.
pub open spec fn state_issue(path: Seq<char>, i: int, raw: Seq<char>) -> Seq<IssueView> {
    if !is_comment_line(encode_utf8(raw)) && is_match(IN_OUT_PROP@, raw) && !is_match(DELEGATION@, raw) {
        seq![error_view(path, i + 1, 1, RULE_CHILD_HAS_STATE@, MSG_CHILD_HAS_STATE@)]
    } else {
        seq![]
    }
}

/// The state issues of the first `n` lines.
pub open spec fn state_issues_upto(path: Seq<char>, lines: Seq<Seq<char>>, n: int) -> Seq<IssueView>
    decreases n,
{
    if n <= 0 {
        seq![]
    } else {
        state_issues_upto(path, lines, n - 1) + state_issue(path, n - 1, lines[n - 1])
    }
}

/// The import issue of line index `i`: the first import on the line, unless
/// it is the standard widget library or a relative path (`../` or `./`).
pub open spec fn import_issue(path: Seq<char>, i: int, raw: Seq<char>) -> Seq<IssueView> {
    import_issue_from(path, i, raw, first_captures(IMPORT@, raw))
}

/// The import issue of line index `i` whose import match, if any, has the
/// capture groups `caps` (1: the imported file).
pub open spec fn import_issue_from(path: Seq<char>, i: int, raw: Seq<char>, caps: Option<Seq<Option<Span>>>) -> Seq<IssueView> {
    let b = encode_utf8(raw);
    match caps {
        Some(g) => if g.len() > 1 && g[1] is Some {
            let sp = g[1]->0;
            let target = b.subrange(sp.0 as int, sp.1 as int);
            let import_path = decode_utf8(target);
            if is_match(STD_IMPORT@, import_path) || starts_with(target, "../".spec_bytes())
                || starts_with(target, "./".spec_bytes()) {
                seq![]
            } else {
                seq![error_view(path, i + 1, sp.0 + 1, RULE_SIBLING_IMPORT@, MSG_SIBLING_BEFORE@ + import_path + MSG_SIBLING_AFTER@)]
            }
        } else {
            seq![]
        },
        None => seq![],
    }
}

/// The import issues of the first `n` lines.
pub open spec fn import_issues_upto(path: Seq<char>, lines: Seq<Seq<char>>, n: int) -> Seq<IssueView>
    decreases n,
{
    if n <= 0 {
        seq![]
    } else {
        import_issues_upto(path, lines, n - 1) + import_issue(path, n - 1, lines[n - 1])
    }
}

/// The issues of a file: none for the mother or a global file; otherwise the
/// state issues, then, in a `views/` folder, the sibling-import issues.
pub open spec fn spec_check(path: Seq<char>, is_mother: bool, is_global_file: bool, is_views_folder: bool, lines: Seq<Seq<char>>) -> Seq<IssueView> {
    if is_mother || is_global_file {
        seq![]
    } else {
        state_issues_upto(path, lines, lines.len() as int) + if is_views_folder {
            import_issues_upto(path, lines, lines.len() as int)
        } else {
            seq![]
        }
    }
}

/// The regular expressions of the mother-child check, compiled once.
pub struct Searchers {
    pub in_out_prop: Searcher,
    pub delegation: Searcher,
    pub import: Searcher,
    pub std_import: Searcher,
}

impl Searchers {
    /// Each searcher was compiled from its pattern.
    pub open spec fn wf(&self) -> bool {
        &&& self.in_out_prop@ == IN_OUT_PROP@
        &&& self.delegation@ == DELEGATION@
        &&& self.import@ == IMPORT@
        &&& self.std_import@ == STD_IMPORT@
    }

    /// Compiles the patterns of the mother-child check.
    pub fn new() -> (r: Self)
        ensures
            r.wf(),
    {
        Searchers {
            in_out_prop: Searcher::new(IN_OUT_PROP),
            delegation: Searcher::new(DELEGATION),
            import: Searcher::new(IMPORT),
            std_import: Searcher::new(STD_IMPORT),
        }
    }
}

/// The sibling-import issue, if any, of one line, given the capture groups
/// `caps` of its import match.
pub fn import_issue_of(path: &str, lineno: usize, raw: &str, caps: &Option<Vec<Option<Span>>>, std_import: &Searcher) -> (r: Option<Issue>)
    requires
        1 <= lineno,
        caps matches Some(g) ==> captures_wf(raw.spec_bytes(), g@),
        std_import@ == STD_IMPORT@,
    ensures
        match r {
            Some(iss) => import_issue_from(path@, lineno - 1, raw@, groups_view(*caps)) == seq![iss@],
            None => import_issue_from(path@, lineno - 1, raw@, groups_view(*caps)) == Seq::<IssueView>::empty(),
        },
{
    // A string holds at most isize::MAX bytes, so a column (offset + 1) fits.
    let _ = byte_len(raw);
    match caps {
        Some(g) => {
            if g.len() > 1 && g[1].is_some() {
                let sp: Span = g[1].unwrap();
                assert(g@[1] matches Some(s) ==> span_in(raw.spec_bytes(), s));
                let import_path = substr(raw, sp.0, sp.1);
                let tb = import_path.as_bytes();
                if std_import.matches_in(import_path) || starts_with_bytes(tb, "../".as_bytes())
                    || starts_with_bytes(tb, "./".as_bytes()) {
                    return None;
                }
                let msg = join3(MSG_SIBLING_BEFORE, import_path, MSG_SIBLING_AFTER);
                Some(Issue::error(path, lineno, sp.0 + 1, RULE_SIBLING_IMPORT, msg))
            } else {
                None
            }
        },
        None => None,
    }
}

/// Scan for mother-child architecture violations — detect state ownership in child components, improper in-out properties, and sibling imports.
pub fn check(ctx: &FileContext, lines: &[&str], issues: &mut Vec<Issue>)
    ensures
        final(issues).deep_view() == old(issues).deep_view() + spec_check(
            ctx.path@,
            ctx.is_mother,
            ctx.is_global_file,
            ctx.is_views_folder,
            lines.deep_view(),
        ),
{
    check_with(ctx, lines, &Searchers::new(), issues);
}

/// [`check`], with the patterns compiled beforehand.
pub fn check_with(ctx: &FileContext, lines: &[&str], s: &Searchers, issues: &mut Vec<Issue>)
    requires
        s.wf(),
    ensures
        final(issues).deep_view() == old(issues).deep_view() + spec_check(
            ctx.path@,
            ctx.is_mother,
            ctx.is_global_file,
            ctx.is_views_folder,
            lines.deep_view(),
        ),
{
    // Mother is allowed to own state; global definition files are exempt.
    if ctx.is_mother || ctx.is_global_file {
        assert(issues.deep_view() =~= old(issues).deep_view() + Seq::<IssueView>::empty());
        return;
    }
    let ghost path = ctx.path@;
    let ghost ls = lines.deep_view();
    let mut i: usize = 0;
    assert(issues.deep_view() =~= old(issues).deep_view() + state_issues_upto(path, ls, 0));
    while i < lines.len()
        invariant
            i <= lines.len(),
            path == ctx.path@,
            ls == lines.deep_view(),
            s.wf(),
            issues.deep_view() == old(issues).deep_view() + state_issues_upto(path, ls, i as int),
        decreases lines.len() - i,
    {
        let raw = lines[i];
        assert(ls[i as int] == raw@);
        let ghost prev = issues.deep_view();
        if !trimmed_starts_with(raw, "//") && s.in_out_prop.matches_in(raw) && !s.delegation.matches_in(raw) {
            issues.push(Issue::error(ctx.path, i + 1, 1, RULE_CHILD_HAS_STATE, MSG_CHILD_HAS_STATE.to_owned()));
        }
        assert(issues.deep_view() =~= prev + state_issue(path, i as int, raw@));
        i = i + 1;
    }
    let ghost after_state = issues.deep_view();
    if ctx.is_views_folder {
        let mut i: usize = 0;
        assert(issues.deep_view() =~= after_state + import_issues_upto(path, ls, 0));
        while i < lines.len()
            invariant
                i <= lines.len(),
                path == ctx.path@,
                ls == lines.deep_view(),
                s.wf(),
                issues.deep_view() == after_state + import_issues_upto(path, ls, i as int),
            decreases lines.len() - i,
        {
            let raw = lines[i];
            assert(ls[i as int] == raw@);
            let ghost prev = issues.deep_view();
            let caps = s.import.captures_first(raw);
            match import_issue_of(ctx.path, i + 1, raw, &caps, &s.std_import) {
                Some(iss) => issues.push(iss),
                None => {},
            }
            assert(issues.deep_view() =~= prev + import_issue(path, i as int, raw@));
            i = i + 1;
        }
    } else {
        assert(issues.deep_view() =~= after_state + Seq::<IssueView>::empty());
    }
}

} // verus!
