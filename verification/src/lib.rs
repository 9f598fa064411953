//! Static analysis scanners for Slint UI files: zero-literal tokens,
//! hardcoded strings, one component per file, callback logic,
//! mother-child state ownership, stringly-typed states and a single
//! gateway for all callbacks.

pub mod text;
pub mod pattern;
pub mod issue;
pub mod context;
pub mod config;
pub mod walker;
pub mod checks;
pub mod laws;
pub mod positions;
pub mod reported;

use vstd::prelude::*;
use vstd::utf8::*;
use vstd::string::StringSliceAdditionalSpecFns;

use crate::checks::{architecture, events, mother_child, string_states, strings, structure, tokens};
use crate::config::{Config, ConfigView};
use crate::context::{spec_is_definition_file, spec_is_global_file, spec_is_mother, spec_is_views_folder, FileContext};
use crate::issue::{Issue, IssueView};
use crate::pattern::Searcher;
use crate::text::{split_lines, text_lines};

verus! {

/// A `.slint` file that was read: its path, as text, and its contents.
pub struct SourceFile {
    pub path: String,
    pub content: String,
}

/// The mathematical value of a [`SourceFile`].
pub struct SourceFileView {
    pub path: Seq<char>,
    pub content: Seq<char>,
}

impl View for SourceFile {
    type V = SourceFileView;

    open spec fn view(&self) -> SourceFileView {
        SourceFileView { path: self.path@, content: self.content@ }
    }
}

impl DeepView for SourceFile {
    type V = SourceFileView;

    open spec fn deep_view(&self) -> SourceFileView {
        self@
    }
}


/// The issues of one file: its text split into lines, then, in order, the
/// enabled checks among tokens, strings, structure, events, mother-child and
/// string states.
pub open spec fn spec_scan_file(path: Seq<char>, content: Seq<char>, cfg: ConfigView) -> Seq<IssueView> {
    let lines = text_lines(encode_utf8(content));
    let pb = encode_utf8(path);
    let is_def = spec_is_definition_file(pb);
    (if cfg.check_tokens { tokens::spec_check(path, is_def, lines) } else { seq![] })
        + (if cfg.check_strings { strings::spec_check(path, is_def, lines) } else { seq![] })
        + (if cfg.check_structure { structure::spec_check(path, lines) } else { seq![] })
        + (if cfg.check_events { events::spec_check(path, lines) } else { seq![] })
        + (if cfg.check_mother_child {
            mother_child::spec_check(path, spec_is_mother(lines), spec_is_global_file(lines), spec_is_views_folder(pb), lines)
        } else {
            seq![]
        })
        + (if cfg.check_string_states { string_states::spec_check(path, is_def, lines) } else { seq![] })
}

/// The issues of the first `n` files.
pub open spec fn files_issues(files: Seq<SourceFileView>, cfg: ConfigView, n: int) -> Seq<IssueView>
    decreases n,
{
    if n <= 0 {
        seq![]
    } else {
        files_issues(files, cfg, n - 1) + spec_scan_file(files[n - 1].path, files[n - 1].content, cfg)
    }
}

/// The issues of a project: none when the scanner is disabled; otherwise
/// those of each file, in order, then, when enabled, those of the
/// single-gateway check over all files.
pub open spec fn spec_scan_at(cfg: ConfigView, files: Seq<SourceFileView>) -> Seq<IssueView> {
    if !cfg.enabled {
        seq![]
    } else {
        files_issues(files, cfg, files.len() as int) + if cfg.check_architecture {
            architecture::spec_check_tree(files)
        } else {
            seq![]
        }
    }
}

/// The regular expressions of every check, compiled once for a whole scan.
pub struct Searchers {
    pub tokens: tokens::Searchers,
    pub strings: strings::Searchers,
    pub component_def: Searcher,
    pub events: events::Searchers,
    pub mother_child: mother_child::Searchers,
    pub string_states: string_states::Searchers,
    pub architecture: architecture::Searchers,
}

impl Searchers {
    /// Each searcher was compiled from its pattern.
    pub open spec fn wf(&self) -> bool {
        &&& self.tokens.wf()
        &&& self.strings.wf()
        &&& self.component_def@ == structure::COMPONENT_DEF@
        &&& self.events.wf()
        &&& self.mother_child.wf()
        &&& self.string_states.wf()
        &&& self.architecture.wf()
    }

    /// Compiles the patterns of every check.
    pub fn new() -> (r: Self)
        ensures
            r.wf(),
    {
        Searchers {
            tokens: tokens::Searchers::new(),
            strings: strings::Searchers::new(),
            component_def: Searcher::new(structure::COMPONENT_DEF),
            events: events::Searchers::new(),
            mother_child: mother_child::Searchers::new(),
            string_states: string_states::Searchers::new(),
            architecture: architecture::Searchers::new(),
        }
    }
}

/// Scan the text of a single `.slint` file and return all issues.
pub fn scan_file(path: &str, content: &str, cfg: &Config) -> (r: Vec<Issue>)
    ensures
        r.deep_view() == spec_scan_file(path@, content@, cfg@),
{
    scan_file_with(path, content, cfg, &Searchers::new())
}

/// [`scan_file`], with the patterns compiled beforehand.
pub fn scan_file_with(path: &str, content: &str, cfg: &Config, s: &Searchers) -> (r: Vec<Issue>)
    requires
        s.wf(),
    ensures
        r.deep_view() == spec_scan_file(path@, content@, cfg@),
{
    let lines_vec = split_lines(content);
    let lines = lines_vec.as_slice();
    assert(lines.deep_view() =~= lines_vec.deep_view());
    let ctx = FileContext::new(path, lines);
    let mut issues: Vec<Issue> = Vec::new();
    let ghost s0 = issues.deep_view();
    if cfg.check_tokens {
        tokens::check_with(&ctx, lines, &s.tokens, &mut issues);
    }
    let ghost s1 = issues.deep_view();
    if cfg.check_strings {
        strings::check_with(&ctx, lines, &s.strings, &mut issues);
    }
    let ghost s2 = issues.deep_view();
    if cfg.check_structure {
        structure::check_with(&ctx, lines, &s.component_def, &mut issues);
    }
    let ghost s3 = issues.deep_view();
    if cfg.check_events {
        events::check_with(&ctx, lines, &s.events, &mut issues);
    }
    let ghost s4 = issues.deep_view();
    if cfg.check_mother_child {
        mother_child::check_with(&ctx, lines, &s.mother_child, &mut issues);
    }
    let ghost s5 = issues.deep_view();
    if cfg.check_string_states {
        string_states::check_with(&ctx, lines, &s.string_states, &mut issues);
    }
    assert(issues.deep_view() =~= spec_scan_file(path@, content@, cfg@));
    issues
}

/// Appends `more` to `issues`.
fn append_issues(issues: &mut Vec<Issue>, more: Vec<Issue>)
    ensures
        final(issues).deep_view() == old(issues).deep_view() + more.deep_view(),
{
    let mut more = more;
    let ghost mv = more.deep_view();
    let ghost before = issues.deep_view();
    issues.append(&mut more);
    assert(issues.deep_view() =~= before + mv);
}

/// Scan the given `.slint` files with the given configuration and return all
/// issues.
pub fn scan_at(cfg: &Config, files: &[SourceFile]) -> (r: Vec<Issue>)
    ensures
        r.deep_view() == spec_scan_at(cfg@, files.deep_view()),
{
    let mut issues: Vec<Issue> = Vec::new();
    if !cfg.enabled {
        assert(issues.deep_view() =~= Seq::<IssueView>::empty());
        return issues;
    }
    let s = Searchers::new();
    let ghost fv = files.deep_view();
    let mut i: usize = 0;
    assert(issues.deep_view() =~= files_issues(fv, cfg@, 0));
    while i < files.len()
        invariant
            i <= files@.len(),
            fv == files.deep_view(),
            s.wf(),
            issues.deep_view() == files_issues(fv, cfg@, i as int),
        decreases files.len() - i,
    {
        assert(fv[i as int] == files@[i as int]@);
        let found = scan_file_with(files[i].path.as_str(), files[i].content.as_str(), cfg, &s);
        append_issues(&mut issues, found);
        i = i + 1;
    }
    if cfg.check_architecture {
        let tree = architecture::check_tree_with(files, &s.architecture);
        append_issues(&mut issues, tree);
    } else {
        assert(issues.deep_view() =~= issues.deep_view() + Seq::<IssueView>::empty());
    }
    issues
}

} // verus!
