use slintscanners::checks::architecture::push_line_calls;
use slintscanners::checks::events::root_props_of;
use slintscanners::checks::mother_child::{import_issue_of, STD_IMPORT};
use slintscanners::checks::string_states::{comparison_issue_of, SKIP_VALUES};
use slintscanners::checks::strings::{string_issue_of, ALLOWED_PATTERNS};
use slintscanners::checks::structure::push_definitions_issues;
use slintscanners::checks::tokens::{push_number_issues, Searchers as TokenSearchers};
use slintscanners::context::opening_of;
use slintscanners::issue::{Issue, Severity};
use slintscanners::pattern::Searcher;

#[test]
fn callback_opening_from_its_match() {
    let raw = "    clicked => { foo(); }";
    let got = opening_of(raw, &Some(vec![Some((4, 16)), Some((4, 11))]));
    assert_eq!(got, Some(("clicked".to_string(), 0, 1)));
    let raw = "    pressed(x) => {";
    let got = opening_of(raw, &Some(vec![Some((4, 19)), Some((4, 11))]));
    assert_eq!(got, Some(("pressed".to_string(), 0, 0)));
    assert_eq!(opening_of(raw, &None), None);
    assert_eq!(opening_of(raw, &Some(vec![Some((4, 19)), None])), None);
}

#[test]
fn hardcoded_string_from_its_match() {
    let raw = "    text: \"Hi there\";";
    let allowed = Searcher::new(ALLOWED_PATTERNS);
    let caps = Some(vec![Some((0, 20)), Some((4, 8)), Some((11, 19))]);
    let iss = string_issue_of("ui/a.slint", 3, raw, &caps, &allowed).unwrap();
    assert_eq!((iss.line, iss.col, iss.severity), (3, 11, Severity::Warning));
    assert_eq!(iss.rule, "slint/validation/no-hardcoded-string");
    assert_eq!(
        iss.message,
        "hardcoded string 'Hi there' in component \u{2014} expose as an `in property <string> text` so callers can configure it"
    );
    let raw = "    icon: \"Hi there\";";
    assert!(string_issue_of("ui/a.slint", 3, raw, &caps, &allowed).is_none());
    assert!(string_issue_of("ui/a.slint", 3, raw, &None, &allowed).is_none());
}

#[test]
fn sibling_import_from_its_match() {
    let std_import = Searcher::new(STD_IMPORT);
    let raw = "import { B } from \"b.slint\";";
    let caps = Some(vec![Some((0, 27)), Some((19, 26))]);
    let iss = import_issue_of("ui/views/a.slint", 2, raw, &caps, &std_import).unwrap();
    assert_eq!((iss.line, iss.col), (2, 20));
    assert_eq!(iss.rule, "uiux/mother-child/sibling-import");
    assert!(iss.message.starts_with("view imports sibling view 'b.slint' \u{2014}"));
    let raw = "import { B } from \"./b.slint\";";
    let caps = Some(vec![Some((0, 29)), Some((19, 28))]);
    assert!(import_issue_of("ui/views/a.slint", 2, raw, &caps, &std_import).is_none());
}

#[test]
fn gateway_calls_from_their_matches() {
    let line = "AppBridge.save(); Math.abs(x);";
    let caps = vec![vec![Some((0, 15)), Some((0, 9)), Some((10, 14))], vec![Some((18, 27)), Some((18, 22)), Some((23, 26))]];
    let mut calls = vec![("X".to_string(), "f".to_string(), 1)];
    push_line_calls("ui/a.slint", 5, line, &caps, &mut calls);
    assert_eq!(calls, vec![("X".to_string(), "f".to_string(), 1), ("AppBridge".to_string(), "ui/a.slint".to_string(), 5)]);
}

#[test]
fn root_properties_from_their_matches() {
    let line = "root.a = 1; root.b-c = 2;";
    let caps = vec![vec![Some((0, 10)), Some((5, 6))], vec![Some((12, 24)), Some((17, 20))], vec![Some((0, 1))]];
    assert_eq!(root_props_of(line, &caps), vec!["a".to_string(), "b-c".to_string()]);
}

#[test]
fn components_from_their_matches() {
    let text = "component A {}\n\ncomponent B {}";
    let caps = vec![
        vec![Some((0, 11)), Some((0, 9)), Some((10, 11))],
        vec![Some((15, 27)), Some((16, 25)), Some((26, 27))],
    ];
    let mut issues: Vec<Issue> = Vec::new();
    push_definitions_issues("ui/a.slint", text, &caps, &mut issues);
    assert_eq!(issues.len(), 1);
    assert_eq!((issues[0].line, issues[0].col), (3, 1));
    assert!(issues[0].message.starts_with("component 'B' \u{2014} multiple components in one file (primary: 'A')"));
    let mut none: Vec<Issue> = Vec::new();
    push_definitions_issues("ui/a.slint", text, &caps[..1].to_vec(), &mut none);
    assert!(none.is_empty());
}

#[test]
fn numbers_from_their_matches() {
    let ts = TokenSearchers::new();
    let raw = "    x: 3; y: a3;";
    let caps = vec![vec![Some((7, 8)), Some((7, 8))], vec![Some((14, 15)), Some((14, 15))]];
    let mut issues: Vec<Issue> = Vec::new();
    push_number_issues(false, "ui/a.slint", 9, raw, raw, &Vec::new(), &caps, &ts, &mut issues);
    assert_eq!(issues.len(), 1);
    assert_eq!((issues[0].line, issues[0].col), (9, 8));
    assert_eq!(issues[0].rule, "slint/states/no-hardcoded-number");
    assert!(issues[0].message.starts_with("hardcoded integer '3'"));
    let mut covered: Vec<Issue> = Vec::new();
    push_number_issues(false, "ui/a.slint", 9, raw, raw, &vec![(6, 9)], &caps, &ts, &mut covered);
    assert!(covered.is_empty());
}

#[test]
fn comparison_from_its_match() {
    let skip = Searcher::new(SKIP_VALUES);
    let seg = "if s == \"dark\" {";
    let iss = comparison_issue_of("ui/a.slint", 4, seg, &vec![Some((5, 14)), Some((9, 13))], &skip).unwrap();
    assert_eq!((iss.line, iss.col), (4, 6));
    assert!(iss.message.starts_with("stringly-typed state == \"dark\""));
    let seg = "if s == \"Dark mode\" {";
    assert!(comparison_issue_of("ui/a.slint", 4, seg, &vec![Some((5, 19)), Some((9, 18))], &skip).is_none());
}
