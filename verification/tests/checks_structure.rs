use slintscanners::checks::{events, mother_child, structure};
use slintscanners::context::FileContext;
use slintscanners::issue::Issue;

fn run(check: fn(&FileContext, &[&str], &mut Vec<Issue>), path: &str, lines: &[&str]) -> Vec<(usize, usize, String, String)> {
    let ctx = FileContext::new(path, lines);
    let mut issues: Vec<Issue> = Vec::new();
    check(&ctx, lines, &mut issues);
    issues.into_iter().map(|i| (i.line, i.col, i.rule, i.message)).collect()
}

#[test]
fn one_component_is_fine() {
    assert!(run(structure::check, "ui/a.slint", &["export component A {", "    Text {}", "}"]).is_empty());
}

#[test]
fn second_component_is_reported() {
    let got = run(structure::check, "ui/a.slint", &["component A {", "}", "export component B {", "}"]);
    assert_eq!(
        got,
        vec![(
            3,
            1,
            "global/module-tree/one-component-per-file".to_string(),
            "component 'B' \u{2014} multiple components in one file (primary: 'A'). Before extracting: (1) check widgets/ for an existing generic component, (2) if generic (in property + callback only) \u{2192} extract to widgets/B.slint, (3) if view-specific \u{2192} extract to a new child file".to_string()
        )]
    );
}

#[test]
fn component_after_blank_lines_is_reported_on_its_own_line() {
    let got = run(structure::check, "ui/a.slint", &["component A {", "}", "", "component B {", "}", "component C {}"]);
    let lines: Vec<usize> = got.iter().map(|g| g.0).collect();
    assert_eq!(lines, vec![4, 6]);
    let got = run(structure::check, "ui/card.slint", &["component A {}", "component B {}", "", "component C {}"]);
    assert_eq!(got.len(), 2);
    assert_eq!((got[0].0, got[1].0), (2, 4));
    assert!(got.iter().all(|g| g.1 == 1 && g.2 == "global/module-tree/one-component-per-file"));
    assert!(got[0].3.starts_with("component 'B' \u{2014} multiple components in one file (primary: 'A')"));
    assert!(got[1].3.starts_with("component 'C'"));
    let got = run(structure::check, "ui/a.slint", &["export component A {}", "", "", "  export component B {}"]);
    assert_eq!(got.len(), 1);
    assert_eq!(got[0].0, 4);
}

#[test]
fn issues_keep_what_was_there() {
    let lines = ["component A {", "}", "component B {", "}"];
    let ctx = FileContext::new("ui/a.slint", &lines);
    let mut issues = vec![Issue::error("x", 9, 9, "r", "m".to_string())];
    structure::check(&ctx, &lines, &mut issues);
    assert_eq!(issues.len(), 2);
    assert_eq!(issues[0].file, "x");
    assert_eq!(issues[1].file, "ui/a.slint");
}

#[test]
fn if_in_callback_is_reported() {
    let got = run(events::check, "ui/a.slint", &["Button {", "    clicked => {", "        if x { AppBridge.go(); }", "    }", "}"]);
    assert_eq!(
        got,
        vec![(
            3,
            9,
            "uiux/state-flow/no-callback-logic".to_string(),
            "callback 'clicked': if-statement in UI callback \u{2014} move conditional logic to a single AppBridge method".to_string()
        )]
    );
}

#[test]
fn two_root_mutations_are_reported() {
    let got = run(events::check, "ui/a.slint", &["clicked => {", "    root.a = 1;", "    root.b = 2;", "}"]);
    assert_eq!(
        got,
        vec![(
            2,
            1,
            "uiux/state-flow/no-state-mutation-in-callback".to_string(),
            "callback 'clicked': 2 root state mutations (a, b) \u{2014} replace with a single AppBridge call".to_string()
        )]
    );
}

#[test]
fn many_root_mutations_are_abbreviated() {
    let got = run(
        events::check,
        "ui/a.slint",
        &["clicked => {", "    // set all", "", "    root.a = 1; root.b = 2;", "    root.c = 3;", "    root.d = 4;", "}"],
    );
    assert_eq!(got.len(), 1);
    assert_eq!(got[0].0, 4);
    assert_eq!(
        got[0].3,
        "callback 'clicked': 4 root state mutations (a, b, c ...) \u{2014} replace with a single AppBridge call"
    );
}

#[test]
fn mutation_beside_bridge_call_is_reported() {
    let got = run(events::check, "ui/a.slint", &["clicked => {", "    Bridge.save();", "    root.a = 1;", "}"]);
    assert_eq!(
        got,
        vec![(
            3,
            1,
            "uiux/state-flow/no-state-mutation-in-callback".to_string(),
            "callback 'clicked': mixes root.a mutation with a bridge call \u{2014} let the bridge own all state changes".to_string()
        )]
    );
}

#[test]
fn comparison_is_not_a_mutation() {
    assert!(run(events::check, "ui/a.slint", &["clicked => {", "    Bridge.save(root.a == 1);", "}"]).is_empty());
}

#[test]
fn long_callback_is_reported() {
    let got = run(events::check, "ui/a.slint", &["  pressed => {", "    A.b();", "    A.c();", "    A.d();", "    A.e();", "  }"]);
    assert_eq!(
        got,
        vec![(
            1,
            1,
            "uiux/state-flow/no-callback-logic".to_string(),
            "callback 'pressed': 4-line body \u{2014} callbacks should be a single delegation call".to_string()
        )]
    );
}

#[test]
fn single_delegation_is_fine() {
    assert!(run(events::check, "ui/a.slint", &["clicked => { AppBridge.go(); }", "edited(t) => {", "  AppBridge.edit(t);", "}"]).is_empty());
}

#[test]
fn child_state_is_reported() {
    let lines = [
        "component C {",
        "    in-out property <int> count;",
        "    in-out property <int> v <=> other.v;",
        "    // in-out property <int> old;",
        "}",
    ];
    let got = run(mother_child::check, "ui/c.slint", &lines);
    assert_eq!(
        got,
        vec![(
            2,
            1,
            "uiux/mother-child/child-has-state".to_string(),
            "in-out property in child component \u{2014} children must be stateless. Use 'in property' to receive state from mother, 'callback' to emit events up.".to_string()
        )]
    );
}

#[test]
fn mother_and_globals_may_own_state() {
    assert!(run(mother_child::check, "ui/m.slint", &["component M inherits Window {", "    in-out property <int> count;", "}"]).is_empty());
    assert!(run(mother_child::check, "ui/g.slint", &["export global G {", "    in-out property <int> count;", "}"]).is_empty());
}

#[test]
fn sibling_import_in_views_is_reported() {
    let lines = [
        "import { Other } from \"other.slint\";",
        "import { Button } from \"std-widgets.slint\";",
        "import { X } from \"../widgets/x.slint\";",
        "import { Y } from \"./y.slint\";",
    ];
    let got = run(mother_child::check, "ui/views/main.slint", &lines);
    assert_eq!(
        got,
        vec![(
            1,
            24,
            "uiux/mother-child/sibling-import".to_string(),
            "view imports sibling view 'other.slint' \u{2014} views must not know about each other. Route shared state through mother instead.".to_string()
        )]
    );
    assert!(run(mother_child::check, "ui/widgets/main.slint", &lines).is_empty());
}
