use slintscanners::checks::{string_states, strings, tokens};
use slintscanners::context::FileContext;
use slintscanners::issue::{Issue, Severity};

fn run_tokens(path: &str, lines: &[&str]) -> Vec<(usize, usize, String, String)> {
    let ctx = FileContext::new(path, lines);
    let mut issues: Vec<Issue> = Vec::new();
    tokens::check(&ctx, lines, &mut issues);
    issues.into_iter().map(|i| (i.line, i.col, i.rule, i.message)).collect()
}

#[test]
fn hex_color_is_reported() {
    let got = run_tokens("ui/a.slint", &["    background: #ff0000;"]);
    assert_eq!(
        got,
        vec![(1, 17, "uiux/tokens/no-hardcoded-color".to_string(), "hardcoded color '#ff0000' \u{2014} use Colors.* token".to_string())]
    );
}

#[test]
fn pixel_size_is_reported_once() {
    let got = run_tokens("ui/a.slint", &["    width: 100px;"]);
    assert_eq!(
        got,
        vec![(1, 12, "slint/states/no-hardcoded-size".to_string(), "hardcoded size '100px' \u{2014} use Sizes.* or Spacing.* variable".to_string())]
    );
}

#[test]
fn size_message_trims_the_match() {
    let got = run_tokens("ui/a.slint", &["    width: 10 px;"]);
    assert_eq!(got.len(), 1);
    assert_eq!(got[0].3, "hardcoded size '10 px' \u{2014} use Sizes.* or Spacing.* variable");
}

#[test]
fn percentage_covers_its_number() {
    let got = run_tokens("ui/a.slint", &["    width: 50%;"]);
    assert_eq!(
        got,
        vec![(1, 12, "slint/states/no-hardcoded-size".to_string(), "hardcoded percentage '50%' \u{2014} use Sizes.full / Sizes.half variable".to_string())]
    );
}

#[test]
fn duration_is_reported() {
    let got = run_tokens("ui/a.slint", &["    animate x { duration: 200ms; }"]);
    assert_eq!(
        got,
        vec![(1, 27, "slint/states/no-hardcoded-duration".to_string(), "hardcoded duration '200ms' \u{2014} use Durations.* variable".to_string())]
    );
}

#[test]
fn float_and_integer_parts() {
    let got = run_tokens("ui/a.slint", &["    opacity: 0.5;", "    x: 42;"]);
    assert_eq!(
        got,
        vec![
            (1, 14, "slint/states/no-hardcoded-number".to_string(), "hardcoded float '0.5' \u{2014} use state variable or theme token".to_string()),
            (2, 8, "slint/states/no-hardcoded-number".to_string(), "hardcoded integer '42' \u{2014} use state variable (ViewStates.*, Sizes.*)".to_string()),
        ]
    );
}

#[test]
fn rgb_call_and_its_integers() {
    let got = run_tokens("ui/a.slint", &["    color: rgb(255, 0, 0);"]);
    let cols: Vec<(usize, String)> = got.iter().map(|g| (g.1, g.2.clone())).collect();
    assert_eq!(
        cols,
        vec![
            (12, "uiux/tokens/no-hardcoded-color".to_string()),
            (16, "slint/states/no-hardcoded-number".to_string()),
            (21, "slint/states/no-hardcoded-number".to_string()),
            (24, "slint/states/no-hardcoded-number".to_string()),
        ]
    );
    assert_eq!(got[0].3, "hardcoded rgb/rgba() \u{2014} use Colors.* token");
}

#[test]
fn property_declarations_are_exempt() {
    assert!(run_tokens("ui/a.slint", &["    in property <length> size: 10px;"]).is_empty());
}

#[test]
fn syntax_exceptions_are_exempt() {
    assert!(run_tokens("ui/a.slint", &["        row: 1; col: 2;"]).is_empty());
    assert!(run_tokens("ui/a.slint", &["    source: @image-url(\"icons/a-24.png\");"]).is_empty());
    assert!(run_tokens("ui/a.slint", &["    text: @tr(\"Page 2\");"]).is_empty());
}

#[test]
fn comments_are_exempt() {
    assert!(run_tokens("ui/a.slint", &["    // width: 10px;"]).is_empty());
    let got = run_tokens("ui/a.slint", &["    width: 10px; // 20px"]);
    assert_eq!(got.len(), 1);
    assert_eq!(got[0].1, 12);
}

#[test]
fn identifiers_with_digits_are_not_numbers() {
    assert!(run_tokens("ui/a.slint", &["    h2: item_3.x1;", "    a: b.1;"]).is_empty());
}

#[test]
fn definition_files_are_exempt_from_tokens() {
    assert!(run_tokens("ui/theme/colors.slint", &["    background: #ff0000;", "    width: 100px;"]).is_empty());
}

fn run_strings(lines: &[&str]) -> Vec<(usize, usize, String)> {
    let ctx = FileContext::new("ui/a.slint", lines);
    let mut issues: Vec<Issue> = Vec::new();
    strings::check(&ctx, lines, &mut issues);
    issues.into_iter().map(|i| (i.line, i.col, i.message)).collect()
}

#[test]
fn hardcoded_string_is_reported() {
    let got = run_strings(&["    text: \"Hello world\";"]);
    assert_eq!(
        got,
        vec![(
            1,
            11,
            "hardcoded string 'Hello world' in component \u{2014} expose as an `in property <string> text` so callers can configure it".to_string()
        )]
    );
}

#[test]
fn hardcoded_strings_are_warnings() {
    let lines = ["    text: \"Hello world\";"];
    let ctx = FileContext::new("ui/a.slint", &lines);
    let mut issues: Vec<Issue> = Vec::new();
    strings::check(&ctx, &lines, &mut issues);
    assert_eq!(issues.len(), 1);
    assert_eq!(issues[0].severity, Severity::Warning);
    assert_eq!(issues[0].rule, "slint/validation/no-hardcoded-string");
}

#[test]
fn definition_files_are_exempt_from_strings() {
    for p in ["ui/globals/a.slint", "ui/tokens/a.slint", "ui/theme/a.slint", "ui/state/a.slint"] {
        let lines = ["    text: \"Hello\";"];
        let ctx = FileContext::new(p, &lines);
        let mut issues: Vec<Issue> = Vec::new();
        strings::check(&ctx, &lines, &mut issues);
        assert!(issues.is_empty(), "{}", p);
    }
}

#[test]
fn hardcoded_string_property_is_lowercased() {
    let got = run_strings(&["    Title: \"Main page\";"]);
    assert_eq!(got.len(), 1);
    assert!(got[0].2.ends_with("`in property <string> title` so callers can configure it"));
}

#[test]
fn allowed_strings_are_not_reported() {
    assert!(run_strings(&[
        "    icon: \"home.svg\";",
        "    Source: \"pic.png\";",
        "    label: \"a\";",
        "    url: \"/path/x\";",
        "    data: \"{x}\";",
        "    property-name: \"xy\";",
        "    // text: \"commented\";",
        "    in property <string> label: \"Default\";",
    ])
    .is_empty());
}

fn run_states(path: &str, lines: &[&str]) -> Vec<(usize, usize, String)> {
    let ctx = FileContext::new(path, lines);
    let mut issues: Vec<Issue> = Vec::new();
    string_states::check(&ctx, lines, &mut issues);
    issues.into_iter().map(|i| (i.line, i.col, i.message)).collect()
}

#[test]
fn string_state_comparison_is_reported() {
    let got = run_states("ui/a.slint", &["    if state == \"loading\" { }"]);
    assert_eq!(
        got,
        vec![(
            1,
            14,
            "stringly-typed state == \"loading\" \u{2014} all state values must be named constants defined in globals/ or moved to a Rust enum".to_string()
        )]
    );
    let ne = run_states("ui/a.slint", &["x: a != \"idle\" ? 1 : 2;"]);
    assert_eq!(ne.len(), 1);
    assert_eq!(ne[0].1, 6);
}

#[test]
fn ui_text_comparisons_are_not_reported() {
    assert!(run_states("ui/a.slint", &[
        "    if state == \"Hello\" { }",
        "    if state == \"a b c\" { }",
        "    if state == \"v2\" { }",
        "    if path == \"img/x.png\" { }",
        "    if v == \"v10\" { }",
        "    // if state == \"loading\" { }",
        "    x: 1; // if state == \"loading\"",
    ])
    .is_empty());
}

#[test]
fn definition_files_are_exempt_from_string_states() {
    assert!(run_states("ui/globals/states.slint", &["    if state == \"loading\" { }"]).is_empty());
}
