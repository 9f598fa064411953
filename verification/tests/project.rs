use slintscanners::checks::architecture::check_tree;
use slintscanners::config::{Config, TomlProject, TomlRoot, TomlScanners, Topology};
use slintscanners::walker::{has_slint_extension, is_collected, is_excluded, is_workspace_manifest, scan_dir_name};
use slintscanners::{scan_at, scan_file, SourceFile};

fn src(path: &str, content: &str) -> SourceFile {
    SourceFile { path: path.to_string(), content: content.to_string() }
}

const GATEWAYS: &str = "A := Rectangle {\n    clicked => {\n        AppBridge.save();\n    }\n    pressed => {\n        Other.run(Math.max(a, b));\n    }\n    released => { AppBridge.stop(); }\n}\n";

#[test]
fn second_gateway_is_reported() {
    let issues = check_tree(&[src("ui/a.slint", GATEWAYS)]);
    assert_eq!(issues.len(), 1);
    assert_eq!(issues[0].file, "ui/a.slint");
    assert_eq!(issues[0].line, 6);
    assert_eq!(issues[0].col, 1);
    assert_eq!(issues[0].rule, "uiux/state-flow/single-gateway");
    assert_eq!(
        issues[0].message,
        "callback calls 'Other' but the gateway is 'AppBridge' \u{2014} all UI callbacks must delegate through the single gateway object"
    );
}

#[test]
fn single_gateway_is_fine() {
    let content = "clicked => { AppBridge.save(); }\npressed => { Math.abs(x); Colors.red(); }\n";
    assert!(check_tree(&[src("ui/a.slint", content), src("ui/b.slint", content)]).is_empty());
}

#[test]
fn non_slint_files_are_ignored() {
    assert!(check_tree(&[src("ui/a.txt", GATEWAYS)]).is_empty());
    let with_other = check_tree(&[src("ui/a.slint", GATEWAYS), src("ui/notes.md", GATEWAYS), src("ui/b.slint", "x => { Third.go(); }\n")]);
    let without = check_tree(&[src("ui/a.slint", GATEWAYS), src("ui/b.slint", "x => { Third.go(); }\n")]);
    assert_eq!(with_other.len(), 2);
    assert_eq!(
        with_other.iter().map(|i| (i.file.clone(), i.line, i.message.clone())).collect::<Vec<_>>(),
        without.iter().map(|i| (i.file.clone(), i.line, i.message.clone())).collect::<Vec<_>>()
    );
}

#[test]
fn every_call_off_the_gateway_is_reported() {
    let a = "x => { Gate.a(); Gate.b(); }\ny => { Other.c(); Third.d(); Other.e(); }\n";
    let b = "z => {\n  Gate.f();\n  Third.g();\n}\n";
    let issues = check_tree(&[src("a.slint", a), src("b.slint", b)]);
    // 7 gateway calls, 3 of them to the gateway `Gate`.
    assert_eq!(issues.len(), 4);
    let who: Vec<(&str, usize)> = issues.iter().map(|i| (i.file.as_str(), i.line)).collect();
    assert_eq!(who, vec![("a.slint", 2), ("a.slint", 2), ("a.slint", 2), ("b.slint", 3)]);
    assert!(issues.iter().all(|i| i.message.contains("the gateway is 'Gate'")));
}

#[test]
fn gateway_ties_go_to_the_first_called() {
    let a = "x => { One.a(); }\ny => { Two.b(); }\n";
    let issues = check_tree(&[src("a.slint", a)]);
    assert_eq!(issues.len(), 1);
    assert!(issues[0].message.starts_with("callback calls 'Two' but the gateway is 'One'"));
}

#[test]
fn default_config_enables_everything() {
    let c = Config::default();
    assert!(c.enabled && !c.deny);
    assert!(c.check_tokens && c.check_strings && c.check_structure && c.check_events);
    assert!(c.check_mother_child && c.check_string_states && c.check_architecture);
    assert!(c.exclude.is_empty());
    assert_eq!(c.topology, Topology::Flat);
    assert!(!c.blocks_build(3));
}

fn no_settings() -> TomlScanners {
    TomlScanners {
        enabled: None,
        deny: None,
        tokens: None,
        strings: None,
        structure: None,
        events: None,
        mother_child: None,
        string_states: None,
        architecture: None,
        exclude: None,
    }
}

#[test]
fn settings_override_defaults() {
    let mut s = no_settings();
    s.deny = Some(true);
    s.tokens = Some(false);
    s.exclude = Some(vec!["target/*".to_string()]);
    let c = Config::from_settings(Some(TomlRoot {
        slintscanners: Some(s),
        project: Some(TomlProject { topology: Some("Workspace".to_string()) }),
    }));
    assert!(c.enabled && c.deny && !c.check_tokens && c.check_strings);
    assert_eq!(c.exclude, vec!["target/*".to_string()]);
    assert_eq!(c.topology, Topology::Workspace);
    assert!(c.blocks_build(1));
    assert!(!c.blocks_build(0));
}

#[test]
fn missing_settings_give_defaults() {
    let c = Config::from_settings(None);
    assert!(c.enabled && !c.deny && c.check_tokens);
    let d = Config::from_settings(Some(TomlRoot { slintscanners: Some(no_settings()), project: None }));
    assert!(d.enabled && !d.deny && d.check_architecture && d.exclude.is_empty());
    assert_eq!(d.topology, Topology::Flat);
}

#[test]
fn slint_extension_follows_path_rules() {
    assert!(has_slint_extension("ui/a.slint"));
    assert!(has_slint_extension("ui/a.b.slint"));
    assert!(has_slint_extension("ui/a.slint/"));
    assert!(has_slint_extension("ui/a.slint/."));
    assert!(!has_slint_extension("ui/a.slint.bak"));
    assert!(!has_slint_extension("ui/.slint"));
    assert!(!has_slint_extension("ui/a.slint/.."));
    assert!(!has_slint_extension("slint"));
    assert!(!has_slint_extension(""));
}

#[test]
fn exclusion_patterns_are_globs() {
    let ex = vec!["**/vendor/*".to_string(), "[".to_string()];
    assert!(is_excluded("ui/vendor/a.slint", &ex));
    assert!(!is_excluded("ui/a.slint", &ex));
    assert!(is_collected("ui/a.slint", &ex));
    assert!(!is_collected("ui/vendor/a.slint", &ex));
    assert!(!is_collected("ui/a.rs", &ex));
}

#[test]
fn workspace_manifest_is_recognised() {
    assert!(is_workspace_manifest("[package]\n\n[workspace]\nmembers = []\n"));
    assert!(!is_workspace_manifest("[package]\nname = \"x\"\n"));
}

#[test]
fn scan_file_runs_enabled_checks_in_order() {
    let content = "component A {\n    width: 10px;\n    text: \"Hello world\";\n}\ncomponent B {}\n";
    let all = scan_file("ui/a.slint", content, &Config::default());
    let rules: Vec<&str> = all.iter().map(|i| i.rule.as_str()).collect();
    assert_eq!(
        rules,
        vec!["slint/states/no-hardcoded-size", "slint/validation/no-hardcoded-string", "global/module-tree/one-component-per-file"]
    );
    let mut c = Config::default();
    c.check_tokens = false;
    c.check_structure = false;
    let some = scan_file("ui/a.slint", content, &c);
    assert_eq!(some.len(), 1);
    assert_eq!(some[0].rule, "slint/validation/no-hardcoded-string");
}

#[test]
fn no_checks_no_issues() {
    let content = "component A {\n    width: 10px;\n    text: \"Hello world\";\n    clicked => { if a { root.b = 1; } }\n}\ncomponent B { in-out property <int> n; }\n";
    let mut c = Config::default();
    c.check_tokens = false;
    c.check_strings = false;
    c.check_structure = false;
    c.check_events = false;
    c.check_mother_child = false;
    c.check_string_states = false;
    assert!(scan_file("ui/a.slint", content, &c).is_empty());
    assert!(!scan_file("ui/a.slint", content, &Config::default()).is_empty());
}

#[test]
fn issues_point_into_the_file() {
    let content = "component A {\r\n    width: 10px; x: 3;\r\n    clicked => {\r\n        if a { root.b = 1; root.c = 2; }\r\n    }\r\n}\r\ncomponent B { in-out property <int> n; }";
    let lines = content.lines().count();
    let issues = scan_file("ui/a.slint", content, &Config::default());
    assert!(issues.len() >= 5);
    for i in &issues {
        assert_eq!(i.file, "ui/a.slint");
        assert!(i.line >= 1 && i.line <= lines, "{:?}", i);
        assert!(i.col >= 1);
    }
}

#[test]
fn definition_files_get_no_literal_issues() {
    let content = "export global Theme {\n    out property <length> w: 10px;\n    x: #ffffff;\n    title: \"Hello\";\n    if s == \"dark\" {}\n}\n";
    let issues = scan_file("ui/theme/theme.slint", content, &Config::default());
    assert!(issues.iter().all(|i| !i.rule.starts_with("slint/states") && !i.rule.starts_with("uiux/tokens") && i.rule != "slint/validation/string-state-comparison" && i.rule != "slint/validation/no-hardcoded-string"));
    assert_eq!(scan_file("ui/views/main.slint", content, &Config::default()).iter().filter(|i| i.rule == "slint/validation/no-hardcoded-string").count(), 1);
}

#[test]
fn disabled_scanner_reports_nothing() {
    let mut c = Config::default();
    c.enabled = false;
    assert!(scan_at(&c, &[src("ui/a.slint", GATEWAYS), src("ui/b.slint", "x: 5;")]).is_empty());
}

#[test]
fn scan_at_adds_the_gateway_check_after_the_files() {
    let files = [src("ui/a.slint", GATEWAYS), src("ui/b.slint", "    x: 5;\n")];
    let issues = scan_at(&Config::default(), &files);
    let last = issues.last().unwrap();
    assert_eq!(last.rule, "uiux/state-flow/single-gateway");
    assert!(issues.iter().any(|i| i.file == "ui/b.slint" && i.line == 1 && i.col == 8));
    let mut c = Config::default();
    c.check_architecture = false;
    assert!(scan_at(&c, &files).iter().all(|i| i.rule != "uiux/state-flow/single-gateway"));
}

#[test]
fn gateway_issues_ignore_other_files_and_builtin_calls() {
    let a = "x => { Gate.a(); Gate.b(); }\ny => { Other.c(); }\n";
    let a_more_builtins = "x => { Gate.a(); Math.max(1, 2); Gate.b(); }\ny => { Colors.red(); Other.c(); Theme.x(); }\n";
    let base = check_tree(&[src("ui/a.slint", a)]);
    let varied = check_tree(&[src("ui/a.slint", a_more_builtins), src("ui/readme.md", "z => { Third.d(); }\n")]);
    assert_eq!(base.len(), 1);
    assert_eq!(
        base.iter().map(|i| (i.file.clone(), i.line, i.col, i.message.clone())).collect::<Vec<_>>(),
        varied.iter().map(|i| (i.file.clone(), i.line, i.col, i.message.clone())).collect::<Vec<_>>()
    );
}

#[test]
fn scan_dir_is_ui_when_present() {
    assert_eq!(scan_dir_name(true), "ui");
    assert_eq!(scan_dir_name(false), "src");
}
