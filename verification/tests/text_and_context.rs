use slintscanners::config::Topology;
use slintscanners::context::{code_lines, comment_start, extract_callbacks, FileContext};
use slintscanners::issue::{Issue, Severity};
use slintscanners::text::{split_lines, trim};

#[test]
fn comment_start_finds_first_double_slash() {
    assert_eq!(comment_start("width: 10px; // note // more"), 13);
    assert_eq!(comment_start("no comment"), 10);
    assert_eq!(comment_start(""), 0);
    assert_eq!(comment_start("// all comment"), 0);
}

#[test]
fn trim_removes_unicode_whitespace() {
    assert_eq!(trim("  \t10px \n"), "10px");
    assert_eq!(trim("\u{3000}a b\u{00a0}"), "a b");
    assert_eq!(trim("   "), "");
    assert_eq!(trim("x"), "x");
}

#[test]
fn split_lines_follows_str_lines() {
    assert_eq!(split_lines("a\nb\r\nc"), vec!["a", "b", "c"]);
    assert_eq!(split_lines("a\n"), vec!["a"]);
    assert_eq!(split_lines("\n"), vec![""]);
    assert_eq!(split_lines(""), Vec::<&str>::new());
    assert_eq!(split_lines("a\r"), vec!["a\r"]);
    assert_eq!(split_lines("é\nü"), vec!["é", "ü"]);
}

#[test]
fn topology_names_are_trimmed_and_case_insensitive() {
    assert_eq!(Topology::from_str(" WorkSpace \n"), Topology::Workspace);
    assert_eq!(Topology::from_str("workspace"), Topology::Workspace);
    assert_eq!(Topology::from_str("flat"), Topology::Flat);
    assert_eq!(Topology::from_str("workspaces"), Topology::Flat);
}

#[test]
fn issue_renders_as_one_line() {
    let iss = Issue::error("ui/a.slint", 120, 7, "r/x", "msg".to_string());
    assert_eq!(iss.severity, Severity::Error);
    assert_eq!(iss.to_string(), "ui/a.slint:120:7: error r/x: msg");
    let zero = Issue::error("f", 0, 10, "r", String::new());
    assert_eq!(zero.to_string(), "f:0:10: error r: ");
    let warn = Issue::warning("ui/b.slint", 3, 11, "r/y", "text".to_string());
    assert_eq!(warn.severity, Severity::Warning);
    assert_eq!(warn.to_string(), "ui/b.slint:3:11: warning r/y: text");
}

#[test]
fn file_context_detects_definition_folders() {
    let lines: Vec<&str> = vec![];
    for p in ["ui/globals/a.slint", "tokens/a.slint", "x/theme/y/a.slint", "/abs/state/a.slint"] {
        assert!(FileContext::new(p, &lines).is_definition_file, "{}", p);
    }
    for p in ["ui/globalsx/a.slint", "ui/my-tokens/a.slint", "ui/a.slint", "ui/theme.slint"] {
        assert!(!FileContext::new(p, &lines).is_definition_file, "{}", p);
    }
}

#[test]
fn file_context_detects_roles() {
    let lines = vec!["export component App inherits Window {", "}"];
    let ctx = FileContext::new("ui/views/app.slint", &lines);
    assert!(ctx.is_mother);
    assert!(!ctx.is_global_file);
    assert!(ctx.is_views_folder);
    assert!(!ctx.is_definition_file);
    assert_eq!(ctx.path, "ui/views/app.slint");

    let globals = vec!["import { X } from \"x.slint\";", "   export global Theme {", "}"];
    let g = FileContext::new("ui/a.slint", &globals);
    assert!(g.is_global_file);
    assert!(!g.is_mother);
    assert!(!g.is_views_folder);
}

#[test]
fn global_declaration_must_be_in_first_forty_lines() {
    let mut late: Vec<&str> = vec!["// filler"; 40];
    late.push("export global Late {");
    assert!(!FileContext::new("a.slint", &late).is_global_file);
    let mut early: Vec<&str> = vec!["// filler"; 39];
    early.push("export global Early {");
    assert!(FileContext::new("a.slint", &early).is_global_file);
}

#[test]
fn code_lines_skip_comments_and_strip_inline_comments() {
    let lines = vec!["a: 1; // one", "   // full comment", "b: 2;"];
    let got = code_lines(&lines);
    assert_eq!(got, vec![(1, "a: 1; // one", "a: 1; "), (3, "b: 2;", "b: 2;")]);
}

#[test]
fn extract_callbacks_finds_blocks() {
    let lines = vec![
        "Button {",
        "    clicked => {",
        "        if x { AppBridge.go(); }",
        "    }",
        "    edited(text) => { AppBridge.edit(text); }",
        "    pressed => {",
        "        AppBridge.press();",
    ];
    let cbs = extract_callbacks(&lines);
    assert_eq!(cbs.len(), 3);
    assert_eq!(cbs[0].name, "clicked");
    assert_eq!(cbs[0].start_line, 2);
    assert_eq!(cbs[0].body, vec![(3, "        if x { AppBridge.go(); }".to_string())]);
    assert_eq!(cbs[1].name, "edited");
    assert_eq!(cbs[1].start_line, 5);
    assert_eq!(cbs[1].body, vec![(5, "    edited(text) => { AppBridge.edit(text); }".to_string())]);
    assert_eq!(cbs[2].name, "pressed");
    assert_eq!(cbs[2].start_line, 6);
    assert_eq!(cbs[2].body, vec![(7, "        AppBridge.press();".to_string())]);
}

#[test]
fn callbacks_are_blocks_of_the_file() {
    let lines = vec![
        "a => {",
        "  x();",
        "  b => {",
        "    y();",
        "  }",
        "}",
        "c => { z(); }",
    ];
    let cbs = extract_callbacks(&lines);
    assert_eq!(cbs.len(), 2);
    for (k, cb) in cbs.iter().enumerate() {
        assert!(cb.start_line >= 1 && cb.start_line <= lines.len());
        let mut prev = 0;
        for (ln, text) in &cb.body {
            assert!(*ln >= cb.start_line && *ln <= lines.len());
            assert_eq!(text, lines[ln - 1]);
            assert!(*ln > prev);
            prev = *ln;
            if k + 1 < cbs.len() {
                assert!(*ln < cbs[k + 1].start_line);
            }
        }
    }
    assert_eq!(cbs[0].body.len(), 4);
}
