use gosearch::engine::{compile, full_pattern_text, CompileError, GoParser};
use gosearch::matcher::{dedup_matches, file_entries, find_root, format_entry, node_text, Capture, FileError};
use gosearch::paths::{has_go_suffix, select_go_files};
use gosearch::report::{skip_notice, Report};
use gosearch::text::decimal_string;

const RULE: &str = "=================================================================";

fn strings(v: &[&str]) -> Vec<String> {
    v.iter().map(|s| s.to_string()).collect()
}

fn cap(index: u32, node: usize, start: usize, end: usize) -> Capture {
    Capture { index, node, start, end }
}

#[test]
fn only_go_suffix_is_selected() {
    let paths = strings(&["root/a.go", "root/b.go", "root/c.java", "root/d.gox", "go", "root/e.g", "root/.go"]);
    let r = select_go_files(&paths);
    assert_eq!(r, strings(&["root/a.go", "root/b.go", "root/.go"]));
    for p in &r {
        assert!(p.ends_with(".go"));
    }
}

#[test]
fn suffix_check_on_short_and_unicode_paths() {
    assert!(!has_go_suffix(""));
    assert!(!has_go_suffix("go"));
    assert!(has_go_suffix(".go"));
    assert!(has_go_suffix("é/ü.go"));
    assert!(!has_go_suffix("a.Go"));
}

#[test]
fn decimal_rendering() {
    assert_eq!(decimal_string(0), "0");
    assert_eq!(decimal_string(7), "7");
    assert_eq!(decimal_string(10), "10");
    assert_eq!(decimal_string(1234), "1234");
    assert_eq!(decimal_string(usize::MAX), usize::MAX.to_string());
}

#[test]
fn query_source_gets_root_capture() {
    assert_eq!(full_pattern_text("(identifier)"), "(identifier) @full_pattern_cli_capture\n");
}

#[test]
fn root_capture_is_looked_up_by_index() {
    let caps = vec![cap(0, 5, 0, 1), cap(1, 9, 2, 4), cap(1, 10, 3, 4)];
    assert_eq!(find_root(&caps, 1), Some(cap(1, 9, 2, 4)));
    assert_eq!(find_root(&caps, 2), None);
}

#[test]
fn same_node_from_many_alternatives_counts_once() {
    let ms = vec![vec![cap(0, 42, 0, 3)], vec![cap(0, 42, 0, 3)], vec![cap(0, 42, 0, 3)]];
    assert_eq!(dedup_matches(&ms, 0), vec![cap(0, 42, 0, 3)]);
    let entries = file_entries("x.go", "abc", 0, &ms).unwrap();
    assert_eq!(entries.len(), 1);
}

#[test]
fn distinct_nodes_kept_in_match_order() {
    let ms = vec![
        vec![cap(1, 7, 4, 6), cap(0, 3, 0, 2)],
        vec![cap(0, 4, 2, 4)],
        vec![cap(0, 3, 0, 2)],
        vec![cap(1, 8, 0, 1)],
    ];
    assert_eq!(dedup_matches(&ms, 0), vec![cap(0, 3, 0, 2), cap(0, 4, 2, 4)]);
}

#[test]
fn node_text_by_byte_range() {
    assert_eq!(node_text("func foo() {}", 5, 8), Some("foo"));
    assert_eq!(node_text("abc", 3, 3), Some(""));
    assert_eq!(node_text("abc", 2, 4), None);
    assert_eq!(node_text("abc", 2, 1), None);
    assert_eq!(node_text("é!", 1, 3), None);
    assert_eq!(node_text("é!", 0, 2), Some("é"));
}

#[test]
fn entry_and_notice_formats() {
    assert_eq!(format_entry("a.go", "func foo() {}"), format!("{}\nFound [a.go]\nfunc foo() {{}}", RULE));
    assert_eq!(skip_notice("b.go", "boom"), "==> Skipping [b.go] [boom]");
}

#[test]
fn bad_span_makes_file_error() {
    let ms = vec![vec![cap(0, 1, 0, 1)], vec![cap(0, 2, 1, 9)]];
    assert_eq!(file_entries("x.go", "abc", 0, &ms), Err(FileError::BadSpan { start: 1, end: 9 }));
    assert_eq!(FileError::BadSpan { start: 1, end: 9 }.message(), "a matched node lies outside the file's text");
}

#[test]
fn file_entries_format_each_node() {
    let ms = vec![vec![cap(0, 1, 0, 3)], vec![cap(0, 2, 4, 7)]];
    let r = file_entries("p.go", "foo bar", 0, &ms).unwrap();
    assert_eq!(r, vec![format!("{}\nFound [p.go]\nfoo", RULE), format!("{}\nFound [p.go]\nbar", RULE)]);
}

#[test]
fn empty_directory_report() {
    let r = Report::collect(0, &Vec::new());
    assert_eq!(r.total, 0);
    assert!(r.entries.is_empty());
    assert_eq!(r.render(), "Searching 0 files.\n\n\nFound 0 total results.\n");
}

#[test]
fn skipped_file_adds_one_notice_and_no_count() {
    let results = vec![
        ("a.go".to_string(), Err("stream did not contain valid UTF-8".to_string())),
        ("b.go".to_string(), Ok(vec!["E1".to_string(), "E2".to_string()])),
    ];
    let r = Report::collect(2, &results);
    assert_eq!(r.total, 2);
    assert_eq!(
        r.entries,
        strings(&["==> Skipping [a.go] [stream did not contain valid UTF-8]", "E1", "E2"])
    );
    assert_eq!(
        r.render(),
        "Searching 2 files.\n\n==> Skipping [a.go] [stream did not contain valid UTF-8]\nE1\nE2\n\nFound 2 total results.\n"
    );
}

#[test]
fn folding_order_keeps_total_and_entries() {
    let a = ("a.go".to_string(), Ok(vec!["A".to_string()]));
    let b = ("b.go".to_string(), Err("bad".to_string()));
    let c = ("c.go".to_string(), Ok(vec!["C1".to_string(), "C2".to_string()]));
    let r1 = Report::collect(3, &vec![a.clone(), b.clone(), c.clone()]);
    let r2 = Report::collect(3, &vec![c, a, b]);
    assert_eq!(r1.total, 3);
    assert_eq!(r1.total, r2.total);
    let mut e1 = r1.entries.clone();
    let mut e2 = r2.entries.clone();
    e1.sort();
    e2.sort();
    assert_eq!(e1, e2);
}

#[test]
fn invalid_pattern_is_refused() {
    match compile("(function_declaration") {
        Err(CompileError::Invalid { message }) => assert!(!message.is_empty()),
        _ => panic!("an unbalanced pattern must not compile"),
    }
    assert!(compile("(no_such_node_kind)").is_err());
}

#[test]
fn undefined_capture_at_end_is_an_error() {
    match compile("((identifier) (#eq? \"x\"") {
        Err(CompileError::Invalid { message }) => assert!(!message.is_empty()),
        _ => panic!("an unterminated predicate must not compile"),
    }
}

#[test]
fn trailing_comment_hides_root_capture() {
    assert!(matches!(compile("(identifier) ;"), Err(CompileError::NoRootCapture)));
}

#[test]
fn go_parser_is_created() {
    assert!(GoParser::new().is_ok());
}

#[test]
fn root_capture_follows_user_captures() {
    let q = compile("(identifier) @a").ok().unwrap();
    assert_eq!(q.root, 1);
    assert_eq!(q.source, "(identifier) @a @full_pattern_cli_capture\n");
}

#[test]
fn go_function_named_foo_scenario() {
    let found = strings(&["root/a.go", "root/b.go", "root/c.java"]);
    let paths = select_go_files(&found);
    assert_eq!(paths, strings(&["root/a.go", "root/b.go"]));
    let q = compile("((function_declaration name: (identifier) @name) (#eq? @name \"foo\"))").ok().unwrap();
    let mut parser = GoParser::new().ok().unwrap();
    let a = parser.match_file(&q, "root/a.go", "package main\n\nfunc foo() {}\n\nfunc bar() {}\n");
    let b = parser.match_file(&q, "root/b.go", "package main\n\nvar x = 1\n");
    assert_eq!(a, Ok(vec![format!("{}\nFound [root/a.go]\nfunc foo() {{}}", RULE)]));
    assert_eq!(b, Ok(vec![]));
    let results = vec![("root/a.go".to_string(), a.map_err(|e| e.message())), ("root/b.go".to_string(), b.map_err(|e| e.message()))];
    let report = Report::collect(paths.len(), &results);
    let out = report.render();
    assert!(out.starts_with("Searching 2 files.\n"));
    assert_eq!(out.matches("Found [").count(), 1);
    assert!(out.contains("Found [root/a.go]"));
    assert!(out.ends_with("Found 1 total results.\n"));
}

#[test]
fn one_node_through_two_alternatives_reports_once() {
    let q = compile("[(function_declaration) (function_declaration name: (identifier))]").ok().unwrap();
    let mut parser = GoParser::new().ok().unwrap();
    let r = parser.match_file(&q, "x.go", "package main\n\nfunc foo() {}\n").unwrap();
    assert_eq!(r, vec![format!("{}\nFound [x.go]\nfunc foo() {{}}", RULE)]);
}

#[test]
fn rerun_gives_same_entries() {
    let q = compile("(function_declaration)").ok().unwrap();
    let src = "package main\n\nfunc a() {}\nfunc b() {}\n";
    let mut p1 = GoParser::new().ok().unwrap();
    let mut p2 = GoParser::new().ok().unwrap();
    let r1 = p1.match_file(&q, "m.go", src).unwrap();
    let r2 = p2.match_file(&q, "m.go", src).unwrap();
    assert_eq!(r1.len(), 2);
    assert_eq!(r1, r2);
}
