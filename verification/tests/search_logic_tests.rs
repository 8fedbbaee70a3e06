use mixtape::tools::pattern::{LinePattern, NamePattern};
use mixtape::tools::search::{
    content_search_result, file_search_result, matches_in_file, plan_search, regex_source, search_renders,
    take_until_limit, OutputStyle, SearchInput, SearchKind, SearchMatch,
};
use std::path::PathBuf;

fn input(pattern: &str, search_type: &str, file_pattern: Option<&str>) -> SearchInput {
    SearchInput {
        root_path: PathBuf::from("."),
        pattern: pattern.to_string(),
        search_type: search_type.to_string(),
        file_pattern: file_pattern.map(|s| s.to_string()),
        ignore_case: false,
        max_results: 100,
        include_hidden: false,
        context_lines: 0,
        literal_search: false,
    }
}

fn err_of<T>(r: Result<T, String>) -> String {
    match r {
        Err(e) => e,
        Ok(_) => panic!("expected an error"),
    }
}

fn found(path: &str, line: usize, content: &str) -> SearchMatch {
    SearchMatch {
        file_path: path.to_string(),
        line_number: line,
        line_content: content.to_string(),
        context_before: vec![],
        context_after: vec![],
    }
}

#[test]
fn regex_source_escapes_literals_and_marks_case() {
    assert_eq!(regex_source("a.b", false, false), "a.b");
    assert_eq!(regex_source("a.b", true, false), "a\\.b");
    assert_eq!(regex_source("a.b", true, true), "(?i)a\\.b");
    assert_eq!(regex_source("fn", false, true), "(?i)fn");
}

#[test]
fn line_pattern_matches_anywhere_in_a_line() {
    let p = match LinePattern::new("(?i)todo") {
        Ok(p) => p,
        Err(e) => panic!("{}", e),
    };
    assert!(p.is_match("// TODO: later"));
    assert!(!p.is_match("done"));
    assert!(LinePattern::new("(").is_err());
}

#[test]
fn name_pattern_matches_whole_names() {
    let g = match NamePattern::new("*.rs") {
        Ok(g) => g,
        Err(e) => panic!("{}", e),
    };
    assert!(g.selects("main.rs"));
    assert!(!g.selects("main.rs.bak"));
    assert!(NamePattern::new("[").is_err());
}

#[test]
fn plan_refuses_bad_regex_first() {
    let e = err_of(plan_search(&input("(", "nonsense", Some("["))));
    assert!(e.starts_with("Invalid regex pattern: "));
}

#[test]
fn plan_refuses_bad_file_pattern() {
    let e = err_of(plan_search(&input("fn", "content", Some("["))));
    assert!(e.starts_with("Invalid file pattern: "));
}

#[test]
fn plan_refuses_unknown_search_type() {
    let e = err_of(plan_search(&input("fn", "lines", None)));
    assert_eq!(e, "Invalid search_type: 'lines'. Must be 'files' or 'content'");
}

#[test]
fn plan_of_valid_inputs() {
    let p = match plan_search(&input("fn", "files", None)) {
        Ok(p) => p,
        Err(e) => panic!("{}", e),
    };
    assert!(matches!(p.kind, SearchKind::Files));
    assert!(p.file_glob.is_none());
    let p = match plan_search(&input("fn", "content", Some("*.rs"))) {
        Ok(p) => p,
        Err(e) => panic!("{}", e),
    };
    assert!(matches!(p.kind, SearchKind::Content));
    assert!(p.file_glob.unwrap().selects("lib.rs"));
    assert!(p.pattern.is_match("pub fn main()"));
}

#[test]
fn matches_carry_numbers_and_context() {
    let p = match LinePattern::new("hit") {
        Ok(p) => p,
        Err(e) => panic!("{}", e),
    };
    let text = "a\nb\nhit one\nc\nd\nhit two";
    let ms = matches_in_file("f.txt", text, &p, 1);
    assert_eq!(ms.len(), 2);
    assert_eq!(ms[0].file_path, "f.txt");
    assert_eq!(ms[0].line_number, 3);
    assert_eq!(ms[0].line_content, "hit one");
    assert_eq!(ms[0].context_before, vec!["b".to_string()]);
    assert_eq!(ms[0].context_after, vec!["c".to_string()]);
    assert_eq!(ms[1].line_number, 6);
    assert_eq!(ms[1].context_before, vec!["d".to_string()]);
    assert!(ms[1].context_after.is_empty());
    let none = matches_in_file("f.txt", text, &p, 0);
    assert!(none[0].context_before.is_empty() && none[0].context_after.is_empty());
}

#[test]
fn collecting_stops_at_the_limit() {
    let mut all = vec![found("a", 1, "x")];
    take_until_limit(&mut all, vec![found("b", 1, "y"), found("b", 2, "z"), found("b", 3, "w")], 3);
    assert_eq!(all.len(), 3);
    assert_eq!(all[0].file_path, "a");
    assert_eq!(all[1].line_content, "y");
    assert_eq!(all[2].line_content, "z");
    take_until_limit(&mut all, vec![found("c", 1, "v")], 3);
    assert_eq!(all.len(), 3);
}

#[test]
fn file_search_reports() {
    assert_eq!(file_search_result("main", "src", &vec![]), "No files matching 'main' found in src");
    assert_eq!(
        file_search_result("main", "src", &vec!["main.rs".to_string(), "bin/main.rs".to_string()]),
        "Found 2 file(s) matching 'main':\nmain.rs\nbin/main.rs"
    );
}

#[test]
fn content_search_reports() {
    assert_eq!(content_search_result("x", "src", &vec![]), "No matches for 'x' found in src");
    let mut m = found("src/lib.rs", 10, "let x = 1;");
    m.context_before = vec!["// before".to_string()];
    m.context_after = vec!["// after".to_string()];
    assert_eq!(
        content_search_result("x", "src", &vec![m]),
        "Found 1 match(es) for 'x':\n\nsrc/lib.rs:10\n  | // before\n  > let x = 1;\n  | // after\n\n"
    );
}

#[test]
fn search_results_can_always_be_rendered() {
    let mut m = found("src/é.rs", 3, "é is here");
    m.context_before = vec!["été".to_string()];
    let report = content_search_result("é", "src", &vec![m]);
    assert!(search_renders(&OutputStyle::Plain, &report));
    assert!(search_renders(&OutputStyle::Ansi, &report));
    let files = file_search_result("é", "src", &vec!["é.rs".to_string()]);
    assert!(search_renders(&OutputStyle::Plain, &files));
    // A marker line cut inside a character is what cannot be rendered.
    assert!(!search_renders(&OutputStyle::Plain, "Found 1 match(es) for 'x':

f
  >é"));
}
