use mixtape::tools::edit::{
    check_replacements, default_fuzzy, default_replacements, detect_line_ending, edit_report, exact_edit,
    replace_counting, with_line_ending,
};
use mixtape::tools::edit::{edit_outcome, needs_fuzzy, FuzzyFind};

#[test]
fn edit_defaults() {
    assert_eq!(default_replacements(), 1);
    assert!(default_fuzzy());
}

#[test]
fn replacing_counts_occurrences() {
    assert_eq!(replace_counting("a-b-c", "-", "+"), ("a+b+c".to_string(), 2));
    assert_eq!(replace_counting("aaaa", "aa", "b"), ("bb".to_string(), 2));
    assert_eq!(replace_counting("abc", "x", "y"), ("abc".to_string(), 0));
    // An empty pattern matches before every character and at the end.
    assert_eq!(replace_counting("ab", "", "-"), ("-a-b-".to_string(), 3));
}

#[test]
fn line_endings_are_detected() {
    assert_eq!(detect_line_ending("one\r\ntwo"), "\r\n");
    assert_eq!(detect_line_ending("one\ntwo"), "\n");
    assert_eq!(detect_line_ending("one\rtwo"), "\n");
}

#[test]
fn crlf_files_are_written_back_with_crlf() {
    assert_eq!(with_line_ending("a\r\nb\nc".to_string(), true), "a\r\nb\r\nc");
    assert_eq!(with_line_ending("a\nb".to_string(), false), "a\nb");
    let back = with_line_ending("x\ny\r\nz\n".to_string(), true);
    assert_eq!(back, "x\r\ny\r\nz\r\n");
    assert!(!back.replace("\r\n", "").contains('\n'));
}

#[test]
fn exact_edits() {
    assert_eq!(exact_edit("let x = 1;\nlet x = 2;", "x", "y"), Some(("let y = 1;\nlet y = 2;".to_string(), 2)));
    assert_eq!(exact_edit("hello", "bye", "hi"), None);
}

#[test]
fn replacement_count_must_match() {
    assert_eq!(check_replacements(2, 2), Ok(()));
    assert_eq!(check_replacements(3, 1), Err("Expected 1 replacement(s) but found 3".to_string()));
}

#[test]
fn edit_reports_line_changes() {
    assert_eq!(
        edit_report("src/a.rs", "exact", 1, "one", "one\ntwo\nthree"),
        "Successfully edited src/a.rs using exact matching\n1 replacement(s) (\x1b[32m+2 lines\x1b[0m)"
    );
    assert_eq!(
        edit_report("b.txt", "exact", 2, "a\nb", "c"),
        "Successfully edited b.txt using exact matching\n2 replacement(s) (\x1b[31m-1 lines\x1b[0m)"
    );
    assert_eq!(
        edit_report("c.txt", "exact", 1, "a", "b"),
        "Successfully edited c.txt using exact matching\n1 replacement(s) (no change in line count)"
    );
}

#[test]
fn edits_prefer_the_exact_match() {
    let r = edit_outcome("a b a\r\n", "a", "x", 2, true, None);
    assert_eq!(r, Ok(("x b x\r\n".to_string(), "exact".to_string(), 2)));
    let r = edit_outcome("a b a\n", "a", "x", 1, true, None);
    assert_eq!(r, Err("Expected 1 replacement(s) but found 2".to_string()));
}

#[test]
fn edits_without_a_match_and_without_fuzzy_are_refused() {
    let r = edit_outcome("hello", "bye", "x", 1, false, None);
    assert_eq!(r, Err("No exact match found and fuzzy matching is disabled".to_string()));
    assert!(!needs_fuzzy("hello", "bye", false));
    assert!(needs_fuzzy("hello", "bye", true));
    assert!(!needs_fuzzy("hello", "ell", true));
}

#[test]
fn fuzzy_windows_are_replaced() {
    let find = FuzzyFind::Window { start: 1, end: 4, similarity_shown: "75.0".to_string() };
    let r = edit_outcome("héllo wörld", "hallo", "X", 1, true, Some(find));
    assert_eq!(r, Ok(("hXo wörld".to_string(), "fuzzy (similarity: 75.0%)\nMatched text:\néll".to_string(), 1)));
    let find = FuzzyFind::Window { start: 0, end: 5, similarity_shown: "80.0".to_string() };
    let r = edit_outcome("hello", "hallo", "X", 2, true, Some(find));
    assert_eq!(r, Err("Expected 2 replacement(s) but found 1".to_string()));
}

#[test]
fn fuzzy_misses_name_the_threshold() {
    let find = FuzzyFind::Missed { threshold_shown: "70.0".to_string() };
    let r = edit_outcome("hello", "zzz", "X", 1, true, Some(find));
    assert_eq!(
        r,
        Err("No match found for the specified text (tried exact and fuzzy matching with threshold 70.0%)".to_string())
    );
}
