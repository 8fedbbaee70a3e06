use mixtape::tools::search::{
    default_ignore_case, default_max_results, default_search_type, SearchMatch, SearchTool,
};

#[test]
fn search_tool_test_default() {
    let tool: SearchTool = Default::default();
    assert_eq!(tool.name(), "search");
}

#[test]
fn search_tool_test_tool_name() {
    let tool = SearchTool::new();
    assert_eq!(tool.name(), "search");
}

#[test]
fn search_tool_test_tool_description() {
    let tool = SearchTool::new();
    assert!(!tool.description().is_empty());
    assert!(tool.description().contains("Search"));
}

#[test]
fn test_default_search_type() {
    assert_eq!(default_search_type(), "content");
}

#[test]
fn test_default_ignore_case() {
    assert!(default_ignore_case());
}

#[test]
fn test_default_max_results() {
    assert_eq!(default_max_results(), 100);
}

#[test]
fn test_format_output_plain_no_matches() {
    let tool = SearchTool::new();
    let result = "No matches for 'pattern' found in .";

    let formatted = tool.format_output_plain(result);
    assert_eq!(formatted, "No matches for 'pattern' found in .");
}

#[test]
fn test_format_output_plain_no_files() {
    let tool = SearchTool::new();
    let result = "No files matching 'pattern' found in .";

    let formatted = tool.format_output_plain(result);
    assert_eq!(formatted, "No files matching 'pattern' found in .");
}

#[test]
fn test_format_output_plain_file_search() {
    let tool = SearchTool::new();
    let result = "Found 2 file(s) matching '*.rs':\ntest1.rs\ntest2.rs";

    let formatted = tool.format_output_plain(result);
    assert!(formatted.contains("Found 2 file(s)"));
    assert!(formatted.contains("test1.rs"));
    assert!(formatted.contains("test2.rs"));
}

#[test]
fn test_format_output_plain_content_search() {
    let tool = SearchTool::new();
    let result = "Found 1 match(es) for 'test':\n\nsrc/main.rs:10\n  > fn test() {}";

    let formatted = tool.format_output_plain(result);
    assert!(formatted.contains("Found 1 match"));
    assert!(formatted.contains("src/main.rs"));
    // Check for arrow transformation
    assert!(formatted.contains("→") || formatted.contains(">"));
}

#[test]
fn test_format_output_plain_with_context() {
    let tool = SearchTool::new();
    let result = "Found 1 match(es) for 'target':\n\ntest.txt:3\n  | line before\n  > target line\n  | line after";

    let formatted = tool.format_output_plain(result);
    assert!(formatted.contains("line before"));
    assert!(formatted.contains("target line"));
    assert!(formatted.contains("line after"));
}

#[test]
fn test_format_output_ansi_no_matches() {
    let tool = SearchTool::new();
    let result = "No matches for 'pattern' found in .";

    let formatted = tool.format_output_ansi(result);
    // Should be dimmed
    assert!(formatted.contains("\x1b[2m"));
    assert!(formatted.contains("No matches"));
}

#[test]
fn test_format_output_ansi_no_files() {
    let tool = SearchTool::new();
    let result = "No files matching 'pattern' found in .";

    let formatted = tool.format_output_ansi(result);
    assert!(formatted.contains("\x1b[2m")); // dimmed
}

#[test]
fn test_format_output_ansi_file_search() {
    let tool = SearchTool::new();
    let result = "Found 2 file(s) matching '*.rs':\ntest1.rs\ntest2.rs";

    let formatted = tool.format_output_ansi(result);
    // Header should be bold
    assert!(formatted.contains("\x1b[1m"));
    // Files should be magenta
    assert!(formatted.contains("\x1b[35m"));
}

#[test]
fn test_format_output_ansi_content_search() {
    let tool = SearchTool::new();
    // Use format that triggers line number extraction (need colon after number)
    let result = "Found 1 match(es) for 'test':\n\nsrc/main.rs:10:fn test() {}";

    let formatted = tool.format_output_ansi(result);
    // Header should be bold
    assert!(formatted.contains("\x1b[1m"));
    // File path should be magenta
    assert!(formatted.contains("\x1b[35m"));
    // Line number should be green (only when content follows the line number)
    assert!(formatted.contains("\x1b[32m"));
}

#[test]
fn test_format_output_ansi_match_indicator() {
    let tool = SearchTool::new();
    let result = "Found 1 match(es) for 'test':\n\ntest.txt:10\n  > fn test() {}";

    let formatted = tool.format_output_ansi(result);
    // Match indicator (arrow) should be yellow
    assert!(formatted.contains("\x1b[33m"));
}

#[test]
fn test_format_output_ansi_with_context() {
    let tool = SearchTool::new();
    let result = "Found 1 match(es) for 'target':\n\ntest.txt:3\n  | context line\n  > target line";

    let formatted = tool.format_output_ansi(result);
    // Context lines should be dimmed
    assert!(formatted.contains("\x1b[2m"));
}

#[test]
fn test_format_output_markdown_no_matches() {
    let tool = SearchTool::new();
    let result = "No matches for 'pattern' found in .";

    let formatted = tool.format_output_markdown(result);
    // Should be italicized
    assert!(formatted.contains("*No matches"));
}

#[test]
fn test_format_output_markdown_no_files() {
    let tool = SearchTool::new();
    let result = "No files matching 'pattern' found in .";

    let formatted = tool.format_output_markdown(result);
    assert!(formatted.contains("*No files"));
}

#[test]
fn test_format_output_markdown_file_search() {
    let tool = SearchTool::new();
    let result = "Found 2 file(s) matching '*.rs':\ntest1.rs\ntest2.rs";

    let formatted = tool.format_output_markdown(result);
    // Header should be bold
    assert!(formatted.contains("**Found 2 file(s)"));
    // Files should be in list with code formatting
    assert!(formatted.contains("- `test1.rs`"));
    assert!(formatted.contains("- `test2.rs`"));
}

#[test]
fn test_format_output_markdown_content_search() {
    let tool = SearchTool::new();
    let result = "Found 1 match(es) for 'test':\n\nsrc/main.rs:10\n  > fn test() {}";

    let formatted = tool.format_output_markdown(result);
    // Header should be bold
    assert!(formatted.contains("**Found 1 match"));
    // File should be a heading with code formatting
    assert!(formatted.contains("### `src/main.rs`"));
    // Code block should be present
    assert!(formatted.contains("```"));
}

#[test]
fn test_format_output_markdown_closes_code_block() {
    let tool = SearchTool::new();
    let result = "Found 1 match(es) for 'test':\n\nsrc/main.rs:10\n  > fn test() {}";

    let formatted = tool.format_output_markdown(result);
    // Should have both opening and closing code blocks
    let open_count = formatted.matches("```").count();
    // Should have at least one pair (open + close)
    assert!(open_count >= 2 || open_count == 0);
}

#[test]
fn test_search_match_debug() {
    let m = SearchMatch {
        file_path: "test.rs".to_string(),
        line_number: 42,
        line_content: "fn test()".to_string(),
        context_before: vec!["// comment".to_string()],
        context_after: vec!["}".to_string()],
    };
    let debug_str = format!("{:?}", m);
    assert!(debug_str.contains("test.rs"));
    assert!(debug_str.contains("42"));
}
