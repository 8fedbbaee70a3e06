use mixtape::tools::filesystem::{default_concurrency, FileReadResult, ReadMultipleFilesTool};
use mixtape::tools::read_many::{capped_concurrency, file_read_result, read_results_report, ReadOutcome};
use std::path::PathBuf;

fn tool() -> ReadMultipleFilesTool {
    ReadMultipleFilesTool::with_base_path(PathBuf::from("/tmp"))
}

fn read(path: &str, content: &str) -> FileReadResult {
    file_read_result(path.to_string(), ReadOutcome::Read(content.to_string()))
}

fn failed(path: &str, reason: &str) -> FileReadResult {
    file_read_result(path.to_string(), ReadOutcome::Failed(reason.to_string()))
}

#[test]
fn test_default_concurrency() {
    assert_eq!(default_concurrency(), 10, "Default concurrency should be 10");
}

#[test]
fn concurrency_is_capped_at_fifty() {
    assert_eq!(capped_concurrency(10000), 50);
    assert_eq!(capped_concurrency(50), 50);
    assert_eq!(capped_concurrency(7), 7);
    assert_eq!(capped_concurrency(0), 0);
}

#[test]
fn outcomes_become_results() {
    let r = read("a.txt", "hi");
    assert_eq!(r.path, "a.txt");
    assert_eq!(r.content.as_deref(), Some("hi"));
    assert!(r.error.is_none());
    let r = failed("b.txt", "No such file or directory (os error 2)");
    assert!(r.content.is_none());
    assert_eq!(r.error.as_deref(), Some("Failed to read file: No such file or directory (os error 2)"));
    let r = file_read_result("../x".to_string(), ReadOutcome::Rejected("Path escapes base".to_string()));
    assert_eq!(r.error.as_deref(), Some("Path escapes base"));
}

#[test]
fn report_counts_and_entries() {
    let results = vec![read("exists.txt", "content"), failed("missing.txt", "gone")];
    let report = read_results_report(&results);
    assert_eq!(
        report,
        "Read 2 files (1 successful, 1 failed):\n\n✓ exists.txt\ncontent\n\n✗ missing.txt\nError: Failed to read file: gone\n\n"
    );
    assert!(read_results_report(&vec![]).contains("Read 0 files (0 successful, 0 failed)"));
}

#[test]
fn report_cuts_long_files_after_two_hundred_bytes() {
    let large = "x".repeat(500);
    let report = read_results_report(&vec![read("large.txt", &large)]);
    assert!(report.contains("... (500 bytes total)"));
    assert!(report.contains(&"x".repeat(200)));
    assert!(!report.contains(&"x".repeat(300)));
    let exact = "y".repeat(200);
    let report = read_results_report(&vec![read("exact.txt", &exact)]);
    assert!(!report.contains("bytes total"));
}

#[test]
fn renderings_of_mixed_results() {
    let results = vec![read("exists.txt", "content"), failed("missing.txt", "gone")];
    let report = read_results_report(&results);
    let t = tool();
    let ansi = t.format_output_ansi(&report);
    assert!(ansi.contains("\x1b[32m"));
    assert!(ansi.contains("\x1b[31m"));
    assert!(ansi.contains("1 ok"));
    assert!(ansi.contains("1 failed"));
    let markdown = t.format_output_markdown(&report);
    assert!(markdown.contains("✅"));
    assert!(markdown.contains("❌"));
    assert!(markdown.contains("```"));
    let plain = t.format_output_plain(&report);
    assert!(plain.contains("[OK]"));
    assert!(plain.contains("[ERR]"));
}

#[test]
fn renderings_exact() {
    let t = tool();
    let report = "Read 2 files (1 successful, 1 failed):\n\n✓ a.txt\nhello\n\n✗ b.txt\nError: nope\n\n";
    let rule = "─".repeat(50);
    assert_eq!(
        t.format_output_plain(report),
        format!(
            "{r}\n  Read 2 files (1 successful, 1 failed):\n{r}\n[OK] a.txt\n      │ hello\n\n[ERR] b.txt\n      Error: nope\n",
            r = rule
        )
    );
    assert_eq!(
        t.format_output_ansi(report),
        format!(
            "\x1b[2m{r}\x1b[0m\n  \x1b[1mFiles Read\x1b[0m  \x1b[32m● 1 ok\x1b[0m  \x1b[31m● 1 failed\x1b[0m\n\x1b[2m{r}\x1b[0m\n\x1b[32m●\x1b[0m \x1b[36ma.txt\x1b[0m\n  \x1b[2m│\x1b[0m hello\n\n\x1b[31m●\x1b[0m \x1b[36mb.txt\x1b[0m\n  \x1b[31mError: nope\x1b[0m\n",
            r = rule
        )
    );
    assert_eq!(
        t.format_output_markdown(report),
        "### Read 2 files (1 successful, 1 failed):\n\n✅ `a.txt`\n```\nhello\n```\n\n❌ `b.txt`\n> ⚠️ Error: nope\n"
    );
    assert_eq!(t.format_output_plain(""), "");
}

#[test]
fn ansi_heading_leaves_out_zero_counts() {
    let t = tool();
    let rule = "─".repeat(50);
    assert_eq!(
        t.format_output_ansi("Read 0 files (0 successful, 0 failed):"),
        format!("\x1b[2m{r}\x1b[0m\n  \x1b[1mFiles Read\x1b[0m  \n\x1b[2m{r}\x1b[0m\n", r = rule)
    );
    assert!(!t.format_output_ansi("Read 2 files").is_empty());
}

#[test]
fn counts_read_back_from_report_heading() {
    let mut results = Vec::new();
    for k in 0..10 {
        results.push(read(&format!("f{}.txt", k), "x"));
    }
    results.push(failed("g.txt", "denied"));
    results.push(failed("h.txt", "missing"));
    let report = read_results_report(&results);
    assert!(report.starts_with("Read 12 files (10 successful, 2 failed):\n\n"));
    let ansi = tool().format_output_ansi(&report);
    assert!(ansi.contains("\x1b[32m● 10 ok\x1b[0m  \x1b[31m● 2 failed\x1b[0m"));
}

#[test]
fn previews_cut_after_two_hundred_characters() {
    let wide = "é".repeat(201);
    let report = read_results_report(&vec![read("wide.txt", &wide)]);
    let expected = format!("{}... (402 bytes total)", "é".repeat(200));
    assert!(report.contains(&expected));
    assert!(!report.contains(&"é".repeat(201)));
    let fits = "é".repeat(200);
    let report = read_results_report(&vec![read("fits.txt", &fits)]);
    assert!(!report.contains("bytes total"));
}
