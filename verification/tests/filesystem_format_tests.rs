use mixtape::tools::filesystem::modified_text;
use mixtape::tools::filesystem::mime_text;
use mixtape::tools::filesystem::{file_info_report, parse_file_info, FileInfoTool, ReadFileTool};
use std::path::PathBuf;

fn info_tool() -> FileInfoTool {
    FileInfoTool::with_base_path(PathBuf::from("/tmp"))
}

fn read_tool() -> ReadFileTool {
    ReadFileTool::with_base_path(PathBuf::from("/tmp"))
}

#[test]
fn file_info_ansi_colors_directories_blue() {
    let report = file_info_report("mydir", false, true, None, 4096, "N/A", "2024-01-01 00:00:00 UTC", false);
    let ansi = info_tool().format_output_ansi(&report);
    assert!(ansi.contains("\x1b[34m"));
}

#[test]
fn file_info_ansi_marks_links() {
    let report = file_info_report(
        "link.txt",
        true,
        false,
        Some("/tmp/real.txt"),
        11,
        "N/A",
        "2024-01-01 00:00:00 UTC",
        false,
    );
    let ansi = info_tool().format_output_ansi(&report);
    assert!(ansi.contains("\x1b[36m"));
    assert!(ansi.contains("󰌷"));
}

#[test]
fn file_info_ansi_read_only_red() {
    let report = file_info_report("ro.txt", false, false, None, 7, "text/plain", "Unknown", true);
    let ansi = info_tool().format_output_ansi(&report);
    assert!(ansi.contains("\x1b[31m"));
}

#[test]
fn file_info_markdown_is_a_table() {
    let report = file_info_report("test.txt", false, false, None, 7, "text/plain", "Unknown", false);
    let markdown = info_tool().format_output_markdown(&report);
    assert!(markdown.contains("###"));
    assert!(markdown.contains("| Property | Value |"));
    assert!(markdown.contains("|----------|-------|"));
    assert!(markdown.contains("| Type |"));
    assert!(markdown.contains("| Size |"));
}

#[test]
fn file_info_plain_marks_directories() {
    let report = file_info_report("testdir", false, true, None, 4096, "N/A", "Unknown", false);
    let plain = info_tool().format_output_plain(&report);
    assert!(plain.contains("[D]"));
    assert!(plain.contains("─"));
}

#[test]
fn file_info_renderings_exact() {
    let tool = info_tool();
    let report = "File Information: a.txt\nType: File\nSize: 3 bytes\nRead-only: false";
    assert_eq!(
        tool.format_output_plain(report),
        "a.txt\n─────\n[F] Type         File\n[#] Size         3 bytes\n[R] Read-only    false\n"
    );
    assert_eq!(
        tool.format_output_markdown(report),
        "### `a.txt`\n\n| Property | Value |\n|----------|-------|\n| Type | `File` |\n| Size | `3 bytes` |\n| Read-only | `false` |\n"
    );
    assert_eq!(
        tool.format_output_ansi("Size: 3 bytes"),
        "\x1b[33m󰋊\x1b[0m \x1b[2mSize        \x1b[0m \x1b[33m3 bytes\x1b[0m\n"
    );
    assert_eq!(tool.format_output_plain("no fields here"), "no fields here");
}

#[test]
fn file_info_rule_counts_bytes_up_to_forty() {
    let tool = info_tool();
    let plain = tool.format_output_plain("File Information: é");
    assert_eq!(plain, "é\n──\n");
    let long = "x".repeat(60);
    let plain = tool.format_output_plain(&format!("File Information: {}", long));
    assert_eq!(plain, format!("{}\n{}\n", long, "─".repeat(40)));
}

#[test]
fn read_file_renderings_exact() {
    let tool = read_tool();
    assert_eq!(tool.format_output_plain(""), "(empty file)");
    assert_eq!(tool.format_output_ansi(""), "\x1b[2m(empty file)\x1b[0m");
    assert_eq!(tool.format_output_markdown(""), "*Empty file*");
    assert_eq!(tool.format_output_plain("a\nb"), "  1 │ a\n  2 │ b\n");
    assert_eq!(
        tool.format_output_ansi("a"),
        "\x1b[36m  1\x1b[0m \x1b[2m│\x1b[0m a\n"
    );
    assert_eq!(tool.format_output_markdown("file content"), "```\nfile content\n```");
    assert!(!tool.format_output_plain("file content").is_empty());
}

#[test]
fn modification_times_are_written_in_utc() {
    assert_eq!(modified_text(Some(0)), "1970-01-01 00:00:00 UTC");
    assert_eq!(modified_text(Some(1_700_000_000)), "2023-11-14 22:13:20 UTC");
    assert_eq!(modified_text(None), "Unknown");
}

#[test]
fn mime_types_by_content_then_extension() {
    assert_eq!(mime_text(true, false, None, "link.json"), "N/A");
    assert_eq!(mime_text(false, false, None, "dir"), "N/A");
    assert_eq!(mime_text(false, true, Some("image/png".to_string()), "x.txt"), "image/png");
    assert_eq!(mime_text(false, true, None, "data.json"), "application/json");
    assert_eq!(mime_text(false, true, None, "notes.txt"), "text/plain");
    assert_eq!(mime_text(false, true, None, "noextension"), "application/octet-stream");
}

#[test]
fn file_info_report_reads_back() {
    let report = file_info_report(
        "link.txt",
        true,
        false,
        Some("/tmp/target.txt"),
        2048,
        "N/A",
        "2024-05-06 07:08:09 UTC",
        true,
    );
    let fields = parse_file_info(&report);
    assert_eq!(
        fields,
        vec![
            ("File Information", "link.txt"),
            ("Type", "Symbolic Link"),
            ("Target", "/tmp/target.txt"),
            ("Size", "2.00 KB (2048 bytes)"),
            ("MIME Type", "N/A"),
            ("Modified", "2024-05-06 07:08:09 UTC"),
            ("Read-only", "true"),
        ]
    );
}
