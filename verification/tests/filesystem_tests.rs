use mixtape::tools::filesystem::{
    format_size, parse_file_info, select_lines, CreateDirectoryTool, FileInfoTool, ListDirectoryTool,
    MoveFileTool, ReadFileTool, ReadMultipleFilesTool, WriteFileTool,
};
use mixtape::tools::edit::EditBlockTool;

#[test]
fn create_directory_test_tool_metadata() {
    let tool: CreateDirectoryTool = Default::default();
    assert_eq!(tool.name(), "create_directory");
    assert!(!tool.description().is_empty());

    let tool2 = CreateDirectoryTool::new();
    assert_eq!(tool2.name(), "create_directory");
}

#[test]
fn file_info_test_tool_metadata() {
    let tool: FileInfoTool = Default::default();
    assert_eq!(tool.name(), "file_info");
    assert!(!tool.description().is_empty());

    let tool2 = FileInfoTool::new();
    assert_eq!(tool2.name(), "file_info");
}

#[test]
fn list_directory_test_tool_metadata() {
    let tool: ListDirectoryTool = Default::default();
    assert_eq!(tool.name(), "list_directory");
    assert!(!tool.description().is_empty());

    let tool2 = ListDirectoryTool::new();
    assert_eq!(tool2.name(), "list_directory");
}

#[test]
fn move_file_test_tool_metadata() {
    let tool: MoveFileTool = Default::default();
    assert_eq!(tool.name(), "move_file");
    assert!(!tool.description().is_empty());

    let tool2 = MoveFileTool::new();
    assert_eq!(tool2.name(), "move_file");
}

#[test]
fn read_file_test_tool_metadata() {
    // Exercise Default, new(), name(), description()
    let tool: ReadFileTool = Default::default();
    assert_eq!(tool.name(), "read_file");
    assert!(!tool.description().is_empty());

    let tool2 = ReadFileTool::new();
    assert_eq!(tool2.name(), "read_file");
}

#[test]
fn read_multiple_files_test_tool_metadata() {
    let tool: ReadMultipleFilesTool = Default::default();
    assert_eq!(tool.name(), "read_multiple_files");
    assert!(!tool.description().is_empty());

    let tool2 = ReadMultipleFilesTool::new();
    assert_eq!(tool2.name(), "read_multiple_files");
}

#[test]
fn write_file_test_tool_metadata() {
    let tool: WriteFileTool = Default::default();
    assert_eq!(tool.name(), "write_file");
    assert!(!tool.description().is_empty());

    let tool2 = WriteFileTool::new();
    assert_eq!(tool2.name(), "write_file");
}

#[test]
fn edit_block_test_tool_metadata() {
    let tool: EditBlockTool = Default::default();
    assert_eq!(tool.name(), "edit_block");
    assert!(!tool.description().is_empty());

    let tool2 = EditBlockTool::new();
    assert_eq!(tool2.name(), "edit_block");
}

#[test]
fn test_format_size_bytes() {
    assert_eq!(format_size(0), "0 bytes");
    assert_eq!(format_size(1), "1 bytes");
    assert_eq!(format_size(512), "512 bytes");
    assert_eq!(format_size(1023), "1023 bytes");
}

#[test]
fn test_format_size_kilobytes() {
    assert_eq!(format_size(1024), "1.00 KB (1024 bytes)");
    assert_eq!(format_size(1536), "1.50 KB (1536 bytes)");
    assert_eq!(format_size(1024 * 1024 - 1), "1024.00 KB (1048575 bytes)");
}

#[test]
fn test_format_size_megabytes() {
    assert_eq!(format_size(1024 * 1024), "1.00 MB (1048576 bytes)");
    assert_eq!(
        format_size(1024 * 1024 * 500),
        "500.00 MB (524288000 bytes)"
    );
    assert_eq!(
        format_size(1024 * 1024 * 1024 - 1),
        "1024.00 MB (1073741823 bytes)"
    );
}

#[test]
fn test_format_size_gigabytes() {
    assert_eq!(
        format_size(1024 * 1024 * 1024),
        "1.00 GB (1073741824 bytes)"
    );
    assert_eq!(
        format_size(1024 * 1024 * 1024 * 5),
        "5.00 GB (5368709120 bytes)"
    );
}

#[test]
fn test_format_size_boundaries() {
    // Test exact boundaries between units to ensure proper formatting
    let cases = [
        (1023, "1023 bytes"),
        (1024, "1.00 KB (1024 bytes)"),
        (1024 * 1024 - 1, "1024.00 KB (1048575 bytes)"),
        (1024 * 1024, "1.00 MB (1048576 bytes)"),
        (1024 * 1024 * 1024 - 1, "1024.00 MB (1073741823 bytes)"),
        (1024 * 1024 * 1024, "1.00 GB (1073741824 bytes)"),
    ];

    for (size, expected) in cases {
        assert_eq!(
            format_size(size),
            expected,
            "Size {} formatted incorrectly",
            size
        );
    }
}

#[test]
fn test_parse_file_info_structure() {
    // Test the parse_file_info helper function
    let output = "File Information: test.txt\nType: File\nSize: 100 bytes\nMIME Type: text/plain\nModified: 2024-01-01\nRead-only: false";
    let fields = parse_file_info(output);

    assert_eq!(fields.len(), 6);
    assert_eq!(fields[0], ("File Information", "test.txt"));
    assert_eq!(fields[1], ("Type", "File"));
    assert_eq!(fields[2], ("Size", "100 bytes"));
    assert_eq!(fields[3], ("MIME Type", "text/plain"));
    assert_eq!(fields[4], ("Modified", "2024-01-01"));
    assert_eq!(fields[5], ("Read-only", "false"));
}

#[test]
fn test_parse_file_info_empty() {
    // Test parsing empty string
    let fields = parse_file_info("");
    assert_eq!(fields.len(), 0);
}

#[test]
fn test_parse_file_info_malformed() {
    // Test parsing lines without colon separator
    let output = "NoColonHere\nAlso no colon";
    let fields = parse_file_info(output);
    assert_eq!(fields.len(), 0);
}

/// The sizes printed agree with `f64` formatting, ties and large sizes
/// included.
#[test]
fn format_size_agrees_with_float_formatting() {
    let mut sizes: Vec<u64> = vec![
        1024, 1152, 1034, 1044, 1055, 2047, 2048, 10_240, 1_048_575, 1_048_576,
        1_153_434, 5_368_709_120, 1 << 53, (1 << 53) + 1, (1 << 53) + 3, (1 << 60) + 12345,
        u64::MAX, u64::MAX - 1024, 9_007_199_254_740_993,
    ];
    let mut x: u64 = 1024;
    for _ in 0..2000 {
        sizes.push(x);
        x = x.wrapping_mul(6364136223846793005).wrapping_add(1442695040888963407) >> 3;
        if x < 1024 {
            x += 1024;
        }
    }
    for k in 1024u64..4096 {
        sizes.push(k);
    }
    for size in sizes {
        let expected = if size < 1024 {
            format!("{} bytes", size)
        } else if size < 1024 * 1024 {
            format!("{:.2} KB ({} bytes)", size as f64 / 1024.0, size)
        } else if size < 1024 * 1024 * 1024 {
            format!("{:.2} MB ({} bytes)", size as f64 / (1024.0 * 1024.0), size)
        } else {
            format!("{:.2} GB ({} bytes)", size as f64 / (1024.0 * 1024.0 * 1024.0), size)
        };
        assert_eq!(format_size(size), expected, "size {}", size);
    }
}

#[test]
fn reading_in_parts_gives_the_whole() {
    let content = "one\ntwo\nthree\nfour\nfive\n";
    let first = select_lines(content, Some(1), Some(2));
    let second = select_lines(content, Some(3), None);
    assert_eq!(first, "two\nthree");
    assert_eq!(second, "four\nfive");
    assert_eq!(format!("{}\n{}", first, second), select_lines(content, Some(1), None));
}
