use mixtape::tools::edit::{EditBlockTool, EditParams};
use std::path::PathBuf;

fn params(path: Option<&str>, old: Option<&str>, new: Option<&str>) -> EditParams {
    EditParams {
        file_path: path.map(|s| s.to_string()),
        old_string: old.map(|s| s.to_string()),
        new_string: new.map(|s| s.to_string()),
    }
}

#[test]
fn edit_input_renderings_are_diffs() {
    let tool = EditBlockTool::with_base_path(PathBuf::from("/tmp"));
    let p = params(Some("test.txt"), Some("old"), Some("new"));
    assert_eq!(tool.format_input_plain(&p), "edit_block: test.txt\n--- old\n- old\n+++ new\n+ new\n");
    assert_eq!(
        tool.format_input_ansi(&p),
        "\x1b[1medit_block:\x1b[0m test.txt\n\x1b[31m--- old\x1b[0m\n\x1b[31m- old\x1b[0m\n\x1b[32m+++ new\x1b[0m\n\x1b[32m+ new\x1b[0m\n"
    );
    assert_eq!(tool.format_input_markdown(&p), "**edit_block:** `test.txt`\n\n```diff\n- old\n+ new\n```\n");
}

#[test]
fn edit_input_missing_fields_use_defaults() {
    let tool = EditBlockTool::with_base_path(PathBuf::from("/tmp"));
    let p = params(None, None, Some("a\r\nb"));
    assert_eq!(tool.format_input_plain(&p), "edit_block: ?\n--- old\n+++ new\n+ a\n+ b\n");
    assert!(!tool.format_input_markdown(&params(None, None, None)).is_empty());
}
