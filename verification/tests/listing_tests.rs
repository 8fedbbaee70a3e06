use mixtape::tools::filesystem::ListDirectoryTool;
use mixtape::tools::listing::{check_max_lines, format_entries, listing_budget, listing_report, push_colorized, EntryInfo};
use std::path::PathBuf;

fn file(name: &str, size: u64) -> EntryInfo {
    EntryInfo { name: name.to_string(), is_dir: false, size: Some(size), children: vec![], child_count: 0 }
}

fn dir(name: &str, children: Vec<EntryInfo>) -> EntryInfo {
    let child_count = children.iter().map(|c| 1 + c.child_count).sum();
    EntryInfo { name: name.to_string(), is_dir: true, size: None, children, child_count }
}

fn unscanned_dir(name: &str, count: usize) -> EntryInfo {
    EntryInfo { name: name.to_string(), is_dir: true, size: None, children: vec![], child_count: count }
}

fn tool() -> ListDirectoryTool {
    ListDirectoryTool::with_base_path(PathBuf::from("/tmp"))
}

#[test]
fn entries_with_room_list_everything() {
    let entries = vec![file("file1.txt", 7), file("file2.txt", 2048), dir("subdir", vec![file("inner.rs", 10)])];
    let (lines, used) = format_entries(&entries, "", 10000);
    assert_eq!(
        lines,
        vec![
            "[FILE] file1.txt (7 B)",
            "[FILE] file2.txt (2.0 KB)",
            "[DIR]  subdir/",
            "  [FILE] inner.rs (10 B)",
        ]
    );
    assert_eq!(used, 4);
}

#[test]
fn a_spent_budget_leaves_a_note() {
    let entries: Vec<EntryInfo> = (0..50).map(|i| file(&format!("file{:03}.txt", i), 1)).collect();
    let (lines, used) = format_entries(&entries, "", 10);
    let files = lines.iter().filter(|l| l.contains("[FILE]")).count();
    // The note is one of the ten lines.
    assert_eq!(files, 9);
    assert_eq!(lines.len(), 10);
    assert_eq!(lines.last().unwrap(), "[MORE] ... 41 more entries");
    assert_eq!(used, lines.len());
    // Exactly as many entries as lines: no note.
    let (all, _) = format_entries(&entries[..20].iter().map(|e| file(&e.name, 1)).collect(), "", 20);
    assert_eq!(all.len(), 20);
    assert!(!all.iter().any(|l| l.contains("[MORE]")));
    // One line fewer: the note takes the last line.
    let (cut, _) = format_entries(&entries[..20].iter().map(|e| file(&e.name, 1)).collect(), "", 19);
    assert_eq!(cut.len(), 19);
    assert_eq!(cut.last().unwrap(), "[MORE] ... 2 more entries");
    let (none, used) = format_entries(&entries, "", 0);
    assert!(none.is_empty());
    assert_eq!(used, 0);
}

#[test]
fn budget_is_shared_across_directories() {
    let entries: Vec<EntryInfo> = (0..5)
        .map(|d| dir(&format!("dir{}", d), (0..50).map(|f| file(&format!("file{:02}.txt", f), 1)).collect()))
        .collect();
    let (lines, _) = format_entries(&entries, "", 30);
    for d in 0..5 {
        assert!(lines.contains(&format!("[DIR]  dir{}/", d)), "dir{} should be listed", d);
    }
    let files = lines.iter().filter(|l| l.contains("[FILE]")).count();
    assert!(files >= 5);
    assert!(lines.len() <= 30);
}

#[test]
fn a_small_directory_keeps_its_files_beside_a_big_one() {
    let big = dir("dir_big", (0..100).map(|f| file(&format!("f{:03}.txt", f), 1)).collect());
    let small = dir("dir_small", vec![file("a.txt", 1), file("b.txt", 1)]);
    let (lines, _) = format_entries(&vec![big, small], "", 20);
    let text = lines.join("\n");
    assert!(text.contains("dir_big/"));
    assert!(text.contains("dir_small/"));
    assert!(text.contains("a.txt"));
    assert!(text.contains("b.txt"));
}

#[test]
fn unexpanded_directories_show_their_count() {
    let entries = vec![unscanned_dir("deep", 3), file("a.txt", 1)];
    let (lines, _) = format_entries(&entries, "", 100);
    assert_eq!(lines, vec!["[DIR]  deep/", "  [MORE] ... 3 items", "[FILE] a.txt (1 B)"]);
    let empty_dir = vec![unscanned_dir("empty", 0)];
    let (lines, _) = format_entries(&empty_dir, "", 100);
    assert_eq!(lines, vec!["[DIR]  empty/"]);
}

#[test]
fn sizes_agree_with_float_formatting() {
    for size in [0u64, 1023, 1024, 1536, 1_048_575, 1_048_576, 5_000_000, 123_456_789, u64::MAX, 1126, 1075] {
        let (lines, _) = format_entries(&vec![file("f", size)], "", 10);
        let expected = if size < 1024 {
            format!("{} B", size)
        } else if size < 1024 * 1024 {
            format!("{:.1} KB", size as f64 / 1024.0)
        } else {
            format!("{:.1} MB", size as f64 / (1024.0 * 1024.0))
        };
        assert_eq!(lines[0], format!("[FILE] f ({})", expected), "size {}", size);
    }
}

#[test]
fn listing_reports() {
    let lines = vec!["[FILE] a (1 B)".to_string(), "[DIR]  b/".to_string()];
    assert_eq!(listing_report(".", 2, &lines), "Contents of . (depth=2):\n[FILE] a (1 B)\n[DIR]  b/");
    assert_eq!(listing_report("src", 1, &vec![]), "Directory src is empty");
}

#[test]
fn max_lines_is_checked() {
    assert_eq!(check_max_lines(None), Ok(10000));
    assert_eq!(check_max_lines(Some(10)), Ok(10));
    assert_eq!(check_max_lines(Some(10000)), Ok(10000));
    assert_eq!(
        check_max_lines(Some(10001)),
        Err("max_lines (10001) exceeds maximum allowed value (10000)".to_string())
    );
}

#[test]
fn tree_renderings_exact() {
    let t = tool();
    let listing = "Contents of . (depth=2):\n[DIR]  src/\n  [FILE] main.rs (10 B)\n  [FILE] lib.rs (2.0 KB)\n[FILE] Cargo.lock (1 B)";
    assert_eq!(
        t.format_output_plain(listing),
        "Contents of . (depth=2):\n├──  src/\n│   ├──  main.rs (10 B)\n│   └──  lib.rs (2.0 KB)\n└──  Cargo.lock (1 B)\n"
    );
    assert_eq!(
        t.format_output_markdown(listing),
        "```\nContents of . (depth=2):\n├──  src/\n│   ├──  main.rs (10 B)\n│   └──  lib.rs (2.0 KB)\n└──  Cargo.lock (1 B)\n\n```"
    );
    assert_eq!(
        t.format_output_ansi(listing),
        "\x1b[1mContents of . (depth=2):\x1b[0m\n\
         \x1b[2m├──\x1b[0m \x1b[1;34msrc/\x1b[0m\n\
         \x1b[2m│\x1b[0m   \x1b[2m├──\x1b[0m \x1b[32mmain.rs\x1b[0m \x1b[2m10 B\x1b[0m\n\
         \x1b[2m│\x1b[0m   \x1b[2m└──\x1b[0m \x1b[32mlib.rs\x1b[0m \x1b[2m2.0 KB\x1b[0m\n\
         \x1b[2m└──\x1b[0m \x1b[2mCargo.lock\x1b[0m \x1b[2m1 B\x1b[0m\n"
    );
    assert_eq!(t.format_output_plain(""), "");
    assert_eq!(
        t.format_output_ansi("Contents:\n[MORE] ... 3 more entries"),
        "\x1b[1mContents:\x1b[0m\n\x1b[2m└──\x1b[0m [MORE] ... 3 more entries\n"
    );
}

#[test]
fn file_names_are_colored_by_extension() {
    let cases = [
        ("main.RS", "\x1b[32mmain.RS\x1b[0m"),
        ("data.json", "\x1b[33mdata.json\x1b[0m"),
        ("package-lock.json", "\x1b[33mpackage-lock.json\x1b[0m"),
        ("notes.md", "\x1b[36mnotes.md\x1b[0m"),
        ("a.tar", "\x1b[31ma.tar\x1b[0m"),
        ("logo.png", "\x1b[35mlogo.png\x1b[0m"),
        ("run.sh", "\x1b[1;32mrun.sh\x1b[0m"),
        ("yarn.lock", "\x1b[2myarn.lock\x1b[0m"),
        ("README", "README"),
        ("c", "\x1b[32mc\x1b[0m"),
    ];
    for (name, expected) in cases {
        let mut out = String::new();
        push_colorized(&mut out, name);
        assert_eq!(out, expected, "{}", name);
    }
}

#[test]
fn listings_round_trip_through_the_tree() {
    let entries = vec![dir("a", vec![dir("b", vec![file("x.txt", 3)])]), file("y.txt", 4)];
    let (lines, _) = format_entries(&entries, "", 100);
    let report = listing_report(".", 3, &lines);
    let plain = tool().format_output_plain(&report);
    assert_eq!(
        plain,
        "Contents of . (depth=3):\n├──  a/\n│   └──  b/\n│       └──  x.txt (3 B)\n└──  y.txt (4 B)\n"
    );
}

#[test]
fn listings_that_cannot_be_drawn_are_detected() {
    use_checkers();
}

fn use_checkers() {
    assert!(mixtape::tools::listing::tree_renders("Contents:\n[FILE] a (1 B)"));
    assert!(!mixtape::tools::listing::tree_renders("Contents:\n[FILE] a ("));
    assert!(!mixtape::tools::listing::tree_renders("Contents:\n[FILE] a (1 é"));
    assert!(mixtape::tools::listing::tree_renders(""));
    assert!(mixtape::tools::header::header_renders("Title: x\n---\ncontent"));
    assert!(mixtape::tools::header::header_renders("no header"));
    assert!(mixtape::tools::search::search_renders(&mixtape::tools::search::OutputStyle::Plain, "Found 1 match(es) for 'a':\n\nf.rs:1\n  > a"));
    assert!(!mixtape::tools::search::search_renders(&mixtape::tools::search::OutputStyle::Plain, "Found 1 match(es) for 'a':\n\n  >"));
}

#[test]
fn three_files_in_two_lines() {
    let entries = vec![file("a", 1), file("b", 1), file("c", 1)];
    let (lines, _) = format_entries(&entries, "", 2);
    assert_eq!(lines, vec!["[FILE] a (1 B)", "[MORE] ... 2 more entries"]);
}

#[test]
fn listing_budgets_are_checked_in_order() {
    assert_eq!(listing_budget("notes.txt", false, Some(20000)), Err("notes.txt is not a directory".to_string()));
    assert_eq!(listing_budget("src", true, Some(20000)), Err("max_lines (20000) exceeds maximum allowed value (10000)".to_string()));
    assert_eq!(listing_budget("src", true, Some(50)), Ok(50));
    assert_eq!(listing_budget("src", true, None), Ok(10000));
}
