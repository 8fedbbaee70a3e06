use mixtape::tools::listing::EntryInfo;
use mixtape::tools::scan::{listed_members, member_entry, name_lt, subtree_count};

fn member(name: &str, is_dir: bool) -> (String, bool) {
    (name.to_string(), is_dir)
}

#[test]
fn members_are_sorted_and_git_is_skipped() {
    let names = vec![member("zeta.txt", false), member(".git", true), member("alpha", true), member("Beta", false)];
    assert_eq!(
        listed_members(names, 0, 2),
        vec![
            ("Beta".to_string(), false, false),
            ("alpha".to_string(), true, true),
            ("zeta.txt".to_string(), false, false),
        ]
    );
}

#[test]
fn directories_at_the_depth_limit_are_not_descended() {
    let names = vec![member("b", true), member("a", true), member("c.txt", false)];
    assert_eq!(
        listed_members(names, 2, 2),
        vec![("a".to_string(), true, false), ("b".to_string(), true, false), ("c.txt".to_string(), false, false)]
    );
    assert_eq!(listed_members(vec![], 0, 0), vec![]);
}

#[test]
fn names_compare_by_code_point() {
    assert!(name_lt("B", "a"));
    assert!(name_lt("ab", "abc"));
    assert!(!name_lt("abc", "abc"));
    assert!(name_lt("z", "é"));
}

fn file(name: &str, size: u64) -> EntryInfo {
    member_entry(name.to_string(), false, size, vec![], 0)
}

#[test]
fn subtree_counts_each_entry_and_what_lies_below() {
    let inner = member_entry("d".to_string(), true, 0, vec![file("x", 1), file("y", 2)], 2);
    let children = vec![file("a", 3), inner];
    assert_eq!(subtree_count(&children), Some(4));
    assert_eq!(subtree_count(&vec![]), Some(0));
}

#[test]
fn subtree_count_reports_overflow() {
    let big = member_entry("d".to_string(), true, 0, vec![], usize::MAX);
    assert_eq!(subtree_count(&vec![big]), None);
}

#[test]
fn member_entries_of_files_and_directories() {
    let f = member_entry("f.txt".to_string(), false, 42, vec![file("ignored", 1)], 7);
    assert_eq!(f.name, "f.txt");
    assert!(!f.is_dir);
    assert_eq!(f.size, Some(42));
    assert!(f.children.is_empty());
    assert_eq!(f.child_count, 0);
    let d = member_entry("sub".to_string(), true, 42, vec![file("a", 1)], 1);
    assert!(d.is_dir);
    assert_eq!(d.size, None);
    assert_eq!(d.children.len(), 1);
    assert_eq!(d.child_count, 1);
}
