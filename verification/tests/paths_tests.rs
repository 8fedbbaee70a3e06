use mixtape::tools::paths::{
    canonicalize_error, no_ancestor_error, normalized, path_starts_with, resolve_within_base, within_base,
    CanonicalTarget,
};

fn comps(parts: &[&str]) -> Vec<Vec<u8>> {
    parts.iter().map(|p| p.as_bytes().to_vec()).collect()
}

#[test]
fn paths_inside_the_base_are_accepted() {
    let base = comps(&["/", "tmp", "base"]);
    assert!(path_starts_with(&comps(&["/", "tmp", "base", "a.txt"]), &base));
    assert!(path_starts_with(&comps(&["/", "tmp", "base"]), &base));
    assert_eq!(within_base("a.txt", &base, "/tmp/base", &comps(&["/", "tmp", "base", "a.txt"]), "/tmp/base/a.txt", true), Ok(()));
}

#[test]
fn components_are_compared_whole() {
    let base = comps(&["/", "tmp", "base"]);
    assert!(!path_starts_with(&comps(&["/", "tmp", "baseline", "x"]), &base));
    assert!(!path_starts_with(&comps(&["/", "tmp"]), &base));
    assert!(!path_starts_with(&comps(&["/", "etc", "passwd"]), &base));
}

#[test]
fn escapes_are_refused_with_details() {
    let base = comps(&["/", "tmp", "base"]);
    assert_eq!(
        within_base("../../etc/passwd", &base, "/tmp/base", &comps(&["/", "etc", "passwd"]), "/etc/passwd", true),
        Err("Path '../../etc/passwd' escapes base directory '/tmp/base' (resolved to '/etc/passwd')".to_string())
    );
    assert_eq!(
        within_base("../new/file", &base, "/tmp/base", &comps(&["/", "tmp"]), "/tmp", false),
        Err("Path '../new/file' escapes base directory '/tmp/base' (nearest ancestor '/tmp' is outside)".to_string())
    );
}

#[test]
fn path_check_messages() {
    assert_eq!(
        canonicalize_error(CanonicalTarget::Base, "/nope", "No such file"),
        "Failed to canonicalize base path '/nope': No such file"
    );
    assert_eq!(canonicalize_error(CanonicalTarget::Path, "a", "e"), "Failed to canonicalize 'a': e");
    assert_eq!(canonicalize_error(CanonicalTarget::Ancestor, "a", "e"), "Failed to canonicalize ancestor 'a': e");
    assert_eq!(no_ancestor_error("x"), "Invalid path 'x': no valid parent directory exists");
}

#[test]
fn parent_steps_out_of_the_base_are_refused() {
    let base = comps(&["/", "tmp", "b"]);
    assert_eq!(
        resolve_within_base("foo/../../../etc", &base, "/tmp/b", &base, "/tmp/b", &comps(&["foo", "..", "..", "..", "etc"])),
        Err("Path 'foo/../../../etc' escapes base directory '/tmp/b' (its '..' components lead outside)".to_string())
    );
    assert_eq!(
        resolve_within_base("x/../../c", &base, "/tmp/b", &base, "/tmp/b", &comps(&["x", "..", "..", "c"])),
        Err("Path 'x/../../c' escapes base directory '/tmp/b' (its '..' components lead outside)".to_string())
    );
}

#[test]
fn new_paths_inside_the_base_are_resolved() {
    let base = comps(&["/", "tmp", "b"]);
    assert_eq!(
        resolve_within_base("x/./y", &base, "/tmp/b", &base, "/tmp/b", &comps(&["x", ".", "y"])),
        Ok(comps(&["/", "tmp", "b", "x", "y"]))
    );
    assert_eq!(
        resolve_within_base("d/x/../y", &base, "/tmp/b", &comps(&["/", "tmp", "b", "d"]), "/tmp/b/d", &comps(&["x", "..", "y"])),
        Ok(comps(&["/", "tmp", "b", "d", "y"]))
    );
    assert_eq!(
        resolve_within_base("d/..", &base, "/tmp/b", &comps(&["/", "tmp", "b", "d"]), "/tmp/b/d", &comps(&[".."])),
        Ok(comps(&["/", "tmp", "b"]))
    );
}

#[test]
fn new_paths_under_an_outside_ancestor_are_refused() {
    let base = comps(&["/", "tmp", "b"]);
    assert_eq!(
        resolve_within_base("../new/file", &base, "/tmp/b", &comps(&["/", "tmp"]), "/tmp", &comps(&["new", "file"])),
        Err("Path '../new/file' escapes base directory '/tmp/b' (nearest ancestor '/tmp' is outside)".to_string())
    );
    assert_eq!(
        resolve_within_base("../b/new", &base, "/tmp/b", &comps(&["/", "tmp"]), "/tmp", &comps(&["b", "new"])),
        Ok(comps(&["/", "tmp", "b", "new"]))
    );
}

#[test]
fn lexical_resolution_keeps_the_root() {
    assert_eq!(normalized(&comps(&["/", "..", "a", ".", "b", ".."])), comps(&["/", "a"]));
    assert_eq!(normalized(&comps(&["a", "b"])), comps(&["a", "b"]));
}
