use mdquiz::path::{escapes_dir, is_local_image, join_dir, nests, parent_dir};
use std::path::Path;

#[test]
/// Ordinary relative paths are accepted; `..`, absolute paths are escaping.
fn escapes_dir_rejects_every_non_normal_component() {
    for path in ["../x.png", "a/../../x.png", "a/../x.png", "..", "/etc/passwd"] {
        assert!(escapes_dir(path), "{path} should escape");
    }
    for path in ["x.png", "a/b/x.png", "..dots.png", "a/..b/x.png", "./x.png"] {
        assert!(!escapes_dir(path), "{path} should not escape");
    }
}

#[test]
/// An absolute path escapes because `Path::join` discards the base for one.
fn escapes_dir_rejects_absolute_paths_that_join_would_honour() {
    let base = Path::new("/questions");
    assert_eq!(base.join("/etc/passwd"), Path::new("/etc/passwd"));
    assert!(escapes_dir("/etc/passwd"));
}

#[test]
/// Folders that name the same place nest, however they are spelled.
fn nests_compares_path_components_not_strings() {
    for (one, other) in [
        ("topics", "topics"),
        ("topics/", "topics"),
        ("./topics", "topics"),
        ("topics//trees", "topics/trees"),
        ("topics/./trees", "topics/trees"),
        ("topics", "topics/trees"),
        ("topics/trees", "topics"),
    ] {
        assert!(nests(one, other), "{one} should nest with {other}");
    }
    for (one, other) in [
        ("topics/tree", "topics/trees"),
        ("topics/trees", "topics/graphs"),
        ("a/b", "b/a"),
    ] {
        assert!(!nests(one, other), "{one} should not nest with {other}");
    }
}

#[test]
/// A `.` or empty folder adds nothing to a joined path.
fn join_dir_prefixes_only_a_real_directory() {
    assert_eq!(join_dir("topics", "q1.md"), "topics/q1.md");
    assert_eq!(join_dir("topics/trees", "q1.md"), "topics/trees/q1.md");
    assert_eq!(join_dir("topics/", "q1.md"), "topics/q1.md");
    assert_eq!(join_dir("./topics", "q1.md"), "./topics/q1.md");
    assert_eq!(join_dir(".", "q1.md"), "q1.md");
    assert_eq!(join_dir("", "q1.md"), "q1.md");
}

#[test]
/// The directory part is everything before the last `/`.
fn parent_dir_splits_on_the_last_separator() {
    assert_eq!(parent_dir("a/b/c.md"), "a/b");
    assert_eq!(parent_dir("a/c.md"), "a");
    assert_eq!(parent_dir("c.md"), "");
    assert_eq!(parent_dir(""), "");
}

#[test]
/// Only relative paths count as local; every URL scheme is rejected.
fn is_local_image_rejects_urls_accepts_relative() {
    for url in [
        "http://x/y.png",
        "https://x/y.png",
        "//x/y.png",
        "/root/y.png",
        "data:image/png;base64,AAAA",
    ] {
        assert!(!is_local_image(url), "{url} should be non-local");
    }
    assert!(is_local_image("diagram.png"));
    assert!(is_local_image("sub/diagram.png"));
}

#[test]
/// A path made only of separators and dots names no folder, so it nests
/// with the empty folder.
fn separators_and_dots_name_no_folder() {
    assert!(nests("./", ""));
    assert!(nests("a/../b", "a/b"));
    assert!(!escapes_dir(""));
    assert!(escapes_dir("a/.."));
}
