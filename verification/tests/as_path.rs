use std::path::{Path, PathBuf};
use sugar_path::SugarPath;

#[test]
fn _test_as_path() {
    let str = "";
    str.as_path();

    let string = String::new();
    string.as_path();

    let ref_string = &string;
    ref_string.as_path();
}

#[test]
fn test_as_path_on_str() {
    // Test that as_path() converts &str to a path correctly
    let string_path = "foo/bar/baz";
    let path = string_path.as_path();
    assert_eq!(Path::new(path), Path::new("foo/bar/baz"));
}

#[test]
fn test_as_path_on_string() {
    // Test that as_path() works with String
    let string_path = String::from("hello/world");
    let path = string_path.as_path();
    assert_eq!(Path::new(path), Path::new("hello/world"));
}

#[test]
fn test_as_path_with_absolute_paths() {
    // Test with absolute paths
    let abs_path = "/usr/local/bin";
    assert_eq!(Path::new(abs_path.as_path()), Path::new("/usr/local/bin"));

    let abs_path = "C:\\Windows\\System32";
    assert_eq!(Path::new(abs_path.as_path()), Path::new("C:\\Windows\\System32"));
}

#[test]
fn test_as_path_with_empty_string() {
    // Test with empty string
    let empty = "";
    assert_eq!(Path::new(empty.as_path()), Path::new(""));
}

#[test]
fn test_as_path_with_dots() {
    // Test with relative path indicators
    assert_eq!(Path::new(".".as_path()), Path::new("."));
    assert_eq!(Path::new("..".as_path()), Path::new(".."));
    assert_eq!(Path::new("./foo".as_path()), Path::new("./foo"));
    assert_eq!(Path::new("../bar".as_path()), Path::new("../bar"));
}

#[test]
fn test_as_path_with_special_characters() {
    // Test with special characters in path
    assert_eq!(Path::new("foo bar".as_path()), Path::new("foo bar"));
    assert_eq!(Path::new("file.txt".as_path()), Path::new("file.txt"));
    assert_eq!(Path::new("path-with-dash".as_path()), Path::new("path-with-dash"));
    assert_eq!(Path::new("path_with_underscore".as_path()), Path::new("path_with_underscore"));
}

#[test]
fn test_as_path_chaining() {
    // Test that as_path() enables chaining with other methods
    let base = "foo/bar";
    let joined = Path::new(base.as_path()).join("baz");
    assert_eq!(joined, PathBuf::from("foo/bar/baz"));

    // Test chaining with normalize
    let normalized = "./foo/../bar".as_path().normalize();
    assert_eq!(PathBuf::from(normalized), PathBuf::from("bar"));
}

#[test]
fn test_as_path_unix_specific() {
    // Unix-specific path tests
    assert_eq!(Path::new("/".as_path()), Path::new("/"));
    assert_eq!(Path::new("/home/user/.config".as_path()), Path::new("/home/user/.config"));
    assert_eq!(Path::new("~/documents".as_path()), Path::new("~/documents"));
}

#[test]
fn test_as_path_windows_specific() {
    // Windows-specific path tests
    assert_eq!(Path::new("C:".as_path()), Path::new("C:"));
    assert_eq!(Path::new("C:\\".as_path()), Path::new("C:\\"));
    assert_eq!(Path::new("\\\\server\\share".as_path()), Path::new("\\\\server\\share"));
    assert_eq!(Path::new("file:stream".as_path()), Path::new("file:stream"));
}

#[test]
fn as_path_keeps_the_text() {
    assert_eq!("a/./b".as_path(), "a/./b");
    assert_eq!(sugar_path::AsPath::as_path("x\\y"), "x\\y");
    assert_eq!(sugar_path::AsPath::as_path(&String::from("/z")), "/z");
}
