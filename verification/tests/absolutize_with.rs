use std::borrow::Cow;
use std::path::{Path, PathBuf};
use sugar_path::{tokenize, Platform, SugarPath, SugarPathBuf};

/// The working directory handed to the library in place of the process's.
const CWD: &str = "/work/dir";
const WINDOWS_CWD: &str = "C:\\work\\dir";

/// Two texts are the same path when they have the same components.
fn assert_same_path(platform: Platform, actual: &str, expected: &str) {
    assert_eq!(
        tokenize(platform, actual).as_slice(),
        tokenize(platform, expected).as_slice(),
        "{actual:?} is not the path {expected:?}"
    );
}

fn path_buf(parts: &[&str]) -> PathBuf {
    let mut path_buf = PathBuf::new();
    for part in parts {
        path_buf.push(part);
    }
    path_buf
}

#[test]
fn _test_absolutize_with() {
    let tmp = "";

    let str = "";
    tmp.absolutize_with(str, CWD);

    let string = String::new();
    tmp.absolutize_with(string, CWD);

    let ref_string = &String::new();
    tmp.absolutize_with(ref_string, CWD);

    let path = Path::new("");
    tmp.absolutize_with(path.to_str().unwrap(), CWD);

    let path_buf = PathBuf::new();
    tmp.absolutize_with(path_buf.to_str().unwrap(), CWD);

    let cow_path = Cow::Borrowed(Path::new(""));
    tmp.absolutize_with(cow_path.to_str().unwrap(), CWD);

    let cow_str = Cow::Borrowed("");
    tmp.absolutize_with(cow_str, CWD);
}

#[test]
fn unix_absolutize_with() {
    // Basic absolutize_with tests
    assert_eq!(PathBuf::from("./world".absolutize_with("/hello", CWD)), path_buf(&["/hello/world"]));
    assert_eq!(PathBuf::from("../world".absolutize_with("/hello", CWD)), path_buf(&["/world"]));
    assert_eq!(PathBuf::from("world".absolutize_with("/hello", CWD)), path_buf(&["/hello/world"]));

    // With absolute paths as input
    assert_eq!(PathBuf::from("/absolute".absolutize_with("/base", CWD)), path_buf(&["/absolute"]));
    assert_eq!(PathBuf::from("/usr/bin".absolutize_with("/home", CWD)), path_buf(&["/usr/bin"]));

    // With dots in paths
    assert_eq!(PathBuf::from("./a/./b/../c".absolutize_with("/base", CWD)), path_buf(&["/base/a/c"]));
    assert_eq!(PathBuf::from("../a/../b".absolutize_with("/base/dir", CWD)), path_buf(&["/base/b"]));

    // Empty path
    assert_eq!(PathBuf::from("".absolutize_with("/base", CWD)), path_buf(&["/base"]));
    assert_eq!(PathBuf::from(".".absolutize_with("/base", CWD)), path_buf(&["/base"]));

    // Multiple levels up
    assert_eq!(PathBuf::from("../../file".absolutize_with("/a/b/c", CWD)), path_buf(&["/a/file"]));
    assert_eq!(PathBuf::from("../../../file".absolutize_with("/a/b/c", CWD)), path_buf(&["/file"]));

    // Complex paths
    assert_eq!(
        PathBuf::from("./foo/../bar/./baz".absolutize_with("/root", CWD)),
        path_buf(&["/root/bar/baz"])
    );
    assert_eq!(PathBuf::from("a/b/../../c".absolutize_with("/base", CWD)), path_buf(&["/base/c"]));
}

#[test]
fn unix_absolutize_with_trailing_slash() {
    // Test with trailing slashes
    assert_eq!(PathBuf::from("world/".absolutize_with("/hello/", CWD)), path_buf(&["/hello/world/"]));
    assert_eq!(PathBuf::from("./world/".absolutize_with("/hello", CWD)), path_buf(&["/hello/world/"]));
}

#[test]
fn unix_absolutize_with_string_types() {
    // Test with different string types as base
    let base = String::from("/home/user");
    assert_eq!(
        PathBuf::from("documents".absolutize_with(&base, CWD)),
        path_buf(&["/home/user/documents"])
    );
    assert_eq!(
        PathBuf::from("../downloads".absolutize_with(base.as_str(), CWD)),
        path_buf(&["/home/downloads"])
    );

    // Test with PathBuf as base
    let base_path = PathBuf::from("/var/log");
    assert_eq!(
        PathBuf::from("app.log".absolutize_with(base_path.to_str().unwrap(), CWD)),
        path_buf(&["/var/log/app.log"])
    );
}

#[test]
fn windows_absolutize_with() {
    let windows = Platform::Windows;
    let check = |path: &str, base: &str, right: &str| {
        assert_same_path(windows, &windows.absolutize_with(path, base, WINDOWS_CWD), right);
    };
    // Basic absolutize_with tests
    check(".\\world", "C:\\hello", "C:\\hello\\world");
    check("..\\world", "C:\\hello", "C:\\world");
    check("world", "C:\\hello", "C:\\hello\\world");

    // With absolute paths as input
    check("D:\\absolute", "C:\\base", "D:\\absolute");
    check("C:\\Windows", "C:\\Users", "C:\\Windows");

    // With dots in paths
    check(".\\a\\.\\b\\..\\c", "C:\\base", "C:\\base\\a\\c");
    check("..\\a\\..\\b", "C:\\base\\dir", "C:\\base\\b");

    // Empty path
    check("", "C:\\base", "C:\\base");
    check(".", "C:\\base", "C:\\base");

    // Multiple levels up
    check("..\\..\\file", "C:\\a\\b\\c", "C:\\a\\file");

    // Drive-relative paths
    check("C:file", "D:\\base", "C:\\file");
    check("C:.\\file", "D:\\base", "C:\\file");
}

#[test]
fn windows_absolutize_with_unc_paths() {
    let windows = Platform::Windows;
    let check = |path: &str, base: &str, right: &str| {
        assert_same_path(windows, &windows.absolutize_with(path, base, WINDOWS_CWD), right);
    };
    // UNC path tests
    check("file", "\\\\server\\share", "\\\\server\\share\\file");
    check("..\\other", "\\\\server\\share\\folder", "\\\\server\\share\\other");
    check("\\\\other\\share", "\\\\server\\share", "\\\\other\\share");
}

#[test]
fn windows_absolutize_with_mixed_separators() {
    let windows = Platform::Windows;
    let check = |path: &str, base: &str, right: &str| {
        assert_same_path(windows, &windows.absolutize_with(path, base, WINDOWS_CWD), right);
    };
    // Test with mixed separators
    check("sub/folder", "C:\\base", "C:\\base\\sub\\folder");
    check("./sub\\folder", "C:/base", "C:\\base\\sub\\folder");
}

#[test]
fn absolutize_with_relative_base() {
    // A relative base is resolved against the working directory first.
    let cwd = PathBuf::from(CWD);
    assert_eq!(
        PathBuf::from("file".absolutize_with("relative/path", CWD)),
        cwd.join("relative/path/file")
    );
    assert_eq!(PathBuf::from("./file".absolutize_with("./base", CWD)), cwd.join("base/file"));
    assert_eq!(PathBuf::from("../file".absolutize_with("base/dir", CWD)), cwd.join("base/file"));
}

#[test]
fn absolutize_with_edge_cases() {
    let cwd = PathBuf::from(CWD);
    assert_eq!(PathBuf::from("..".absolutize_with("base", CWD)), cwd);

    // Going up two levels from base/dir should end up at cwd
    assert_eq!(PathBuf::from("../..".absolutize_with("base/dir", CWD)), cwd);

    // Going up beyond root should normalize properly
    assert_eq!(PathBuf::from("../../../../file".absolutize_with("/a/b", CWD)), path_buf(&["/file"]));
    assert_same_path(
        Platform::Windows,
        &Platform::Windows.absolutize_with("..\\..\\..\\..\\file", "C:\\a\\b", WINDOWS_CWD),
        "C:\\file",
    );
}

#[test]
fn absolutize_unix() {
    let absolutize = |parts: &[&str]| PathBuf::from(path_buf(parts).to_str().unwrap().absolutize(CWD));
    let cwd = PathBuf::from(CWD);
    assert_eq!(absolutize(&["/var/lib", "../", "file/"]), path_buf(&["/var/file"]));
    assert_eq!(absolutize(&["a/b/c/", "../../.."]), cwd);
    assert_eq!(absolutize(&["."]), cwd);
    assert_eq!(absolutize(&[]), cwd);
    assert_eq!(absolutize(&["a"]), cwd.join("a"));
    assert_eq!(absolutize(&["/some/dir", ".", "/absolute/"]), path_buf(&["/absolute"]));
    assert_eq!(
        absolutize(&["/foo/tmp.3/", "../tmp.3/cycles/root.js"]),
        path_buf(&["/foo/tmp.3/cycles/root.js"])
    );
    assert_eq!(absolutize(&["/var/lib", "/../", "file/"]), path_buf(&["/file"]));
    assert_eq!(absolutize(&[]), cwd);
}

#[test]
fn into_absolutize_unix() {
    let absolutize =
        |parts: &[&str]| PathBuf::from(path_buf(parts).to_str().unwrap().to_owned().into_absolutize(CWD));
    let cwd = PathBuf::from(CWD);
    assert_eq!(absolutize(&["/var/lib", "../", "file/"]), path_buf(&["/var/file"]));
    assert_eq!(absolutize(&["a/b/c/", "../../.."]), cwd);
    assert_eq!(absolutize(&["."]), cwd);
    assert_eq!(absolutize(&[]), cwd);
    assert_eq!(absolutize(&["a"]), cwd.join("a"));
    assert_eq!(absolutize(&["/some/dir", ".", "/absolute/"]), path_buf(&["/absolute"]));
    assert_eq!(
        absolutize(&["/foo/tmp.3/", "../tmp.3/cycles/root.js"]),
        path_buf(&["/foo/tmp.3/cycles/root.js"])
    );
    assert_eq!(absolutize(&["/var/lib", "/../", "file/"]), path_buf(&["/file"]));
    assert_eq!(absolutize(&[]), cwd);
}

#[test]
fn absolutize_windows() {
    let windows = Platform::Windows;
    let check = |path: &str, right: &str| {
        assert_same_path(windows, &windows.absolutize_with(path, WINDOWS_CWD, WINDOWS_CWD), right);
    };
    check(".", WINDOWS_CWD);
    check("", WINDOWS_CWD);
    check("c:../a", "c://a");
    check("c:./a", "c://a");
    check("a", "C:\\work\\dir\\a");
    check("c:/ignore", "c:\\ignore");
    check("c:\\some\\file", "c:\\some\\file");
    check("some/dir//", "C:\\work\\dir\\some\\dir");
    check("//server/share\\..\\relative\\", "\\\\server\\share\\relative");
    check("..\\tmp.3\\cycles\\root.js", "C:\\work\\tmp.3\\cycles\\root.js");
    check("\\rooted", "C:\\rooted");
}

#[test]
fn into_absolutize_windows() {
    let windows = Platform::Windows;
    let check = |path: &str, right: &str| {
        assert_same_path(windows, &windows.resolve(path, WINDOWS_CWD), right);
    };
    check(".", WINDOWS_CWD);
    check("", WINDOWS_CWD);
    check("c:../a", "c://a");
    check("c:./a", "c://a");
    check("a", "C:\\work\\dir\\a");
    check("c:/ignore", "c:\\ignore");
    check("c:\\some\\file", "c:\\some\\file");
    check("some/dir//", "C:\\work\\dir\\some\\dir");
    check("//server/share\\..\\relative\\", "\\\\server\\share\\relative");
    check("..\\tmp.3\\cycles\\root.js", "C:\\work\\tmp.3\\cycles\\root.js");
}

#[test]
fn resolve_unix() {
    let posix = Platform::Posix;
    let resolve = |parts: &[&str]| PathBuf::from(posix.resolve(path_buf(parts).to_str().unwrap(), CWD));
    let cwd = PathBuf::from(CWD);
    assert_eq!(resolve(&["/var/lib", "../", "file/"]), path_buf(&["/var/file"]));
    assert_eq!(resolve(&["a/b/c/", "../../.."]), cwd);
    assert_eq!(resolve(&["."]), cwd);
    assert_eq!(resolve(&[]), cwd);
    assert_eq!(resolve(&["a"]), cwd.join("a"));
    assert_eq!(resolve(&["/some/dir", ".", "/absolute/"]), path_buf(&["/absolute"]));
    assert_eq!(
        resolve(&["/foo/tmp.3/", "../tmp.3/cycles/root.js"]),
        path_buf(&["/foo/tmp.3/cycles/root.js"])
    );
    assert_eq!(resolve(&["/var/lib", "/../", "file/"]), path_buf(&["/file"]));
    assert_eq!(resolve(&[]), cwd);
}

#[test]
fn resolve_windows() {
    let windows = Platform::Windows;
    let check = |path: &str, right: &str| {
        assert_same_path(windows, &windows.resolve(path, WINDOWS_CWD), right);
    };
    check("c:../a", "c:\\a");
    check("a", "C:\\work\\dir\\a");
    check(".", WINDOWS_CWD);
    check("", WINDOWS_CWD);
    check("c:/ignore", "c:\\ignore");
    check("c:\\some\\file", "c:\\some\\file");
    check("some/dir//", "C:\\work\\dir\\some\\dir");
    check("//server/share\\..\\relative\\", "\\\\server\\share\\relative");
}

#[test]
fn make_sure_dots_are_resolved() {
    let joined = PathBuf::from(CWD).join("./main");
    assert!(!joined.to_str().unwrap().normalize().contains('.'));
}

#[test]
fn absolutize_texts_are_exact() {
    let posix = Platform::Posix;
    assert_eq!(posix.absolutize_with("./world", "/hello", CWD), "/hello/world");
    assert_eq!(posix.absolutize_with("../world", "/hello", CWD), "/world");
    assert_eq!(posix.absolutize_with("world/", "/hello/", CWD), "/hello/world/");
    assert_eq!(posix.absolutize_with("", "/base", CWD), "/base");
    assert_eq!(posix.absolutize_with("", "/base/", CWD), "/base/");
    assert_eq!(posix.absolutize_with("x", "rel", "/cwd"), "/cwd/rel/x");
    assert_eq!(posix.absolutize_with("..", "/", CWD), "/");
    let windows = Platform::Windows;
    assert_eq!(windows.absolutize_with("C:file", "D:\\base", WINDOWS_CWD), "C:\\file");
    assert_eq!(windows.absolutize_with("file", "C:", "D:\\cwd"), "C:\\file");
    assert_eq!(windows.absolutize_with("\\rooted", "\\\\srv\\share\\x", WINDOWS_CWD), "\\\\srv\\share\\rooted");
    assert_eq!(windows.absolutize_with("a", "\\\\srv\\share", WINDOWS_CWD), "\\\\srv\\share\\a");
    assert!(windows.is_absolute("\\\\srv\\share"));
    assert!(windows.is_absolute("C:\\"));
    assert!(!windows.is_absolute("C:x"));
    assert!(!windows.is_absolute("\\x"));
    assert!(posix.is_absolute("/x"));
    assert!(!posix.is_absolute("x/"));
    assert!(!posix.is_absolute(""));
}
