use std::path::Path;
use sugar_path::{tokenize, Platform, SugarPath};

/// Two texts are the same path when they have the same components.
fn assert_same_path(platform: Platform, actual: &str, expected: &str) {
    assert_eq!(
        tokenize(platform, actual).as_slice(),
        tokenize(platform, expected).as_slice(),
        "{actual:?} is not the path {expected:?}"
    );
}

/// The working directory that relative inputs would be resolved against;
/// every input below is absolute, so it never shows.
const CWD: &str = "/work";
const WINDOWS_CWD: &str = "C:\\work";

#[test]
fn relative_unix() {
    let cases = [
        ("/var/lib", "/var", ".."),
        ("/var/lib", "/bin", "../../bin"),
        ("/var/lib", "/var/lib", ""),
        ("/var/lib", "/var/apache", "../apache"),
        ("/var/", "/var/lib", "lib"),
        ("/", "/var/lib", "var/lib"),
        ("/foo/test", "/foo/test/bar/package.json", "bar/package.json"),
        ("/Users/a/web/b/test/mails", "/Users/a/web/b", "../.."),
        ("/foo/bar/baz-quux", "/foo/bar/baz", "../baz"),
        ("/foo/bar/baz", "/foo/bar/baz-quux", "../baz-quux"),
        ("/baz-quux", "/baz", "../baz"),
        ("/baz", "/baz-quux", "../baz-quux"),
        ("/page1/page2/foo", "/", "../../.."),
    ];
    cases.into_iter().for_each(|(to, target, right)| {
        assert_eq!(
            Path::new(&target.relative(to, CWD)),
            Path::new(right),
            "for input target: {} base: {}",
            target,
            to
        );
    });
}

#[test]
fn relative_windows() {
    let cases = [
        ("c:/blah\\blah", "d:/games", "d:\\games"),
        ("c:/aaaa/bbbb", "c:/aaaa", ".."),
        ("c:/aaaa/bbbb", "c:/cccc", "..\\..\\cccc"),
        ("c:/aaaa/bbbb", "c:/aaaa/bbbb", ""),
        ("c:/aaaa/bbbb", "c:/aaaa/cccc", "..\\cccc"),
        ("c:/aaaa/", "c:/aaaa/cccc", "cccc"),
        ("c:/", "c:\\aaaa\\bbbb", "aaaa\\bbbb"),
        ("c:/aaaa/bbbb", "d:\\", "d:\\"),
        ("c:/AaAa/bbbb", "c:/aaaa/bbbb", ""),
        ("c:/aaaaa/", "c:/aaaa/cccc", "..\\aaaa\\cccc"),
        ("c:/aaaaa/", "d:/aaaa/cccc", "d:\\aaaa\\cccc"),
        ("C:\\foo\\bar\\baz\\quux", "C:\\", "..\\..\\..\\.."),
        ("C:\\foo\\test", "C:\\foo\\test\\bar\\package.json", "bar\\package.json"),
        ("C:\\foo\\bar\\baz-quux", "C:\\foo\\bar\\baz", "..\\baz"),
        ("C:\\foo\\bar\\baz", "C:\\foo\\bar\\baz-quux", "..\\baz-quux"),
        ("\\\\foo\\bar\\baz", "C:\\baz", "C:\\baz"),
        ("C:\\baz", "\\\\foo\\bar\\baz", "\\\\foo\\bar\\baz"),
        ("C:\\baz-quux", "C:\\baz", "..\\baz"),
        ("C:\\baz", "C:\\baz-quux", "..\\baz-quux"),
    ];
    cases.into_iter().for_each(|(base, target, right)| {
        let actual = Platform::Windows.relative(target, base, WINDOWS_CWD);
        assert_eq!(
            tokenize(Platform::Windows, &actual).as_slice(),
            tokenize(Platform::Windows, right).as_slice(),
            "for input target: {} base: {}",
            target,
            base
        );
    });
}

#[test]
fn windows_unc() {
    let cases = [
        ("\\\\foo\\bar", "\\\\foo\\bar\\baz", "baz"),
        ("\\\\foo\\bar\\baz-quux", "\\\\foo\\bar\\baz", "..\\baz"),
        ("\\\\foo\\baz-quux", "\\\\foo\\baz", "\\\\foo\\baz"),
        ("\\\\foo\\bar\\baz", "\\\\foo\\bar\\baz-quux", "..\\baz-quux"),
        ("\\\\foo\\bar\\baz", "\\\\foo\\bar", ".."),
    ];
    cases.into_iter().for_each(|(base, target, right)| {
        let actual = Platform::Windows.relative(target, base, WINDOWS_CWD);
        assert_eq!(
            tokenize(Platform::Windows, &actual).as_slice(),
            tokenize(Platform::Windows, right).as_slice(),
            "for input target: {} base: {}",
            target,
            base
        );
    });
}

#[test]
fn relative_results_are_exact_texts() {
    assert_eq!(Platform::Posix.relative("/var/apache", "/var/lib", CWD), "../apache");
    assert_eq!(Platform::Posix.relative("/var/lib", "/var/", CWD), "lib");
    assert_eq!(Platform::Posix.relative("/var/lib", "/var/lib", CWD), "");
    assert_eq!(Platform::Posix.relative("/", "/page1/page2/foo", CWD), "../../..");
    assert_eq!(Platform::Windows.relative("d:/games", "c:/blah\\blah", WINDOWS_CWD), "d:\\games");
    assert_eq!(Platform::Windows.relative("c:/aaaa/cccc", "c:/aaaaa/", WINDOWS_CWD), "..\\aaaa\\cccc");
    assert_eq!(Platform::Windows.relative("\\\\foo\\baz", "\\\\foo\\baz-quux", WINDOWS_CWD), "\\\\foo\\baz\\");
}

#[test]
fn relative_inputs_are_resolved_against_the_working_directory() {
    let posix = Platform::Posix;
    assert_eq!(posix.relative("a/b", "a/c", "/work"), "../b");
    assert_eq!(posix.relative("a", "/work", "/work"), "a");
    assert_eq!(posix.relative("/x/y", "child", "/work"), "../../x/y");
    assert_eq!(posix.relative("../up", ".", "/work/dir"), "../up");
}

#[test]
fn relative_ignores_case_on_windows_only() {
    assert_eq!(Platform::Windows.relative("C:\\Foo\\bar", "c:\\foo", WINDOWS_CWD), "bar");
    assert_eq!(Platform::Posix.relative("/Foo/bar", "/foo", CWD), "../Foo/bar");
    assert_eq!(
        Platform::Windows.relative("\\\\Srv\\share\\a", "\\\\srv\\share\\b", WINDOWS_CWD),
        "\\\\Srv\\share\\a"
    );
}
