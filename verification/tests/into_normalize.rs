use std::path::Path;
use sugar_path::{tokenize, Platform, SugarPathBuf};

/// Two texts are the same path when they have the same components.
fn assert_same_path(platform: Platform, actual: &str, expected: &str) {
    assert_eq!(
        tokenize(platform, actual).as_slice(),
        tokenize(platform, expected).as_slice(),
        "{actual:?} is not the path {expected:?}"
    );
}

#[test]
fn into_normalize_unix() {
    assert_eq!(Path::new(&String::from("/foo/../../../bar").into_normalize()), Path::new("/bar"));
    assert_eq!(Path::new(&String::from("a//b//../b").into_normalize()), Path::new("a/b"));
    assert_eq!(Path::new(&String::from("/foo/../../../bar").into_normalize()), Path::new("/bar"));
    assert_eq!(Path::new(&String::from("a//b//./c").into_normalize()), Path::new("a/b/c"));
    assert_eq!(Path::new(&String::from("a//b//.").into_normalize()), Path::new("a/b"));
    assert_eq!(Path::new(&String::from("/a/b/c/../../../x/y/z").into_normalize()), Path::new("/x/y/z"));
    assert_eq!(Path::new(&String::from("///..//./foo/.//bar").into_normalize()), Path::new("/foo/bar"));
    assert_eq!(Path::new(&String::from("bar/foo../../").into_normalize()), Path::new("bar/"));
    assert_eq!(Path::new(&String::from("bar/foo../..").into_normalize()), Path::new("bar"));
    assert_eq!(Path::new(&String::from("bar/foo../../baz").into_normalize()), Path::new("bar/baz"));
    assert_eq!(Path::new(&String::from("bar/foo../").into_normalize()), Path::new("bar/foo../"));
    assert_eq!(Path::new(&String::from("bar/foo..").into_normalize()), Path::new("bar/foo.."));
    assert_eq!(Path::new(&String::from("../foo../../../bar").into_normalize()), Path::new("../../bar"));
    assert_eq!(Path::new(&String::from("../foo../../../bar").into_normalize()), Path::new("../../bar"));
    assert_eq!(Path::new(&String::from("../.../.././.../../../bar").into_normalize()), Path::new("../../bar"));
    assert_eq!(Path::new(&String::from("../.../.././.../../../bar").into_normalize()), Path::new("../../bar"));
    assert_eq!(Path::new(&String::from("../../../foo/../../../bar").into_normalize()), Path::new("../../../../../bar"));
    assert_eq!(Path::new(&String::from("../../../foo/../../../bar/../../").into_normalize()), Path::new("../../../../../../"));
    assert_eq!(Path::new(&String::from("../foobar/barfoo/foo/../../../bar/../../").into_normalize()), Path::new("../../"));
    assert_eq!(Path::new(&String::from("../.../../foobar/../../../bar/../../baz").into_normalize()), Path::new("../../../../baz"));
    assert_eq!(Path::new(&String::from("foo/bar\\baz").into_normalize()), Path::new("foo/bar\\baz"));
    assert_eq!(Path::new(&String::from("/a/b/c/../../../").into_normalize()), Path::new("/"));
    assert_eq!(Path::new(&String::from("a/b/c/../../../").into_normalize()), Path::new("."));
    assert_eq!(Path::new(&String::from("a/b/c/../../..").into_normalize()), Path::new("."));
    assert_eq!(Path::new(&String::from("").into_normalize()), Path::new("."));
}

#[test]
fn into_normalize_windows() {
    let windows = Platform::Windows;
    assert_same_path(windows, &windows.normalize(&String::from("")), ".");
    assert_same_path(windows, &windows.normalize(&String::from("./fixtures///b/../b/c.js")), "fixtures\\b\\c.js");
    assert_same_path(windows, &windows.normalize(&String::from("/foo/../../../bar")), "\\bar");
    assert_same_path(windows, &windows.normalize(&String::from("a//b//../b")), "a\\b");
    assert_same_path(windows, &windows.normalize(&String::from("a//b//./c")), "a\\b\\c");
    assert_same_path(windows, &windows.normalize(&String::from("//server/share/dir/file.ext")), "\\\\server\\share\\dir\\file.ext");
    assert_same_path(windows, &windows.normalize(&String::from("/foo/../../../bar")), "\\bar");
    assert_same_path(windows, &windows.normalize(&String::from("/a/b/c/../../../x/y/z")), "\\x\\y\\z");
    assert_same_path(windows, &windows.normalize(&String::from("C:")), "C:.");
    assert_same_path(windows, &windows.normalize(&String::from("C:/")), "C:\\");
    assert_same_path(windows, &windows.normalize(&String::from("")), ".");
    assert_same_path(windows, &windows.normalize(&String::from("c:/ignore")), "c:\\ignore");
    assert_same_path(windows, &windows.normalize(&String::from("C:../a")), "C:..\\a");
    assert_same_path(windows, &windows.normalize(&String::from("c:/../a")), "c:\\a");
    assert_same_path(windows, &windows.normalize(&String::from("C:..\\..\\abc\\..\\def")), "C:..\\..\\def");
    assert_same_path(windows, &windows.normalize(&String::from("C:\\..\\..\\abc\\..\\def")), "C:\\def");
    assert_same_path(windows, &windows.normalize(&String::from("C:\\.")), "C:\\");
    assert_same_path(windows, &windows.normalize(&String::from("file:stream")), "file:stream");
    assert_same_path(windows, &windows.normalize(&String::from("bar\\foo..\\..\\")), "bar\\");
    assert_same_path(windows, &windows.normalize(&String::from("bar\\foo..\\..\\")), "bar\\");
    assert_same_path(windows, &windows.normalize(&String::from("bar\\foo..\\..")), "bar");
    assert_same_path(windows, &windows.normalize(&String::from("bar\\foo..\\..\\baz")), "bar\\baz");
    assert_same_path(windows, &windows.normalize(&String::from("bar\\foo..\\")), "bar\\foo..\\");
    assert_same_path(windows, &windows.normalize(&String::from("..\\foo..\\..\\..\\bar")), "..\\..\\bar");
    assert_same_path(windows, &windows.normalize(&String::from("..\\...\\..\\.\\...\\..\\..\\bar")), "..\\..\\bar");
    assert_same_path(windows, &windows.normalize(&String::from("../../../foo/../../../bar")), "..\\..\\..\\..\\..\\bar");
    assert_same_path(windows, &windows.normalize(&String::from("../../../foo/../../../bar/../../")), "..\\..\\..\\..\\..\\..\\");
    assert_same_path(windows, &windows.normalize(&String::from("../foobar/barfoo/foo/../../../bar/../../")), "..\\..\\");
    assert_same_path(windows, &windows.normalize(&String::from("../.../../foobar/../../../bar/../../baz")), "..\\..\\..\\..\\baz");
    assert_same_path(windows, &windows.normalize(&String::from("foo/bar\\baz")), "foo\\bar\\baz");
}
