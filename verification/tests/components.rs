use sugar_path::component::Component;
use sugar_path::normalize::{apply_component, normalize_components};
use sugar_path::render::Renderer;
use sugar_path::{component_vec_to_path_buf, to_normalized_components, tokenize, ComponentVec, Platform};

fn name(text: &str) -> Component {
    Component::Normal(String::from(text))
}

fn prefix(text: &str) -> Component {
    Component::Prefix(String::from(text))
}

#[test]
fn tokenize_posix() {
    let posix = Platform::Posix;
    assert!(tokenize(posix, "").is_empty());
    assert_eq!(tokenize(posix, "/").as_slice(), &[Component::RootDir]);
    assert_eq!(tokenize(posix, "///").as_slice(), &[Component::RootDir]);
    assert_eq!(
        tokenize(posix, "a//b/./../c/").as_slice(),
        &[name("a"), name("b"), Component::CurDir, Component::ParentDir, name("c")]
    );
    assert_eq!(tokenize(posix, "./x").as_slice(), &[Component::CurDir, name("x")]);
    assert_eq!(tokenize(posix, "foo..").as_slice(), &[name("foo..")]);
    assert_eq!(tokenize(posix, "...").as_slice(), &[name("...")]);
    assert_eq!(tokenize(posix, "foo/bar\\baz").as_slice(), &[name("foo"), name("bar\\baz")]);
    assert_eq!(tokenize(posix, "C:\\x").as_slice(), &[name("C:\\x")]);
    assert_eq!(tokenize(posix, "//server/share").as_slice(), &[
        Component::RootDir,
        name("server"),
        name("share")
    ]);
}

#[test]
fn tokenize_windows() {
    let windows = Platform::Windows;
    assert!(tokenize(windows, "").is_empty());
    assert_eq!(tokenize(windows, "C:").as_slice(), &[prefix("C:")]);
    assert_eq!(tokenize(windows, "c:/").as_slice(), &[prefix("c:"), Component::RootDir]);
    assert_eq!(tokenize(windows, "C:foo\\..").as_slice(), &[
        prefix("C:"),
        name("foo"),
        Component::ParentDir
    ]);
    assert_eq!(tokenize(windows, "foo/bar\\baz").as_slice(), &[
        name("foo"),
        name("bar"),
        name("baz")
    ]);
    assert_eq!(tokenize(windows, "\\x").as_slice(), &[Component::RootDir, name("x")]);
    assert_eq!(tokenize(windows, "//server/share/dir").as_slice(), &[
        prefix("\\\\server\\share"),
        Component::RootDir,
        name("dir")
    ]);
    assert_eq!(tokenize(windows, "\\\\server\\share").as_slice(), &[
        prefix("\\\\server\\share"),
        Component::RootDir
    ]);
    // Without a share name there is no prefix.
    assert_eq!(tokenize(windows, "\\\\server").as_slice(), &[Component::RootDir, name("server")]);
    assert_eq!(tokenize(windows, "\\\\server\\").as_slice(), &[
        Component::RootDir,
        name("server")
    ]);
    assert_eq!(tokenize(windows, "\\\\\\server\\share").as_slice(), &[
        Component::RootDir,
        name("server"),
        name("share")
    ]);
    assert_eq!(tokenize(windows, "1:\\x").as_slice(), &[name("1:"), name("x")]);
    assert_eq!(tokenize(windows, "file:stream").as_slice(), &[name("file:stream")]);
}

#[test]
fn normalizer_rules() {
    let posix = Platform::Posix;
    let windows = Platform::Windows;
    assert!(to_normalized_components(posix, "").is_empty());
    assert!(to_normalized_components(posix, "a/..").is_empty());
    assert_eq!(to_normalized_components(posix, "/..").as_slice(), &[Component::RootDir]);
    assert_eq!(to_normalized_components(posix, "..").as_slice(), &[Component::ParentDir]);
    assert_eq!(to_normalized_components(posix, "../..").as_slice(), &[
        Component::ParentDir,
        Component::ParentDir
    ]);
    assert_eq!(to_normalized_components(windows, "C:..").as_slice(), &[
        prefix("C:"),
        Component::ParentDir
    ]);
    assert_eq!(to_normalized_components(windows, "C:\\..").as_slice(), &[
        prefix("C:"),
        Component::RootDir
    ]);
    assert_eq!(to_normalized_components(windows, "C:").as_slice(), &[prefix("C:")]);
    assert_eq!(to_normalized_components(posix, "a/./b/../c").as_slice(), &[name("a"), name("c")]);
}

#[test]
fn normalize_components_agrees_with_the_single_pass() {
    for path in ["", "/", "a/../../b/./c", "/a/b/../../../x", "../a/..", "x//y/"] {
        let tokens = tokenize(Platform::Posix, path);
        assert_eq!(
            normalize_components(&tokens).as_slice(),
            to_normalized_components(Platform::Posix, path).as_slice()
        );
    }
}

#[test]
fn apply_component_steps() {
    let mut kept = ComponentVec::new();
    apply_component(&mut kept, Component::ParentDir);
    assert_eq!(kept.as_slice(), &[Component::ParentDir]);
    apply_component(&mut kept, name("a"));
    apply_component(&mut kept, Component::CurDir);
    assert_eq!(kept.as_slice(), &[Component::ParentDir, name("a")]);
    apply_component(&mut kept, Component::ParentDir);
    assert_eq!(kept.as_slice(), &[Component::ParentDir]);
    apply_component(&mut kept, Component::ParentDir);
    assert_eq!(kept.len(), 2);
}

#[test]
fn component_vec_grows_and_shrinks() {
    let mut v = ComponentVec::new();
    assert!(v.is_empty());
    assert!(v.pop().is_none());
    for i in 0..20 {
        v.push(name(&format!("n{i}")));
    }
    assert_eq!(v.len(), 20);
    v.insert(0, Component::RootDir);
    assert_eq!(v.as_slice()[0], Component::RootDir);
    assert_eq!(v.as_slice()[1], name("n0"));
    assert_eq!(v.pop(), Some(name("n19")));
    assert_eq!(v.len(), 20);
    assert_eq!(name("x").duplicate(), name("x"));
}

#[test]
fn render_joins_with_the_main_separator() {
    let mut v = ComponentVec::new();
    v.push(Component::RootDir);
    v.push(name("a"));
    v.push(Component::ParentDir);
    v.push(Component::CurDir);
    v.push(name("b"));
    assert_eq!(component_vec_to_path_buf(Platform::Posix, v), "/a/.././b");

    let mut v = ComponentVec::new();
    v.push(prefix("C:"));
    v.push(name("a"));
    v.push(name("b"));
    assert_eq!(component_vec_to_path_buf(Platform::Windows, v), "C:a\\b");

    let mut v = ComponentVec::new();
    v.push(prefix("\\\\srv\\share"));
    v.push(Component::RootDir);
    v.push(name("a"));
    assert_eq!(component_vec_to_path_buf(Platform::Windows, v), "\\\\srv\\share\\a");

    assert_eq!(component_vec_to_path_buf(Platform::Posix, ComponentVec::new()), "");
}

#[test]
fn render_restarts_at_an_anchor() {
    let mut v = ComponentVec::new();
    v.push(Component::ParentDir);
    v.push(Component::ParentDir);
    v.push(prefix("d:"));
    v.push(Component::RootDir);
    v.push(name("games"));
    assert_eq!(component_vec_to_path_buf(Platform::Windows, v), "d:\\games");

    let mut v = ComponentVec::new();
    v.push(prefix("C:"));
    v.push(name("a"));
    v.push(Component::RootDir);
    v.push(name("b"));
    assert_eq!(component_vec_to_path_buf(Platform::Windows, v), "C:\\b");

    let mut renderer = Renderer::new(Platform::Posix);
    renderer.write(&name("a"));
    renderer.write(&Component::RootDir);
    renderer.write(&name("b"));
    assert_eq!(renderer.finish(), "/b");
}

#[test]
fn host_platform_goes_by_the_native_separator() {
    let host = Platform::host();
    assert_eq!(host.main_separator(), std::path::MAIN_SEPARATOR);
    assert!(host.is_separator(std::path::MAIN_SEPARATOR));
    assert!(host.is_separator('/'));
    assert_eq!(Platform::Posix.main_separator(), '/');
    assert_eq!(Platform::Windows.main_separator(), '\\');
    assert!(!Platform::Posix.is_separator('\\'));
    assert!(Platform::Windows.is_separator('\\'));
}

#[test]
fn platform_is_chosen_by_its_main_separator() {
    assert_eq!(Platform::with_main_separator('\\'), Platform::Windows);
    assert_eq!(Platform::with_main_separator('/'), Platform::Posix);
    assert_eq!(Platform::with_main_separator(':'), Platform::Posix);
    assert_eq!(Platform::host(), Platform::with_main_separator(std::path::MAIN_SEPARATOR));
    for platform in [Platform::Posix, Platform::Windows] {
        assert_eq!(Platform::with_main_separator(platform.main_separator()), platform);
    }
}

#[test]
fn text_helpers() {
    let chars = sugar_path::text::chars_of("a\u{e9}/b");
    assert_eq!(chars, vec!['a', '\u{e9}', '/', 'b']);
    assert_eq!(sugar_path::text::string_of(&chars, 1, 3), "\u{e9}/");
    assert_eq!(sugar_path::text::string_of(&chars, 2, 2), "");
    assert_eq!(sugar_path::tokenize::scan_name(Platform::Posix, &chars, 0), 2);
    assert_eq!(sugar_path::tokenize::scan_name(Platform::Posix, &chars, 2), 2);
    assert!(sugar_path::tokenize::has_trailing_separator(Platform::Windows, "a\\"));
    assert!(!sugar_path::tokenize::has_trailing_separator(Platform::Posix, "a\\"));
    assert!(!sugar_path::tokenize::has_trailing_separator(Platform::Posix, ""));
    assert_eq!(sugar_path::relative::fold_case('A'), 'a');
    assert_eq!(sugar_path::relative::fold_case('Z'), 'z');
    assert_eq!(sugar_path::relative::fold_case('['), '[');
    assert_eq!(sugar_path::relative::fold_case('\u{c9}'), '\u{c9}');
    assert!(sugar_path::relative::eq_ignoring_case("AbC", "aBc"));
    assert!(!sugar_path::relative::eq_ignoring_case("abc", "abd"));
    assert!(!sugar_path::relative::eq_ignoring_case("abc", "ab"));
}
