//! The absolutizer: resolving a path against a base directory.

use crate::component::{Component, Segment};
use crate::normalize::spec_normalize;
use crate::platform::Platform;
use crate::render::{render_components, spec_render};
use crate::text::{chars_of, string_of};
use crate::tokenize::{
    has_drive, has_root, lemma_tokenize_len_with_prefix, prefix_len, scan_head, spec_tokenize,
    tokenize,
};
use vstd::prelude::*;

verus! {

/// Whether the path written as `s` is absolute: rooted, and on Windows
/// also on a named volume (`\foo` and `C:foo` are both relative there).
pub open spec fn spec_is_absolute(platform: Platform, s: Seq<char>) -> bool {
    match platform {
        Platform::Posix => has_root(platform, s),
        Platform::Windows => prefix_len(platform, s) > 0 && has_root(platform, s),
    }
}

/// The path with a root put directly after its prefix: how a path that
/// names a drive but no root (`C:foo`) is read, as lying below the root of
/// that drive.
pub open spec fn spec_rooted(platform: Platform, s: Seq<char>) -> Seq<char> {
    spec_render(platform, spec_tokenize(platform, s).insert(1, Segment::RootDir))
}

/// Whether a separator has to be written between `base` and a relative
/// path appended to it.
pub open spec fn join_needs_separator(platform: Platform, base: Seq<char>) -> bool {
    &&& base.len() > 0
    &&& !platform.spec_is_separator(base.last())
    &&& !(platform == Platform::Windows && base.len() == 2 && has_drive(base))
}

/// The text of `path` appended to `base`.
///
/// A path with a prefix replaces `base`; a rooted path replaces all of
/// `base` but its prefix; an empty path leaves `base` as it is; any other
/// path follows `base`, after a separator where one is needed.
pub open spec fn spec_join(platform: Platform, base: Seq<char>, path: Seq<char>) -> Seq<char> {
    if prefix_len(platform, path) > 0 {
        path
    } else if has_root(platform, path) {
        base.take(prefix_len(platform, base) as int) + path
    } else if path.len() == 0 {
        base
    } else if join_needs_separator(platform, base) {
        base.push(platform.spec_main_separator()) + path
    } else {
        base + path
    }
}

/// The absolute, normalized form of `path` below the directory `anchor`.
///
/// An absolute path is only normalized. A path with a prefix but no root
/// is rooted on its drive and normalized. Any other path is appended to
/// `anchor` and the whole is normalized, so that its `..` segments can
/// climb into `anchor`.
pub open spec fn spec_resolve(platform: Platform, path: Seq<char>, anchor: Seq<char>) -> Seq<
    char,
> {
    if spec_is_absolute(platform, path) {
        spec_normalize(platform, path)
    } else if prefix_len(platform, path) > 0 {
        spec_normalize(platform, spec_rooted(platform, path))
    } else {
        spec_normalize(platform, spec_join(platform, anchor, path))
    }
}

/// The absolute, normalized form of `path` below `base`, where a `base`
/// that is itself relative lies below the working directory `cwd`.
pub open spec fn spec_absolutize(
    platform: Platform,
    path: Seq<char>,
    base: Seq<char>,
    cwd: Seq<char>,
) -> Seq<char> {
    if spec_is_absolute(platform, base) {
        spec_resolve(platform, path, base)
    } else {
        spec_resolve(platform, path, spec_resolve(platform, base, cwd))
    }
}

/// Puts a root after the prefix of the path.
fn rooted(platform: Platform, path: &str) -> (text: String)
    requires
        prefix_len(platform, path@) > 0,
        path@.len() <= usize::MAX,
    ensures
        text@ == spec_rooted(platform, path@),
{
    let mut components = tokenize(platform, path);
    proof {
        lemma_tokenize_len_with_prefix(platform, path@);
    }
    components.insert(1, Component::RootDir);
    render_components(platform, &components)
}

/// Appends the relative path `path` to `base`.
fn join(platform: Platform, base: &str, path: &str, path_chars: &[char]) -> (text: String)
    requires
        path_chars@ == path@,
    ensures
        text@ == spec_join(platform, base@, path@),
{
    let (prefix_end, root) = scan_head(platform, path_chars);
    if prefix_end > 0 {
        return path.to_owned();
    }
    let base_chars = chars_of(base);
    let n: usize = base_chars.len();
    if root {
        let (base_prefix_end, _) = scan_head(platform, base_chars.as_slice());
        let mut text = string_of(base_chars.as_slice(), 0, base_prefix_end);
        text.append(path);
        assert(text@ =~= spec_join(platform, base@, path@));
        return text;
    }
    if path_chars.len() == 0 {
        return base.to_owned();
    }
    let mut text = base.to_owned();
    if n > 0 && !platform.is_separator(base_chars[n - 1]) {
        let bare_drive = match platform {
            Platform::Windows => {
                let (base_prefix_end, _) = scan_head(platform, base_chars.as_slice());
                n == 2 && base_prefix_end == 2
            },
            Platform::Posix => false,
        };
        if !bare_drive {
            text.push(platform.main_separator());
        }
    }
    text.append(path);
    assert(text@ =~= spec_join(platform, base@, path@));
    text
}

impl Platform {
    /// Whether `path` is absolute on this platform.
    pub fn is_absolute(self, path: &str) -> (b: bool)
        ensures
            b == spec_is_absolute(self, path@),
    {
        let chars = chars_of(path);
        let (prefix_end, root) = scan_head(self, chars.as_slice());
        match self {
            Platform::Posix => root,
            Platform::Windows => prefix_end > 0 && root,
        }
    }

    /// Resolves `path` against the directory `anchor`, which is taken as
    /// it is, and normalizes the result.
    pub fn resolve(self, path: &str, anchor: &str) -> (absolute: String)
        ensures
            absolute@ == spec_resolve(self, path@, anchor@),
    {
        let chars = chars_of(path);
        let (prefix_end, root) = scan_head(self, chars.as_slice());
        let absolute = match self {
            Platform::Posix => root,
            Platform::Windows => prefix_end > 0 && root,
        };
        if absolute {
            self.normalize(path)
        } else if prefix_end > 0 {
            let text = rooted(self, path);
            self.normalize(text.as_str())
        } else {
            let text = join(self, anchor, path, chars.as_slice());
            self.normalize(text.as_str())
        }
    }

    /// Makes `path` absolute below `base` and normalizes it. Where `base`
    /// is relative it is first resolved against `cwd`, the working
    /// directory, which the caller supplies.
    pub fn absolutize_with(self, path: &str, base: &str, cwd: &str) -> (absolute: String)
        ensures
            absolute@ == spec_absolutize(self, path@, base@, cwd@),
    {
        if self.is_absolute(base) {
            self.resolve(path, base)
        } else {
            let anchor = self.resolve(base, cwd);
            self.resolve(path, anchor.as_str())
        }
    }
}

} // verus!
