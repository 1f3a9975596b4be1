//! Method syntax for the path operations, on the texts that hold paths.
//!
//! The methods follow the conventions of the platform the program was
//! built for; [`Platform`] offers the same operations for a platform of the
//! caller's choice.

use crate::absolutize::{spec_absolutize, spec_resolve};
use crate::normalize::spec_normalize;
use crate::platform::Platform;
use crate::relative::spec_relative;
use crate::slash::{lemma_to_slash_unchanged, replace_main_separator, spec_to_slash};
use std::borrow::Cow;
use vstd::prelude::*;

verus! {

/// A value that holds the text of a path and gives it up, borrowed or
/// owned as it was held.
pub trait IntoCowPath<'a>: Sized + View<V = Seq<char>> {
    /// The text of the path, without a copy being made.
    fn into_cow_path(self) -> (path: Cow<'a, str>)
        ensures
            path@ == self@,
    ;
}

impl<'a> IntoCowPath<'a> for &'a str {
    fn into_cow_path(self) -> (path: Cow<'a, str>) {
        Cow::Borrowed(self)
    }
}

impl<'a> IntoCowPath<'a> for String {
    fn into_cow_path(self) -> (path: Cow<'a, str>) {
        Cow::Owned(self)
    }
}

impl<'a> IntoCowPath<'a> for &'a String {
    fn into_cow_path(self) -> (path: Cow<'a, str>) {
        Cow::Borrowed(self.as_str())
    }
}

impl<'a> IntoCowPath<'a> for Cow<'a, str> {
    fn into_cow_path(self) -> (path: Cow<'a, str>) {
        match self {
            Cow::Borrowed(text) => Cow::Borrowed(text),
            Cow::Owned(text) => Cow::Owned(text),
        }
    }
}

/// The text that a `Cow` holds.
pub fn cow_text<'b>(path: &'b Cow<'_, str>) -> (text: &'b str)
    ensures
        text@ == path@,
{
    match path {
        Cow::Borrowed(text) => text,
        Cow::Owned(text) => text.as_str(),
    }
}

/// A text that can be read as a path.
pub trait AsPath: View<V = Seq<char>> {
    /// The text of the path.
    fn as_path(&self) -> (path: &str)
        ensures
            path@ == self@,
    ;
}

impl AsPath for str {
    fn as_path(&self) -> (path: &str) {
        self
    }
}

impl AsPath for String {
    fn as_path(&self) -> (path: &str) {
        self.as_str()
    }
}

/// `result` is what `f` gives for one of the two platforms.
pub open spec fn on_some_platform(f: spec_fn(Platform) -> Seq<char>, result: Seq<char>) -> bool {
    result == f(Platform::Posix) || result == f(Platform::Windows)
}

/// The path operations as methods of a text, under the conventions of the
/// host platform.
///
/// Which platform that is cannot be known before the program is built, so
/// each contract says that the result is right for one of the two. The
/// methods of [`Platform`] do the work and state the result exactly.
pub trait SugarPath: View<V = Seq<char>> {
    /// Normalizes the path: see [`Platform::normalize`].
    fn normalize(&self) -> (normal: String)
        ensures
            on_some_platform(|p: Platform| spec_normalize(p, self@), normal@),
    ;

    /// Makes the path absolute below the working directory `cwd`: see
    /// [`Platform::absolutize_with`].
    fn absolutize(&self, cwd: &str) -> (absolute: String)
        ensures
            on_some_platform(|p: Platform| spec_absolutize(p, self@, cwd@, cwd@), absolute@),
    ;

    /// Makes the path absolute below `base`, which lies below the working
    /// directory `cwd` where it is relative: see
    /// [`Platform::absolutize_with`].
    fn absolutize_with<'a, B: IntoCowPath<'a>>(&self, base: B, cwd: &str) -> (absolute: String)
        ensures
            on_some_platform(|p: Platform| spec_absolutize(p, self@, base@, cwd@), absolute@),
    ;

    /// The path that leads from `to` to this path: see
    /// [`Platform::relative`].
    fn relative(&self, to: &str, cwd: &str) -> (path: String)
        ensures
            on_some_platform(|p: Platform| spec_relative(p, self@, to@, cwd@), path@),
    ;

    /// The path with `/` for each separator. A text is always valid
    /// Unicode, so the result is never `None`.
    fn to_slash<'a>(&'a self) -> (slashed: Option<Cow<'a, str>>)
        ensures
            slashed.is_some(),
            on_some_platform(|p: Platform| spec_to_slash(p, self@), slashed.unwrap()@),
    ;

    /// The path with `/` for each separator.
    fn to_slash_lossy<'a>(&'a self) -> (slashed: Cow<'a, str>)
        ensures
            on_some_platform(|p: Platform| spec_to_slash(p, self@), slashed@),
    ;

    /// The text of the path.
    fn as_path(&self) -> (path: &str)
        ensures
            path@ == self@,
    ;
}

impl SugarPath for str {
    fn normalize(&self) -> (normal: String) {
        Platform::host().normalize(self)
    }

    fn absolutize(&self, cwd: &str) -> (absolute: String) {
        Platform::host().absolutize_with(self, cwd, cwd)
    }

    fn absolutize_with<'a, B: IntoCowPath<'a>>(&self, base: B, cwd: &str) -> (absolute: String) {
        let base = base.into_cow_path();
        Platform::host().absolutize_with(self, cow_text(&base), cwd)
    }

    fn relative(&self, to: &str, cwd: &str) -> (path: String) {
        Platform::host().relative(self, to, cwd)
    }

    fn to_slash<'a>(&'a self) -> (slashed: Option<Cow<'a, str>>) {
        Some(self.to_slash_lossy())
    }

    fn to_slash_lossy<'a>(&'a self) -> (slashed: Cow<'a, str>) {
        let platform = Platform::host();
        match platform {
            Platform::Posix => {
                assert(spec_to_slash(platform, self@) =~= self@);
                Cow::Borrowed(self)
            },
            Platform::Windows => match replace_main_separator(platform, self) {
                Some(replaced) => Cow::Owned(replaced),
                None => {
                    proof {
                        lemma_to_slash_unchanged(platform, self@);
                    }
                    Cow::Borrowed(self)
                },
            },
        }
    }

    fn as_path(&self) -> (path: &str) {
        self
    }
}

/// The operations that take an owned path and hand back an owned path.
pub trait SugarPathBuf: Sized + View<V = Seq<char>> {
    /// Normalizes the path: see [`Platform::normalize`].
    fn into_normalize(self) -> (normal: String)
        ensures
            on_some_platform(|p: Platform| spec_normalize(p, self@), normal@),
    ;

    /// Makes the path absolute below the working directory `cwd`, which is
    /// taken as it is: see [`Platform::resolve`].
    fn into_absolutize(self, cwd: &str) -> (absolute: String)
        ensures
            on_some_platform(|p: Platform| spec_resolve(p, self@, cwd@), absolute@),
    ;
}

impl SugarPathBuf for String {
    fn into_normalize(self) -> (normal: String) {
        Platform::host().normalize(self.as_str())
    }

    fn into_absolutize(self, cwd: &str) -> (absolute: String) {
        Platform::host().resolve(self.as_str(), cwd)
    }
}

} // verus!
