//! The platform policy: which characters separate path segments, and which
//! one is written when a path is rendered.

use vstd::prelude::*;

verus! {

/// The path conventions of an operating-system family.
///
/// Every operation of this crate takes its rules from a `Platform` value, so
/// both families can be exercised on any host.
#[derive(Clone, Copy, Debug, PartialEq, Eq, Structural)]
pub enum Platform {
    /// `/` is the only separator and paths carry no volume prefix.
    Posix,
    /// `/` and `\` both separate, `\` is preferred, and a path may start
    /// with a drive (`C:`) or a share (`\\server\share`) prefix.
    Windows,
}

impl Platform {
    /// The separator written between segments when a path is rendered.
    pub open spec fn spec_main_separator(self) -> char {
        match self {
            Platform::Posix => '/',
            Platform::Windows => '\\',
        }
    }

    /// Whether `c` ends a segment on this platform.
    pub open spec fn spec_is_separator(self, c: char) -> bool {
        c == '/' || (self == Platform::Windows && c == '\\')
    }

    /// The separator written between segments when a path is rendered.
    #[verifier::when_used_as_spec(spec_main_separator)]
    pub fn main_separator(self) -> (c: char)
        ensures
            c == self.spec_main_separator(),
    {
        match self {
            Platform::Posix => '/',
            Platform::Windows => '\\',
        }
    }

    /// Whether `c` ends a segment on this platform.
    #[verifier::when_used_as_spec(spec_is_separator)]
    pub fn is_separator(self, c: char) -> (b: bool)
        ensures
            b == self.spec_is_separator(c),
    {
        match self {
            Platform::Posix => c == '/',
            Platform::Windows => c == '/' || c == '\\',
        }
    }

    /// The platform this program was built for, judged by its native
    /// separator: `Windows` where that is `\`, `Posix` everywhere else.
    pub fn host() -> Platform {
        // The separator is a constant of the build target, so nothing is
        // known of it here. Which platform it stands for is decided, and
        // stated for every character, by `with_main_separator`.
        let separator = native_main_separator();
        Platform::with_main_separator(separator)
    }

    /// The platform whose paths are written with `separator`: `Windows`
    /// for `\`, `Posix` for `/` and for every other character.
    pub open spec fn spec_with_main_separator(separator: char) -> Platform {
        if separator == '\\' {
            Platform::Windows
        } else {
            Platform::Posix
        }
    }

    /// The platform whose paths are written with `separator`: `Windows`
    /// for `\`, `Posix` for `/` and for every other character. For the
    /// two separators that are in use, the platform chosen is the one that
    /// writes that separator.
    pub fn with_main_separator(separator: char) -> (platform: Platform)
        ensures
            platform == Platform::spec_with_main_separator(separator),
            separator == '/' || separator == '\\' ==> platform.spec_main_separator()
                == separator,
    {
        if separator == '\\' {
            Platform::Windows
        } else {
            Platform::Posix
        }
    }
}

/// Reads `std::path::MAIN_SEPARATOR`. Nothing is claimed of the character:
/// it differs from one build target to the next.
#[verifier::external_body]
fn native_main_separator() -> char {
    std::path::MAIN_SEPARATOR
}

} // verus!
