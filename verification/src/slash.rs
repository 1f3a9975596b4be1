//! Writing a path with `/` for every separator, whatever the platform.

use crate::platform::Platform;
use vstd::prelude::*;

verus! {

/// The text `s` with each main separator of the platform replaced by `/`.
/// Every other character stays, among them a `\` in a POSIX path.
pub open spec fn spec_to_slash(platform: Platform, s: Seq<char>) -> Seq<char> {
    s.map_values(
        |c: char|
            if c == platform.spec_main_separator() {
                '/'
            } else {
                c
            },
    )
}

/// Whether the main separator of the platform occurs in `s`.
pub open spec fn has_main_separator(platform: Platform, s: Seq<char>) -> bool {
    exists|i: int| 0 <= i < s.len() && s[i] == platform.spec_main_separator()
}

/// Replaces each main separator of the platform in `input` by `/`.
/// Returns `None`, and builds nothing, when `input` holds no such
/// separator.
pub fn replace_main_separator(platform: Platform, input: &str) -> (replaced: Option<String>)
    ensures
        replaced.is_some() == has_main_separator(platform, input@),
        replaced.is_some() ==> replaced.unwrap()@ == spec_to_slash(platform, input@),
{
    let separator = platform.main_separator();
    let mut found = false;
    for c in iter: input.chars()
        invariant
            iter.seq() == input@,
            separator == platform.spec_main_separator(),
            found == has_main_separator(platform, input@.take(iter.index() as int)),
    {
        let ghost before = input@.take(iter.index() as int);
        let ghost after = input@.take(iter.index() + 1);
        proof {
            assert(after.drop_last() =~= before);
            if has_main_separator(platform, before) {
                let i = choose|i: int| 0 <= i < before.len() && before[i] == separator;
                assert(after[i] == separator);
            }
            if has_main_separator(platform, after) && c != separator {
                let i = choose|i: int| 0 <= i < after.len() && after[i] == separator;
                assert(before[i] == separator);
            }
            if c == separator {
                assert(after[after.len() - 1] == separator);
            }
        }
        if c == separator {
            found = true;
        }
    }
    assert(input@.take(input@.len() as int) =~= input@);
    if !found {
        return None;
    }
    let mut text = String::new();
    for c in iter: input.chars()
        invariant
            iter.seq() == input@,
            separator == platform.spec_main_separator(),
            text@ == spec_to_slash(platform, input@.take(iter.index() as int)),
    {
        let ghost before = input@.take(iter.index() as int);
        let ghost after = input@.take(iter.index() + 1);
        if c == separator {
            text.push('/');
        } else {
            text.push(c);
        }
        assert(text@ =~= spec_to_slash(platform, after));
    }
    Some(text)
}

/// A text without the main separator is its own slash form.
pub proof fn lemma_to_slash_unchanged(platform: Platform, s: Seq<char>)
    requires
        !has_main_separator(platform, s),
    ensures
        spec_to_slash(platform, s) == s,
{
    assert(spec_to_slash(platform, s) =~= s);
}

impl Platform {
    /// The text of `path` with `/` for each main separator.
    pub fn to_slash(self, path: &str) -> (slashed: String)
        ensures
            slashed@ == spec_to_slash(self, path@),
    {
        match replace_main_separator(self, path) {
            Some(replaced) => replaced,
            None => {
                proof {
                    lemma_to_slash_unchanged(self, path@);
                }
                path.to_owned()
            },
        }
    }
}

} // verus!
