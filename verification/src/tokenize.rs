//! The tokenizer: from the text of a path to its components.

use crate::component::{Component, ComponentVec, Segment};
use crate::platform::Platform;
use crate::text::{chars_of, string_of};
use vstd::prelude::*;

verus! {

/// The length of the run of non-separator characters that `s` starts with.
pub open spec fn name_len(platform: Platform, s: Seq<char>) -> nat
    decreases s.len(),
{
    if s.len() == 0 || platform.spec_is_separator(s[0]) {
        0
    } else {
        1 + name_len(platform, s.skip(1))
    }
}

/// The component that a non-empty run of non-separator characters stands
/// for: only an exact `.` or `..` is special.
pub open spec fn classify(name: Seq<char>) -> Segment {
    if name == seq!['.'] {
        Segment::CurDir
    } else if name == seq!['.', '.'] {
        Segment::ParentDir
    } else {
        Segment::Normal(name)
    }
}

/// The components of the part of a path that follows its prefix and root:
/// one for each maximal run of non-separator characters, in order.
pub open spec fn body_segments(platform: Platform, s: Seq<char>) -> Seq<Segment>
    decreases s.len(),
    via body_segments_decreases
{
    if s.len() == 0 {
        Seq::empty()
    } else if platform.spec_is_separator(s[0]) {
        body_segments(platform, s.skip(1))
    } else {
        let n = name_len(platform, s) as int;
        seq![classify(s.take(n))] + body_segments(platform, s.skip(n))
    }
}

#[via_fn]
proof fn body_segments_decreases(platform: Platform, s: Seq<char>) {
    lemma_name_len_bounds(platform, s);
}

/// A run ends at the first separator or at the end of the text, and holds
/// no separator itself.
pub proof fn lemma_name_len_bounds(platform: Platform, s: Seq<char>)
    ensures
        name_len(platform, s) <= s.len(),
        s.len() > 0 && !platform.spec_is_separator(s[0]) ==> name_len(platform, s) >= 1,
        forall|i: int|
            0 <= i < name_len(platform, s) ==> !platform.spec_is_separator(#[trigger] s[i]),
        name_len(platform, s) < s.len() ==> platform.spec_is_separator(
            s[name_len(platform, s) as int],
        ),
    decreases s.len(),
{
    if s.len() == 0 || platform.spec_is_separator(s[0]) {
    } else {
        let t = s.skip(1);
        lemma_name_len_bounds(platform, t);
        assert forall|i: int| 0 <= i < name_len(platform, s) implies !platform.spec_is_separator(
            #[trigger] s[i],
        ) by {
            if i > 0 {
                assert(s[i] == t[i - 1]);
            }
        }
        if name_len(platform, s) < s.len() {
            assert(s[name_len(platform, s) as int] == t[name_len(platform, t) as int]);
        }
    }
}

/// Whether `c` can name a drive.
pub open spec fn is_drive_letter(c: char) -> bool {
    ('a' <= c && c <= 'z') || ('A' <= c && c <= 'Z')
}

/// Whether `s` starts with a drive designator: a letter and a colon.
pub open spec fn has_drive(s: Seq<char>) -> bool {
    s.len() >= 2 && is_drive_letter(s[0]) && s[1] == ':'
}

/// The length of the server name of a share prefix, which starts after two
/// leading separators.
pub open spec fn server_len(s: Seq<char>) -> int {
    name_len(Platform::Windows, s.skip(2)) as int
}

/// The length of the share name, which follows the server name and one
/// separator.
pub open spec fn share_len(s: Seq<char>) -> int {
    name_len(Platform::Windows, s.skip(3 + server_len(s))) as int
}

/// Whether `s` starts with a share designator: exactly two separators, a
/// server name, one separator and a share name, both names non-empty.
pub open spec fn has_share(s: Seq<char>) -> bool {
    &&& s.len() >= 2
    &&& Platform::Windows.spec_is_separator(s[0])
    &&& Platform::Windows.spec_is_separator(s[1])
    &&& server_len(s) > 0
    &&& 2 + server_len(s) < s.len()
    &&& share_len(s) > 0
}

/// How many leading characters of `s` form its volume prefix; 0 when it has
/// none. Only Windows paths have one.
pub open spec fn prefix_len(platform: Platform, s: Seq<char>) -> nat {
    if platform != Platform::Windows {
        0
    } else if has_drive(s) {
        2
    } else if has_share(s) {
        (3 + server_len(s) + share_len(s)) as nat
    } else {
        0
    }
}

/// The text of a share prefix in its preferred spelling.
pub open spec fn share_text(server: Seq<char>, share: Seq<char>) -> Seq<char> {
    seq!['\\', '\\'] + server + seq!['\\'] + share
}

/// The text kept for the volume prefix of `s`: a drive designator as
/// written, a share designator with `\` for each of its separators.
pub open spec fn prefix_text(s: Seq<char>) -> Seq<char> {
    if has_drive(s) {
        s.take(2)
    } else {
        share_text(
            s.subrange(2, 2 + server_len(s)),
            s.subrange(3 + server_len(s), 3 + server_len(s) + share_len(s)),
        )
    }
}

/// Whether the path is anchored at a root: a separator directly follows the
/// prefix (or starts the path), or the prefix names a share, which is
/// always rooted.
pub open spec fn has_root(platform: Platform, s: Seq<char>) -> bool {
    let k = prefix_len(platform, s) as int;
    ||| (k < s.len() && platform.spec_is_separator(s[k]))
    ||| (platform == Platform::Windows && !has_drive(s) && has_share(s))
}

/// The prefix and root components that `s` starts with.
pub open spec fn head_segments(platform: Platform, s: Seq<char>) -> Seq<Segment> {
    let prefix = if prefix_len(platform, s) > 0 {
        seq![Segment::Prefix(prefix_text(s))]
    } else {
        Seq::empty()
    };
    let root = if has_root(platform, s) {
        seq![Segment::RootDir]
    } else {
        Seq::empty()
    };
    prefix + root
}

/// The components of the path written as `s`.
pub open spec fn spec_tokenize(platform: Platform, s: Seq<char>) -> Seq<Segment> {
    head_segments(platform, s) + body_segments(platform, s.skip(prefix_len(platform, s) as int))
}

/// The prefix never reaches past the end of the text.
pub proof fn lemma_prefix_len_bounds(platform: Platform, s: Seq<char>)
    ensures
        prefix_len(platform, s) <= s.len(),
{
    if platform == Platform::Windows && !has_drive(s) && has_share(s) {
        lemma_name_len_bounds(Platform::Windows, s.skip(2));
        lemma_name_len_bounds(Platform::Windows, s.skip(3 + server_len(s)));
    }
}

/// Finds where the run of non-separator characters that starts at `from`
/// ends.
pub fn scan_name(platform: Platform, chars: &[char], from: usize) -> (end: usize)
    requires
        from <= chars@.len(),
    ensures
        from <= end <= chars@.len(),
        end - from == name_len(platform, chars@.skip(from as int)),
{
    let mut end: usize = from;
    while end < chars.len() && !platform.is_separator(chars[end])
        invariant
            from <= end <= chars@.len(),
            name_len(platform, chars@.skip(from as int)) == (end - from) + name_len(
                platform,
                chars@.skip(end as int),
            ),
        decreases chars@.len() - end,
    {
        assert(chars@.skip(end as int).skip(1) =~= chars@.skip(end + 1));
        end += 1;
    }
    end
}

/// Whether `c` can name a drive.
pub fn is_drive_char(c: char) -> (b: bool)
    ensures
        b == is_drive_letter(c),
{
    ('a' <= c && c <= 'z') || ('A' <= c && c <= 'Z')
}

/// Where the prefix of the path ends (0 when it has none) and, for a share
/// prefix, where the server name in it ends.
fn scan_prefix(platform: Platform, chars: &[char]) -> (r: (usize, usize))
    ensures
        r.0 == prefix_len(platform, chars@),
        r.0 <= chars@.len(),
        r.0 > 2 ==> !has_drive(chars@) && r.1 == 2 + server_len(chars@) && r.0 == 1 + r.1
            + share_len(chars@),
        r.0 == 2 ==> has_drive(chars@),
{
    let n: usize = chars.len();
    proof {
        lemma_prefix_len_bounds(platform, chars@);
    }
    match platform {
        Platform::Posix => { return (0, 0); },
        Platform::Windows => {},
    }
    if n < 2 {
        return (0, 0);
    }
    if is_drive_char(chars[0]) && chars[1] == ':' {
        return (2, 0);
    }
    if !(platform.is_separator(chars[0]) && platform.is_separator(chars[1])) {
        return (0, 0);
    }
    let server_end: usize = scan_name(platform, chars, 2);
    if server_end == 2 || server_end >= n {
        return (0, 0);
    }
    let share_end: usize = scan_name(platform, chars, server_end + 1);
    if share_end == server_end + 1 {
        return (0, 0);
    }
    (share_end, server_end)
}

/// The prefix component of a path whose prefix ends at `end` and, if it
/// names a share, holds a server name that ends at `server_end`.
fn read_prefix(chars: &[char], end: usize, server_end: usize) -> (prefix: Component)
    requires
        end == prefix_len(Platform::Windows, chars@),
        2 <= end <= chars@.len(),
        end == 2 ==> has_drive(chars@),
        end > 2 ==> !has_drive(chars@) && server_end == 2 + server_len(chars@) && end == 1
            + server_end + share_len(chars@),
    ensures
        prefix@ == Segment::Prefix(prefix_text(chars@)),
{
    if end == 2 {
        return Component::Prefix(string_of(chars, 0, 2));
    }
    let server = string_of(chars, 2, server_end);
    let share = string_of(chars, server_end + 1, end);
    let mut text = String::new();
    text.push('\\');
    text.push('\\');
    text.append(server.as_str());
    text.push('\\');
    text.append(share.as_str());
    assert(text@ =~= prefix_text(chars@));
    Component::Prefix(text)
}

/// Where the prefix of the path ends (0 when it has none) and whether the
/// path is rooted.
pub fn scan_head(platform: Platform, chars: &[char]) -> (r: (usize, bool))
    ensures
        r.0 == prefix_len(platform, chars@),
        r.0 <= chars@.len(),
        r.1 == has_root(platform, chars@),
{
    let (at, _) = scan_prefix(platform, chars);
    let root = at > 2 || (at < chars.len() && platform.is_separator(chars[at]));
    (at, root)
}

/// The component that the name `chars[from..to]` stands for.
fn read_name(chars: &[char], from: usize, to: usize) -> (c: Component)
    requires
        from < to <= chars@.len(),
    ensures
        c@ == classify(chars@.subrange(from as int, to as int)),
{
    let ghost name = chars@.subrange(from as int, to as int);
    if to - from == 1 && chars[from] == '.' {
        assert(name =~= seq!['.']);
        Component::CurDir
    } else if to - from == 2 && chars[from] == '.' && chars[from + 1] == '.' {
        assert(name =~= seq!['.', '.']);
        Component::ParentDir
    } else {
        assert(name != seq!['.']) by {
            if name == seq!['.'] {
                assert(name.len() == 1);
                assert(name[0] == '.');
            }
        }
        assert(name != seq!['.', '.']) by {
            if name == seq!['.', '.'] {
                assert(name.len() == 2);
                assert(name[0] == '.');
                assert(name[1] == '.');
            }
        }
        Component::Normal(string_of(chars, from, to))
    }
}

/// A cursor over the characters of one path, which hands out its
/// components one at a time, front to back.
pub struct Tokens {
    platform: Platform,
    chars: Vec<char>,
    at: usize,
    prefix: Option<Component>,
    root: bool,
}

impl Tokens {
    /// The cursor stands inside its text, and a prefix it still holds is a
    /// prefix.
    pub closed spec fn well_formed(&self) -> bool {
        &&& self.at <= self.chars@.len()
        &&& self.prefix.is_some() ==> self.prefix.unwrap()@ is Prefix
    }

    /// The components still to come.
    pub closed spec fn remaining(&self) -> Seq<Segment> {
        let prefix = if self.prefix.is_some() {
            seq![self.prefix.unwrap()@]
        } else {
            Seq::empty()
        };
        let root = if self.root {
            seq![Segment::RootDir]
        } else {
            Seq::empty()
        };
        prefix + root + body_segments(self.platform, self.chars@.skip(self.at as int))
    }

    /// A cursor at the start of `path`.
    pub fn new(platform: Platform, path: &str) -> (tokens: Tokens)
        ensures
            tokens.well_formed(),
            tokens.remaining() == spec_tokenize(platform, path@),
            tokens.remaining().len() <= usize::MAX,
    {
        let chars = chars_of(path);
        let n: usize = chars.len();
        let (at, server_end) = scan_prefix(platform, chars.as_slice());
        let prefix = if at > 0 {
            Some(read_prefix(chars.as_slice(), at, server_end))
        } else {
            None
        };
        let root = at > 2 || (at < n && platform.is_separator(chars[at]));
        proof {
            lemma_tokenize_len(platform, path@);
        }
        let tokens = Tokens { platform, chars, at, prefix, root };
        assert(tokens.remaining() =~= spec_tokenize(platform, path@));
        tokens
    }

    /// Hands out the next component, or `None` when the path is used up.
    pub fn next(&mut self) -> (next: Option<Component>)
        requires
            old(self).well_formed(),
        ensures
            final(self).well_formed(),
            old(self).remaining().len() == 0 ==> next.is_none() && final(self).remaining().len()
                == 0,
            old(self).remaining().len() > 0 ==> next.is_some() && next.unwrap()@ == old(
                self,
            ).remaining()[0] && final(self).remaining() == old(self).remaining().skip(1),
    {
        let ghost before = self.remaining();
        if self.prefix.is_some() {
            let prefix = self.prefix.take();
            assert(self.remaining() =~= before.skip(1));
            return prefix;
        }
        if self.root {
            self.root = false;
            assert(self.remaining() =~= before.skip(1));
            return Some(Component::RootDir);
        }
        let n: usize = self.chars.len();
        let mut at: usize = self.at;
        while at < n && self.platform.is_separator(self.chars[at])
            invariant
                self.at <= at <= n,
                n == self.chars@.len(),
                body_segments(self.platform, self.chars@.skip(at as int)) == before,
                self.prefix.is_none(),
                !self.root,
            decreases n - at,
        {
            assert(self.chars@.skip(at as int).skip(1) =~= self.chars@.skip(at + 1));
            at += 1;
        }
        if at == n {
            self.at = at;
            assert(self.remaining() =~= before);
            return None;
        }
        let end: usize = scan_name(self.platform, self.chars.as_slice(), at);
        proof {
            let rest = self.chars@.skip(at as int);
            lemma_name_len_bounds(self.platform, rest);
            assert(rest.take(end - at) =~= self.chars@.subrange(at as int, end as int));
            assert(rest.skip(end - at) =~= self.chars@.skip(end as int));
        }
        let c = read_name(self.chars.as_slice(), at, end);
        self.at = end;
        assert(self.remaining() =~= before.skip(1));
        Some(c)
    }
}

/// A text has at most as many body components as characters.
pub proof fn lemma_body_len(platform: Platform, s: Seq<char>)
    ensures
        body_segments(platform, s).len() <= s.len(),
    decreases s.len(),
{
    if s.len() == 0 {
    } else if platform.spec_is_separator(s[0]) {
        lemma_body_len(platform, s.skip(1));
    } else {
        lemma_name_len_bounds(platform, s);
        lemma_body_len(platform, s.skip(name_len(platform, s) as int));
    }
}

/// Whether the text ends in a separator.
pub open spec fn ends_with_separator(platform: Platform, s: Seq<char>) -> bool {
    s.len() > 0 && platform.spec_is_separator(s.last())
}

/// Whether `path` ends in a separator.
pub fn has_trailing_separator(platform: Platform, path: &str) -> (b: bool)
    ensures
        b == ends_with_separator(platform, path@),
{
    let n: usize = path.unicode_len();
    n > 0 && platform.is_separator(path.get_char(n - 1))
}

/// A path has at most as many components as characters.
pub proof fn lemma_tokenize_len(platform: Platform, s: Seq<char>)
    ensures
        spec_tokenize(platform, s).len() <= s.len(),
{
    let k = prefix_len(platform, s) as int;
    lemma_prefix_len_bounds(platform, s);
    lemma_body_len(platform, s.skip(k));
    if k < s.len() && platform.spec_is_separator(s[k]) {
        lemma_body_len(platform, s.skip(k).skip(1));
    }
    if platform == Platform::Windows && !has_drive(s) && has_share(s) {
        lemma_name_len_bounds(Platform::Windows, s.skip(2));
    }
}

/// A path with a prefix has fewer components than characters, and at
/// least one.
pub proof fn lemma_tokenize_len_with_prefix(platform: Platform, s: Seq<char>)
    requires
        prefix_len(platform, s) > 0,
    ensures
        1 <= spec_tokenize(platform, s).len() < s.len(),
{
    let k = prefix_len(platform, s) as int;
    lemma_prefix_len_bounds(platform, s);
    lemma_body_len(platform, s.skip(k));
    if k < s.len() && platform.spec_is_separator(s[k]) {
        lemma_body_len(platform, s.skip(k).skip(1));
    }
    if !has_drive(s) {
        lemma_name_len_bounds(Platform::Windows, s.skip(2));
    }
}

/// Splits `path` into its components.
///
/// Separators are `/`, and on Windows `\` as well; runs of them count as
/// one. A leading separator gives `RootDir`; on Windows a leading drive or
/// share designator gives `Prefix`. Every other stretch of text gives one
/// component: `CurDir` for `.`, `ParentDir` for `..`, `Normal` otherwise.
pub fn tokenize(platform: Platform, path: &str) -> (components: ComponentVec)
    ensures
        components@ == spec_tokenize(platform, path@),
{
    let mut tokens = Tokens::new(platform, path);
    let mut components = ComponentVec::new();
    let ghost all = tokens.remaining();
    loop
        invariant
            tokens.well_formed(),
            components@ + tokens.remaining() == all,
            all == spec_tokenize(platform, path@),
            all.len() <= usize::MAX,
        decreases tokens.remaining().len(),
    {
        let ghost rest = tokens.remaining();
        match tokens.next() {
            None => {
                assert(components@ =~= all);
                return components;
            },
            Some(c) => {
                assert(components@.len() + rest.len() == all.len());
                components.push(c);
                assert(components@ + tokens.remaining() =~= all) by {
                    assert(rest =~= seq![rest[0]] + rest.skip(1));
                }
            },
        }
    }
}

} // verus!
