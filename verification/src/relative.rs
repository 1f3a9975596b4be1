//! The relativizer: the path that leads from one location to another.

use crate::absolutize::spec_absolutize;
use crate::component::{segments_of, Component, ComponentVec, Segment};
use crate::platform::Platform;
use crate::render::{is_drive_string, is_drive_text, spec_render, Renderer};
use crate::text::chars_of;
use crate::tokenize::{spec_tokenize, Tokens};
use vstd::prelude::*;

verus! {

/// The lower-case form of an ASCII capital; any other character as it is.
pub open spec fn spec_fold_case(c: char) -> char {
    if 'A' <= c && c <= 'Z' {
        ((c as u8) + 32) as char
    } else {
        c
    }
}

/// Whether two texts are equal once ASCII capitals are read as small
/// letters.
pub open spec fn same_text_ignoring_case(a: Seq<char>, b: Seq<char>) -> bool {
    &&& a.len() == b.len()
    &&& forall|i: int| 0 <= i < a.len() ==> spec_fold_case(#[trigger] a[i]) == spec_fold_case(b[i])
}

/// Whether two components name the same thing on the platform.
///
/// On POSIX they must be equal. On Windows names are compared without
/// regard to ASCII case, and so are drive designators; any other pair must
/// be equal.
pub open spec fn same_segment(platform: Platform, a: Segment, b: Segment) -> bool {
    match platform {
        Platform::Posix => a == b,
        Platform::Windows => match (a, b) {
            (Segment::Normal(x), Segment::Normal(y)) => same_text_ignoring_case(x, y),
            (Segment::Prefix(x), Segment::Prefix(y)) => if is_drive_text(x) && is_drive_text(y) {
                same_text_ignoring_case(x, y)
            } else {
                x == y
            },
            _ => a == b,
        },
    }
}

/// Whether the relativizer looks at a component: it does at prefixes,
/// roots and names, and passes over `.` and `..`.
pub open spec fn is_anchor_or_name(segment: Segment) -> bool {
    segment is Prefix || segment is RootDir || segment is Normal
}

/// The prefixes, roots and names among `segments`, in order.
pub open spec fn anchors_and_names(segments: Seq<Segment>) -> Seq<Segment>
    decreases segments.len(),
{
    if segments.len() == 0 {
        Seq::empty()
    } else if is_anchor_or_name(segments.last()) {
        anchors_and_names(segments.drop_last()).push(segments.last())
    } else {
        anchors_and_names(segments.drop_last())
    }
}

/// How many leading components of `a` and `b` name the same thing, pair by
/// pair.
pub open spec fn common_len(platform: Platform, a: Seq<Segment>, b: Seq<Segment>) -> nat
    decreases a.len(),
{
    if a.len() == 0 || b.len() == 0 || !same_segment(platform, a[0], b[0]) {
        0
    } else {
        1 + common_len(platform, a.skip(1), b.skip(1))
    }
}

/// A run of `n` parent-directory components.
pub open spec fn ups(n: nat) -> Seq<Segment> {
    Seq::new(n, |i: int| Segment::ParentDir)
}

/// The components that lead from the location `base` to the location
/// `target`: one `..` for each component of `base` below the common
/// ancestor, then the components of `target` below it.
pub open spec fn relative_segments(
    platform: Platform,
    target: Seq<Segment>,
    base: Seq<Segment>,
) -> Seq<Segment> {
    let from = anchors_and_names(base);
    let to = anchors_and_names(target);
    let shared = common_len(platform, from, to);
    ups((from.len() - shared) as nat) + to.skip(shared as int)
}

/// The path that leads from `base` to `target`, both taken as lying below
/// the working directory `cwd` where they are relative. Empty when both
/// are the same location.
pub open spec fn spec_relative(
    platform: Platform,
    target: Seq<char>,
    base: Seq<char>,
    cwd: Seq<char>,
) -> Seq<char> {
    spec_render(
        platform,
        relative_segments(
            platform,
            spec_tokenize(platform, spec_absolutize(platform, target, cwd, cwd)),
            spec_tokenize(platform, spec_absolutize(platform, base, cwd, cwd)),
        ),
    )
}

/// The common part is no longer than either sequence.
pub proof fn lemma_common_len_bounds(platform: Platform, a: Seq<Segment>, b: Seq<Segment>)
    ensures
        common_len(platform, a, b) <= a.len(),
        common_len(platform, a, b) <= b.len(),
    decreases a.len(),
{
    if a.len() == 0 || b.len() == 0 || !same_segment(platform, a[0], b[0]) {
    } else {
        lemma_common_len_bounds(platform, a.skip(1), b.skip(1));
    }
}

/// The lower-case form of an ASCII capital; any other character as it is.
pub fn fold_case(c: char) -> (folded: char)
    ensures
        folded == spec_fold_case(c),
{
    if 'A' <= c && c <= 'Z' {
        ((c as u8) + 32u8) as char
    } else {
        c
    }
}

/// Compares two texts without regard to ASCII case.
pub fn eq_ignoring_case(a: &str, b: &str) -> (same: bool)
    ensures
        same == same_text_ignoring_case(a@, b@),
{
    let x = chars_of(a);
    let y = chars_of(b);
    let n: usize = x.len();
    if y.len() != n {
        return false;
    }
    let mut i: usize = 0;
    while i < n
        invariant
            i <= n,
            n == x@.len(),
            n == y@.len(),
            x@ == a@,
            y@ == b@,
            forall|j: int| 0 <= j < i ==> spec_fold_case(#[trigger] x@[j]) == spec_fold_case(y@[j]),
        decreases n - i,
    {
        if fold_case(x[i]) != fold_case(y[i]) {
            return false;
        }
        i += 1;
    }
    true
}

/// Whether two components name the same thing on the platform.
pub fn same_component(platform: Platform, a: &Component, b: &Component) -> (same: bool)
    ensures
        same == same_segment(platform, a@, b@),
{
    match (a, b) {
        (Component::Normal(x), Component::Normal(y)) => match platform {
            Platform::Posix => *x == *y,
            Platform::Windows => eq_ignoring_case(x.as_str(), y.as_str()),
        },
        (Component::Prefix(x), Component::Prefix(y)) => match platform {
            Platform::Posix => *x == *y,
            Platform::Windows => if is_drive_string(x.as_str()) && is_drive_string(y.as_str()) {
                eq_ignoring_case(x.as_str(), y.as_str())
            } else {
                *x == *y
            },
        },
        (Component::RootDir, Component::RootDir) => true,
        (Component::CurDir, Component::CurDir) => true,
        (Component::ParentDir, Component::ParentDir) => true,
        _ => false,
    }
}

/// The prefixes, roots and names of the path written as `path`.
fn read_anchors_and_names(platform: Platform, path: &str) -> (kept: ComponentVec)
    ensures
        kept@ == anchors_and_names(spec_tokenize(platform, path@)),
{
    let mut tokens = Tokens::new(platform, path);
    let mut kept = ComponentVec::new();
    let ghost all = tokens.remaining();
    let ghost mut done: Seq<Segment> = Seq::empty();
    loop
        invariant
            tokens.well_formed(),
            done + tokens.remaining() == all,
            all == spec_tokenize(platform, path@),
            all.len() <= usize::MAX,
            kept@ == anchors_and_names(done),
            kept@.len() <= done.len(),
        decreases tokens.remaining().len(),
    {
        let ghost rest = tokens.remaining();
        match tokens.next() {
            None => {
                assert(done =~= all);
                return kept;
            },
            Some(c) => {
                proof {
                    assert(done.len() + rest.len() == all.len());
                    assert(rest =~= seq![rest[0]] + rest.skip(1));
                    assert(done.push(c@) + rest.skip(1) =~= all);
                    assert(done.push(c@).drop_last() =~= done);
                    done = done.push(c@);
                }
                if matches!(c, Component::Prefix(_) | Component::RootDir | Component::Normal(_)) {
                    kept.push(c);
                }
            },
        }
    }
}

/// Counts the leading components that `a` and `b` share.
fn count_common(platform: Platform, a: &[Component], b: &[Component]) -> (shared: usize)
    ensures
        shared == common_len(
            platform,
            segments_of(a@),
            segments_of(b@),
        ),
{
    let ghost x = segments_of(a@);
    let ghost y = segments_of(b@);
    let mut shared: usize = 0;
    assert(x.skip(0) =~= x && y.skip(0) =~= y);
    while shared < a.len() && shared < b.len() && same_component(platform, &a[shared], &b[shared])
        invariant
            shared <= a@.len(),
            shared <= b@.len(),
            x == segments_of(a@),
            y == segments_of(b@),
            common_len(platform, x, y) == shared + common_len(
                platform,
                x.skip(shared as int),
                y.skip(shared as int),
            ),
        decreases a@.len() - shared,
    {
        assert(x.skip(shared as int).skip(1) =~= x.skip(shared + 1));
        assert(y.skip(shared as int).skip(1) =~= y.skip(shared + 1));
        shared += 1;
    }
    shared
}

impl Platform {
    /// The path that leads from `base` to `target`. Both are first made
    /// absolute below the working directory `cwd`, which the caller
    /// supplies. The result climbs with `..` from `base` to the deepest
    /// directory that both share and then descends to `target`; it is
    /// empty when both are the same location.
    pub fn relative(self, target: &str, base: &str, cwd: &str) -> (path: String)
        ensures
            path@ == spec_relative(self, target@, base@, cwd@),
    {
        let base_text = self.absolutize_with(base, cwd, cwd);
        let target_text = self.absolutize_with(target, cwd, cwd);
        let from = read_anchors_and_names(self, base_text.as_str());
        let to = read_anchors_and_names(self, target_text.as_str());
        let from_items = from.as_slice();
        let to_items = to.as_slice();
        let shared: usize = count_common(self, from_items, to_items);
        proof {
            lemma_common_len_bounds(self, from@, to@);
        }
        let up_len: usize = from_items.len() - shared;
        let mut renderer = Renderer::new(self);
        let parent = Component::ParentDir;
        let mut i: usize = 0;
        while i < up_len
            invariant
                i <= up_len,
                parent@ == Segment::ParentDir,
                renderer.well_formed(),
                renderer.platform() == self,
                renderer.written() == ups(i as nat),
            decreases up_len - i,
        {
            renderer.write(&parent);
            assert(ups(i as nat).push(Segment::ParentDir) =~= ups((i + 1) as nat));
            i += 1;
        }
        let n: usize = to_items.len();
        let mut j: usize = shared;
        while j < n
            invariant
                shared <= j <= n,
                n == to_items@.len(),
                n == to@.len(),
                forall|m: int| 0 <= m < n ==> (#[trigger] to_items@[m])@ == to@[m],
                renderer.well_formed(),
                renderer.platform() == self,
                renderer.written() == ups(up_len as nat) + to@.subrange(shared as int, j as int),
            decreases n - j,
        {
            renderer.write(&to_items[j]);
            assert((ups(up_len as nat) + to@.subrange(shared as int, j as int)).push(to@[j as int])
                =~= ups(up_len as nat) + to@.subrange(shared as int, j + 1));
            j += 1;
        }
        assert(to@.subrange(shared as int, n as int) =~= to@.skip(shared as int));
        renderer.finish()
    }
}

} // verus!
