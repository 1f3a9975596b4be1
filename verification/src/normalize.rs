//! The normalizer: one pass over the components of a path that drops `.`
//! and resolves `..` against the segment before it.

use crate::component::{Component, ComponentVec, Segment};
use crate::platform::Platform;
use crate::render::{render_components, spec_render};
use crate::tokenize::{ends_with_separator, has_trailing_separator, spec_tokenize, Tokens};
use vstd::prelude::*;

verus! {

/// What the normalizer keeps after it has kept `kept` and meets `next`.
///
/// A prefix, a root and a name are appended. `.` is dropped. `..` is
/// appended where nothing can absorb it (at the start, after a prefix or
/// after another `..`), dropped after a root, and otherwise removes the
/// name before it.
pub open spec fn normalize_step(kept: Seq<Segment>, next: Segment) -> Seq<Segment> {
    match next {
        Segment::CurDir => kept,
        Segment::ParentDir => if kept.len() == 0 {
            kept.push(Segment::ParentDir)
        } else {
            match kept.last() {
                Segment::Prefix(_) => kept.push(Segment::ParentDir),
                Segment::ParentDir => kept.push(Segment::ParentDir),
                Segment::RootDir => kept,
                _ => kept.drop_last(),
            }
        },
        _ => kept.push(next),
    }
}

/// The normal form of a component sequence: the steps applied left to
/// right, starting from nothing.
pub open spec fn normalized(segments: Seq<Segment>) -> Seq<Segment>
    decreases segments.len(),
{
    if segments.len() == 0 {
        Seq::empty()
    } else {
        normalize_step(normalized(segments.drop_last()), segments.last())
    }
}

/// The normalizer's steps for `segments`, applied to what was kept
/// before.
pub open spec fn normalize_onto(kept: Seq<Segment>, segments: Seq<Segment>) -> Seq<Segment>
    decreases segments.len(),
{
    if segments.len() == 0 {
        kept
    } else {
        normalize_step(normalize_onto(kept, segments.drop_last()), segments.last())
    }
}

/// Normalizing is applying the steps to nothing.
pub proof fn lemma_normalized_is_onto_nothing(segments: Seq<Segment>)
    ensures
        normalized(segments) == normalize_onto(Seq::empty(), segments),
    decreases segments.len(),
{
    if segments.len() > 0 {
        lemma_normalized_is_onto_nothing(segments.drop_last());
    }
}

/// The steps for a sequence made of two parts are those of the first part
/// followed by those of the second.
pub proof fn lemma_normalize_onto_concat(kept: Seq<Segment>, a: Seq<Segment>, b: Seq<Segment>)
    ensures
        normalize_onto(kept, a + b) == normalize_onto(normalize_onto(kept, a), b),
    decreases b.len(),
{
    if b.len() == 0 {
        assert(a + b =~= a);
    } else {
        assert((a + b).drop_last() =~= a + b.drop_last());
        lemma_normalize_onto_concat(kept, a, b.drop_last());
    }
}

/// Normalizing a sequence made of two parts continues from the normal form
/// of the first part.
pub proof fn lemma_normalized_concat(a: Seq<Segment>, b: Seq<Segment>)
    ensures
        normalized(a + b) == normalize_onto(normalized(a), b),
{
    lemma_normalized_is_onto_nothing(a + b);
    lemma_normalized_is_onto_nothing(a);
    lemma_normalize_onto_concat(Seq::empty(), a, b);
}

/// Whether the normalizer would leave `segments` as it is: it holds no
/// `.`, and each `..` stands at the start, after a prefix or after another
/// `..`.
pub open spec fn is_normal_form(segments: Seq<Segment>) -> bool {
    forall|i: int|
        0 <= i < segments.len() ==> match #[trigger] segments[i] {
            Segment::CurDir => false,
            Segment::ParentDir => i == 0 || segments[i - 1] is Prefix || segments[i - 1]
                is ParentDir,
            _ => true,
        }
}

/// Normalizing one more component continues from the normal form so far.
pub proof fn lemma_normalized_push(segments: Seq<Segment>, next: Segment)
    ensures
        normalized(segments.push(next)) == normalize_step(normalized(segments), next),
{
    assert(segments.push(next).drop_last() =~= segments);
}

/// The normal form is never longer than the input.
pub proof fn lemma_normalized_len(segments: Seq<Segment>)
    ensures
        normalized(segments).len() <= segments.len(),
    decreases segments.len(),
{
    if segments.len() > 0 {
        lemma_normalized_len(segments.drop_last());
    }
}

/// The normalizer's output is in normal form.
pub proof fn lemma_normalized_is_normal_form(segments: Seq<Segment>)
    ensures
        is_normal_form(normalized(segments)),
    decreases segments.len(),
{
    if segments.len() > 0 {
        lemma_normalized_is_normal_form(segments.drop_last());
    }
}

/// A sequence in normal form is its own normal form.
pub proof fn lemma_normal_form_is_fixed(segments: Seq<Segment>)
    requires
        is_normal_form(segments),
    ensures
        normalized(segments) == segments,
    decreases segments.len(),
{
    if segments.len() > 0 {
        let init = segments.drop_last();
        assert forall|i: int| 0 <= i < init.len() implies match #[trigger] init[i] {
            Segment::CurDir => false,
            Segment::ParentDir => i == 0 || init[i - 1] is Prefix || init[i - 1] is ParentDir,
            _ => true,
        } by {
            assert(init[i] == segments[i]);
        }
        lemma_normal_form_is_fixed(init);
        assert(init.push(segments.last()) =~= segments);
    } else {
        assert(normalized(segments) =~= segments);
    }
}

/// Applies one step of the normalizer to the components kept so far.
pub fn apply_component(kept: &mut ComponentVec, next: Component)
    requires
        old(kept)@.len() < usize::MAX,
    ensures
        final(kept)@ == normalize_step(old(kept)@, next@),
{
    match next {
        Component::CurDir => {},
        Component::ParentDir => {
            let n: usize = kept.len();
            let preserve = n == 0 || matches!(
                kept.as_slice()[n - 1],
                Component::Prefix(_) | Component::ParentDir
            );
            if preserve {
                kept.push(next);
            } else if !matches!(kept.as_slice()[n - 1], Component::RootDir) {
                let _ = kept.pop();
            }
        },
        _ => {
            kept.push(next);
        },
    }
}

/// Normalizes a component sequence.
pub fn normalize_components(components: &ComponentVec) -> (kept: ComponentVec)
    ensures
        kept@ == normalized(components@),
{
    let items = components.as_slice();
    let n: usize = items.len();
    let mut kept = ComponentVec::new();
    let mut i: usize = 0;
    while i < n
        invariant
            i <= n,
            n == items@.len(),
            n == components@.len(),
            forall|j: int| 0 <= j < n ==> (#[trigger] items@[j])@ == components@[j],
            kept@ == normalized(components@.take(i as int)),
        decreases n - i,
    {
        proof {
            lemma_normalized_len(components@.take(i as int));
            lemma_normalized_push(components@.take(i as int), components@[i as int]);
            assert(components@.take(i as int).push(components@[i as int]) =~= components@.take(
                i + 1,
            ));
        }
        apply_component(&mut kept, items[i].duplicate());
        i += 1;
    }
    assert(components@.take(n as int) =~= components@);
    kept
}

/// Tokenizes `path` and normalizes its components in the same pass.
pub fn to_normalized_components(platform: Platform, path: &str) -> (kept: ComponentVec)
    ensures
        kept@ == normalized(spec_tokenize(platform, path@)),
{
    let mut tokens = Tokens::new(platform, path);
    let mut kept = ComponentVec::new();
    let ghost all = tokens.remaining();
    let ghost mut done: Seq<Segment> = Seq::empty();
    loop
        invariant
            tokens.well_formed(),
            done + tokens.remaining() == all,
            all == spec_tokenize(platform, path@),
            all.len() <= usize::MAX,
            kept@ == normalized(done),
        decreases tokens.remaining().len(),
    {
        let ghost rest = tokens.remaining();
        match tokens.next() {
            None => {
                assert(done =~= all);
                return kept;
            },
            Some(c) => {
                proof {
                    assert(done.len() + rest.len() == all.len());
                    lemma_normalized_len(done);
                    lemma_normalized_push(done, c@);
                    assert(rest =~= seq![rest[0]] + rest.skip(1));
                    assert(done.push(c@) + rest.skip(1) =~= all);
                    done = done.push(c@);
                }
                apply_component(&mut kept, c);
            },
        }
    }
}

/// The text shown for a normalized component sequence.
///
/// An empty sequence is shown as `.`, the current directory. On Windows a
/// prefix that stands alone gets a `.` after it, which tells `C:.` (the
/// current directory of the drive) from a bare designator. Otherwise the
/// sequence is rendered, and a separator follows it where the text that
/// was normalized ended in one (`trailing`) and the last component is a
/// name.
pub open spec fn spec_display(platform: Platform, kept: Seq<Segment>, trailing: bool) -> Seq<
    char,
> {
    if kept.len() == 0 {
        seq!['.']
    } else if platform == Platform::Windows && kept.len() == 1 && kept[0] is Prefix {
        spec_render(platform, kept.push(Segment::CurDir))
    } else if trailing && kept.last() is Normal {
        spec_render(platform, kept).push(platform.spec_main_separator())
    } else {
        spec_render(platform, kept)
    }
}

/// The normal form of the path written as `s`, as text.
pub open spec fn spec_normalize(platform: Platform, s: Seq<char>) -> Seq<char> {
    spec_display(
        platform,
        normalized(spec_tokenize(platform, s)),
        ends_with_separator(platform, s),
    )
}

/// Writes out a normalized component sequence.
pub fn display_components(platform: Platform, kept: ComponentVec, trailing: bool) -> (path: String)
    ensures
        path@ == spec_display(platform, kept@, trailing),
{
    if kept.is_empty() {
        let mut path = String::new();
        path.push('.');
        assert(path@ =~= seq!['.']);
        return path;
    }
    let n: usize = kept.len();
    let bare_prefix = matches!(platform, Platform::Windows) && n == 1 && matches!(
        kept.as_slice()[0],
        Component::Prefix(_)
    );
    let named = matches!(kept.as_slice()[n - 1], Component::Normal(_));
    if bare_prefix {
        let mut kept = kept;
        kept.push(Component::CurDir);
        render_components(platform, &kept)
    } else {
        let mut path = render_components(platform, &kept);
        if trailing && named {
            path.push(platform.main_separator());
        }
        path
    }
}

impl Platform {
    /// Normalizes `path`: drops `.` segments and repeated separators and
    /// resolves `..` segments, without looking at the file system. The
    /// empty path becomes `.`; a trailing separator is kept after a name.
    pub fn normalize(self, path: &str) -> (normal: String)
        ensures
            normal@ == spec_normalize(self, path@),
    {
        let kept = to_normalized_components(self, path);
        let trailing = has_trailing_separator(self, path);
        display_components(self, kept, trailing)
    }
}

} // verus!
