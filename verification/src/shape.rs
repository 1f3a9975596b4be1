//! The shape of tokenized and of normalized paths.

use crate::component::Segment;
use crate::normalize::{
    is_normal_form, lemma_normalized_concat, lemma_normalized_is_normal_form, normalize_onto,
    normalize_step, normalized,
};
use crate::platform::Platform;
use crate::roundtrip::{anchor_len, is_well_shaped, lemma_prefix_text_is_canonical};
use crate::splitting::{all_simple, is_simple, lemma_body_is_simple};
use crate::tokenize::{body_segments, head_segments, prefix_len, spec_tokenize};
use vstd::prelude::*;

verus! {

/// The tokenizer's output is well-shaped, and its anchors are the head of
/// the path.
pub proof fn lemma_tokens_are_well_shaped(platform: Platform, s: Seq<char>)
    ensures
        is_well_shaped(platform, spec_tokenize(platform, s)),
        anchor_len(spec_tokenize(platform, s)) == head_segments(platform, s).len(),
        spec_tokenize(platform, s).take(anchor_len(spec_tokenize(platform, s))) == head_segments(
            platform,
            s,
        ),
        is_well_shaped(platform, head_segments(platform, s)),
        anchor_len(head_segments(platform, s)) == head_segments(platform, s).len(),
{
    let k = prefix_len(platform, s) as int;
    let head = head_segments(platform, s);
    let body = body_segments(platform, s.skip(k));
    let tokens = spec_tokenize(platform, s);
    lemma_body_is_simple(platform, s.skip(k));
    if body.len() > 0 {
        assert(is_simple(platform, body[0]));
    }
    if k > 0 {
        lemma_prefix_text_is_canonical(s);
    }
    assert(anchor_len(tokens) == head.len());
    assert(anchor_len(head) == head.len());
    assert(tokens.skip(head.len() as int) =~= body);
    assert(tokens.take(head.len() as int) =~= head);
    assert(head.skip(head.len() as int) =~= Seq::<Segment>::empty());
}

/// One step of the normalizer keeps a sequence well-shaped and leaves its
/// anchors alone.
pub proof fn lemma_step_keeps_shape(platform: Platform, kept: Seq<Segment>, next: Segment)
    requires
        is_well_shaped(platform, kept),
        is_simple(platform, next),
    ensures
        is_well_shaped(platform, normalize_step(kept, next)),
        anchor_len(normalize_step(kept, next)) == anchor_len(kept),
        normalize_step(kept, next).take(anchor_len(kept)) == kept.take(anchor_len(kept)),
{
    let after = normalize_step(kept, next);
    let h = anchor_len(kept);
    let names = kept.skip(h);
    assert(forall|i: int| h <= i < kept.len() ==> is_simple(platform, kept[i])) by {
        assert forall|i: int| h <= i < kept.len() implies is_simple(platform, kept[i]) by {
            assert(names[i - h] == kept[i]);
        }
    }
    if kept.len() > h {
        assert(is_simple(platform, kept.last()));
    }
    assert(after.len() >= h);
    assert(forall|i: int| 0 <= i < h ==> after[i] == kept[i]);
    assert(anchor_len(after) == h) by {
        if after.len() > h {
            assert(is_simple(platform, after[h]));
        }
    }
    assert(after.take(h) =~= kept.take(h));
    assert forall|i: int| 0 <= i < after.skip(h).len() implies is_simple(
        platform,
        #[trigger] after.skip(h)[i],
    ) by {
        if i + h < kept.len() {
            assert(after[i + h] == kept[i + h]);
        }
    }
}

/// The normalizer keeps a sequence well-shaped and leaves its anchors
/// alone.
pub proof fn lemma_onto_keeps_shape(platform: Platform, kept: Seq<Segment>, names: Seq<Segment>)
    requires
        is_well_shaped(platform, kept),
        all_simple(platform, names),
    ensures
        is_well_shaped(platform, normalize_onto(kept, names)),
        anchor_len(normalize_onto(kept, names)) == anchor_len(kept),
        normalize_onto(kept, names).take(anchor_len(kept)) == kept.take(anchor_len(kept)),
    decreases names.len(),
{
    if names.len() > 0 {
        lemma_onto_keeps_shape(platform, kept, names.drop_last());
        lemma_step_keeps_shape(platform, normalize_onto(kept, names.drop_last()), names.last());
    }
}

/// Anchors alone are their own normal form.
pub proof fn lemma_anchors_are_normal(segments: Seq<Segment>)
    requires
        anchor_len(segments) == segments.len(),
    ensures
        normalized(segments) == segments,
{
    if segments.len() == 2 {
        let first = segments.drop_last();
        assert(first.drop_last() =~= Seq::<Segment>::empty());
        assert(normalized(first.drop_last()) =~= Seq::<Segment>::empty());
        assert(normalized(first) =~= first);
        assert(normalized(segments) =~= segments);
    } else if segments.len() == 1 {
        assert(segments.drop_last() =~= Seq::<Segment>::empty());
        assert(normalized(segments.drop_last()) =~= Seq::<Segment>::empty());
        assert(normalized(segments) =~= segments);
    } else {
        assert(normalized(segments) =~= segments);
    }
}

/// The normal form of a path is well-shaped, in normal form, and has the
/// anchors of the path.
pub proof fn lemma_normal_form_shape(platform: Platform, s: Seq<char>)
    ensures
        is_well_shaped(platform, normalized(spec_tokenize(platform, s))),
        is_normal_form(normalized(spec_tokenize(platform, s))),
        anchor_len(normalized(spec_tokenize(platform, s))) == head_segments(platform, s).len(),
        normalized(spec_tokenize(platform, s)).take(head_segments(platform, s).len() as int)
            == head_segments(platform, s),
{
    let k = prefix_len(platform, s) as int;
    let head = head_segments(platform, s);
    let body = body_segments(platform, s.skip(k));
    lemma_tokens_are_well_shaped(platform, s);
    lemma_body_is_simple(platform, s.skip(k));
    lemma_normalized_concat(head, body);
    lemma_normalized_is_normal_form(spec_tokenize(platform, s));
    lemma_anchors_are_normal(head);
    lemma_onto_keeps_shape(platform, head, body);
    assert(head.take(head.len() as int) =~= head);
}

/// Below the root of an absolute path in normal form there are only names.
pub proof fn lemma_names_below_root(platform: Platform, segments: Seq<Segment>, i: int)
    requires
        is_well_shaped(platform, segments),
        is_normal_form(segments),
        anchor_len(segments) > 0,
        segments[anchor_len(segments) - 1] is RootDir,
        anchor_len(segments) <= i < segments.len(),
    ensures
        segments[i] is Normal,
        is_simple(platform, segments[i]),
    decreases i,
{
    let h = anchor_len(segments);
    assert(segments.skip(h)[i - h] == segments[i]);
    assert(is_simple(platform, segments[i]));
    if i > h {
        lemma_names_below_root(platform, segments, i - 1);
    }
}

} // verus!
