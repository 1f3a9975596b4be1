//! Facts about how the tokenizer splits a text that is made of two parts.

use crate::component::Segment;
use crate::platform::Platform;
use crate::tokenize::{body_segments, classify, lemma_name_len_bounds, name_len};
use vstd::prelude::*;

verus! {

/// Whether `s` holds no separator.
pub open spec fn is_separator_free(platform: Platform, s: Seq<char>) -> bool {
    forall|i: int| 0 <= i < s.len() ==> !platform.spec_is_separator(#[trigger] s[i])
}

/// Whether `name` can be the text of a `Normal` component: not empty,
/// without a separator, and neither `.` nor `..`.
pub open spec fn is_valid_name(platform: Platform, name: Seq<char>) -> bool {
    &&& name.len() > 0
    &&& is_separator_free(platform, name)
    &&& name != seq!['.']
    &&& name != seq!['.', '.']
}

/// Whether `segment` is one that the body of a path is made of: `.`, `..`
/// or a name that is valid on the platform.
pub open spec fn is_simple(platform: Platform, segment: Segment) -> bool {
    match segment {
        Segment::CurDir => true,
        Segment::ParentDir => true,
        Segment::Normal(name) => is_valid_name(platform, name),
        _ => false,
    }
}

/// Whether every one of `segments` is simple.
pub open spec fn all_simple(platform: Platform, segments: Seq<Segment>) -> bool {
    forall|i: int| 0 <= i < segments.len() ==> is_simple(platform, #[trigger] segments[i])
}

/// A text without separators is one run.
pub proof fn lemma_name_len_of_run(platform: Platform, s: Seq<char>)
    requires
        is_separator_free(platform, s),
    ensures
        name_len(platform, s) == s.len(),
    decreases s.len(),
{
    if s.len() > 0 {
        assert(!platform.spec_is_separator(s[0]));
        let t = s.skip(1);
        assert forall|i: int| 0 <= i < t.len() implies !platform.spec_is_separator(
            #[trigger] t[i],
        ) by {
            assert(t[i] == s[i + 1]);
        }
        lemma_name_len_of_run(platform, t);
    }
}

/// A run that ends inside `a` is not changed by what is appended to `a`.
pub proof fn lemma_name_len_inside(platform: Platform, a: Seq<char>, b: Seq<char>)
    requires
        name_len(platform, a) < a.len(),
    ensures
        name_len(platform, a + b) == name_len(platform, a),
    decreases a.len(),
{
    assert((a + b)[0] == a[0]);
    if platform.spec_is_separator(a[0]) {
    } else {
        assert((a + b).skip(1) =~= a.skip(1) + b);
        lemma_name_len_inside(platform, a.skip(1), b);
    }
}

/// A run that fills `a` ends there when what follows starts with a
/// separator or is empty.
pub proof fn lemma_name_len_at_end(platform: Platform, a: Seq<char>, b: Seq<char>)
    requires
        name_len(platform, a) == a.len(),
        b.len() == 0 || platform.spec_is_separator(b[0]),
    ensures
        name_len(platform, a + b) == a.len(),
    decreases a.len(),
{
    if a.len() == 0 {
        assert(a + b =~= b);
    } else {
        assert((a + b)[0] == a[0]);
        assert((a + b).skip(1) =~= a.skip(1) + b);
        lemma_name_len_at_end(platform, a.skip(1), b);
    }
}

/// Where two texts meet at a separator (or one of them is empty), the
/// components of the whole are those of the first followed by those of the
/// second.
pub proof fn lemma_body_concat(platform: Platform, a: Seq<char>, b: Seq<char>)
    requires
        a.len() == 0 || b.len() == 0 || platform.spec_is_separator(a.last())
            || platform.spec_is_separator(b[0]),
    ensures
        body_segments(platform, a + b) == body_segments(platform, a) + body_segments(platform, b),
    decreases a.len(),
{
    if a.len() == 0 {
        assert(a + b =~= b);
        assert(body_segments(platform, a) + body_segments(platform, b) =~= body_segments(
            platform,
            b,
        ));
    } else if b.len() == 0 {
        assert(a + b =~= a);
        assert(body_segments(platform, a) + body_segments(platform, b) =~= body_segments(
            platform,
            a,
        ));
    } else {
        assert((a + b)[0] == a[0]);
        if platform.spec_is_separator(a[0]) {
            let rest = a.skip(1);
            assert((a + b).skip(1) =~= rest + b);
            if rest.len() > 0 {
                assert(rest.last() == a.last());
            }
            lemma_body_concat(platform, rest, b);
        } else {
            let n = name_len(platform, a) as int;
            lemma_name_len_bounds(platform, a);
            if n < a.len() {
                lemma_name_len_inside(platform, a, b);
                let rest = a.skip(n);
                assert(rest.last() == a.last());
                assert((a + b).take(n) =~= a.take(n));
                assert((a + b).skip(n) =~= rest + b);
                lemma_body_concat(platform, rest, b);
                assert(seq![classify(a.take(n))] + (body_segments(platform, rest) + body_segments(
                    platform,
                    b,
                )) =~= (seq![classify(a.take(n))] + body_segments(platform, rest)) + body_segments(
                    platform,
                    b,
                ));
            } else {
                assert(!platform.spec_is_separator(a.last()));
                lemma_name_len_at_end(platform, a, b);
                assert((a + b).take(n) =~= a.take(n));
                assert((a + b).skip(n) =~= b);
                assert(a.skip(n) =~= Seq::<char>::empty());
                assert(seq![classify(a.take(n))] + body_segments(platform, b) =~= (seq![
                    classify(a.take(n)),
                ] + body_segments(platform, a.skip(n))) + body_segments(platform, b));
            }
        }
    }
}

/// A lone separator holds no component.
pub proof fn lemma_body_of_separator(platform: Platform, c: char)
    requires
        platform.spec_is_separator(c),
    ensures
        body_segments(platform, seq![c]) == Seq::<Segment>::empty(),
{
    assert(seq![c].skip(1) =~= Seq::<char>::empty());
    assert(body_segments(platform, seq![c]) == body_segments(platform, seq![c].skip(1)));
}

/// A text without separators is one component.
pub proof fn lemma_body_of_run(platform: Platform, s: Seq<char>)
    requires
        s.len() > 0,
        is_separator_free(platform, s),
    ensures
        body_segments(platform, s) == seq![classify(s)],
{
    lemma_name_len_of_run(platform, s);
    assert(!platform.spec_is_separator(s[0]));
    assert(s.take(s.len() as int) =~= s);
    assert(s.skip(s.len() as int) =~= Seq::<char>::empty());
    assert(body_segments(platform, s.skip(s.len() as int)) =~= Seq::<Segment>::empty());
    assert(seq![classify(s)] + Seq::<Segment>::empty() =~= seq![classify(s)]);
}

/// Every component of the body of a path is simple.
pub proof fn lemma_body_is_simple(platform: Platform, s: Seq<char>)
    ensures
        all_simple(platform, body_segments(platform, s)),
    decreases s.len(),
{
    if s.len() == 0 {
    } else if platform.spec_is_separator(s[0]) {
        lemma_body_is_simple(platform, s.skip(1));
    } else {
        let n = name_len(platform, s) as int;
        lemma_name_len_bounds(platform, s);
        lemma_body_is_simple(platform, s.skip(n));
        let name = s.take(n);
        assert(is_separator_free(platform, name));
        assert(is_simple(platform, classify(name)));
        let rest = body_segments(platform, s.skip(n));
        let whole = seq![classify(name)] + rest;
        assert forall|i: int| 0 <= i < whole.len() implies is_simple(
            platform,
            #[trigger] whole[i],
        ) by {
            if i > 0 {
                assert(whole[i] == rest[i - 1]);
            }
        }
    }
}

} // verus!
