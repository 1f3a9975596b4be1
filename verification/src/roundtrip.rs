//! Rendering and tokenizing undo each other on well-formed component
//! sequences.

use crate::component::Segment;
use crate::platform::Platform;
use crate::render::{needs_separator, plain_text, spec_render, volume_text};
use crate::splitting::{
    all_simple, is_separator_free, is_simple, lemma_body_concat, lemma_body_of_run,
    lemma_body_of_separator, lemma_name_len_at_end, lemma_name_len_inside,
    lemma_name_len_of_run,
};
use crate::tokenize::{
    body_segments, classify, has_drive, has_share, head_segments, lemma_name_len_bounds,
    prefix_len, prefix_text, server_len, share_len, spec_tokenize,
};
use vstd::prelude::*;

verus! {

/// The text of a simple component is not empty, holds no separator and is
/// read back as that component.
pub proof fn lemma_plain_text(platform: Platform, segment: Segment)
    requires
        is_simple(platform, segment),
    ensures
        plain_text(segment).len() > 0,
        is_separator_free(platform, plain_text(segment)),
        classify(plain_text(segment)) == segment,
{
    match segment {
        Segment::CurDir => {
            assert(!platform.spec_is_separator('.'));
        },
        Segment::ParentDir => {
            assert(!platform.spec_is_separator('.'));
            assert(seq!['.', '.'].len() == 2);
            assert(seq!['.'].len() == 1);
        },
        _ => {},
    }
}

/// What rendering adds for one more simple component.
pub proof fn lemma_render_push_simple(platform: Platform, init: Seq<Segment>, last: Segment)
    requires
        is_simple(platform, last),
    ensures
        spec_render(platform, init.push(last)) == if needs_separator(init) {
            spec_render(platform, init).push(platform.spec_main_separator()) + plain_text(last)
        } else {
            spec_render(platform, init) + plain_text(last)
        },
{
    assert(init.push(last).drop_last() =~= init);
}

/// The rendering of simple components neither starts nor ends with a
/// separator, and is empty only when there are none.
pub proof fn lemma_render_simple_ends(platform: Platform, names: Seq<Segment>)
    requires
        all_simple(platform, names),
    ensures
        names.len() == 0 ==> spec_render(platform, names).len() == 0,
        names.len() > 0 ==> spec_render(platform, names).len() > 0 && !platform.spec_is_separator(
            spec_render(platform, names)[0],
        ) && !platform.spec_is_separator(spec_render(platform, names).last())
            && spec_render(platform, names)[0] == plain_text(names[0])[0],
    decreases names.len(),
{
    if names.len() > 0 {
        let init = names.drop_last();
        let last = names.last();
        assert(init.push(last) =~= names);
        lemma_render_simple_ends(platform, init);
        lemma_render_push_simple(platform, init, last);
        lemma_plain_text(platform, last);
        let text = plain_text(last);
        assert(!platform.spec_is_separator(text[0]));
        assert(!platform.spec_is_separator(text[text.len() - 1]));
        if init.len() > 0 {
            assert(is_simple(platform, init.last()));
            assert(names[0] == init[0]);
        }
    }
}

/// Tokenizing the rendering of simple components gives them back.
pub proof fn lemma_body_of_render(platform: Platform, names: Seq<Segment>)
    requires
        all_simple(platform, names),
    ensures
        body_segments(platform, spec_render(platform, names)) == names,
    decreases names.len(),
{
    if names.len() == 0 {
        assert(body_segments(platform, spec_render(platform, names)) =~= names);
    } else {
        let init = names.drop_last();
        let last = names.last();
        let separator = platform.spec_main_separator();
        assert(init.push(last) =~= names);
        lemma_body_of_render(platform, init);
        lemma_render_push_simple(platform, init, last);
        lemma_plain_text(platform, last);
        let text = plain_text(last);
        let head = spec_render(platform, init);
        lemma_body_of_run(platform, text);
        if init.len() == 0 {
            assert(head + text =~= text);
            assert(seq![last] =~= names);
        } else {
            assert(is_simple(platform, init.last()));
            assert(head.push(separator) =~= head + seq![separator]);
            lemma_body_of_separator(platform, separator);
            lemma_body_concat(platform, head, seq![separator]);
            lemma_body_concat(platform, head.push(separator), text);
            assert((init + Seq::<Segment>::empty()) + seq![last] =~= names);
        }
    }
}

/// After a head that calls for no separator (one that ends in a root or in
/// a drive designator), simple components are rendered as on their own.
pub proof fn lemma_render_after_head(
    platform: Platform,
    head: Seq<Segment>,
    names: Seq<Segment>,
)
    requires
        head.len() > 0,
        !needs_separator(head),
        all_simple(platform, names),
    ensures
        spec_render(platform, head + names) == spec_render(platform, head) + spec_render(
            platform,
            names,
        ),
    decreases names.len(),
{
    if names.len() == 0 {
        assert(head + names =~= head);
        assert(spec_render(platform, head) + spec_render(platform, names) =~= spec_render(
            platform,
            head,
        ));
    } else {
        let init = names.drop_last();
        let last = names.last();
        assert(init.push(last) =~= names);
        assert((head + init).push(last) =~= head + names);
        lemma_render_after_head(platform, head, init);
        lemma_render_push_simple(platform, head + init, last);
        lemma_render_push_simple(platform, init, last);
        let separator = platform.spec_main_separator();
        let text = plain_text(last);
        if init.len() == 0 {
            assert(head + init =~= head);
            assert(spec_render(platform, head) + (spec_render(platform, init) + text)
                =~= spec_render(platform, head) + text);
        } else {
            assert(is_simple(platform, init.last()));
            assert((head + init).last() == init.last());
            assert((spec_render(platform, head) + spec_render(platform, init)).push(separator)
                + text =~= spec_render(platform, head) + (spec_render(platform, init).push(
                separator,
            ) + text));
        }
    }
}

/// How many anchors `segments` starts with: a prefix, a root, or a prefix
/// and a root.
pub open spec fn anchor_len(segments: Seq<Segment>) -> int {
    if segments.len() > 0 && segments[0] is Prefix {
        if segments.len() > 1 && segments[1] is RootDir {
            2
        } else {
            1
        }
    } else if segments.len() > 0 && segments[0] is RootDir {
        1
    } else {
        0
    }
}

/// Whether `text` is a prefix as the tokenizer writes it: read as a
/// Windows path it is all prefix, and that prefix is `text` itself.
pub open spec fn is_prefix_text(text: Seq<char>) -> bool {
    &&& text.len() > 0
    &&& prefix_len(Platform::Windows, text) == text.len()
    &&& prefix_text(text) == text
}

/// Whether `segments` has the shape of a tokenized path: anchors first,
/// then only simple components. A prefix occurs on Windows alone, is
/// written as the tokenizer writes it, and is followed by a root unless it
/// names a drive.
pub open spec fn is_well_shaped(platform: Platform, segments: Seq<Segment>) -> bool {
    &&& all_simple(platform, segments.skip(anchor_len(segments)))
    &&& (segments.len() > 0 && segments[0] is Prefix ==> {
        &&& platform == Platform::Windows
        &&& is_prefix_text(segments[0]->Prefix_0)
        &&& (has_drive(segments[0]->Prefix_0) || anchor_len(segments) == 2)
    })
}

/// The text that `trailing` adds: one main separator, or nothing.
pub open spec fn trailing_text(platform: Platform, trailing: bool) -> Seq<char> {
    if trailing {
        seq![platform.spec_main_separator()]
    } else {
        Seq::empty()
    }
}

/// The prefix that the tokenizer reads is written as the tokenizer writes
/// prefixes.
pub proof fn lemma_prefix_text_is_canonical(s: Seq<char>)
    requires
        prefix_len(Platform::Windows, s) > 0,
    ensures
        is_prefix_text(prefix_text(s)),
        has_drive(prefix_text(s)) == has_drive(s),
{
    let windows = Platform::Windows;
    let p = prefix_text(s);
    if has_drive(s) {
        assert(p.take(2) =~= p);
    } else {
        let sl = server_len(s);
        let hl = share_len(s);
        lemma_name_len_bounds(windows, s.skip(2));
        lemma_name_len_bounds(windows, s.skip(3 + sl));
        let server = s.subrange(2, 2 + sl);
        let share = s.subrange(3 + sl, 3 + sl + hl);
        assert forall|i: int| 0 <= i < server.len() implies !windows.spec_is_separator(
            #[trigger] server[i],
        ) by {
            assert(server[i] == s.skip(2)[i]);
        }
        assert forall|i: int| 0 <= i < share.len() implies !windows.spec_is_separator(
            #[trigger] share[i],
        ) by {
            assert(share[i] == s.skip(3 + sl)[i]);
        }
        lemma_name_len_of_run(windows, server);
        lemma_name_len_of_run(windows, share);
        let tail = seq!['\\'] + share;
        assert(p.skip(2) =~= server + tail);
        lemma_name_len_at_end(windows, server, tail);
        assert(server_len(p) == sl);
        assert(p.skip(3 + sl) =~= share);
        assert(share_len(p) == hl);
        assert(p[0] == '\\' && p[1] == '\\');
        assert(!has_drive(p));
        assert(has_share(p));
        assert(p.subrange(2, 2 + sl) =~= server);
        assert(p.subrange(3 + sl, 3 + sl + hl) =~= share);
    }
}

/// A prefix written as the tokenizer writes it is read back as the prefix
/// of any text that continues it, where what follows a share starts with a
/// separator or is empty.
pub proof fn lemma_prefix_text_is_read_back(p: Seq<char>, rest: Seq<char>)
    requires
        is_prefix_text(p),
        has_drive(p) || rest.len() == 0 || Platform::Windows.spec_is_separator(rest[0]),
    ensures
        prefix_len(Platform::Windows, p + rest) == p.len(),
        prefix_text(p + rest) == p,
        has_drive(p + rest) == has_drive(p),
{
    let windows = Platform::Windows;
    let t = p + rest;
    assert(t[0] == p[0] && t[1] == p[1]);
    if has_drive(p) {
        assert(t.take(2) =~= p.take(2));
    } else {
        let sl = server_len(p);
        let hl = share_len(p);
        assert(t.skip(2) =~= p.skip(2) + rest);
        lemma_name_len_inside(windows, p.skip(2), rest);
        assert(server_len(t) == sl);
        assert(t.skip(3 + sl) =~= p.skip(3 + sl) + rest);
        lemma_name_len_at_end(windows, p.skip(3 + sl), rest);
        assert(share_len(t) == hl);
        assert(t.subrange(2, 2 + sl) =~= p.subrange(2, 2 + sl));
        assert(t.subrange(3 + sl, 3 + sl + hl) =~= p.subrange(3 + sl, 3 + sl + hl));
    }
}

/// The rendering of the anchors of a well-shaped sequence.
pub proof fn lemma_render_anchors(platform: Platform, segments: Seq<Segment>)
    requires
        is_well_shaped(platform, segments),
        anchor_len(segments) > 0,
    ensures
        !needs_separator(segments.take(anchor_len(segments))),
        spec_render(platform, segments.take(anchor_len(segments))) == if segments[0] is Prefix {
            if anchor_len(segments) == 2 {
                (segments[0]->Prefix_0).push(platform.spec_main_separator())
            } else {
                segments[0]->Prefix_0
            }
        } else {
            seq![platform.spec_main_separator()]
        },
{
    let anchors = segments.take(anchor_len(segments));
    if anchors.len() == 2 {
        assert(anchors.drop_last() =~= seq![segments[0]]);
        assert(anchors.drop_last().drop_last() =~= Seq::<Segment>::empty());
        assert(volume_text(anchors.drop_last()) =~= segments[0]->Prefix_0);
    } else {
        assert(anchors.drop_last() =~= Seq::<Segment>::empty());
        if segments[0] is RootDir {
            assert(spec_render(platform, anchors) =~= seq![platform.spec_main_separator()]);
        } else {
            let p = segments[0]->Prefix_0;
            assert(has_drive(p));
            assert(p.len() == 2);
        }
    }
}

/// Simple components, rendered and followed by a separator or not, are
/// read back as they are; their text does not start with a separator.
pub proof fn lemma_names_round_trip(platform: Platform, names: Seq<Segment>, trailing: bool)
    requires
        all_simple(platform, names),
        trailing ==> names.len() > 0,
    ensures
        body_segments(
            platform,
            spec_render(platform, names) + trailing_text(platform, trailing),
        ) == names,
        names.len() == 0 ==> (spec_render(platform, names) + trailing_text(
            platform,
            trailing,
        )).len() == 0,
        names.len() > 0 ==> (spec_render(platform, names) + trailing_text(
            platform,
            trailing,
        )).len() > 0 && !platform.spec_is_separator(
            (spec_render(platform, names) + trailing_text(platform, trailing))[0],
        ),
{
    let separator = platform.spec_main_separator();
    let tail = trailing_text(platform, trailing);
    let rendered = spec_render(platform, names);
    lemma_render_simple_ends(platform, names);
    lemma_body_of_render(platform, names);
    if trailing {
        lemma_body_of_separator(platform, separator);
    }
    lemma_body_concat(platform, rendered, tail);
    assert(body_segments(platform, rendered + tail) =~= names);
    if names.len() > 0 {
        assert((rendered + tail)[0] == rendered[0]);
    }
}

/// The round trip for a sequence without anchors.
proof fn lemma_round_trip_relative(platform: Platform, segments: Seq<Segment>, trailing: bool)
    requires
        is_well_shaped(platform, segments),
        anchor_len(segments) == 0,
        trailing ==> segments.len() > 0,
        platform == Platform::Windows ==> !has_drive(
            spec_render(platform, segments) + trailing_text(platform, trailing),
        ),
    ensures
        spec_tokenize(
            platform,
            spec_render(platform, segments) + trailing_text(platform, trailing),
        ) == segments,
{
    let text = spec_render(platform, segments) + trailing_text(platform, trailing);
    assert(segments.skip(0) =~= segments);
    lemma_names_round_trip(platform, segments, trailing);
    assert(prefix_len(platform, text) == 0);
    assert(text.skip(0) =~= text);
    assert(head_segments(platform, text) =~= Seq::<Segment>::empty());
    assert(spec_tokenize(platform, text) =~= segments);
}

/// The round trip for a sequence that starts with a root.
proof fn lemma_round_trip_rooted(platform: Platform, segments: Seq<Segment>, trailing: bool)
    requires
        is_well_shaped(platform, segments),
        segments.len() > 0,
        segments[0] is RootDir,
        trailing ==> segments.len() > 1,
    ensures
        spec_tokenize(
            platform,
            spec_render(platform, segments) + trailing_text(platform, trailing),
        ) == segments,
{
    let separator = platform.spec_main_separator();
    let tail = trailing_text(platform, trailing);
    let text = spec_render(platform, segments) + tail;
    let names = segments.skip(1);
    let anchors = segments.take(1);
    let rest = spec_render(platform, names) + tail;
    assert(anchors + names =~= segments);
    lemma_names_round_trip(platform, names, trailing);
    lemma_render_anchors(platform, segments);
    lemma_render_after_head(platform, anchors, names);
    assert(text =~= seq![separator] + rest);
    assert(text[0] == separator);
    assert(prefix_len(platform, text) == 0) by {
        if platform == Platform::Windows {
            assert(!has_drive(text));
            if text.len() >= 2 {
                assert(text[1] == rest[0]);
            }
        }
    }
    assert(text.skip(0) =~= text);
    assert(text.skip(1) =~= rest);
    assert(head_segments(platform, text) =~= anchors);
    assert(spec_tokenize(platform, text) =~= segments);
}

/// The round trip for a sequence that starts with a prefix and a root.
proof fn lemma_round_trip_volume_root(segments: Seq<Segment>, trailing: bool)
    requires
        is_well_shaped(Platform::Windows, segments),
        anchor_len(segments) == 2,
        segments[0] is Prefix,
        trailing ==> segments.len() > 2,
    ensures
        spec_tokenize(
            Platform::Windows,
            spec_render(Platform::Windows, segments) + trailing_text(Platform::Windows, trailing),
        ) == segments,
{
    let platform = Platform::Windows;
    let separator = platform.spec_main_separator();
    let tail = trailing_text(platform, trailing);
    let text = spec_render(platform, segments) + tail;
    let names = segments.skip(2);
    let anchors = segments.take(2);
    let rest = spec_render(platform, names) + tail;
    let p = segments[0]->Prefix_0;
    assert(anchors + names =~= segments);
    lemma_names_round_trip(platform, names, trailing);
    lemma_render_anchors(platform, segments);
    lemma_render_after_head(platform, anchors, names);
    let after = seq![separator] + rest;
    assert(text =~= p + after);
    lemma_prefix_text_is_read_back(p, after);
    assert(text[p.len() as int] == separator);
    assert(text.skip(p.len() as int) =~= after);
    assert(after.skip(1) =~= rest);
    assert(head_segments(platform, text) =~= anchors);
    assert(spec_tokenize(platform, text) =~= segments);
}

/// The round trip for a sequence that starts with a drive and no root.
proof fn lemma_round_trip_drive(segments: Seq<Segment>, trailing: bool)
    requires
        is_well_shaped(Platform::Windows, segments),
        anchor_len(segments) == 1,
        segments[0] is Prefix,
        trailing ==> segments.len() > 1,
    ensures
        spec_tokenize(
            Platform::Windows,
            spec_render(Platform::Windows, segments) + trailing_text(Platform::Windows, trailing),
        ) == segments,
{
    let platform = Platform::Windows;
    let tail = trailing_text(platform, trailing);
    let text = spec_render(platform, segments) + tail;
    let names = segments.skip(1);
    let anchors = segments.take(1);
    let rest = spec_render(platform, names) + tail;
    let p = segments[0]->Prefix_0;
    assert(anchors + names =~= segments);
    lemma_names_round_trip(platform, names, trailing);
    lemma_render_anchors(platform, segments);
    lemma_render_after_head(platform, anchors, names);
    assert(text =~= p + rest);
    lemma_prefix_text_is_read_back(p, rest);
    assert(text.skip(p.len() as int) =~= rest);
    if rest.len() > 0 {
        assert(text[p.len() as int] == rest[0]);
    }
    assert(has_drive(text));
    assert(head_segments(platform, text) =~= anchors);
    assert(spec_tokenize(platform, text) =~= segments);
}

/// Tokenizing the rendering of a well-shaped sequence gives the sequence
/// back, also where a separator follows the rendering of a sequence that
/// ends in a simple component. On Windows a sequence without anchors has
/// to be one whose text does not start like a drive designator.
pub proof fn lemma_round_trip(platform: Platform, segments: Seq<Segment>, trailing: bool)
    requires
        is_well_shaped(platform, segments),
        trailing ==> segments.len() > anchor_len(segments),
        platform == Platform::Windows && anchor_len(segments) == 0 ==> !has_drive(
            spec_render(platform, segments) + trailing_text(platform, trailing),
        ),
    ensures
        spec_tokenize(
            platform,
            spec_render(platform, segments) + trailing_text(platform, trailing),
        ) == segments,
{
    if anchor_len(segments) == 0 {
        lemma_round_trip_relative(platform, segments, trailing);
    } else if segments[0] is RootDir {
        lemma_round_trip_rooted(platform, segments, trailing);
    } else if anchor_len(segments) == 2 {
        lemma_round_trip_volume_root(segments, trailing);
    } else {
        lemma_round_trip_drive(segments, trailing);
    }
}

} // verus!
