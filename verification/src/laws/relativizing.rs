//! Laws of the relativizer.

use crate::absolutize::{spec_absolutize, spec_is_absolute, spec_join, spec_resolve};
use crate::component::Segment;
use crate::normalize::{
    is_normal_form, lemma_normal_form_is_fixed, lemma_normalize_onto_concat,
    lemma_normalized_concat, normalize_onto, normalized, spec_normalize,
};
use crate::platform::Platform;
use crate::relative::{
    anchors_and_names, common_len, is_anchor_or_name, lemma_common_len_bounds, relative_segments,
    same_segment, spec_relative, ups,
};
use crate::render::{spec_render, volume_text};
use crate::roundtrip::{
    anchor_len, is_well_shaped, lemma_body_of_render, lemma_render_simple_ends, lemma_round_trip,
    trailing_text,
};
use crate::shape::{lemma_names_below_root, lemma_normal_form_shape};
use crate::splitting::{
    all_simple, is_simple, lemma_body_concat, lemma_body_is_simple, lemma_name_len_at_end,
    lemma_name_len_inside,
};
use crate::tokenize::{
    body_segments, ends_with_separator, has_drive, has_root, head_segments, lemma_name_len_bounds,
    lemma_prefix_len_bounds, prefix_len, server_len, share_len, spec_tokenize,
};
use crate::laws::normalizing::{
    keeps_trailing_separator, lemma_render_ends_in_name, lemma_tokens_of_normal, reads_as_drive,
    shown,
};
use vstd::prelude::*;

verus! {

/// Every component names the same thing as itself.
pub proof fn lemma_same_segment_reflexive(platform: Platform, a: Segment)
    ensures
        same_segment(platform, a, a),
{
}

/// A sequence shares all of itself with itself.
pub proof fn lemma_common_len_reflexive(platform: Platform, a: Seq<Segment>)
    ensures
        common_len(platform, a, a) == a.len(),
    decreases a.len(),
{
    if a.len() > 0 {
        lemma_same_segment_reflexive(platform, a[0]);
        lemma_common_len_reflexive(platform, a.skip(1));
    }
}

/// **A location is nowhere relative to itself.** The path from any
/// location to the same location is empty, whatever the working directory.
pub proof fn law_relative_to_itself(platform: Platform, path: Seq<char>, cwd: Seq<char>)
    ensures
        spec_relative(platform, path, path, cwd) == Seq::<char>::empty(),
{
    let location = spec_tokenize(platform, spec_absolutize(platform, path, cwd, cwd));
    let kept = anchors_and_names(location);
    lemma_common_len_reflexive(platform, kept);
    assert(relative_segments(platform, location, location) =~= Seq::<Segment>::empty());
}

/// **Two paths to one location are nowhere relative to each other.** Where
/// `target` and `base` are the same once made absolute, the path from one
/// to the other is empty.
pub proof fn law_relative_within_a_location(
    platform: Platform,
    target: Seq<char>,
    base: Seq<char>,
    cwd: Seq<char>,
)
    requires
        spec_absolutize(platform, target, cwd, cwd) == spec_absolutize(platform, base, cwd, cwd),
    ensures
        spec_relative(platform, target, base, cwd) == Seq::<char>::empty(),
{
    let location = spec_tokenize(platform, spec_absolutize(platform, target, cwd, cwd));
    let kept = anchors_and_names(location);
    lemma_common_len_reflexive(platform, kept);
    assert(relative_segments(platform, location, location) =~= Seq::<Segment>::empty());
}

/// The relativizer looks only at prefixes, roots and names.
pub proof fn lemma_anchors_and_names(segments: Seq<Segment>)
    ensures
        forall|i: int|
            0 <= i < anchors_and_names(segments).len() ==> is_anchor_or_name(
                #[trigger] anchors_and_names(segments)[i],
            ),
    decreases segments.len(),
{
    if segments.len() > 0 {
        lemma_anchors_and_names(segments.drop_last());
        let kept = anchors_and_names(segments);
        let init = anchors_and_names(segments.drop_last());
        assert forall|i: int| 0 <= i < kept.len() implies is_anchor_or_name(#[trigger] kept[i]) by {
            if i < init.len() {
                assert(kept[i] == init[i]);
            }
        }
    }
}

/// **Up, then down.** In the path from one location to another every `..`
/// comes before every other component: there is a point before which all
/// components are `..` and from which on none is.
pub proof fn law_relative_climbs_first(
    platform: Platform,
    target: Seq<Segment>,
    base: Seq<Segment>,
)
    ensures
        ({
            let path = relative_segments(platform, target, base);
            let from = anchors_and_names(base);
            let to = anchors_and_names(target);
            let turn = from.len() - common_len(platform, from, to);
            &&& 0 <= turn <= path.len()
            &&& forall|i: int| 0 <= i < turn ==> #[trigger] path[i] is ParentDir
            &&& forall|i: int| turn <= i < path.len() ==> is_anchor_or_name(#[trigger] path[i])
        }),
{
    let from = anchors_and_names(base);
    let to = anchors_and_names(target);
    lemma_common_len_bounds(platform, from, to);
    lemma_anchors_and_names(target);
    let shared = common_len(platform, from, to) as int;
    let turn = from.len() - shared;
    let path = relative_segments(platform, target, base);
    assert forall|i: int| turn <= i < path.len() implies is_anchor_or_name(#[trigger] path[i]) by {
        assert(path[i] == to[i - turn + shared]);
    }
}

/// A sequence of prefixes, roots and names is all the relativizer looks at.
pub proof fn lemma_anchors_and_names_keeps_all(segments: Seq<Segment>)
    requires
        forall|i: int| 0 <= i < segments.len() ==> is_anchor_or_name(#[trigger] segments[i]),
    ensures
        anchors_and_names(segments) == segments,
    decreases segments.len(),
{
    if segments.len() > 0 {
        let init = segments.drop_last();
        assert forall|i: int| 0 <= i < init.len() implies is_anchor_or_name(#[trigger] init[i]) by {
            assert(init[i] == segments[i]);
        }
        lemma_anchors_and_names_keeps_all(init);
        assert(init.push(segments.last()) =~= segments);
    } else {
        assert(anchors_and_names(segments) =~= segments);
    }
}

/// On POSIX the shared components are equal.
pub proof fn lemma_posix_common_prefix(a: Seq<Segment>, b: Seq<Segment>)
    ensures
        a.take(common_len(Platform::Posix, a, b) as int) == b.take(
            common_len(Platform::Posix, a, b) as int,
        ),
    decreases a.len(),
{
    let posix = Platform::Posix;
    lemma_common_len_bounds(posix, a, b);
    let shared = common_len(posix, a, b) as int;
    if a.len() == 0 || b.len() == 0 || !same_segment(posix, a[0], b[0]) {
        assert(a.take(shared) =~= b.take(shared));
    } else {
        lemma_posix_common_prefix(a.skip(1), b.skip(1));
        lemma_common_len_bounds(posix, a.skip(1), b.skip(1));
        let x = a.take(shared);
        let y = b.take(shared);
        assert forall|i: int| 0 <= i < shared implies x[i] == y[i] by {
            if i > 0 {
                assert(a.skip(1).take(shared - 1)[i - 1] == a[i]);
                assert(b.skip(1).take(shared - 1)[i - 1] == b[i]);
            }
        }
        assert(x =~= y);
    }
}

/// Each climb removes one name from the end of a path that has enough of
/// them.
pub proof fn lemma_climbs_remove_names(kept: Seq<Segment>, n: nat)
    requires
        n <= kept.len(),
        forall|i: int| kept.len() - n <= i < kept.len() ==> #[trigger] kept[i] is Normal,
    ensures
        normalize_onto(kept, ups(n)) == kept.take(kept.len() - n),
    decreases n,
{
    if n == 0 {
        assert(kept.take(kept.len() as int) =~= kept);
    } else {
        assert(ups(n).drop_last() =~= ups((n - 1) as nat));
        lemma_climbs_remove_names(kept, (n - 1) as nat);
        let before = kept.take(kept.len() - n + 1);
        assert(before.last() == kept[kept.len() - n]);
        assert(before.drop_last() =~= kept.take(kept.len() - n));
    }
}

/// Names are kept as they come.
pub proof fn lemma_names_are_appended(kept: Seq<Segment>, names: Seq<Segment>)
    requires
        forall|i: int| 0 <= i < names.len() ==> #[trigger] names[i] is Normal,
    ensures
        normalize_onto(kept, names) == kept + names,
    decreases names.len(),
{
    if names.len() == 0 {
        assert(kept + names =~= kept);
    } else {
        let init = names.drop_last();
        assert forall|i: int| 0 <= i < init.len() implies #[trigger] init[i] is Normal by {
            assert(init[i] == names[i]);
        }
        lemma_names_are_appended(kept, init);
        assert((kept + init).push(names.last()) =~= kept + names);
    }
}

/// The place that a path names: its components once normalized.
pub open spec fn location(platform: Platform, s: Seq<char>) -> Seq<Segment> {
    normalized(spec_tokenize(platform, s))
}

/// Whether two texts name the same place.
pub open spec fn same_location(platform: Platform, a: Seq<char>, b: Seq<char>) -> bool {
    location(platform, a) == location(platform, b)
}

/// The components that lead from the place `base` to the place `target`.
pub open spec fn way(platform: Platform, target: Seq<char>, base: Seq<char>) -> Seq<Segment> {
    relative_segments(platform, location(platform, target), location(platform, base))
}

/// Whether the components that `target` and `base` share are written the
/// same in both. On POSIX they always are; on Windows they may differ in
/// case.
pub open spec fn shared_part_is_spelled_alike(
    platform: Platform,
    target: Seq<char>,
    base: Seq<char>,
) -> bool {
    let from = location(platform, base);
    let to = location(platform, target);
    let shared = common_len(platform, from, to) as int;
    from.take(shared) == to.take(shared)
}

/// An absolute path in normal form is its anchors, the last of them a
/// root, and names below them.
pub proof fn lemma_absolute_location(platform: Platform, s: Seq<char>)
    requires
        spec_is_absolute(platform, s),
    ensures
        ({
            let place = location(platform, s);
            let h = anchor_len(place);
            &&& is_well_shaped(platform, place)
            &&& is_normal_form(place)
            &&& h == (if platform == Platform::Windows {
                2int
            } else {
                1int
            })
            &&& place.len() >= h
            &&& place[h - 1] is RootDir
            &&& (platform == Platform::Windows ==> place[0] is Prefix)
            &&& forall|i: int| h <= i < place.len() ==> #[trigger] place[i] is Normal
            &&& forall|i: int| h <= i < place.len() ==> is_simple(platform, #[trigger] place[i])
            &&& anchors_and_names(place) == place
            &&& !reads_as_drive(platform, s)
            &&& shown(platform, place) == place
        }),
{
    let place = location(platform, s);
    lemma_normal_form_shape(platform, s);
    let head = head_segments(platform, s);
    let h = anchor_len(place);
    assert(place.take(h)[h - 1] == place[h - 1]);
    if platform == Platform::Windows {
        assert(place.take(h)[0] == place[0]);
    }
    assert forall|i: int| h <= i < place.len() implies #[trigger] place[i] is Normal
        && is_simple(platform, place[i]) by {
        lemma_names_below_root(platform, place, i);
    }
    assert forall|i: int| 0 <= i < place.len() implies is_anchor_or_name(#[trigger] place[i]) by {
        if i < h {
            assert(place.take(h)[i] == place[i]);
        }
    }
    lemma_anchors_and_names_keeps_all(place);
}

/// The path between two absolute paths is the rendering of the way
/// between their places, whatever the working directory.
pub proof fn lemma_relative_of_absolutes(
    platform: Platform,
    target: Seq<char>,
    base: Seq<char>,
    cwd: Seq<char>,
)
    requires
        spec_is_absolute(platform, target),
        spec_is_absolute(platform, base),
    ensures
        spec_relative(platform, target, base, cwd) == spec_render(
            platform,
            way(platform, target, base),
        ),
{
    lemma_absolute_location(platform, target);
    lemma_absolute_location(platform, base);
    lemma_tokens_of_normal(platform, target);
    lemma_tokens_of_normal(platform, base);
    assert(spec_absolutize(platform, target, cwd, cwd) == spec_normalize(platform, target));
    assert(spec_absolutize(platform, base, cwd, cwd) == spec_normalize(platform, base));
}

/// The prefix in force is that of the last part of a sequence that starts
/// with a prefix.
pub proof fn lemma_volume_restarts(before: Seq<Segment>, after: Seq<Segment>)
    requires
        after.len() > 0,
        after[0] is Prefix,
    ensures
        volume_text(before + after) == volume_text(after),
    decreases after.len(),
{
    assert((before + after).last() == after.last());
    assert((before + after).drop_last() =~= before + after.drop_last());
    if after.len() > 1 {
        assert(after.drop_last()[0] == after[0]);
        lemma_volume_restarts(before, after.drop_last());
    }
}

/// Rendering starts afresh at a prefix.
pub proof fn lemma_render_restarts(platform: Platform, before: Seq<Segment>, after: Seq<Segment>)
    requires
        after.len() > 0,
        after[0] is Prefix,
    ensures
        spec_render(platform, before + after) == spec_render(platform, after),
    decreases after.len(),
{
    assert((before + after).last() == after.last());
    assert((before + after).drop_last() =~= before + after.drop_last());
    if after.len() > 1 {
        let init = after.drop_last();
        assert(init[0] == after[0]);
        lemma_render_restarts(platform, before, init);
        lemma_volume_restarts(before, init);
        assert((before + init).last() == init.last());
    }
}

/// Appending to an absolute path, at a separator, leaves its prefix and
/// root as they are and adds the components of what is appended.
pub proof fn lemma_tokens_of_joined(platform: Platform, base: Seq<char>, link: Seq<char>)
    requires
        spec_is_absolute(platform, base),
        link.len() > 0,
        platform.spec_is_separator(base.last()) || platform.spec_is_separator(link[0]),
    ensures
        spec_tokenize(platform, base + link) == spec_tokenize(platform, base) + body_segments(
            platform,
            link,
        ),
{
    let k = prefix_len(platform, base) as int;
    let joined = base + link;
    lemma_prefix_len_bounds(platform, base);
    if platform == Platform::Windows {
        assert(joined[0] == base[0] && joined[1] == base[1]);
        if has_drive(base) {
            assert(joined.take(2) =~= base.take(2));
            assert(joined[2] == base[2]);
        } else {
            let windows = Platform::Windows;
            let sl = server_len(base);
            let hl = share_len(base);
            lemma_name_len_bounds(windows, base.skip(2));
            lemma_name_len_bounds(windows, base.skip(3 + sl));
            assert(joined.skip(2) =~= base.skip(2) + link);
            lemma_name_len_inside(windows, base.skip(2), link);
            assert(joined.skip(3 + sl) =~= base.skip(3 + sl) + link);
            if hl < base.len() - 3 - sl {
                lemma_name_len_inside(windows, base.skip(3 + sl), link);
            } else {
                assert(base.last() == base.skip(3 + sl)[hl - 1]);
                lemma_name_len_at_end(windows, base.skip(3 + sl), link);
            }
            assert(server_len(joined) == sl);
            assert(share_len(joined) == hl);
            assert(joined.subrange(2, 2 + sl) =~= base.subrange(2, 2 + sl));
            assert(joined.subrange(3 + sl, 3 + sl + hl) =~= base.subrange(
                3 + sl,
                3 + sl + hl,
            ));
            if k < base.len() {
                assert(joined[k] == base[k]);
            } else {
                assert(joined[k] == link[0]);
            }
        }
    } else {
        assert(joined[0] == base[0]);
    }
    assert(prefix_len(platform, joined) == k);
    assert(head_segments(platform, joined) =~= head_segments(platform, base));
    let rest = base.skip(k);
    assert(joined.skip(k) =~= rest + link);
    if rest.len() > 0 {
        assert(rest.last() == base.last());
    }
    lemma_body_concat(platform, rest, link);
    assert(spec_tokenize(platform, joined) =~= spec_tokenize(platform, base) + body_segments(
        platform,
        link,
    ));
}

/// Walking the way from `from` to `to`, starting at `from`, ends at `to`:
/// the climbs remove what `from` does not share, and the rest of `to` is
/// appended.
pub proof fn lemma_way_leads_there(from: Seq<Segment>, to: Seq<Segment>, shared: int, h: int)
    requires
        1 <= h <= shared <= from.len(),
        shared <= to.len(),
        from.take(shared) == to.take(shared),
        forall|i: int| h <= i < from.len() ==> #[trigger] from[i] is Normal,
        forall|i: int| h <= i < to.len() ==> #[trigger] to[i] is Normal,
    ensures
        normalize_onto(from, ups((from.len() - shared) as nat) + to.skip(shared)) == to,
{
    let up_len = (from.len() - shared) as nat;
    let downs = to.skip(shared);
    lemma_normalize_onto_concat(from, ups(up_len), downs);
    lemma_climbs_remove_names(from, up_len);
    lemma_names_are_appended(from.take(shared), downs);
    assert(to.take(shared) + to.skip(shared) =~= to);
}

/// Two absolute places share their anchors or nothing.
pub proof fn lemma_shared_anchors(platform: Platform, target: Seq<char>, base: Seq<char>)
    requires
        spec_is_absolute(platform, target),
        spec_is_absolute(platform, base),
    ensures
        ({
            let from = location(platform, base);
            let to = location(platform, target);
            let shared = common_len(platform, from, to);
            &&& shared <= from.len()
            &&& shared <= to.len()
            &&& (shared == 0 || shared >= anchor_len(from))
            &&& (platform == Platform::Posix ==> shared >= 1)
            &&& (from == to ==> shared == from.len())
        }),
{
    let from = location(platform, base);
    let to = location(platform, target);
    lemma_absolute_location(platform, target);
    lemma_absolute_location(platform, base);
    lemma_common_len_bounds(platform, from, to);
    if from == to {
        lemma_common_len_reflexive(platform, from);
    }
    if same_segment(platform, from[0], to[0]) {
        if platform == Platform::Windows {
            assert(from.skip(1)[0] == from[1]);
            assert(to.skip(1)[0] == to[1]);
            assert(same_segment(platform, from[1], to[1]));
            assert(common_len(platform, from.skip(1), to.skip(1)) >= 1);
        }
    }
}

/// **The way there leads there.** For absolute `base` and `target`,
/// resolving the path from `base` to `target` against `base` gives the
/// normal form of `target`.
///
/// Three kinds of input are left out, on each of which the two sides
/// differ. A relative path never ends in a separator, so one that `target`
/// ends in is lost on the way; where both name the same place the relative
/// path is empty and the end of `base` shows instead. On Windows the
/// shared components are compared without regard to case, and come back as
/// `base` spells them. And on Windows a way down that starts with a name
/// like `C:` is read as a path on that drive.
pub proof fn law_relative_round_trip(
    platform: Platform,
    target: Seq<char>,
    base: Seq<char>,
    cwd: Seq<char>,
)
    requires
        spec_is_absolute(platform, target),
        spec_is_absolute(platform, base),
        keeps_trailing_separator(platform, target) == (same_location(platform, target, base)
            && keeps_trailing_separator(platform, base)),
        platform == Platform::Windows ==> shared_part_is_spelled_alike(platform, target, base),
        platform == Platform::Windows && common_len(
            platform,
            location(platform, base),
            location(platform, target),
        ) > 0 ==> !has_drive(spec_relative(platform, target, base, cwd)),
    ensures
        spec_absolutize(platform, spec_relative(platform, target, base, cwd), base, cwd)
            == spec_normalize(platform, target),
{
    let from = location(platform, base);
    let to = location(platform, target);
    let shared = common_len(platform, from, to) as int;
    let steps = way(platform, target, base);
    let rel = spec_render(platform, steps);
    lemma_absolute_location(platform, target);
    lemma_absolute_location(platform, base);
    lemma_relative_of_absolutes(platform, target, base, cwd);
    lemma_shared_anchors(platform, target, base);
    if platform == Platform::Posix {
        lemma_posix_common_prefix(from, to);
    }
    if shared == 0 {
        lemma_round_trip_to_another_volume(platform, target, base);
    } else if steps.len() == 0 {
        assert(from.take(shared) =~= from);
        assert(to.take(shared) =~= to);
        assert(spec_join(platform, base, rel) == base);
    } else {
        lemma_round_trip_below_shared_anchors(platform, target, base);
    }
}

/// The round trip where the two places share nothing: the way starts
/// afresh at the prefix of `target`.
pub proof fn lemma_round_trip_to_another_volume(
    platform: Platform,
    target: Seq<char>,
    base: Seq<char>,
)
    requires
        spec_is_absolute(platform, target),
        spec_is_absolute(platform, base),
        common_len(platform, location(platform, base), location(platform, target)) == 0,
        !keeps_trailing_separator(platform, target),
    ensures
        spec_resolve(platform, spec_render(platform, way(platform, target, base)), base)
            == spec_normalize(platform, target),
{
    let from = location(platform, base);
    let to = location(platform, target);
    let steps = way(platform, target, base);
    lemma_absolute_location(platform, target);
    lemma_absolute_location(platform, base);
    lemma_shared_anchors(platform, target, base);
    assert(to.skip(0) =~= to);
    lemma_render_restarts(platform, ups(from.len()), to);
    let rel = spec_render(platform, steps);
    assert(rel == spec_render(platform, to));
    assert(rel =~= rel + trailing_text(platform, false));
    lemma_round_trip(platform, to, false);
    lemma_normal_form_is_fixed(to);
    let k = prefix_len(platform, rel) as int;
    let head = head_segments(platform, rel);
    let body = body_segments(platform, rel.skip(k));
    lemma_body_is_simple(platform, rel.skip(k));
    assert(head + body == to);
    assert(head.len() >= 2) by {
        if head.len() < 2 {
            assert(is_simple(platform, body[1 - head.len()]));
            assert((head + body)[1] == body[1 - head.len()]);
        }
    }
    assert(spec_is_absolute(platform, rel));
    if to.last() is Normal {
        lemma_render_ends_in_name(platform, to);
    }
}

/// The round trip where the two places share their anchors and differ
/// below them.
pub proof fn lemma_round_trip_below_shared_anchors(
    platform: Platform,
    target: Seq<char>,
    base: Seq<char>,
)
    requires
        spec_is_absolute(platform, target),
        spec_is_absolute(platform, base),
        common_len(platform, location(platform, base), location(platform, target)) > 0,
        way(platform, target, base).len() > 0,
        shared_part_is_spelled_alike(platform, target, base),
        !keeps_trailing_separator(platform, target),
        platform == Platform::Windows ==> !has_drive(
            spec_render(platform, way(platform, target, base)),
        ),
    ensures
        spec_resolve(platform, spec_render(platform, way(platform, target, base)), base)
            == spec_normalize(platform, target),
{
    let from = location(platform, base);
    let to = location(platform, target);
    let shared = common_len(platform, from, to) as int;
    let steps = way(platform, target, base);
    let rel = spec_render(platform, steps);
    let h = anchor_len(from);
    lemma_absolute_location(platform, target);
    lemma_absolute_location(platform, base);
    lemma_shared_anchors(platform, target, base);
    let up_len = (from.len() - shared) as nat;
    let downs = to.skip(shared);
    assert(steps == ups(up_len) + downs);
    assert(all_simple(platform, steps));
    lemma_render_simple_ends(platform, steps);
    lemma_body_of_render(platform, steps);
    assert(prefix_len(platform, rel) == 0);
    assert(!has_root(platform, rel));
    lemma_prefix_len_bounds(platform, base);
    let joined = spec_join(platform, base, rel);
    let link = if platform.spec_is_separator(base.last()) {
        rel
    } else {
        seq![platform.spec_main_separator()] + rel
    };
    assert(joined =~= base + link);
    assert(body_segments(platform, link) == steps) by {
        if !platform.spec_is_separator(base.last()) {
            assert(link.skip(1) =~= rel);
        }
    }
    lemma_tokens_of_joined(platform, base, link);
    lemma_normalized_concat(spec_tokenize(platform, base), steps);
    lemma_way_leads_there(from, to, shared, h);
    assert(normalized(spec_tokenize(platform, joined)) == to);
    assert(joined.last() == rel.last());
    assert(!ends_with_separator(platform, joined));
}

} // verus!
