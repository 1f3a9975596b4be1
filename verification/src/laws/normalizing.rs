//! Laws of the normalizer.

use crate::component::Segment;
use crate::normalize::{
    is_normal_form, lemma_normal_form_is_fixed, lemma_normalized_concat,
    lemma_normalized_is_normal_form, lemma_normalized_push, normalize_onto, normalized,
    spec_display, spec_normalize,
};
use crate::platform::Platform;
use crate::relative::ups;
use crate::render::{plain_text, spec_render};
use crate::roundtrip::{
    anchor_len, is_prefix_text, is_well_shaped, lemma_names_round_trip, lemma_render_after_head,
    lemma_render_anchors, lemma_render_push_simple, lemma_render_simple_ends, lemma_round_trip,
    trailing_text,
};
use crate::shape::lemma_normal_form_shape;
use crate::splitting::{
    all_simple, is_separator_free, is_simple, is_valid_name, lemma_body_concat, lemma_body_of_run,
    lemma_body_of_separator,
};
use crate::tokenize::{
    body_segments, classify, ends_with_separator, has_drive, head_segments, prefix_len,
    spec_tokenize,
};
use vstd::prelude::*;

verus! {


/// **The normalizer is idempotent.** Normalizing a component sequence that
/// is already normalized changes nothing, whatever the sequence holds.
pub proof fn law_normalizer_idempotent(segments: Seq<Segment>)
    ensures
        normalized(normalized(segments)) == normalized(segments),
{
    lemma_normalized_is_normal_form(segments);
    lemma_normal_form_is_fixed(normalized(segments));
}

/// Whether normalizing `s` keeps a separator at its end: `s` ends in one
/// and the last component kept is a name.
pub open spec fn keeps_trailing_separator(platform: Platform, s: Seq<char>) -> bool {
    let kept = normalized(spec_tokenize(platform, s));
    ends_with_separator(platform, s) && kept.len() > 0 && kept.last() is Normal
}

/// Whether the normal form of `s` is a relative Windows path whose text
/// starts like a drive designator, as that of `a/../C:` does: read again,
/// its first two characters are taken for a prefix.
pub open spec fn reads_as_drive(platform: Platform, s: Seq<char>) -> bool {
    &&& platform == Platform::Windows
    &&& anchor_len(normalized(spec_tokenize(platform, s))) == 0
    &&& has_drive(spec_normalize(platform, s))
}

/// The components that the text of a normal form spells: the normal form
/// itself, with the `.` that is written after a bare prefix.
pub open spec fn shown(platform: Platform, kept: Seq<Segment>) -> Seq<Segment> {
    if platform == Platform::Windows && kept.len() == 1 && kept[0] is Prefix {
        kept.push(Segment::CurDir)
    } else {
        kept
    }
}

/// The rendering of a well-shaped path that ends in a name does not end in
/// a separator.
pub proof fn lemma_render_ends_in_name(platform: Platform, segments: Seq<Segment>)
    requires
        is_well_shaped(platform, segments),
        segments.len() > 0,
        segments.last() is Normal,
    ensures
        !ends_with_separator(platform, spec_render(platform, segments)),
{
    let h = anchor_len(segments);
    let names = segments.skip(h);
    let anchors = segments.take(h);
    assert(anchors + names =~= segments);
    assert(names.len() > 0);
    assert(names.last() == segments.last());
    lemma_render_simple_ends(platform, names);
    if h > 0 {
        lemma_render_anchors(platform, segments);
        lemma_render_after_head(platform, anchors, names);
    } else {
        assert(names =~= segments);
    }
}

/// The text of a normal form that is not empty is read back as the
/// components it shows.
pub proof fn lemma_tokens_of_normal(platform: Platform, s: Seq<char>)
    requires
        normalized(spec_tokenize(platform, s)).len() > 0,
        !reads_as_drive(platform, s),
    ensures
        spec_tokenize(platform, spec_normalize(platform, s)) == shown(
            platform,
            normalized(spec_tokenize(platform, s)),
        ),
{
    let kept = normalized(spec_tokenize(platform, s));
    let keeps = keeps_trailing_separator(platform, s);
    let separator = platform.spec_main_separator();
    lemma_normal_form_shape(platform, s);
    if platform == Platform::Windows && kept.len() == 1 && kept[0] is Prefix {
        let spelled = kept.push(Segment::CurDir);
        assert(anchor_len(spelled) == 1);
        assert(spelled.skip(1) =~= seq![Segment::CurDir]);
        assert(is_well_shaped(platform, spelled));
        lemma_round_trip(platform, spelled, false);
        let rendered = spec_render(platform, spelled);
        assert(rendered =~= rendered + trailing_text(platform, false));
    } else {
        let rendered = spec_render(platform, kept);
        if keeps {
            assert(rendered.push(separator) =~= rendered + trailing_text(platform, keeps));
        } else {
            assert(rendered =~= rendered + trailing_text(platform, keeps));
        }
        lemma_round_trip(platform, kept, keeps);
    }
}

/// Normalizing is idempotent where the normal form is read back as the
/// components it shows.
pub proof fn lemma_idempotent_as_read(platform: Platform, s: Seq<char>)
    requires
        !reads_as_drive(platform, s),
    ensures
        spec_normalize(platform, spec_normalize(platform, s)) == spec_normalize(platform, s),
{
    let kept = normalized(spec_tokenize(platform, s));
    lemma_normal_form_shape(platform, s);
    lemma_normal_form_is_fixed(kept);
    if kept.len() == 0 {
        lemma_normalize_dot(platform);
    } else {
        lemma_tokens_of_normal(platform, s);
        if platform == Platform::Windows && kept.len() == 1 && kept[0] is Prefix {
            lemma_normalized_push(kept, Segment::CurDir);
        } else {
            let keeps = keeps_trailing_separator(platform, s);
            if !keeps && kept.last() is Normal {
                lemma_render_ends_in_name(platform, kept);
            }
        }
    }
}

/// Simple components that follow other simple components are rendered
/// after them and a separator.
pub proof fn lemma_render_joined(platform: Platform, a: Seq<Segment>, b: Seq<Segment>)
    requires
        all_simple(platform, a),
        all_simple(platform, b),
        a.len() > 0,
        b.len() > 0,
    ensures
        spec_render(platform, a + b) == spec_render(platform, a).push(
            platform.spec_main_separator(),
        ) + spec_render(platform, b),
    decreases b.len(),
{
    let separator = platform.spec_main_separator();
    let init = b.drop_last();
    let last = b.last();
    assert(init.push(last) =~= b);
    assert((a + init).push(last) =~= a + b);
    lemma_render_push_simple(platform, a + init, last);
    lemma_render_push_simple(platform, init, last);
    if init.len() == 0 {
        assert(a + init =~= a);
        assert(is_simple(platform, a.last()));
        assert(spec_render(platform, init) + plain_text(last) =~= plain_text(last));
    } else {
        assert(is_simple(platform, init.last()));
        assert((a + init).last() == init.last());
        lemma_render_joined(platform, a, init);
        assert((spec_render(platform, a).push(separator) + spec_render(platform, init)).push(
            separator,
        ) + plain_text(last) =~= spec_render(platform, a).push(separator) + (spec_render(
            platform,
            init,
        ).push(separator) + plain_text(last)));
    }
}

/// The rendering of simple components starts with the text of the first,
/// which a separator and the rendering of the others follow.
pub proof fn lemma_render_first(platform: Platform, names: Seq<Segment>)
    requires
        all_simple(platform, names),
        names.len() > 0,
    ensures
        spec_render(platform, names) == plain_text(names[0]) + (if names.len() > 1 {
            seq![platform.spec_main_separator()] + spec_render(platform, names.skip(1))
        } else {
            Seq::empty()
        }),
{
    let separator = platform.spec_main_separator();
    let first = seq![names[0]];
    let others = names.skip(1);
    let text = plain_text(names[0]);
    assert(first + others =~= names);
    assert(is_simple(platform, names[0]));
    assert(Seq::<Segment>::empty().push(names[0]) =~= first);
    lemma_render_push_simple(platform, Seq::empty(), names[0]);
    assert(spec_render(platform, first) =~= text);
    if names.len() == 1 {
        assert(names =~= first);
        assert(text + Seq::<char>::empty() =~= text);
    } else {
        assert(all_simple(platform, others)) by {
            assert forall|i: int| 0 <= i < others.len() implies is_simple(
                platform,
                #[trigger] others[i],
            ) by {
                assert(others[i] == names[i + 1]);
            }
        }
        lemma_render_joined(platform, first, others);
        assert(text.push(separator) + spec_render(platform, others) =~= text + (seq![
            separator,
        ] + spec_render(platform, others)));
    }
}

/// Whether the normal form of `s` is one of the relative Windows paths
/// that change when they are normalized again. Each starts with a name
/// like `C:`, which is read as a drive when the text is read again:
///
/// - `C:` alone, as `a/../C:` gives it, is read as a bare prefix and shown
///   as `C:.`;
/// - `C:.` before a separator, as `a/../C:./b` gives it, loses its `.`;
/// - `C:..` before a final separator, as `a/../C:../` gives it, loses the
///   separator, which is kept after a name only.
pub open spec fn is_misread(platform: Platform, s: Seq<char>) -> bool {
    let kept = normalized(spec_tokenize(platform, s));
    let keeps = keeps_trailing_separator(platform, s);
    reads_as_drive(platform, s) && kept.len() > 0 && kept[0] is Normal && ({
        let rest = (kept[0]->Normal_0).skip(2);
        ||| (rest.len() == 0 && kept.len() == 1 && !keeps)
        ||| (rest == seq!['.'] && (kept.len() > 1 || keeps))
        ||| (rest == seq!['.', '.'] && kept.len() == 1 && keeps)
    })
}

/// What a relative Windows path whose first name starts like a drive
/// designator is read as: the designator as a prefix, a root where a
/// separator follows it directly, the rest of the name as a component of
/// its own, and the other names.
pub proof fn lemma_reread_as_drive(names: Seq<Segment>, keeps: bool)
    requires
        names.len() > 0,
        forall|i: int| 0 <= i < names.len() ==> #[trigger] names[i] is Normal,
        all_simple(Platform::Windows, names),
        has_drive(names[0]->Normal_0),
    ensures
        ({
            let windows = Platform::Windows;
            let text = spec_render(windows, names) + trailing_text(windows, keeps);
            let name = names[0]->Normal_0;
            let rest = name.skip(2);
            let prefix = seq![Segment::Prefix(name.take(2))];
            let root = if rest.len() == 0 && (names.len() > 1 || keeps) {
                seq![Segment::RootDir]
            } else {
                Seq::empty()
            };
            let part = if rest.len() > 0 {
                seq![classify(rest)]
            } else {
                Seq::empty()
            };
            &&& spec_tokenize(windows, text) == prefix + root + part + names.skip(1)
            &&& is_separator_free(windows, rest)
            &&& is_prefix_text(name.take(2))
            &&& has_drive(name.take(2))
            &&& ends_with_separator(windows, text) == keeps
        }),
{
    let windows = Platform::Windows;
    let separator = windows.spec_main_separator();
    let tail = trailing_text(windows, keeps);
    let rendered = spec_render(windows, names);
    let text = rendered + tail;
    let name = names[0]->Normal_0;
    let rest = name.skip(2);
    let others = names.skip(1);
    assert(is_simple(windows, names[0]));
    lemma_render_first(windows, names);
    lemma_render_simple_ends(windows, names);
    assert(all_simple(windows, others)) by {
        assert forall|i: int| 0 <= i < others.len() implies is_simple(
            windows,
            #[trigger] others[i],
        ) by {
            assert(others[i] == names[i + 1]);
        }
    }
    let beyond = if names.len() > 1 {
        seq![separator] + (spec_render(windows, others) + tail)
    } else {
        tail
    };
    assert(text =~= name + beyond);
    assert(body_segments(windows, beyond) == others) by {
        if names.len() > 1 {
            lemma_names_round_trip(windows, others, keeps);
            assert(beyond.skip(1) =~= spec_render(windows, others) + tail);
        } else {
            assert(others =~= Seq::<Segment>::empty());
            if keeps {
                lemma_body_of_separator(windows, separator);
            }
        }
    }
    assert(text[0] == name[0] && text[1] == name[1]);
    assert(has_drive(text));
    assert(text.take(2) =~= name.take(2));
    assert(name.take(2).take(2) =~= name.take(2));
    assert(text.skip(2) =~= rest + beyond);
    assert forall|i: int| 0 <= i < rest.len() implies !windows.spec_is_separator(
        #[trigger] rest[i],
    ) by {
        assert(rest[i] == name[i + 2]);
    }
    lemma_body_concat(windows, rest, beyond);
    if rest.len() > 0 {
        lemma_body_of_run(windows, rest);
        assert(text[2] == rest[0]);
    } else {
        assert(body_segments(windows, rest) =~= Seq::<Segment>::empty());
        if beyond.len() > 0 {
            assert(text[2] == beyond[0]);
        }
    }
    let prefix = seq![Segment::Prefix(name.take(2))];
    let root = if rest.len() == 0 && (names.len() > 1 || keeps) {
        seq![Segment::RootDir]
    } else {
        Seq::empty()
    };
    let part = if rest.len() > 0 {
        seq![classify(rest)]
    } else {
        Seq::empty()
    };
    assert(head_segments(windows, text) =~= prefix + root);
    assert(spec_tokenize(windows, text) =~= prefix + root + part + others);
    if keeps {
        assert(text.last() == separator);
    } else {
        assert(text =~= rendered);
    }
}

/// **Normalizing is idempotent.** The normal form of a path is its own
/// normal form, as text.
///
/// On POSIX this holds of every path. On Windows it holds of every path
/// but those whose normal form is misread: see [`is_misread`].
pub proof fn law_normalize_idempotent(platform: Platform, s: Seq<char>)
    requires
        !is_misread(platform, s),
    ensures
        spec_normalize(platform, spec_normalize(platform, s)) == spec_normalize(platform, s),
{
    if !reads_as_drive(platform, s) {
        lemma_idempotent_as_read(platform, s);
    } else {
        lemma_idempotent_reread(s);
    }
}

/// Normalizing is idempotent where the normal form is read back with a
/// drive prefix that it was not written with, and is not misread.
pub proof fn lemma_idempotent_reread(s: Seq<char>)
    requires
        reads_as_drive(Platform::Windows, s),
        !is_misread(Platform::Windows, s),
    ensures
        spec_normalize(Platform::Windows, spec_normalize(Platform::Windows, s)) == spec_normalize(
            Platform::Windows,
            s,
        ),
{
    let windows = Platform::Windows;
    let separator = windows.spec_main_separator();
    let kept = normalized(spec_tokenize(windows, s));
    let once = spec_normalize(windows, s);
    lemma_normal_form_shape(windows, s);
    assert(kept.skip(0) =~= kept);
    assert(kept.len() > 0) by {
        if kept.len() == 0 {
            assert(once =~= seq!['.']);
        }
    }
    lemma_render_simple_ends(windows, kept);
    assert forall|i: int| 0 <= i < kept.len() implies #[trigger] kept[i] is Normal by {
        lemma_all_names(windows, kept, i);
    }
    let keeps = ends_with_separator(windows, s);
    let rendered = spec_render(windows, kept);
    assert(once == rendered + trailing_text(windows, keeps)) by {
        if keeps {
            assert(rendered.push(separator) =~= rendered + trailing_text(windows, keeps));
        } else {
            assert(rendered =~= rendered + trailing_text(windows, keeps));
        }
    }
    assert(is_simple(windows, kept[0]));
    let name = kept[0]->Normal_0;
    assert(has_drive(name)) by {
        lemma_render_first(windows, kept);
        assert(once[0] == name[0]);
        if name.len() < 2 {
            if kept.len() > 1 {
                assert(once[1] == separator);
            } else if keeps {
                assert(once[1] == separator);
            }
        } else {
            assert(once[1] == name[1]);
        }
    }
    lemma_reread_as_drive(kept, keeps);
    lemma_idempotent_reread_cases(kept, keeps);
}

/// In a relative path in normal form that starts with a name, all
/// components are names.
pub proof fn lemma_all_names(platform: Platform, segments: Seq<Segment>, i: int)
    requires
        all_simple(platform, segments),
        is_normal_form(segments),
        segments.len() > 0,
        !(segments[0] is ParentDir),
        0 <= i < segments.len(),
    ensures
        segments[i] is Normal,
    decreases i,
{
    assert(is_simple(platform, segments[i]));
    if i > 0 {
        lemma_all_names(platform, segments, i - 1);
    }
}

/// The text that the reread components are shown as is the text they were
/// read from.
pub proof fn lemma_idempotent_reread_cases(names: Seq<Segment>, keeps: bool)
    requires
        names.len() > 0,
        forall|i: int| 0 <= i < names.len() ==> #[trigger] names[i] is Normal,
        all_simple(Platform::Windows, names),
        has_drive(names[0]->Normal_0),
        ({
            let rest = (names[0]->Normal_0).skip(2);
            &&& !(rest.len() == 0 && names.len() == 1 && !keeps)
            &&& !(rest == seq!['.'] && (names.len() > 1 || keeps))
            &&& !(rest == seq!['.', '.'] && names.len() == 1 && keeps)
        }),
    ensures
        ({
            let windows = Platform::Windows;
            let text = spec_render(windows, names) + trailing_text(windows, keeps);
            spec_display(windows, normalized(spec_tokenize(windows, text)), keeps) == text
        }),
{
    let windows = Platform::Windows;
    let separator = windows.spec_main_separator();
    let tail = trailing_text(windows, keeps);
    let rendered = spec_render(windows, names);
    let text = rendered + tail;
    let name = names[0]->Normal_0;
    let rest = name.skip(2);
    let others = names.skip(1);
    let drive = Segment::Prefix(name.take(2));
    lemma_reread_as_drive(names, keeps);
    lemma_render_first(windows, names);
    assert(is_simple(windows, names[0]));
    assert(name.take(2) + rest =~= name);
    assert(all_simple(windows, others)) by {
        assert forall|i: int| 0 <= i < others.len() implies is_simple(
            windows,
            #[trigger] others[i],
        ) by {
            assert(others[i] == names[i + 1]);
        }
    }
    let tokens = spec_tokenize(windows, text);
    if rest.len() == 0 {
        let anchors = seq![drive, Segment::RootDir];
        assert(tokens =~= anchors + others);
        lemma_reread_shape(tokens, 2);
        lemma_normal_form_is_fixed(tokens);
        assert(tokens.take(2) =~= anchors);
        assert(tokens.skip(2) =~= others);
        lemma_render_anchors(windows, tokens);
        lemma_render_after_head(windows, anchors, others);
        if others.len() > 0 {
            assert(tokens.last() == others.last());
            assert(spec_display(windows, tokens, keeps) =~= text);
        } else {
            assert(spec_display(windows, tokens, keeps) =~= text);
        }
    } else if rest == seq!['.'] {
        assert(classify(rest) == Segment::CurDir);
        assert(others =~= Seq::<Segment>::empty());
        assert(tokens =~= seq![drive, Segment::CurDir]);
        assert(tokens.drop_last() =~= seq![drive]);
        assert(seq![drive].drop_last() =~= Seq::<Segment>::empty());
        assert(normalized(seq![drive].drop_last()) =~= Seq::<Segment>::empty());
        assert(normalized(seq![drive]) =~= seq![drive]);
        assert(normalized(tokens) =~= seq![drive]);
        assert(seq![drive].push(Segment::CurDir) =~= tokens);
        lemma_reread_shape(tokens, 1);
        assert(tokens.take(1) =~= seq![drive]);
        assert(tokens.skip(1) =~= seq![Segment::CurDir]);
        lemma_render_anchors(windows, tokens);
        lemma_render_after_head(windows, seq![drive], seq![Segment::CurDir]);
        lemma_render_first(windows, seq![Segment::CurDir]);
        assert(spec_display(windows, seq![drive], keeps) =~= text);
    } else {
        let part = classify(rest);
        let below = seq![part] + others;
        assert(tokens =~= seq![drive] + below);
        assert(is_simple(windows, part)) by {
            if rest != seq!['.', '.'] {
                assert(is_valid_name(windows, rest));
            }
        }
        assert(all_simple(windows, below)) by {
            assert forall|i: int| 0 <= i < below.len() implies is_simple(
                windows,
                #[trigger] below[i],
            ) by {
                if i > 0 {
                    assert(below[i] == others[i - 1]);
                }
            }
        }
        lemma_reread_shape(tokens, 1);
        lemma_normal_form_is_fixed(tokens);
        assert(tokens.take(1) =~= seq![drive]);
        assert(tokens.skip(1) =~= below);
        lemma_render_anchors(windows, tokens);
        lemma_render_after_head(windows, seq![drive], below);
        lemma_render_first(windows, below);
        assert(below.skip(1) =~= others);
        assert(plain_text(part) =~= rest) by {
            if rest == seq!['.', '.'] {
                assert(part == Segment::ParentDir);
            }
        }
        assert(spec_render(windows, tokens) =~= rendered);
        if others.len() > 0 {
            assert(tokens.last() == others.last());
        }
        assert(spec_display(windows, tokens, keeps) =~= text);
    }
}

/// A drive, a root or not, and names or one `..` and names below them are
/// well-shaped and in normal form.
pub proof fn lemma_reread_shape(tokens: Seq<Segment>, h: int)
    requires
        tokens.len() >= h,
        h == 1 || h == 2,
        tokens[0] is Prefix,
        h == 2 ==> tokens[1] is RootDir,
        is_prefix_text(tokens[0]->Prefix_0),
        has_drive(tokens[0]->Prefix_0),
        all_simple(Platform::Windows, tokens.skip(h)),
        forall|i: int| h < i < tokens.len() ==> #[trigger] tokens[i] is Normal,
        tokens.len() > h ==> !(tokens[h] is CurDir) || tokens.len() == h + 1,
        h == 2 && tokens.len() > h ==> tokens[h] is Normal,
    ensures
        anchor_len(tokens) == h,
        is_well_shaped(Platform::Windows, tokens),
        tokens.len() > h && !(tokens[h] is CurDir) ==> is_normal_form(tokens),
        tokens.len() == h ==> is_normal_form(tokens),
{
    if tokens.len() > h {
        assert(tokens.skip(h)[0] == tokens[h]);
        assert(is_simple(Platform::Windows, tokens[h]));
    }
}

/// The text `.` normalizes to itself.
pub proof fn lemma_normalize_dot(platform: Platform)
    ensures
        spec_normalize(platform, seq!['.']) == seq!['.'],
{
    let dot = seq!['.'];
    assert(!platform.spec_is_separator(dot[0]));
    assert(is_separator_free(platform, dot));
    lemma_body_of_run(platform, dot);
    assert(prefix_len(platform, dot) == 0);
    assert(dot.skip(0) =~= dot);
    assert(head_segments(platform, dot) =~= Seq::<Segment>::empty());
    let tokens = spec_tokenize(platform, dot);
    assert(tokens =~= seq![Segment::CurDir]);
    assert(tokens.drop_last() =~= Seq::<Segment>::empty());
    assert(normalized(tokens.drop_last()) =~= Seq::<Segment>::empty());
    assert(normalized(tokens) =~= Seq::<Segment>::empty());
}

/// **The empty path is the current directory**: it normalizes to `.`, on
/// either platform.
pub proof fn law_normalize_empty(platform: Platform)
    ensures
        spec_normalize(platform, Seq::empty()) == seq!['.'],
{
    let empty = Seq::<char>::empty();
    assert(prefix_len(platform, empty) == 0);
    assert(empty.skip(0) =~= empty);
    assert(spec_tokenize(platform, empty) =~= Seq::<Segment>::empty());
}

/// The text `../` written `n` times.
pub open spec fn climbs(n: nat) -> Seq<char>
    decreases n,
{
    if n == 0 {
        Seq::empty()
    } else {
        seq!['.', '.', '/'] + climbs((n - 1) as nat)
    }
}

/// The components of `n` climbs followed by a name.
pub proof fn lemma_body_of_climbs(platform: Platform, n: nat, name: Seq<char>)
    requires
        is_valid_name(platform, name),
    ensures
        body_segments(platform, climbs(n) + name) == ups(n).push(Segment::Normal(name)),
    decreases n,
{
    if n == 0 {
        assert(climbs(n) + name =~= name);
        lemma_body_of_run(platform, name);
        assert(ups(n).push(Segment::Normal(name)) =~= seq![Segment::Normal(name)]);
    } else {
        let rest = climbs((n - 1) as nat) + name;
        let dots = seq!['.', '.'];
        let tail = seq!['/'] + rest;
        assert(climbs(n) + name =~= dots + tail);
        assert(is_separator_free(platform, dots)) by {
            assert(!platform.spec_is_separator('.'));
        }
        lemma_body_of_run(platform, dots);
        lemma_body_concat(platform, dots, tail);
        assert(tail.skip(1) =~= rest);
        assert(body_segments(platform, tail) == body_segments(platform, rest));
        lemma_body_of_climbs(platform, (n - 1) as nat, name);
        assert(seq![Segment::ParentDir] + ups((n - 1) as nat).push(Segment::Normal(name))
            =~= ups(n).push(Segment::Normal(name)));
    }
}

/// Below a root, climbs lead nowhere.
pub proof fn lemma_climbs_stay_at_root(n: nat)
    ensures
        normalize_onto(seq![Segment::RootDir], ups(n)) == seq![Segment::RootDir],
    decreases n,
{
    if n > 0 {
        assert(ups(n).drop_last() =~= ups((n - 1) as nat));
        lemma_climbs_stay_at_root((n - 1) as nat);
    }
}

/// **Climbing above the root saturates.** However many `../` follow the
/// root, the path normalizes to the root and the name after them.
pub proof fn law_root_climb_saturates(platform: Platform, n: nat, name: Seq<char>)
    requires
        is_valid_name(platform, name),
    ensures
        spec_normalize(platform, seq!['/'] + climbs(n) + name) == seq![
            platform.spec_main_separator(),
        ] + name,
{
    let text = seq!['/'] + climbs(n) + name;
    let rest = climbs(n) + name;
    let root = seq![Segment::RootDir];
    let named = Segment::Normal(name);
    assert(text =~= seq!['/'] + rest);
    assert(text[0] == '/');
    assert(!platform.spec_is_separator(text[1])) by {
        if n == 0 {
            assert(rest =~= name);
            assert(text[1] == name[0]);
        } else {
            assert(text[1] == climbs(n)[0]);
            assert(!platform.spec_is_separator('.'));
        }
    }
    assert(prefix_len(platform, text) == 0);
    assert(text.skip(0) =~= text);
    assert(text.skip(1) =~= rest);
    lemma_body_of_climbs(platform, n, name);
    let tokens = spec_tokenize(platform, text);
    assert(tokens =~= (root + ups(n)).push(named));
    assert(tokens.drop_last() =~= root + ups(n));
    lemma_normalized_concat(root, ups(n));
    assert(normalized(root) =~= root) by {
        assert(root.drop_last() =~= Seq::<Segment>::empty());
        assert(normalized(root.drop_last()) =~= Seq::<Segment>::empty());
    }
    lemma_climbs_stay_at_root(n);
    let kept = normalized(tokens);
    assert(kept =~= seq![Segment::RootDir, named]);
    assert(text.last() == name.last());
    assert(!ends_with_separator(platform, text));
    assert(kept.drop_last() =~= root);
    assert(root.drop_last() =~= Seq::<Segment>::empty());
    assert(spec_render(platform, root) =~= seq![platform.spec_main_separator()]);
    assert(spec_render(platform, kept) =~= seq![platform.spec_main_separator()] + name);
}

/// **What a normalized path looks like.** In the normal form of any path
/// a prefix comes first if there is one, a root comes first or directly
/// after the prefix, there is no `.`, and a `..` stands only at the start,
/// after the prefix or after another `..`: never after a name, which it
/// would cancel, nor after the root, where it would lead nowhere.
pub proof fn law_normal_form_invariants(platform: Platform, s: Seq<char>)
    ensures
        ({
            let kept = normalized(spec_tokenize(platform, s));
            forall|i: int|
                0 <= i < kept.len() ==> match #[trigger] kept[i] {
                    Segment::Prefix(_) => i == 0,
                    Segment::RootDir => i == 0 || (i == 1 && kept[0] is Prefix),
                    Segment::CurDir => false,
                    Segment::ParentDir => i == 0 || kept[i - 1] is Prefix || kept[i - 1]
                        is ParentDir,
                    Segment::Normal(_) => true,
                }
        }),
{
    let kept = normalized(spec_tokenize(platform, s));
    let h = anchor_len(kept);
    lemma_normal_form_shape(platform, s);
    assert forall|i: int| 0 <= i < kept.len() implies match #[trigger] kept[i] {
        Segment::Prefix(_) => i == 0,
        Segment::RootDir => i == 0 || (i == 1 && kept[0] is Prefix),
        Segment::CurDir => false,
        Segment::ParentDir => i == 0 || kept[i - 1] is Prefix || kept[i - 1] is ParentDir,
        Segment::Normal(_) => true,
    } by {
        if i >= h {
            assert(kept.skip(h)[i - h] == kept[i]);
            assert(is_simple(platform, kept[i]));
        }
    }
}

/// **A name is kept verbatim.** A text without a separator of the
/// platform, other than `.` and `..`, is one name, whatever else it holds:
/// on POSIX also a `\`, which separates on Windows only. Normalizing
/// leaves it as it is. (On Windows the text must not start like a drive
/// designator, which would make its first two characters a prefix.)
pub proof fn law_name_is_kept_verbatim(platform: Platform, name: Seq<char>)
    requires
        is_valid_name(platform, name),
        platform == Platform::Windows ==> !has_drive(name),
    ensures
        spec_tokenize(platform, name) == seq![Segment::Normal(name)],
        spec_normalize(platform, name) == name,
{
    let named = Segment::Normal(name);
    let tokens = seq![named];
    assert(!platform.spec_is_separator(name[0]));
    assert(prefix_len(platform, name) == 0);
    assert(name.skip(0) =~= name);
    lemma_body_of_run(platform, name);
    assert(head_segments(platform, name) =~= Seq::<Segment>::empty());
    assert(spec_tokenize(platform, name) =~= tokens);
    assert(tokens.drop_last() =~= Seq::<Segment>::empty());
    assert(normalized(tokens.drop_last()) =~= Seq::<Segment>::empty());
    assert(normalized(tokens) =~= tokens);
    assert(!platform.spec_is_separator(name.last()));
    assert(spec_render(platform, tokens.drop_last()) =~= Seq::<char>::empty());
    assert(spec_render(platform, tokens) =~= name);
}

} // verus!
