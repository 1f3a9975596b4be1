//! The serializer: from components back to the text of a path.

use crate::component::{Component, ComponentVec, Segment};
use crate::platform::Platform;
use crate::tokenize::{is_drive_char, is_drive_letter};
use vstd::prelude::*;

verus! {

/// Whether `text` is a drive designator: a letter and a colon.
pub open spec fn is_drive_text(text: Seq<char>) -> bool {
    text.len() == 2 && is_drive_letter(text[0]) && text[1] == ':'
}

/// The text of the prefix in force after `segments`: that of the last
/// prefix among them, or nothing.
pub open spec fn volume_text(segments: Seq<Segment>) -> Seq<char>
    decreases segments.len(),
{
    if segments.len() == 0 {
        Seq::empty()
    } else {
        match segments.last() {
            Segment::Prefix(text) => text,
            _ => volume_text(segments.drop_last()),
        }
    }
}

/// Whether a separator has to be written between the rendering of
/// `segments` and a segment appended to it: not at the start, not after a
/// root (which is a separator) and not after a drive designator (`C:foo`
/// is a path on drive `C:`).
pub open spec fn needs_separator(segments: Seq<Segment>) -> bool {
    segments.len() > 0 && match segments.last() {
        Segment::RootDir => false,
        Segment::Prefix(text) => !is_drive_text(text),
        _ => true,
    }
}

/// The text written for a `.`, a `..` or a name.
pub open spec fn plain_text(segment: Segment) -> Seq<char> {
    match segment {
        Segment::CurDir => seq!['.'],
        Segment::ParentDir => seq!['.', '.'],
        Segment::Normal(text) => text,
        _ => Seq::empty(),
    }
}

/// The text of the path that `segments` spell.
///
/// Segments are joined by the platform's main separator. A prefix is
/// written as it is and a root as one separator. A prefix that does not
/// come first starts the path afresh, and a root that does not come first
/// starts it afresh below the prefix in force, as appending an absolute
/// path to another does.
pub open spec fn spec_render(platform: Platform, segments: Seq<Segment>) -> Seq<char>
    decreases segments.len(),
{
    if segments.len() == 0 {
        Seq::empty()
    } else {
        let init = segments.drop_last();
        match segments.last() {
            Segment::Prefix(text) => text,
            Segment::RootDir => volume_text(init).push(platform.spec_main_separator()),
            other => {
                let head = spec_render(platform, init);
                if needs_separator(init) {
                    head.push(platform.spec_main_separator()) + plain_text(other)
                } else {
                    head + plain_text(other)
                }
            },
        }
    }
}

/// Whether `text` is a drive designator: a letter and a colon.
pub fn is_drive_string(text: &str) -> (b: bool)
    ensures
        b == is_drive_text(text@),
{
    text.unicode_len() == 2 && is_drive_char(text.get_char(0)) && text.get_char(1) == ':'
}

/// Writes a path out component by component.
pub struct Renderer {
    platform: Platform,
    path: String,
    volume: String,
    gap: bool,
    written: Ghost<Seq<Segment>>,
}

impl Renderer {
    /// The platform whose separator is written.
    pub closed spec fn platform(&self) -> Platform {
        self.platform
    }

    /// The components written so far.
    pub closed spec fn written(&self) -> Seq<Segment> {
        self.written@
    }

    /// The text held is the rendering of what was written.
    pub closed spec fn well_formed(&self) -> bool {
        &&& self.path@ == spec_render(self.platform, self.written@)
        &&& self.volume@ == volume_text(self.written@)
        &&& self.gap == needs_separator(self.written@)
    }

    /// A renderer that has written nothing.
    pub fn new(platform: Platform) -> (renderer: Renderer)
        ensures
            renderer.well_formed(),
            renderer.platform() == platform,
            renderer.written() == Seq::<Segment>::empty(),
    {
        Renderer {
            platform,
            path: String::new(),
            volume: String::new(),
            gap: false,
            written: Ghost(Seq::empty()),
        }
    }

    /// Writes one more component.
    pub fn write(&mut self, component: &Component)
        requires
            old(self).well_formed(),
        ensures
            final(self).well_formed(),
            final(self).platform() == old(self).platform(),
            final(self).written() == old(self).written().push(component@),
    {
        let separator = self.platform.main_separator();
        let ghost init = self.written@;
        let ghost next = init.push(component@);
        assert(next.drop_last() =~= init);
        match component {
            Component::Prefix(text) => {
                self.path = text.clone();
                self.volume = text.clone();
                self.gap = !is_drive_string(text.as_str());
            },
            Component::RootDir => {
                self.path = self.volume.clone();
                self.path.push(separator);
                self.gap = false;
            },
            Component::CurDir => {
                if self.gap {
                    self.path.push(separator);
                }
                self.path.push('.');
                assert(self.path@ =~= spec_render(self.platform, next));
                self.gap = true;
            },
            Component::ParentDir => {
                if self.gap {
                    self.path.push(separator);
                }
                self.path.push('.');
                self.path.push('.');
                assert(self.path@ =~= spec_render(self.platform, next));
                self.gap = true;
            },
            Component::Normal(text) => {
                if self.gap {
                    self.path.push(separator);
                }
                self.path.append(text.as_str());
                self.gap = true;
            },
        }
        self.written = Ghost(next);
    }

    /// The text of the path written.
    pub fn finish(self) -> (path: String)
        requires
            self.well_formed(),
        ensures
            path@ == spec_render(self.platform(), self.written()),
    {
        self.path
    }
}

/// Renders a component sequence as the text of a path.
pub fn component_vec_to_path_buf(platform: Platform, components: ComponentVec) -> (path: String)
    ensures
        path@ == spec_render(platform, components@),
{
    render_components(platform, &components)
}

/// Renders a borrowed component sequence as the text of a path.
pub fn render_components(platform: Platform, components: &ComponentVec) -> (path: String)
    ensures
        path@ == spec_render(platform, components@),
{
    let items = components.as_slice();
    let n: usize = items.len();
    let mut renderer = Renderer::new(platform);
    let mut i: usize = 0;
    while i < n
        invariant
            i <= n,
            n == items@.len(),
            n == components@.len(),
            forall|j: int| 0 <= j < n ==> (#[trigger] items@[j])@ == components@[j],
            renderer.well_formed(),
            renderer.platform() == platform,
            renderer.written() == components@.take(i as int),
        decreases n - i,
    {
        renderer.write(&items[i]);
        assert(components@.take(i as int).push(components@[i as int]) =~= components@.take(i + 1));
        i += 1;
    }
    assert(components@.take(n as int) =~= components@);
    renderer.finish()
}

} // verus!
