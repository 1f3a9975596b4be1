//! Path components and the growable buffer that holds a sequence of them.

use smallvec::SmallVec;
use vstd::prelude::*;

verus! {

/// One syntactic unit of a path.
#[derive(Clone, Debug, PartialEq, Eq)]
pub enum Component {
    /// A volume designator such as `C:` or `\\server\share`.
    Prefix(String),
    /// The anchor of an absolute path.
    RootDir,
    /// A `.` segment.
    CurDir,
    /// A `..` segment.
    ParentDir,
    /// A named segment, kept verbatim.
    Normal(String),
}

/// The mathematical value of a [`Component`]: the same variants over
/// character sequences.
pub enum Segment {
    Prefix(Seq<char>),
    RootDir,
    CurDir,
    ParentDir,
    Normal(Seq<char>),
}

impl View for Component {
    type V = Segment;

    open spec fn view(&self) -> Segment {
        match self {
            Component::Prefix(text) => Segment::Prefix(text@),
            Component::RootDir => Segment::RootDir,
            Component::CurDir => Segment::CurDir,
            Component::ParentDir => Segment::ParentDir,
            Component::Normal(text) => Segment::Normal(text@),
        }
    }
}

impl Component {
    /// A fresh component of the same value.
    pub fn duplicate(&self) -> (copy: Component)
        ensures
            copy@ == self@,
    {
        match self {
            Component::Prefix(text) => Component::Prefix(text.clone()),
            Component::RootDir => Component::RootDir,
            Component::CurDir => Component::CurDir,
            Component::ParentDir => Component::ParentDir,
            Component::Normal(text) => Component::Normal(text.clone()),
        }
    }
}

/// The values of a run of components, in order.
pub open spec fn segments_of(items: Seq<Component>) -> Seq<Segment> {
    items.map_values(|c: Component| c@)
}

/// An ordered, growable sequence of components that keeps short paths in
/// inline storage: a `smallvec::SmallVec` with eight inline slots. What it
/// holds is known to the proofs only through [`component_vec_items`] and
/// the contracts of the functions below, each of which makes one call into
/// `smallvec`.
#[verifier::external_body]
pub struct ComponentVec {
    inner: SmallVec<[Component; 8]>,
}

/// The components that a [`ComponentVec`] holds, first to last.
pub uninterp spec fn component_vec_items(v: ComponentVec) -> Seq<Component>;

impl View for ComponentVec {
    type V = Seq<Segment>;

    open spec fn view(&self) -> Seq<Segment> {
        segments_of(component_vec_items(*self))
    }
}

/// `SmallVec::new`: the new buffer holds nothing.
#[verifier::external_body]
fn smallvec_new() -> (v: ComponentVec)
    ensures
        component_vec_items(v) == Seq::<Component>::empty(),
{
    ComponentVec { inner: SmallVec::new() }
}

/// `SmallVec::len`: the number of components held.
#[verifier::external_body]
fn smallvec_len(v: &ComponentVec) -> (n: usize)
    ensures
        n == component_vec_items(*v).len(),
{
    v.inner.len()
}

/// `SmallVec::is_empty`: whether no component is held.
#[verifier::external_body]
fn smallvec_is_empty(v: &ComponentVec) -> (b: bool)
    ensures
        b == (component_vec_items(*v).len() == 0),
{
    v.inner.is_empty()
}

/// `SmallVec::as_slice`: the components held, in order, as a slice.
#[verifier::external_body]
fn smallvec_as_slice(v: &ComponentVec) -> (s: &[Component])
    ensures
        s@ == component_vec_items(*v),
{
    v.inner.as_slice()
}

/// `SmallVec::push`: appends `c` and leaves the rest as it was. The call
/// panics when the new length does not fit in `usize`, which the
/// precondition rules out. (Growing the buffer allocates; a request that
/// the allocator cannot serve ends the program, as with any collection.)
#[verifier::external_body]
fn smallvec_push(v: &mut ComponentVec, c: Component)
    requires
        component_vec_items(*old(v)).len() < usize::MAX,
    ensures
        component_vec_items(*final(v)) == component_vec_items(*old(v)).push(c),
{
    v.inner.push(c)
}

/// `SmallVec::pop`: removes and returns the last component, or returns
/// `None` and changes nothing when the buffer is empty.
#[verifier::external_body]
fn smallvec_pop(v: &mut ComponentVec) -> (last: Option<Component>)
    ensures
        component_vec_items(*old(v)).len() == 0 ==> last.is_none() && component_vec_items(
            *final(v),
        ) == component_vec_items(*old(v)),
        component_vec_items(*old(v)).len() > 0 ==> last == Some(
            component_vec_items(*old(v)).last(),
        ) && component_vec_items(*final(v)) == component_vec_items(*old(v)).drop_last(),
{
    v.inner.pop()
}

/// `SmallVec::insert`: puts `c` at `index` and shifts what followed one
/// place to the right. The call panics when `index` is past the end or the
/// new length does not fit in `usize`, which the preconditions rule out.
/// (It allocates as `push` does.)
#[verifier::external_body]
fn smallvec_insert(v: &mut ComponentVec, index: usize, c: Component)
    requires
        index <= component_vec_items(*old(v)).len(),
        component_vec_items(*old(v)).len() < usize::MAX,
    ensures
        component_vec_items(*final(v)) == component_vec_items(*old(v)).insert(index as int, c),
{
    v.inner.insert(index, c)
}

/// The values of the items after one more is appended.
pub proof fn lemma_segments_push(items: Seq<Component>, c: Component)
    ensures
        segments_of(items.push(c)) == segments_of(items).push(c@),
{
    assert(segments_of(items.push(c)) =~= segments_of(items).push(c@));
}

impl ComponentVec {
    /// An empty sequence.
    pub fn new() -> (v: ComponentVec)
        ensures
            v@ == Seq::<Segment>::empty(),
    {
        let v = smallvec_new();
        assert(v@ =~= Seq::<Segment>::empty());
        v
    }

    /// The number of components.
    pub fn len(&self) -> (n: usize)
        ensures
            n == self@.len(),
    {
        smallvec_len(self)
    }

    /// Whether the sequence holds no component.
    pub fn is_empty(&self) -> (b: bool)
        ensures
            b == (self@.len() == 0),
    {
        smallvec_is_empty(self)
    }

    /// The components as a slice, in path order.
    pub fn as_slice(&self) -> (s: &[Component])
        ensures
            segments_of(s@) == self@,
    {
        smallvec_as_slice(self)
    }

    /// Appends `c`.
    pub fn push(&mut self, c: Component)
        requires
            old(self)@.len() < usize::MAX,
        ensures
            final(self)@ == old(self)@.push(c@),
    {
        proof {
            lemma_segments_push(component_vec_items(*self), c);
        }
        smallvec_push(self, c);
    }

    /// Removes the last component and returns it; `None`, and no change,
    /// when there is none.
    pub fn pop(&mut self) -> (last: Option<Component>)
        ensures
            old(self)@.len() == 0 ==> last.is_none() && final(self)@ == old(self)@,
            old(self)@.len() > 0 ==> last.is_some() && last.unwrap()@ == old(self)@.last()
                && final(self)@ == old(self)@.drop_last(),
    {
        let last = smallvec_pop(self);
        proof {
            let before = component_vec_items(*old(self));
            if before.len() > 0 {
                assert(segments_of(before.drop_last()) =~= segments_of(before).drop_last());
            }
        }
        last
    }

    /// Puts `c` at position `index`, before what stood there.
    pub fn insert(&mut self, index: usize, c: Component)
        requires
            index <= old(self)@.len(),
            old(self)@.len() < usize::MAX,
        ensures
            final(self)@ == old(self)@.insert(index as int, c@),
    {
        proof {
            let before = component_vec_items(*self);
            assert(segments_of(before.insert(index as int, c)) =~= segments_of(before).insert(
                index as int,
                c@,
            ));
        }
        smallvec_insert(self, index, c);
    }
}

} // verus!
