//! The path model: breadcrumb segments and the persistent trail that
//! collects them on the way from a root value down to one of its nodes.

use vstd::prelude::*;

verus! {

/// One step of the path from a root value to a node inside it.
#[derive(PartialEq, Eq, Debug)]
pub enum Breadcrumb {
    /// The name of the active variant of an enum-like value.
    Variant(&'static str),
    /// The name of a named field.
    Field(&'static str),
    /// The position of an element in a sequence, or the rendering of a map key.
    Index(String),
    /// The position of a slot in a tuple or a positional struct.
    TupleIndex(usize),
    /// Membership in a set: set members have no address of their own.
    SetMember,
}

/// The mathematical value of a [`Breadcrumb`]: names and keys as character
/// sequences, positions as natural numbers.
pub enum Segment {
    Variant(Seq<char>),
    Field(Seq<char>),
    Index(Seq<char>),
    TupleIndex(nat),
    SetMember,
}

impl View for Breadcrumb {
    type V = Segment;

    open spec fn view(&self) -> Segment {
        match *self {
            Breadcrumb::Variant(name) => Segment::Variant(name@),
            Breadcrumb::Field(name) => Segment::Field(name@),
            Breadcrumb::Index(key) => Segment::Index(key@),
            Breadcrumb::TupleIndex(position) => Segment::TupleIndex(position as nat),
            Breadcrumb::SetMember => Segment::SetMember,
        }
    }
}

impl Clone for Breadcrumb {
    fn clone(&self) -> (copy: Self)
        ensures
            copy == *self,
    {
        match self {
            Breadcrumb::Variant(name) => Breadcrumb::Variant(*name),
            Breadcrumb::Field(name) => Breadcrumb::Field(*name),
            Breadcrumb::Index(key) => Breadcrumb::Index(key.clone()),
            Breadcrumb::TupleIndex(position) => Breadcrumb::TupleIndex(*position),
            Breadcrumb::SetMember => Breadcrumb::SetMember,
        }
    }
}

#[verifier::external_type_specification]
#[verifier::external_body]
#[verifier::reject_recursive_types(A)]
pub struct ExVector<A>(im::vector::Vector<A>);

/// The breadcrumbs that a persistent vector holds, front to back.
pub uninterp spec fn vector_items(vector: im::vector::Vector<Breadcrumb>) -> Seq<Breadcrumb>;

/// `im::vector::Vector::new`: the vector it returns holds nothing.
#[verifier::external_body]
fn vector_new() -> (vector: im::vector::Vector<Breadcrumb>)
    ensures
        vector_items(vector) == Seq::<Breadcrumb>::empty(),
{
    im::vector::Vector::new()
}

/// `im::vector::Vector::clone`: the copy holds the same items in the same
/// order. The copy shares storage with the vector it was taken from; neither
/// can observe a later change of the other.
#[verifier::external_body]
fn vector_clone(vector: &im::vector::Vector<Breadcrumb>) -> (copy: im::vector::Vector<Breadcrumb>)
    ensures
        vector_items(copy) == vector_items(*vector),
{
    vector.clone()
}

/// `im::vector::Vector::push_back`: the item is added behind all the others,
/// which stay as they were.
#[verifier::external_body]
fn vector_push_back(vector: &mut im::vector::Vector<Breadcrumb>, crumb: Breadcrumb)
    ensures
        vector_items(*final(vector)) == vector_items(*old(vector)).push(crumb),
{
    vector.push_back(crumb)
}

/// `im::vector::Vector::len`: the number of items held.
#[verifier::external_body]
fn vector_len(vector: &im::vector::Vector<Breadcrumb>) -> (len: usize)
    ensures
        len == vector_items(*vector).len(),
{
    vector.len()
}

/// `im::vector::Vector::get`: the item at `index`, counted from the front,
/// and `None` from the length on.
#[verifier::external_body]
fn vector_get(vector: &im::vector::Vector<Breadcrumb>, index: usize) -> (item: Option<&Breadcrumb>)
    ensures
        index < vector_items(*vector).len() ==> item == Some(&vector_items(*vector)[index as int]),
        index >= vector_items(*vector).len() ==> item.is_none(),
{
    vector.get(index)
}

/// The trail of breadcrumbs that leads from a root value to a node.
///
/// A trail is persistent: a clone shares its storage with the trail it was
/// taken from, so cloning a trail and extending the clone costs far less
/// than a copy, and leaves the first trail as it was.
pub struct Breadcrumbs {
    crumbs: im::vector::Vector<Breadcrumb>,
}

impl View for Breadcrumbs {
    type V = Seq<Segment>;

    closed spec fn view(&self) -> Seq<Segment> {
        vector_items(self.crumbs).map_values(|crumb: Breadcrumb| crumb@)
    }
}

impl Clone for Breadcrumbs {
    fn clone(&self) -> (copy: Self)
        ensures
            copy@ == self@,
    {
        Breadcrumbs { crumbs: vector_clone(&self.crumbs) }
    }
}

impl Breadcrumbs {
    /// The empty trail, which stands for the root itself.
    pub fn new() -> (trail: Self)
        ensures
            trail@ == Seq::<Segment>::empty(),
    {
        let trail = Breadcrumbs { crumbs: vector_new() };
        assert(trail@ =~= Seq::<Segment>::empty());
        trail
    }

    /// Appends one segment to this trail.
    pub fn push_back(&mut self, crumb: Breadcrumb)
        ensures
            final(self)@ == old(self)@.push(crumb@),
    {
        vector_push_back(&mut self.crumbs, crumb);
        assert(self@ =~= old(self)@.push(crumb@));
    }

    /// A trail one segment longer than this one, which itself stays as it is.
    pub fn extended(&self, crumb: Breadcrumb) -> (longer: Self)
        ensures
            longer@ == self@.push(crumb@),
    {
        let mut longer = self.clone();
        longer.push_back(crumb);
        longer
    }

    /// The number of segments.
    pub fn len(&self) -> (len: usize)
        ensures
            len == self@.len(),
    {
        vector_len(&self.crumbs)
    }

    /// Whether this is the trail of a root.
    pub fn is_empty(&self) -> (empty: bool)
        ensures
            empty == (self@.len() == 0),
    {
        vector_len(&self.crumbs) == 0
    }

    /// The segment at `index`, counted from the root, if the trail is that long.
    pub fn get(&self, index: usize) -> (crumb: Option<Breadcrumb>)
        ensures
            index < self@.len() ==> crumb.is_some() && crumb.unwrap()@ == self@[index as int],
            index >= self@.len() ==> crumb.is_none(),
    {
        match vector_get(&self.crumbs, index) {
            Some(crumb) => Some(crumb.clone()),
            None => None,
        }
    }

    /// The segments of this trail, from the root down.
    pub fn to_vec(&self) -> (crumbs: Vec<Breadcrumb>)
        ensures
            crumbs@.len() == self@.len(),
            forall|i: int| 0 <= i < crumbs@.len() ==> (#[trigger] crumbs@[i])@ == self@[i],
    {
        let len = vector_len(&self.crumbs);
        let mut crumbs: Vec<Breadcrumb> = Vec::new();
        let mut index: usize = 0;
        while index < len
            invariant
                len == self@.len(),
                index <= len,
                crumbs@.len() == index,
                forall|i: int| 0 <= i < index ==> (#[trigger] crumbs@[i])@ == self@[i],
            decreases len - index,
        {
            match vector_get(&self.crumbs, index) {
                Some(crumb) => crumbs.push(crumb.clone()),
                None => {},
            }
            index += 1;
        }
        crumbs
    }
}

} // verus!
