//! The traversal: which nodes a walk visits, in which order, and the trail
//! that each is reached by.

use vstd::prelude::*;
use crate::path::{Breadcrumb, Breadcrumbs, Segment};
use crate::text::{decimal, decimal_text};
use crate::value::{Entry, Fields, NamedValue, Value};

verus! {

/// One visit of a walk, as a mathematical value: the node, and the segments
/// that lead to it from the root.
pub struct Seen {
    pub trail: Seq<Segment>,
    pub node: Value,
}

/// One visit of a walk: a node, borrowed from the value that is walked, and
/// the trail that leads to it from the root.
pub struct Visit<'a> {
    pub trail: Breadcrumbs,
    pub node: &'a Value,
}

impl<'a> View for Visit<'a> {
    type V = Seen;

    open spec fn view(&self) -> Seen {
        Seen { trail: self.trail@, node: *self.node }
    }
}

/// The visits that a record holds, in the order in which they were made.
pub open spec fn recorded<'a>(visits: Seq<Visit<'a>>) -> Seq<Seen> {
    visits.map_values(|visit: Visit<'a>| visit@)
}

/// How the elements of a container are told apart on a trail.
#[derive(Clone, Copy, PartialEq, Eq, Debug)]
pub enum Label {
    /// By position, rendered as text: sequences of any kind.
    Index,
    /// By position: tuples and positional fields.
    TupleIndex,
    /// Not at all: sets.
    SetMember,
}

impl Label {
    /// The segment that leads to the element at `position`.
    pub open spec fn segment(self, position: nat) -> Segment {
        match self {
            Label::Index => Segment::Index(decimal_text(position)),
            Label::TupleIndex => Segment::TupleIndex(position),
            Label::SetMember => Segment::SetMember,
        }
    }

    /// The breadcrumb that leads to the element at `position`.
    pub fn crumb(self, position: usize) -> (crumb: Breadcrumb)
        ensures
            crumb@ == self.segment(position as nat),
    {
        match self {
            Label::Index => Breadcrumb::Index(decimal(position)),
            Label::TupleIndex => Breadcrumb::TupleIndex(position),
            Label::SetMember => Breadcrumb::SetMember,
        }
    }
}

/// The visits of a walk through `value` that starts with `trail`: the value
/// itself under `trail`, then all that is reachable inside it, each child
/// after its elder siblings and all their descendants.
pub open spec fn walk(value: Value, trail: Seq<Segment>) -> Seq<Seen>
    decreases value, 1nat,
{
    seq![Seen { trail, node: value }] + walk_inside(value, trail)
}

/// The visits of a walk through what `value` holds, without `value` itself.
pub open spec fn walk_inside(value: Value, trail: Seq<Segment>) -> Seq<Seen>
    decreases value, 0nat,
{
    match value {
        Value::Array(items) => walk_items(items@, Label::Index, trail, items@.len()),
        Value::List(items) => walk_items(items@, Label::Index, trail, items@.len()),
        Value::Tuple(slots) => walk_items(slots@, Label::TupleIndex, trail, slots@.len()),
        Value::SetOf(members) => walk_items(members@, Label::SetMember, trail, members@.len()),
        Value::MapOf(entries) => walk_entries(entries@, trail, entries@.len()),
        Value::Optional(Some(held)) => walk(*held, trail.push(Segment::Variant("Some"@))),
        Value::Outcome(Ok(held)) => walk(*held, trail.push(Segment::Variant("Ok"@))),
        Value::Outcome(Err(held)) => walk(*held, trail.push(Segment::Variant("Err"@))),
        Value::Struct(fields) => walk_fields(fields, trail),
        Value::Enum(variant, fields) => walk_fields(fields, trail.push(Segment::Variant(variant@))),
        Value::Tagged(kind, Some(held)) => walk(*held, trail.push(Segment::Variant(kind@))),
        _ => Seq::<Seen>::empty(),
    }
}

/// The visits of a walk through the fields of a struct or of a variant.
pub open spec fn walk_fields(fields: Fields, trail: Seq<Segment>) -> Seq<Seen>
    decreases fields,
{
    match fields {
        Fields::Unit => Seq::<Seen>::empty(),
        Fields::Named(named) => walk_named(named@, trail, named@.len()),
        Fields::Unnamed(slots) => walk_items(slots@, Label::TupleIndex, trail, slots@.len()),
    }
}

/// The visits of a walk through the first `upto` of the fields.
pub open spec fn walk_fields_upto(fields: Fields, trail: Seq<Segment>, upto: nat) -> Seq<Seen> {
    match fields {
        Fields::Unit => Seq::<Seen>::empty(),
        Fields::Named(named) => walk_named(named@, trail, upto),
        Fields::Unnamed(slots) => walk_items(slots@, Label::TupleIndex, trail, upto),
    }
}

/// The visits of a walk through the first `upto` of `items`, one after the
/// other, each under `trail` and the segment that `label` gives its position.
pub open spec fn walk_items(items: Seq<Value>, label: Label, trail: Seq<Segment>, upto: nat) -> Seq<Seen>
    decreases items, upto,
{
    if upto == 0 || upto > items.len() {
        Seq::<Seen>::empty()
    } else {
        walk_items(items, label, trail, (upto - 1) as nat) + walk(
            items[upto - 1],
            trail.push(label.segment((upto - 1) as nat)),
        )
    }
}

/// The visits of a walk through the first `upto` of the named fields, one
/// after the other, each under `trail` and the name of the field.
pub open spec fn walk_named(fields: Seq<NamedValue>, trail: Seq<Segment>, upto: nat) -> Seq<Seen>
    decreases fields, upto,
{
    if upto == 0 || upto > fields.len() {
        Seq::<Seen>::empty()
    } else {
        walk_named(fields, trail, (upto - 1) as nat) + walk(
            fields[upto - 1].value,
            trail.push(Segment::Field(fields[upto - 1].name@)),
        )
    }
}

/// The visits of a walk through the values of the first `upto` of the
/// entries, one after the other, each under `trail` and the rendering of the
/// entry's key. The keys themselves are not walked.
pub open spec fn walk_entries(entries: Seq<Entry>, trail: Seq<Segment>, upto: nat) -> Seq<Seen>
    decreases entries, upto,
{
    if upto == 0 || upto > entries.len() {
        Seq::<Seen>::empty()
    } else {
        walk_entries(entries, trail, (upto - 1) as nat) + walk(
            entries[upto - 1].value,
            trail.push(Segment::Index(entries[upto - 1].key@)),
        )
    }
}

proof fn lemma_recorded_push<'a>(visits: Seq<Visit<'a>>, visit: Visit<'a>)
    ensures
        recorded(visits.push(visit)) == recorded(visits).push(visit@),
{
    assert(recorded(visits.push(visit)) =~= recorded(visits).push(visit@));
}

/// Walks `value` under `breadcrumbs` and records each visit behind those
/// that `visits` holds already.
pub fn introspect_value<'a>(value: &'a Value, breadcrumbs: Breadcrumbs, visits: &mut Vec<Visit<'a>>)
    ensures
        recorded(final(visits)@) == recorded(old(visits)@) + walk(*value, breadcrumbs@),
    decreases *value, 1nat,
{
    let ghost before = recorded(visits@);
    let visit = Visit { trail: breadcrumbs.clone(), node: value };
    proof {
        lemma_recorded_push(visits@, visit);
    }
    visits.push(visit);
    introspect_inside(value, &breadcrumbs, visits);
    assert(recorded(visits@) =~= before + walk(*value, breadcrumbs@));
}

/// Walks what `value` holds, without `value` itself.
fn introspect_inside<'a>(value: &'a Value, breadcrumbs: &Breadcrumbs, visits: &mut Vec<Visit<'a>>)
    ensures
        recorded(final(visits)@) == recorded(old(visits)@) + walk_inside(*value, breadcrumbs@),
    decreases *value, 0nat,
{
    match value {
        Value::Array(items) => introspect_items(items, Label::Index, breadcrumbs, visits),
        Value::List(items) => introspect_items(items, Label::Index, breadcrumbs, visits),
        Value::Tuple(slots) => introspect_items(slots, Label::TupleIndex, breadcrumbs, visits),
        Value::SetOf(members) => introspect_items(members, Label::SetMember, breadcrumbs, visits),
        Value::MapOf(entries) => introspect_entries(entries, breadcrumbs, visits),
        Value::Optional(Some(held)) => {
            introspect_value(held, breadcrumbs.extended(Breadcrumb::Variant("Some")), visits)
        },
        Value::Outcome(Ok(held)) => {
            introspect_value(held, breadcrumbs.extended(Breadcrumb::Variant("Ok")), visits)
        },
        Value::Outcome(Err(held)) => {
            introspect_value(held, breadcrumbs.extended(Breadcrumb::Variant("Err")), visits)
        },
        Value::Struct(fields) => introspect_fields(fields, breadcrumbs, visits),
        Value::Enum(variant, fields) => {
            let inside = breadcrumbs.extended(Breadcrumb::Variant(*variant));
            introspect_fields(fields, &inside, visits)
        },
        Value::Tagged(kind, Some(held)) => {
            introspect_value(held, breadcrumbs.extended(Breadcrumb::Variant(*kind)), visits)
        },
        _ => {
            assert(recorded(visits@) =~= recorded(visits@) + walk_inside(*value, breadcrumbs@));
        },
    }
}

/// Walks the fields of a struct or of a variant, in the order of their
/// declaration.
fn introspect_fields<'a>(fields: &'a Fields, breadcrumbs: &Breadcrumbs, visits: &mut Vec<Visit<'a>>)
    ensures
        recorded(final(visits)@) == recorded(old(visits)@) + walk_fields(*fields, breadcrumbs@),
    decreases *fields,
{
    match fields {
        Fields::Unit => {
            assert(recorded(visits@) =~= recorded(visits@) + walk_fields(*fields, breadcrumbs@));
        },
        Fields::Named(named) => introspect_named(named, breadcrumbs, visits),
        Fields::Unnamed(slots) => introspect_items(slots, Label::TupleIndex, breadcrumbs, visits),
    }
}

/// Walks the elements of a container one after the other.
fn introspect_items<'a>(
    items: &'a Vec<Value>,
    label: Label,
    breadcrumbs: &Breadcrumbs,
    visits: &mut Vec<Visit<'a>>,
)
    ensures
        recorded(final(visits)@) == recorded(old(visits)@) + walk_items(
            items@,
            label,
            breadcrumbs@,
            items@.len(),
        ),
    decreases items@, 0nat,
{
    let ghost before = recorded(visits@);
    let mut index: usize = 0;
    assert(recorded(visits@) =~= before + walk_items(items@, label, breadcrumbs@, 0));
    while index < items.len()
        invariant
            index <= items@.len(),
            recorded(visits@) == before + walk_items(items@, label, breadcrumbs@, index as nat),
        decreases items@.len() - index,
    {
        let inside = breadcrumbs.extended(label.crumb(index));
        introspect_value(&items[index], inside, visits);
        assert(recorded(visits@) =~= before + walk_items(
            items@,
            label,
            breadcrumbs@,
            (index + 1) as nat,
        ));
        index += 1;
    }
}

/// Walks the named fields one after the other.
fn introspect_named<'a>(
    fields: &'a Vec<NamedValue>,
    breadcrumbs: &Breadcrumbs,
    visits: &mut Vec<Visit<'a>>,
)
    ensures
        recorded(final(visits)@) == recorded(old(visits)@) + walk_named(
            fields@,
            breadcrumbs@,
            fields@.len(),
        ),
    decreases fields@, 0nat,
{
    let ghost before = recorded(visits@);
    let mut index: usize = 0;
    assert(recorded(visits@) =~= before + walk_named(fields@, breadcrumbs@, 0));
    while index < fields.len()
        invariant
            index <= fields@.len(),
            recorded(visits@) == before + walk_named(fields@, breadcrumbs@, index as nat),
        decreases fields@.len() - index,
    {
        let field = &fields[index];
        let inside = breadcrumbs.extended(Breadcrumb::Field(field.name));
        introspect_value(&field.value, inside, visits);
        assert(recorded(visits@) =~= before + walk_named(
            fields@,
            breadcrumbs@,
            (index + 1) as nat,
        ));
        index += 1;
    }
}

/// Walks the values of the entries of a map one after the other. An entry's
/// key is not walked: its rendering becomes the segment that leads to the
/// value.
fn introspect_entries<'a>(
    entries: &'a Vec<Entry>,
    breadcrumbs: &Breadcrumbs,
    visits: &mut Vec<Visit<'a>>,
)
    ensures
        recorded(final(visits)@) == recorded(old(visits)@) + walk_entries(
            entries@,
            breadcrumbs@,
            entries@.len(),
        ),
    decreases entries@, 0nat,
{
    let ghost before = recorded(visits@);
    let mut index: usize = 0;
    assert(recorded(visits@) =~= before + walk_entries(entries@, breadcrumbs@, 0));
    while index < entries.len()
        invariant
            index <= entries@.len(),
            recorded(visits@) == before + walk_entries(entries@, breadcrumbs@, index as nat),
        decreases entries@.len() - index,
    {
        let entry = &entries[index];
        let inside = breadcrumbs.extended(Breadcrumb::Index(entry.key.clone()));
        introspect_value(&entry.value, inside, visits);
        assert(recorded(visits@) =~= before + walk_entries(
            entries@,
            breadcrumbs@,
            (index + 1) as nat,
        ));
        index += 1;
    }
}

/// What a value offers in order to be walked.
pub trait Introspect {
    /// The visits of a walk through this value that starts with `trail`.
    spec fn visits(&self, trail: Seq<Segment>) -> Seq<Seen>;

    /// Walks this value, then all that is reachable inside it, and records
    /// each visit behind those that `visits` holds already. The trail of the
    /// value itself is empty.
    fn introspect<'a>(&'a self, visits: &mut Vec<Visit<'a>>)
        ensures
            recorded(final(visits)@) == recorded(old(visits)@) + self.visits(Seq::<Segment>::empty()),
    {
        self.introspect_from(Breadcrumbs::new(), visits)
    }

    /// Walks this value, then all that is reachable inside it, and records
    /// each visit behind those that `visits` holds already. The trail of the
    /// value itself is `breadcrumbs`; the trail of anything inside it goes on
    /// from there.
    fn introspect_from<'a>(&'a self, breadcrumbs: Breadcrumbs, visits: &mut Vec<Visit<'a>>)
        ensures
            recorded(final(visits)@) == recorded(old(visits)@) + self.visits(breadcrumbs@),
    ;
}

impl Introspect for Value {
    open spec fn visits(&self, trail: Seq<Segment>) -> Seq<Seen> {
        walk(*self, trail)
    }

    fn introspect_from<'a>(&'a self, breadcrumbs: Breadcrumbs, visits: &mut Vec<Visit<'a>>) {
        introspect_value(self, breadcrumbs, visits)
    }
}

} // verus!
