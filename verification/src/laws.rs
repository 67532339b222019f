//! What holds of every walk.

use vstd::prelude::*;
use crate::introspect::{
    walk, walk_entries, walk_fields, walk_fields_upto, walk_inside, walk_items, walk_named, Label, Seen,
};
use crate::path::Segment;
use crate::value::{Entry, Fields, NamedValue, Value};

verus! {

/// Whether `trail` goes through `root`: it begins with the segments of
/// `root`, in their order.
pub open spec fn extends(trail: Seq<Segment>, root: Seq<Segment>) -> bool {
    root.len() <= trail.len() && trail.take(root.len() as int) == root
}

/// Whether each of the visits lies at `root` or below it.
pub open spec fn all_within(visits: Seq<Seen>, root: Seq<Segment>) -> bool {
    forall|p: int| 0 <= p < visits.len() ==> extends((#[trigger] visits[p]).trail, root)
}

/// Whether each of the visits lies below `root`, and none at `root` itself.
pub open spec fn all_below(visits: Seq<Seen>, root: Seq<Segment>) -> bool {
    forall|p: int|
        0 <= p < visits.len() ==> (#[trigger] visits[p]).trail.len() > root.len() && extends(
            visits[p].trail,
            root,
        )
}

/// The root comes first: a walk begins with the value itself, under the
/// trail that the walk was started with.
pub proof fn law_root_first(value: Value, trail: Seq<Segment>)
    ensures
        walk(value, trail).len() >= 1,
        walk(value, trail)[0] == (Seen { trail, node: value }),
{
}

/// A walk through a leaf visits the leaf and nothing else.
pub proof fn law_leaf_visits_itself(value: Value, trail: Seq<Segment>)
    requires
        value.is_leaf(),
    ensures
        walk(value, trail) == seq![Seen { trail, node: value }],
{
    assert(walk(value, trail) =~= seq![Seen { trail, node: value }]);
}

/// Two walks through the same value from the same trail make the same
/// visits in the same order, whenever and wherever they are made.
pub proof fn law_same_walk(value: Value, trail: Seq<Segment>, first: Seq<Seen>, second: Seq<Seen>)
    requires
        first == walk(value, trail),
        second == walk(value, trail),
    ensures
        first == second,
{
}

proof fn lemma_within_pushed(visits: Seq<Seen>, root: Seq<Segment>, segment: Segment)
    requires
        all_within(visits, root.push(segment)),
    ensures
        all_below(visits, root),
{
    assert forall|p: int| 0 <= p < visits.len() implies (#[trigger] visits[p]).trail.len()
        > root.len() && extends(visits[p].trail, root) by {
        let trail = visits[p].trail;
        let longer = root.push(segment);
        assert(extends(trail, longer));
        assert(trail.take(root.len() as int) =~= trail.take(longer.len() as int).take(
            root.len() as int,
        ));
        assert(longer.take(root.len() as int) =~= root);
    }
}

proof fn lemma_below_pushed(visits: Seq<Seen>, root: Seq<Segment>, segment: Segment)
    requires
        all_below(visits, root.push(segment)),
    ensures
        all_below(visits, root),
{
    assert(all_within(visits, root.push(segment)));
    lemma_within_pushed(visits, root, segment);
}

proof fn lemma_below_joined(first: Seq<Seen>, second: Seq<Seen>, root: Seq<Segment>)
    requires
        all_below(first, root),
        all_below(second, root),
    ensures
        all_below(first + second, root),
{
    assert forall|p: int| 0 <= p < (first + second).len() implies (#[trigger] (first + second)[p]).trail.len()
        > root.len() && extends((first + second)[p].trail, root) by {
        if p < first.len() {
            assert((first + second)[p] == first[p]);
        } else {
            assert((first + second)[p] == second[p - first.len()]);
        }
    }
}

proof fn lemma_walk_within(value: Value, trail: Seq<Segment>)
    ensures
        all_within(walk(value, trail), trail),
        all_below(walk_inside(value, trail), trail),
    decreases value, 1nat,
{
    lemma_inside_below(value, trail);
    let visits = walk(value, trail);
    assert forall|p: int| 0 <= p < visits.len() implies extends((#[trigger] visits[p]).trail, trail) by {
        if p == 0 {
            assert(trail.take(trail.len() as int) =~= trail);
        } else {
            assert(visits[p] == walk_inside(value, trail)[p - 1]);
        }
    }
}

proof fn lemma_inside_below(value: Value, trail: Seq<Segment>)
    ensures
        all_below(walk_inside(value, trail), trail),
    decreases value, 0nat,
{
    match value {
        Value::Array(items) => lemma_items_below(items@, Label::Index, trail, items@.len()),
        Value::List(items) => lemma_items_below(items@, Label::Index, trail, items@.len()),
        Value::Tuple(slots) => lemma_items_below(slots@, Label::TupleIndex, trail, slots@.len()),
        Value::SetOf(members) => lemma_items_below(members@, Label::SetMember, trail, members@.len()),
        Value::MapOf(entries) => lemma_entries_below(entries@, trail, entries@.len()),
        Value::Optional(Some(held)) => {
            lemma_walk_within(*held, trail.push(Segment::Variant("Some"@)));
            lemma_within_pushed(walk_inside(value, trail), trail, Segment::Variant("Some"@));
        },
        Value::Outcome(Ok(held)) => {
            lemma_walk_within(*held, trail.push(Segment::Variant("Ok"@)));
            lemma_within_pushed(walk_inside(value, trail), trail, Segment::Variant("Ok"@));
        },
        Value::Outcome(Err(held)) => {
            lemma_walk_within(*held, trail.push(Segment::Variant("Err"@)));
            lemma_within_pushed(walk_inside(value, trail), trail, Segment::Variant("Err"@));
        },
        Value::Struct(fields) => lemma_fields_below(fields, trail),
        Value::Enum(variant, fields) => {
            lemma_fields_below(fields, trail.push(Segment::Variant(variant@)));
            lemma_below_pushed(walk_inside(value, trail), trail, Segment::Variant(variant@));
        },
        Value::Tagged(kind, Some(held)) => {
            lemma_walk_within(*held, trail.push(Segment::Variant(kind@)));
            lemma_within_pushed(walk_inside(value, trail), trail, Segment::Variant(kind@));
        },
        _ => {},
    }
}

proof fn lemma_fields_below(fields: Fields, trail: Seq<Segment>)
    ensures
        all_below(walk_fields(fields, trail), trail),
    decreases fields,
{
    match fields {
        Fields::Unit => {},
        Fields::Named(named) => lemma_named_below(named@, trail, named@.len()),
        Fields::Unnamed(slots) => lemma_items_below(slots@, Label::TupleIndex, trail, slots@.len()),
    }
}

proof fn lemma_items_below(items: Seq<Value>, label: Label, trail: Seq<Segment>, upto: nat)
    ensures
        all_below(walk_items(items, label, trail, upto), trail),
    decreases items, upto,
{
    if upto == 0 || upto > items.len() {
    } else {
        let segment = label.segment((upto - 1) as nat);
        lemma_items_below(items, label, trail, (upto - 1) as nat);
        lemma_walk_within(items[upto - 1], trail.push(segment));
        lemma_within_pushed(walk(items[upto - 1], trail.push(segment)), trail, segment);
        lemma_below_joined(
            walk_items(items, label, trail, (upto - 1) as nat),
            walk(items[upto - 1], trail.push(segment)),
            trail,
        );
    }
}

proof fn lemma_named_below(fields: Seq<NamedValue>, trail: Seq<Segment>, upto: nat)
    ensures
        all_below(walk_named(fields, trail, upto), trail),
    decreases fields, upto,
{
    if upto == 0 || upto > fields.len() {
    } else {
        let segment = Segment::Field(fields[upto - 1].name@);
        lemma_named_below(fields, trail, (upto - 1) as nat);
        lemma_walk_within(fields[upto - 1].value, trail.push(segment));
        lemma_within_pushed(walk(fields[upto - 1].value, trail.push(segment)), trail, segment);
        lemma_below_joined(
            walk_named(fields, trail, (upto - 1) as nat),
            walk(fields[upto - 1].value, trail.push(segment)),
            trail,
        );
    }
}

proof fn lemma_entries_below(entries: Seq<Entry>, trail: Seq<Segment>, upto: nat)
    ensures
        all_below(walk_entries(entries, trail, upto), trail),
    decreases entries, upto,
{
    if upto == 0 || upto > entries.len() {
    } else {
        let segment = Segment::Index(entries[upto - 1].key@);
        lemma_entries_below(entries, trail, (upto - 1) as nat);
        lemma_walk_within(entries[upto - 1].value, trail.push(segment));
        lemma_within_pushed(walk(entries[upto - 1].value, trail.push(segment)), trail, segment);
        lemma_below_joined(
            walk_entries(entries, trail, (upto - 1) as nat),
            walk(entries[upto - 1].value, trail.push(segment)),
            trail,
        );
    }
}

/// Trails only grow: the trail of every visit of a walk goes through the
/// trail that the walk was started with, and only the first visit, that
/// of the value itself, has that very trail.
pub proof fn law_trails_extend(value: Value, trail: Seq<Segment>, p: int)
    requires
        0 <= p < walk(value, trail).len(),
    ensures
        extends(walk(value, trail)[p].trail, trail),
        p > 0 ==> walk(value, trail)[p].trail.len() > trail.len(),
        p == 0 ==> walk(value, trail)[p].trail == trail,
{
    lemma_walk_within(value, trail);
    if p > 0 {
        assert(walk(value, trail)[p] == walk_inside(value, trail)[p - 1]);
    }
}

proof fn lemma_items_prefix(items: Seq<Value>, label: Label, trail: Seq<Segment>, fewer: nat, upto: nat)
    requires
        fewer <= upto <= items.len(),
    ensures
        walk_items(items, label, trail, fewer).is_prefix_of(walk_items(items, label, trail, upto)),
    decreases upto,
{
    if fewer < upto {
        lemma_items_prefix(items, label, trail, fewer, (upto - 1) as nat);
    }
}

/// The elements of a container are walked in their order, each after all
/// that is inside its elder siblings: the visits of the element at
/// `position` follow those of the elements before it without a gap, begin
/// with the element itself under the trail of the container and the
/// element's own segment, and are followed at once by those of the next.
pub proof fn law_items_in_order(items: Seq<Value>, label: Label, trail: Seq<Segment>, position: nat)
    requires
        position < items.len(),
    ensures
        ({
            let all = walk_items(items, label, trail, items.len());
            let start = walk_items(items, label, trail, position).len();
            let inside = trail.push(label.segment(position));
            let own = walk(items[position as int], inside);
            &&& own.len() >= 1
            &&& start + own.len() <= all.len()
            &&& all.subrange(start as int, (start + own.len()) as int) == own
            &&& all[start as int] == (Seen { trail: inside, node: items[position as int] })
            &&& walk_items(items, label, trail, position + 1).len() == start + own.len()
        }),
{
    let all = walk_items(items, label, trail, items.len());
    let before = walk_items(items, label, trail, position);
    let own = walk(items[position as int], trail.push(label.segment(position)));
    lemma_items_prefix(items, label, trail, position + 1, items.len());
    assert(walk_items(items, label, trail, position + 1) == before + own);
    let next = before + own;
    assert(next.len() <= all.len() && next == all.subrange(0, next.len() as int));
    assert forall|k: int| 0 <= k < own.len() implies all[before.len() + k] == own[k] by {
        assert(all.subrange(0, next.len() as int)[before.len() + k] == next[before.len() + k]);
    }
    assert(all.subrange(before.len() as int, (before.len() + own.len()) as int) =~= own);
    assert(all[before.len() as int] == (before + own)[before.len() as int]);
}

proof fn lemma_items_locate(items: Seq<Value>, label: Label, trail: Seq<Segment>, upto: nat, at: int) -> (position:
    nat)
    requires
        upto <= items.len(),
        0 <= at < walk_items(items, label, trail, upto).len(),
    ensures
        position < upto,
        walk_items(items, label, trail, position).len() <= at < walk_items(
            items,
            label,
            trail,
            position + 1,
        ).len(),
        walk_items(items, label, trail, upto)[at] == walk(
            items[position as int],
            trail.push(label.segment(position)),
        )[at - walk_items(items, label, trail, position).len()],
    decreases upto,
{
    let before = walk_items(items, label, trail, (upto - 1) as nat);
    if at < before.len() {
        lemma_items_locate(items, label, trail, (upto - 1) as nat, at)
    } else {
        (upto - 1) as nat
    }
}

/// Each element of a container is visited once: a visit of the walk through
/// the elements that lies right below the container is the visit of one of
/// the elements, at the place where the visits of that element begin.
pub proof fn law_each_item_once(items: Seq<Value>, label: Label, trail: Seq<Segment>, at: int) -> (position:
    nat)
    requires
        0 <= at < walk_items(items, label, trail, items.len()).len(),
        walk_items(items, label, trail, items.len())[at].trail.len() == trail.len() + 1,
    ensures
        position < items.len(),
        at == walk_items(items, label, trail, position).len(),
        walk_items(items, label, trail, items.len())[at] == (Seen {
            trail: trail.push(label.segment(position)),
            node: items[position as int],
        }),
{
    let position = lemma_items_locate(items, label, trail, items.len(), at);
    let inside = trail.push(label.segment(position));
    let start = walk_items(items, label, trail, position).len();
    law_trails_extend(items[position as int], inside, at - start);
    position
}

proof fn lemma_named_prefix(fields: Seq<NamedValue>, trail: Seq<Segment>, fewer: nat, upto: nat)
    requires
        fewer <= upto <= fields.len(),
    ensures
        walk_named(fields, trail, fewer).is_prefix_of(walk_named(fields, trail, upto)),
    decreases upto,
{
    if fewer < upto {
        lemma_named_prefix(fields, trail, fewer, (upto - 1) as nat);
    }
}

/// Named fields are walked in the order of their declaration, each after
/// all that is inside the fields before it: the visits of the field at
/// `position` follow those of the fields before it without a gap, begin with
/// the field's value under the given trail and the field's name, and are
/// followed at once by those of the next field.
pub proof fn law_named_in_order(fields: Seq<NamedValue>, trail: Seq<Segment>, position: nat)
    requires
        position < fields.len(),
    ensures
        ({
            let all = walk_named(fields, trail, fields.len());
            let start = walk_named(fields, trail, position).len();
            let inside = trail.push(Segment::Field(fields[position as int].name@));
            let own = walk(fields[position as int].value, inside);
            &&& own.len() >= 1
            &&& start + own.len() <= all.len()
            &&& all.subrange(start as int, (start + own.len()) as int) == own
            &&& all[start as int] == (Seen { trail: inside, node: fields[position as int].value })
            &&& walk_named(fields, trail, position + 1).len() == start + own.len()
        }),
{
    let all = walk_named(fields, trail, fields.len());
    let before = walk_named(fields, trail, position);
    let own = walk(fields[position as int].value, trail.push(Segment::Field(fields[position as int].name@)));
    lemma_named_prefix(fields, trail, position + 1, fields.len());
    assert(walk_named(fields, trail, position + 1) == before + own);
    let next = before + own;
    assert(next.len() <= all.len() && next == all.subrange(0, next.len() as int));
    assert forall|k: int| 0 <= k < own.len() implies all[before.len() + k] == own[k] by {
        assert(all.subrange(0, next.len() as int)[before.len() + k] == next[before.len() + k]);
    }
    assert(all.subrange(before.len() as int, (before.len() + own.len()) as int) =~= own);
    assert(all[before.len() as int] == (before + own)[before.len() as int]);
}

proof fn lemma_named_locate(fields: Seq<NamedValue>, trail: Seq<Segment>, upto: nat, at: int) -> (position:
    nat)
    requires
        upto <= fields.len(),
        0 <= at < walk_named(fields, trail, upto).len(),
    ensures
        position < upto,
        walk_named(fields, trail, position).len() <= at < walk_named(
            fields,
            trail,
            position + 1,
        ).len(),
        walk_named(fields, trail, upto)[at] == walk(
            fields[position as int].value,
            trail.push(Segment::Field(fields[position as int].name@)),
        )[at - walk_named(fields, trail, position).len()],
    decreases upto,
{
    let before = walk_named(fields, trail, (upto - 1) as nat);
    if at < before.len() {
        lemma_named_locate(fields, trail, (upto - 1) as nat, at)
    } else {
        (upto - 1) as nat
    }
}

/// Each named field is visited once: a visit of the walk through the fields
/// that lies right below the given trail is the visit of one of the fields,
/// at the place where the visits of that field begin.
pub proof fn law_each_named_once(fields: Seq<NamedValue>, trail: Seq<Segment>, at: int) -> (position:
    nat)
    requires
        0 <= at < walk_named(fields, trail, fields.len()).len(),
        walk_named(fields, trail, fields.len())[at].trail.len() == trail.len() + 1,
    ensures
        position < fields.len(),
        at == walk_named(fields, trail, position).len(),
        walk_named(fields, trail, fields.len())[at] == (Seen {
            trail: trail.push(Segment::Field(fields[position as int].name@)),
            node: fields[position as int].value,
        }),
{
    let position = lemma_named_locate(fields, trail, fields.len(), at);
    let inside = trail.push(Segment::Field(fields[position as int].name@));
    let start = walk_named(fields, trail, position).len();
    law_trails_extend(fields[position as int].value, inside, at - start);
    position
}

proof fn lemma_entries_prefix(entries: Seq<Entry>, trail: Seq<Segment>, fewer: nat, upto: nat)
    requires
        fewer <= upto <= entries.len(),
    ensures
        walk_entries(entries, trail, fewer).is_prefix_of(walk_entries(entries, trail, upto)),
    decreases upto,
{
    if fewer < upto {
        lemma_entries_prefix(entries, trail, fewer, (upto - 1) as nat);
    }
}

/// The values of a map are walked in the order of its entries, each after
/// all that is inside the values before it: the visits of the value at
/// `position` follow those of the values before it without a gap, begin with
/// the value itself under the trail of the map and the rendering of its key,
/// and are followed at once by those of the next value.
pub proof fn law_entries_in_order(entries: Seq<Entry>, trail: Seq<Segment>, position: nat)
    requires
        position < entries.len(),
    ensures
        ({
            let all = walk_entries(entries, trail, entries.len());
            let start = walk_entries(entries, trail, position).len();
            let inside = trail.push(Segment::Index(entries[position as int].key@));
            let own = walk(entries[position as int].value, inside);
            &&& own.len() >= 1
            &&& start + own.len() <= all.len()
            &&& all.subrange(start as int, (start + own.len()) as int) == own
            &&& all[start as int] == (Seen { trail: inside, node: entries[position as int].value })
            &&& walk_entries(entries, trail, position + 1).len() == start + own.len()
        }),
{
    let all = walk_entries(entries, trail, entries.len());
    let before = walk_entries(entries, trail, position);
    let own = walk(entries[position as int].value, trail.push(Segment::Index(entries[position as int].key@)));
    lemma_entries_prefix(entries, trail, position + 1, entries.len());
    assert(walk_entries(entries, trail, position + 1) == before + own);
    let next = before + own;
    assert(next.len() <= all.len() && next == all.subrange(0, next.len() as int));
    assert forall|k: int| 0 <= k < own.len() implies all[before.len() + k] == own[k] by {
        assert(all.subrange(0, next.len() as int)[before.len() + k] == next[before.len() + k]);
    }
    assert(all.subrange(before.len() as int, (before.len() + own.len()) as int) =~= own);
    assert(all[before.len() as int] == (before + own)[before.len() as int]);
}

proof fn lemma_entries_locate(entries: Seq<Entry>, trail: Seq<Segment>, upto: nat, at: int) -> (position:
    nat)
    requires
        upto <= entries.len(),
        0 <= at < walk_entries(entries, trail, upto).len(),
    ensures
        position < upto,
        walk_entries(entries, trail, position).len() <= at < walk_entries(
            entries,
            trail,
            position + 1,
        ).len(),
        walk_entries(entries, trail, upto)[at] == walk(
            entries[position as int].value,
            trail.push(Segment::Index(entries[position as int].key@)),
        )[at - walk_entries(entries, trail, position).len()],
    decreases upto,
{
    let before = walk_entries(entries, trail, (upto - 1) as nat);
    if at < before.len() {
        lemma_entries_locate(entries, trail, (upto - 1) as nat, at)
    } else {
        (upto - 1) as nat
    }
}

/// Each value of a map is visited once: a visit of the walk through the
/// entries that lies right below the map is the visit of the value of one of
/// the entries, at the place where the visits of that value begin.
pub proof fn law_each_value_once(entries: Seq<Entry>, trail: Seq<Segment>, at: int) -> (position:
    nat)
    requires
        0 <= at < walk_entries(entries, trail, entries.len()).len(),
        walk_entries(entries, trail, entries.len())[at].trail.len() == trail.len() + 1,
    ensures
        position < entries.len(),
        at == walk_entries(entries, trail, position).len(),
        walk_entries(entries, trail, entries.len())[at] == (Seen {
            trail: trail.push(Segment::Index(entries[position as int].key@)),
            node: entries[position as int].value,
        }),
{
    let position = lemma_entries_locate(entries, trail, entries.len(), at);
    let inside = trail.push(Segment::Index(entries[position as int].key@));
    let start = walk_entries(entries, trail, position).len();
    law_trails_extend(entries[position as int].value, inside, at - start);
    position
}

/// Fields are walked in the order of their declaration, each after all that
/// is inside the fields before it: the visits of the field at `position`
/// follow those of the fields before it without a gap, begin with the
/// field's value under the given trail and the field's name or position, and
/// are followed at once by those of the next field.
pub proof fn law_fields_in_order(fields: Fields, trail: Seq<Segment>, position: nat)
    requires
        position < fields.count(),
    ensures
        ({
            let all = walk_fields(fields, trail);
            let start = walk_fields_upto(fields, trail, position).len();
            let inside = trail.push(fields.segment_at(position as int));
            let own = walk(fields.value_at(position as int), inside);
            &&& own.len() >= 1
            &&& start + own.len() <= all.len()
            &&& all.subrange(start as int, (start + own.len()) as int) == own
            &&& all[start as int] == (Seen { trail: inside, node: fields.value_at(position as int) })
            &&& walk_fields_upto(fields, trail, position + 1).len() == start + own.len()
        }),
{
    match fields {
        Fields::Unit => {},
        Fields::Named(named) => law_named_in_order(named@, trail, position),
        Fields::Unnamed(slots) => law_items_in_order(slots@, Label::TupleIndex, trail, position),
    }
}

/// A walk through a struct visits the struct itself, then its fields in the
/// order of their declaration: the visits of the field at `position` begin
/// right behind those of the fields before it, with the field's value under
/// a trail that is the struct's own and one segment more, the field's name
/// or position.
pub proof fn law_struct_fields_in_order(fields: Fields, trail: Seq<Segment>, position: nat)
    requires
        position < fields.count(),
    ensures
        ({
            let visits = walk(Value::Struct(fields), trail);
            let start = 1 + walk_fields_upto(fields, trail, position).len();
            let inside = trail.push(fields.segment_at(position as int));
            let own = walk(fields.value_at(position as int), inside);
            &&& visits[0] == (Seen { trail, node: Value::Struct(fields) })
            &&& inside.len() == trail.len() + 1
            &&& start + own.len() <= visits.len()
            &&& visits.subrange(start as int, (start + own.len()) as int) == own
            &&& visits[start as int] == (Seen { trail: inside, node: fields.value_at(position as int) })
            &&& 1 + walk_fields_upto(fields, trail, position + 1).len() == start + own.len()
        }),
{
    law_fields_in_order(fields, trail, position);
    let visits = walk(Value::Struct(fields), trail);
    let all = walk_fields(fields, trail);
    let start = walk_fields_upto(fields, trail, position).len();
    let own = walk(fields.value_at(position as int), trail.push(fields.segment_at(position as int)));
    assert(visits =~= seq![Seen { trail, node: Value::Struct(fields) }] + all);
    assert(visits.subrange((1 + start) as int, (1 + start + own.len()) as int) =~= all.subrange(
        start as int,
        (start + own.len()) as int,
    ));
}

/// A walk through an enum visits the enum itself, then the fields of its
/// active variant in the order of their declaration: the visits of the field
/// at `position` begin right behind those of the fields before it, with the
/// field's value under a trail that is the enum's own, then the name of the
/// variant, then the field's name or position.
pub proof fn law_enum_fields_in_order(
    variant: &'static str,
    fields: Fields,
    trail: Seq<Segment>,
    position: nat,
)
    requires
        position < fields.count(),
    ensures
        ({
            let visits = walk(Value::Enum(variant, fields), trail);
            let under = trail.push(Segment::Variant(variant@));
            let start = 1 + walk_fields_upto(fields, under, position).len();
            let inside = under.push(fields.segment_at(position as int));
            let own = walk(fields.value_at(position as int), inside);
            &&& visits[0] == (Seen { trail, node: Value::Enum(variant, fields) })
            &&& start + own.len() <= visits.len()
            &&& visits.subrange(start as int, (start + own.len()) as int) == own
            &&& visits[start as int] == (Seen { trail: inside, node: fields.value_at(position as int) })
            &&& 1 + walk_fields_upto(fields, under, position + 1).len() == start + own.len()
        }),
{
    let under = trail.push(Segment::Variant(variant@));
    law_fields_in_order(fields, under, position);
    let visits = walk(Value::Enum(variant, fields), trail);
    let all = walk_fields(fields, under);
    let start = walk_fields_upto(fields, under, position).len();
    let own = walk(fields.value_at(position as int), under.push(fields.segment_at(position as int)));
    assert(visits =~= seq![Seen { trail, node: Value::Enum(variant, fields) }] + all);
    assert(visits.subrange((1 + start) as int, (1 + start + own.len()) as int) =~= all.subrange(
        start as int,
        (start + own.len()) as int,
    ));
}

/// A walk through an enum visits nothing but the enum itself and what its
/// active variant holds: every visit but the first lies at or below one of
/// the fields of the active variant, under the name of that variant.
pub proof fn law_enum_only_active_variant(
    variant: &'static str,
    fields: Fields,
    trail: Seq<Segment>,
    at: int,
) -> (position: nat)
    requires
        0 < at < walk(Value::Enum(variant, fields), trail).len(),
    ensures
        position < fields.count(),
        extends(
            walk(Value::Enum(variant, fields), trail)[at].trail,
            trail.push(Segment::Variant(variant@)).push(fields.segment_at(position as int)),
        ),
{
    let under = trail.push(Segment::Variant(variant@));
    let visits = walk(Value::Enum(variant, fields), trail);
    assert(visits[at] == walk_fields(fields, under)[at - 1]);
    match fields {
        Fields::Unit => 0,
        Fields::Named(named) => {
            let position = lemma_named_locate(named@, under, named@.len(), at - 1);
            let inside = under.push(Segment::Field(named@[position as int].name@));
            law_trails_extend(
                named@[position as int].value,
                inside,
                at - 1 - walk_named(named@, under, position).len(),
            );
            position
        },
        Fields::Unnamed(slots) => {
            let position = lemma_items_locate(slots@, Label::TupleIndex, under, slots@.len(), at - 1);
            let inside = under.push(Segment::TupleIndex(position));
            law_trails_extend(
                slots@[position as int],
                inside,
                at - 1 - walk_items(slots@, Label::TupleIndex, under, position).len(),
            );
            position
        },
    }
}

/// Whether no two of the entries have keys with the same rendering.
pub open spec fn distinct_keys(entries: Seq<Entry>) -> bool {
    forall|a: int, b: int|
        0 <= a < entries.len() && 0 <= b < entries.len() && a != b ==> (#[trigger] entries[a]).key@
            != (#[trigger] entries[b]).key@
}

/// Each entry of a map is visited exactly once: where no two keys have the
/// same rendering, the walk through the map makes one visit, and no other,
/// under the trail of the map and the rendering of the entry's key, and that
/// visit is of the entry's value.
pub proof fn law_each_entry_once(entries: Vec<Entry>, trail: Seq<Segment>, position: nat)
    requires
        position < entries@.len(),
        distinct_keys(entries@),
    ensures
        ({
            let visits = walk(Value::MapOf(entries), trail);
            let target = trail.push(Segment::Index(entries@[position as int].key@));
            let at = 1 + walk_entries(entries@, trail, position).len();
            &&& at < visits.len()
            &&& visits[at as int] == (Seen { trail: target, node: entries@[position as int].value })
            &&& forall|other: int|
                0 <= other < visits.len() && (#[trigger] visits[other]).trail == target ==> other == at
        }),
{
    let visits = walk(Value::MapOf(entries), trail);
    let all = walk_entries(entries@, trail, entries@.len());
    let target = trail.push(Segment::Index(entries@[position as int].key@));
    let at = 1 + walk_entries(entries@, trail, position).len();
    law_entries_in_order(entries@, trail, position);
    assert(visits =~= seq![Seen { trail, node: Value::MapOf(entries) }] + all);
    assert forall|other: int| 0 <= other < visits.len() && (#[trigger] visits[other]).trail
        == target implies other == at by {
        if other > 0 {
            assert(visits[other] == all[other - 1]);
            let found = law_each_value_once(entries@, trail, other - 1);
            let reached = trail.push(Segment::Index(entries@[found as int].key@));
            assert(reached[trail.len() as int] == target[trail.len() as int]);
        }
    }
}

} // verus!
