//! Taking a generated walk: what the steps of an [`Implementation`] visit
//! when they are carried out on a value.

use vstd::prelude::*;
use vstd::string::StringExecFns;
use crate::derive::{
    Access, Arm, ArmView, Body, BodyView, FieldLabel, Implementation, ImplementationView, Visiting,
};
use crate::introspect::{introspect_value, recorded, walk, Seen, Visit};
use crate::path::{Breadcrumb, Breadcrumbs, Segment};
use crate::value::{Fields, NamedValue, Value};

verus! {

/// The position of the first field from `from` on that has the name.
pub open spec fn find_named(fields: Seq<NamedValue>, name: Seq<char>, from: nat) -> Option<nat>
    decreases fields.len() - from,
{
    if from >= fields.len() {
        None
    } else if fields[from as int].name@ == name {
        Some(from)
    } else {
        find_named(fields, name, from + 1)
    }
}

/// The value of the field that has the name, if there is one.
pub open spec fn named_field(fields: Fields, name: Seq<char>) -> Option<Value> {
    match fields {
        Fields::Named(named) => match find_named(named@, name, 0) {
            Some(position) => Some(named@[position as int].value),
            None => None,
        },
        _ => None,
    }
}

/// The value of the positional field at `position`, if there is one.
pub open spec fn positional_field(fields: Fields, position: nat) -> Option<Value> {
    match fields {
        Fields::Unnamed(slots) => if position < slots@.len() {
            Some(slots@[position as int])
        } else {
            None
        },
        _ => None,
    }
}

/// What a step finds to walk in the fields of a value, if it finds anything:
/// a field of the value by its name or position, or what the pattern of the
/// step's arm has bound under the binding's name, or else at its position.
pub open spec fn held(step: Visiting, arm: Option<ArmView>, fields: Fields) -> Option<Value> {
    match step.access {
        Access::Named(name) => named_field(fields, name@),
        Access::Position(position) => positional_field(fields, position as nat),
        Access::Binding(binding) => match arm {
            Some(arm) => if binding < arm.bindings.len() {
                if arm.named {
                    named_field(fields, arm.bindings[binding as int])
                } else {
                    positional_field(fields, binding as nat)
                }
            } else {
                None
            },
            None => None,
        },
    }
}

/// The trail under which a step walks what it has found: the given trail,
/// then the name of the variant, where the step has one, then the name or
/// the position of the field.
pub open spec fn step_trail(step: Visiting, trail: Seq<Segment>) -> Seq<Segment> {
    let under = match step.variant {
        Some(variant) => trail.push(Segment::Variant(variant@)),
        None => trail,
    };
    match step.label {
        FieldLabel::Name(name) => under.push(Segment::Field(name@)),
        FieldLabel::Position(position) => under.push(Segment::TupleIndex(position as nat)),
    }
}

/// Where the steps begin their walks, one after the other: `None` where one
/// of them finds nothing to walk.
pub open spec fn roots(steps: Seq<Visiting>, arm: Option<ArmView>, fields: Fields, trail: Seq<Segment>) -> Option<
    Seq<Seen>,
> {
    if forall|i: int| 0 <= i < steps.len() ==> held(#[trigger] steps[i], arm, fields).is_some() {
        Some(
            Seq::new(
                steps.len(),
                |i: int|
                    Seen { trail: step_trail(steps[i], trail), node: held(steps[i], arm, fields).unwrap() },
            ),
        )
    } else {
        None
    }
}

/// The visits of the walks that begin at the first `upto` of the roots, one
/// walk after the other.
pub open spec fn walk_roots(roots: Seq<Seen>, upto: nat) -> Seq<Seen>
    decreases upto,
{
    if upto == 0 || upto > roots.len() {
        Seq::<Seen>::empty()
    } else {
        walk_roots(roots, (upto - 1) as nat) + walk(roots[upto - 1].node, roots[upto - 1].trail)
    }
}

/// The first arm from `from` on that is for the variant of that name.
pub open spec fn find_arm(arms: Seq<ArmView>, variant: Seq<char>, from: nat) -> Option<ArmView>
    decreases arms.len() - from,
{
    if from >= arms.len() {
        None
    } else if arms[from as int].variant@ == variant {
        Some(arms[from as int])
    } else {
        find_arm(arms, variant, from + 1)
    }
}

/// The visits that a generated walk makes on a value: the value itself,
/// then, for a struct, what its steps find, and for an enum, what the steps
/// of the arm for the active variant find, or nothing more where no arm is
/// for that variant. `None` where the walk cannot be taken on the value: the
/// value is not of the kind that the walk is for, the arm's pattern does not
/// bind as many fields as the value has, or a step finds nothing to walk.
pub open spec fn replayed(implementation: ImplementationView, value: Value, trail: Seq<Segment>) -> Option<
    Seq<Seen>,
> {
    let first = seq![Seen { trail, node: value }];
    match (implementation.body, value) {
        (BodyView::Struct(steps), Value::Struct(fields)) => match roots(steps, None, fields, trail) {
            Some(roots) => Some(first + walk_roots(roots, roots.len())),
            None => None,
        },
        (BodyView::Enum(arms), Value::Enum(variant, fields)) => match find_arm(arms, variant@, 0) {
            Some(arm) => if arm.bindings.len() == fields.count() {
                match roots(arm.steps, Some(arm), fields, trail) {
                    Some(roots) => Some(first + walk_roots(roots, roots.len())),
                    None => None,
                }
            } else {
                None
            },
            None => Some(first),
        },
        _ => None,
    }
}

fn same_text(left: &str, right: &str) -> (same: bool)
    ensures
        same == (left@ == right@),
{
    String::from_str(left) == String::from_str(right)
}

#[verifier::loop_isolation(false)]
fn field_named<'a>(fields: &'a Fields, name: &str) -> (value: Option<&'a Value>)
    ensures
        match value {
            Some(value) => named_field(*fields, name@) == Some(*value),
            None => named_field(*fields, name@).is_none(),
        },
{
    match fields {
        Fields::Named(named) => {
            let mut index: usize = 0;
            while index < named.len()
                invariant
                    index <= named@.len(),
                    find_named(named@, name@, 0) == find_named(named@, name@, index as nat),
                decreases named@.len() - index,
            {
                if same_text(named[index].name, name) {
                    return Some(&named[index].value);
                }
                index += 1;
            }
            None
        },
        _ => None,
    }
}

fn field_at<'a>(fields: &'a Fields, position: usize) -> (value: Option<&'a Value>)
    ensures
        match value {
            Some(value) => positional_field(*fields, position as nat) == Some(*value),
            None => positional_field(*fields, position as nat).is_none(),
        },
{
    match fields {
        Fields::Unnamed(slots) => if position < slots.len() {
            Some(&slots[position])
        } else {
            None
        },
        _ => None,
    }
}

fn find_held<'a>(step: &Visiting, arm: Option<&Arm>, fields: &'a Fields) -> (value: Option<&'a Value>)
    ensures
        match value {
            Some(value) => held(*step, view_of(arm), *fields) == Some(*value),
            None => held(*step, view_of(arm), *fields).is_none(),
        },
{
    match step.access {
        Access::Named(name) => field_named(fields, name),
        Access::Position(position) => field_at(fields, position),
        Access::Binding(binding) => match arm {
            Some(arm) => {
                if binding < arm.bindings.len() {
                    if arm.named {
                        field_named(fields, arm.bindings[binding].as_str())
                    } else {
                        field_at(fields, binding)
                    }
                } else {
                    None
                }
            },
            None => None,
        },
    }
}

/// The mathematical value of the arm that a step belongs to, if it belongs
/// to one.
pub open spec fn view_of(arm: Option<&Arm>) -> Option<ArmView> {
    match arm {
        Some(arm) => Some(arm@),
        None => None,
    }
}

fn trail_of(step: &Visiting, breadcrumbs: &Breadcrumbs) -> (trail: Breadcrumbs)
    ensures
        trail@ == step_trail(*step, breadcrumbs@),
{
    let mut trail = breadcrumbs.clone();
    match step.variant {
        Some(variant) => trail.push_back(Breadcrumb::Variant(variant)),
        None => {},
    }
    match step.label {
        FieldLabel::Name(name) => trail.push_back(Breadcrumb::Field(name)),
        FieldLabel::Position(position) => trail.push_back(Breadcrumb::TupleIndex(position)),
    }
    trail
}

fn find_roots<'a>(steps: &Vec<Visiting>, arm: Option<&Arm>, fields: &'a Fields, breadcrumbs: &Breadcrumbs) -> (found:
    Option<Vec<Visit<'a>>>)
    ensures
        match found {
            Some(found) => roots(steps@, view_of(arm), *fields, breadcrumbs@) == Some(recorded(found@)),
            None => roots(steps@, view_of(arm), *fields, breadcrumbs@).is_none(),
        },
{
    let mut found: Vec<Visit<'a>> = Vec::new();
    let mut index: usize = 0;
    while index < steps.len()
        invariant
            index <= steps@.len(),
            found@.len() == index,
            forall|i: int|
                0 <= i < index ==> held(#[trigger] steps@[i], view_of(arm), *fields).is_some(),
            forall|i: int|
                0 <= i < index ==> (#[trigger] found@[i])@ == (Seen {
                    trail: step_trail(steps@[i], breadcrumbs@),
                    node: held(steps@[i], view_of(arm), *fields).unwrap(),
                }),
        decreases steps@.len() - index,
    {
        match find_held(&steps[index], arm, fields) {
            Some(node) => found.push(Visit { trail: trail_of(&steps[index], breadcrumbs), node }),
            None => {
                return None;
            },
        }
        index += 1;
    }
    assert(recorded(found@) =~= roots(steps@, view_of(arm), *fields, breadcrumbs@).unwrap());
    Some(found)
}

fn introspect_roots<'a>(found: &Vec<Visit<'a>>, visits: &mut Vec<Visit<'a>>)
    ensures
        recorded(final(visits)@) == recorded(old(visits)@) + walk_roots(recorded(found@), found@.len()),
{
    let ghost before = recorded(visits@);
    let mut index: usize = 0;
    assert(recorded(visits@) =~= before + walk_roots(recorded(found@), 0));
    while index < found.len()
        invariant
            index <= found@.len(),
            recorded(visits@) == before + walk_roots(recorded(found@), index as nat),
        decreases found@.len() - index,
    {
        let root = &found[index];
        introspect_value(root.node, root.trail.clone(), visits);
        assert(recorded(found@)[index as int] == root@);
        assert(recorded(visits@) =~= before + walk_roots(recorded(found@), (index + 1) as nat));
        index += 1;
    }
}

fn arm_for<'b>(arms: &'b Vec<Arm>, variant: &str) -> (arm: Option<&'b Arm>)
    ensures
        view_of(arm) == find_arm(arms@.map_values(|arm: Arm| arm@), variant@, 0),
{
    let ghost views = arms@.map_values(|arm: Arm| arm@);
    let mut index: usize = 0;
    while index < arms.len()
        invariant
            index <= arms@.len(),
            views == arms@.map_values(|arm: Arm| arm@),
            find_arm(views, variant@, 0) == find_arm(views, variant@, index as nat),
        decreases arms@.len() - index,
    {
        if same_text(arms[index].variant, variant) {
            assert(views[index as int] == arms@[index as int]@);
            return Some(&arms[index]);
        }
        assert(views[index as int] == arms@[index as int]@);
        index += 1;
    }
    None
}

fn count_fields(fields: &Fields) -> (count: usize)
    ensures
        count == fields.count(),
{
    match fields {
        Fields::Unit => 0,
        Fields::Named(named) => named.len(),
        Fields::Unnamed(slots) => slots.len(),
    }
}

impl Implementation {
    /// Takes this walk on `value`: records the visit of `value` itself under
    /// `breadcrumbs`, then the visits of all that the steps find, behind the
    /// visits that `visits` holds already. Where the walk cannot be taken on
    /// the value, nothing is recorded, and the result is `false`.
    pub fn introspect_from<'a>(&self, value: &'a Value, breadcrumbs: Breadcrumbs, visits: &mut Vec<Visit<'a>>) -> (taken:
        bool)
        ensures
            match replayed(self@, *value, breadcrumbs@) {
                Some(seen) => taken && recorded(final(visits)@) == recorded(old(visits)@) + seen,
                None => !taken && final(visits)@ == old(visits)@,
            },
    {
        let ghost before = recorded(visits@);
        let found = match (&self.body, value) {
            (Body::Struct(steps), Value::Struct(fields)) => find_roots(steps, None, fields, &breadcrumbs),
            (Body::Enum(arms), Value::Enum(variant, fields)) => match arm_for(arms, variant) {
                Some(arm) => {
                    if arm.bindings.len() == count_fields(fields) {
                        find_roots(&arm.steps, Some(arm), fields, &breadcrumbs)
                    } else {
                        None
                    }
                },
                None => Some(Vec::new()),
            },
            _ => None,
        };
        match found {
            Some(found) => {
                let first = Visit { trail: breadcrumbs, node: value };
                assert(recorded(visits@.push(first)) =~= before.push(first@));
                visits.push(first);
                introspect_roots(&found, visits);
                assert(recorded(visits@) =~= before + replayed(self@, *value, breadcrumbs@).unwrap());
                true
            },
            None => false,
        }
    }

    /// Takes this walk on `value` as a root: the trail of `value` itself is
    /// empty.
    pub fn introspect<'a>(&self, value: &'a Value, visits: &mut Vec<Visit<'a>>) -> (taken: bool)
        ensures
            match replayed(self@, *value, Seq::<Segment>::empty()) {
                Some(seen) => taken && recorded(final(visits)@) == recorded(old(visits)@) + seen,
                None => !taken && final(visits)@ == old(visits)@,
            },
    {
        self.introspect_from(value, Breadcrumbs::new(), visits)
    }
}

} // verus!
