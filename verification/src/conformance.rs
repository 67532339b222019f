//! The generated walk through a declared type is the walk through its
//! values.

use vstd::prelude::*;
use crate::derive::{
    arm_of, derived, enum_implementation, positional_bindings, struct_implementation, struct_steps,
    variant_arms, with_walk_bounds, ArmView, DeriveError,
};
use crate::introspect::{walk, walk_fields, walk_items, walk_named, Label, Seen};
use crate::path::Segment;
use crate::replay::{find_arm, find_named, held, replayed, roots, step_trail, walk_roots};
use crate::shape::{Data, DeriveInput, NamedField, ParamView, Variant};
use crate::value::{Fields, NamedValue, Value};

verus! {

/// Whether no two of the declared fields have the same name.
pub open spec fn distinct_fields(declared: Seq<NamedField>) -> bool {
    forall|a: int, b: int|
        0 <= a < declared.len() && 0 <= b < declared.len() && a != b ==> (#[trigger] declared[a]).ident@
            != (#[trigger] declared[b]).ident@
}

/// Whether no two of the declared variants have the same name.
pub open spec fn distinct_variants(declared: Seq<Variant>) -> bool {
    forall|a: int, b: int|
        0 <= a < declared.len() && 0 <= b < declared.len() && a != b ==> (#[trigger] declared[a]).ident@
            != (#[trigger] declared[b]).ident@
}

/// Whether the fields of a value are those that are declared: as many, of
/// the same kind, and, where they have names, under the declared names in
/// the declared order.
pub open spec fn fields_conform(fields: Fields, declared: crate::shape::Fields) -> bool {
    match (fields, declared) {
        (Fields::Unit, crate::shape::Fields::Unit) => true,
        (Fields::Named(values), crate::shape::Fields::Named(names)) => {
            &&& values@.len() == names@.len()
            &&& distinct_fields(names@)
            &&& forall|i: int| 0 <= i < names@.len() ==> (#[trigger] values@[i]).name@ == names@[i].ident@
        },
        (Fields::Unnamed(values), crate::shape::Fields::Unnamed(types)) => values@.len() == types@.len(),
        _ => false,
    }
}

/// Whether a value is of the declared type, as far as its shape shows: a
/// struct value for a struct, with the declared fields; an enum value for an
/// enum, in one of the declared variants and with the fields of that
/// variant.
pub open spec fn conforms(value: Value, input: DeriveInput) -> bool {
    match input.data {
        Data::Struct(declared) => value matches Value::Struct(fields) && fields_conform(fields, declared),
        Data::Enum(variants) => value matches Value::Enum(variant, fields) && distinct_variants(variants@)
            && exists|k: int|
            0 <= k < variants@.len() && (#[trigger] variants@[k]).ident@ == variant@ && fields_conform(
                fields,
                variants@[k].fields,
            ),
        Data::Union => false,
    }
}

proof fn lemma_find_named(values: Seq<NamedValue>, position: nat, from: nat)
    requires
        from <= position < values.len(),
        forall|i: int| from <= i < position ==> (#[trigger] values[i]).name@ != values[position as int].name@,
    ensures
        find_named(values, values[position as int].name@, from) == Some(position),
    decreases position - from,
{
    if from < position {
        assert(values[from as int].name@ != values[position as int].name@);
        lemma_find_named(values, position, from + 1);
    }
}

proof fn lemma_roots_walk_named(values: Seq<NamedValue>, found: Seq<Seen>, trail: Seq<Segment>, upto: nat)
    requires
        found.len() == values.len(),
        forall|i: int|
            0 <= i < values.len() ==> #[trigger] found[i] == (Seen {
                trail: trail.push(Segment::Field(values[i].name@)),
                node: values[i].value,
            }),
        upto <= values.len(),
    ensures
        walk_roots(found, upto) == walk_named(values, trail, upto),
    decreases upto,
{
    if upto > 0 {
        lemma_roots_walk_named(values, found, trail, (upto - 1) as nat);
        assert(found[upto - 1].node == values[upto - 1].value);
    }
}

proof fn lemma_roots_walk_items(values: Seq<Value>, found: Seq<Seen>, trail: Seq<Segment>, upto: nat)
    requires
        found.len() == values.len(),
        forall|i: int|
            0 <= i < values.len() ==> #[trigger] found[i] == (Seen {
                trail: trail.push(Segment::TupleIndex(i as nat)),
                node: values[i],
            }),
        upto <= values.len(),
    ensures
        walk_roots(found, upto) == walk_items(values, Label::TupleIndex, trail, upto),
    decreases upto,
{
    if upto > 0 {
        lemma_roots_walk_items(values, found, trail, (upto - 1) as nat);
        assert(found[upto - 1].node == values[upto - 1]);
    }
}

/// What the steps for the declared fields find in fields that conform, and
/// where they walk it: each step the field that it was generated for.
proof fn lemma_steps_walk_fields(
    fields: Fields,
    declared: crate::shape::Fields,
    arm: Option<ArmView>,
    trail: Seq<Segment>,
)
    requires
        fields_conform(fields, declared),
        declared.count() > 0,
        match arm {
            Some(arm) => arm_of(Variant { ident: arm.variant, fields: declared }) == Ok::<
                Option<ArmView>,
                DeriveError,
            >(Some(arm)),
            None => true,
        },
    ensures
        ({
            let steps = match arm {
                Some(arm) => arm.steps,
                None => struct_steps(declared),
            };
            let under = match arm {
                Some(arm) => trail.push(Segment::Variant(arm.variant@)),
                None => trail,
            };
            &&& roots(steps, arm, fields, trail).is_some()
            &&& walk_roots(roots(steps, arm, fields, trail).unwrap(), steps.len()) == walk_fields(
                fields,
                under,
            )
        }),
{
    let steps = match arm {
        Some(arm) => arm.steps,
        None => struct_steps(declared),
    };
    let under = match arm {
        Some(arm) => trail.push(Segment::Variant(arm.variant@)),
        None => trail,
    };
    match (fields, declared) {
        (Fields::Named(values), crate::shape::Fields::Named(names)) => {
            assert(steps.len() == names@.len());
            assert forall|i: int| 0 <= i < steps.len() implies held(#[trigger] steps[i], arm, fields)
                == Some(values@[i].value) && step_trail(steps[i], trail) == under.push(
                Segment::Field(values@[i].name@),
            ) by {
                assert forall|j: int| 0 <= j < i implies (#[trigger] values@[j]).name@
                    != values@[i].name@ by {
                    assert(names@[j].ident@ != names@[i].ident@);
                }
                lemma_find_named(values@, i as nat, 0);
                assert(values@[i].name@ == names@[i].ident@);
                assert(names.len() == names@.len());
            }
            let found = roots(steps, arm, fields, trail).unwrap();
            lemma_roots_walk_named(values@, found, under, values@.len());
        },
        (Fields::Unnamed(values), crate::shape::Fields::Unnamed(types)) => {
            assert(steps.len() == types@.len());
            assert(values.len() == values@.len());
            match arm {
                Some(arm) => {
                    lemma_positional_bindings_len(types@, types@.len());
                },
                None => {},
            }
            assert forall|i: int| 0 <= i < steps.len() implies held(#[trigger] steps[i], arm, fields)
                == Some(values@[i]) && step_trail(steps[i], trail) == under.push(
                Segment::TupleIndex(i as nat),
            ) by {}
            let found = roots(steps, arm, fields, trail).unwrap();
            lemma_roots_walk_items(values@, found, under, values@.len());
        },
        _ => {},
    }
}

proof fn lemma_positional_bindings_len(types: Seq<crate::shape::Type>, upto: nat)
    requires
        upto <= types.len(),
        positional_bindings(types, upto).is_some(),
    ensures
        positional_bindings(types, upto).unwrap().len() == upto,
    decreases upto,
{
    if upto > 0 {
        lemma_positional_bindings_len(types, (upto - 1) as nat);
    }
}

/// The generated walk through a struct is the walk through its values.
pub proof fn law_struct_walk_conforms(
    name: &'static str,
    generics: Seq<ParamView>,
    declared: crate::shape::Fields,
    fields: Fields,
    trail: Seq<Segment>,
)
    requires
        fields_conform(fields, declared),
        struct_implementation(name, generics, declared).is_ok(),
    ensures
        replayed(struct_implementation(name, generics, declared).unwrap(), Value::Struct(fields), trail)
            == Some(walk(Value::Struct(fields), trail)),
{
    let value = Value::Struct(fields);
    let steps = struct_steps(declared);
    if declared.count() > 0 {
        lemma_steps_walk_fields(fields, declared, None, trail);
    } else {
        let found = roots(steps, None, fields, trail).unwrap();
        assert(walk_fields(fields, trail) =~= Seq::<Seen>::empty());
        assert(walk_roots(found, found.len()) =~= Seq::<Seen>::empty());
    }
    let found = roots(steps, None, fields, trail).unwrap();
    assert(seq![Seen { trail, node: value }] + walk_roots(found, found.len()) =~= walk(value, trail));
}

/// Each generated arm is the arm of one of the variants.
proof fn lemma_arm_source(variants: Seq<Variant>, upto: nat, at: int) -> (source: int)
    requires
        upto <= variants.len(),
        variant_arms(variants, upto).is_ok(),
        0 <= at < variant_arms(variants, upto).unwrap().len(),
    ensures
        0 <= source < upto,
        arm_of(variants[source]) == Ok::<Option<ArmView>, DeriveError>(
            Some(variant_arms(variants, upto).unwrap()[at]),
        ),
    decreases upto,
{
    let before = variant_arms(variants, (upto - 1) as nat).unwrap();
    if at < before.len() {
        lemma_arm_source(variants, (upto - 1) as nat, at)
    } else {
        upto - 1
    }
}

/// The arm of each variant that has one is among the generated arms.
proof fn lemma_arm_kept(variants: Seq<Variant>, upto: nat, source: int) -> (at: int)
    requires
        upto <= variants.len(),
        variant_arms(variants, upto).is_ok(),
        0 <= source < upto,
        arm_of(variants[source]).is_ok(),
        arm_of(variants[source]).unwrap().is_some(),
    ensures
        0 <= at < variant_arms(variants, upto).unwrap().len(),
        variant_arms(variants, upto).unwrap()[at] == arm_of(variants[source]).unwrap().unwrap(),
    decreases upto,
{
    let before = variant_arms(variants, (upto - 1) as nat).unwrap();
    if source < upto - 1 {
        lemma_arm_kept(variants, (upto - 1) as nat, source)
    } else {
        before.len() as int
    }
}

proof fn lemma_find_arm_present(variants: Seq<Variant>, active: int, at: int, from: nat)
    requires
        distinct_variants(variants),
        variant_arms(variants, variants.len()).is_ok(),
        0 <= active < variants.len(),
        from <= at < variant_arms(variants, variants.len()).unwrap().len(),
        arm_of(variants[active]) == Ok::<Option<ArmView>, DeriveError>(
            Some(variant_arms(variants, variants.len()).unwrap()[at]),
        ),
    ensures
        find_arm(variant_arms(variants, variants.len()).unwrap(), variants[active].ident@, from) == Some(
            variant_arms(variants, variants.len()).unwrap()[at],
        ),
    decreases at - from,
{
    let arms = variant_arms(variants, variants.len()).unwrap();
    if from < at {
        let source = lemma_arm_source(variants, variants.len(), from as int);
        if arms[from as int].variant@ == variants[active].ident@ {
            assert(variants[source].ident@ == variants[active].ident@);
        } else {
            lemma_find_arm_present(variants, active, at, from + 1);
        }
    }
}

proof fn lemma_find_arm_absent(variants: Seq<Variant>, active: int, from: nat)
    requires
        distinct_variants(variants),
        variant_arms(variants, variants.len()).is_ok(),
        0 <= active < variants.len(),
        arm_of(variants[active]) == Ok::<Option<ArmView>, DeriveError>(None),
    ensures
        find_arm(variant_arms(variants, variants.len()).unwrap(), variants[active].ident@, from).is_none(),
    decreases variant_arms(variants, variants.len()).unwrap().len() - from,
{
    let arms = variant_arms(variants, variants.len()).unwrap();
    if from < arms.len() {
        let source = lemma_arm_source(variants, variants.len(), from as int);
        if arms[from as int].variant@ == variants[active].ident@ {
            assert(variants[source].ident@ == variants[active].ident@);
        }
        lemma_find_arm_absent(variants, active, from + 1);
    }
}

proof fn lemma_variant_arms_ok(variants: Seq<Variant>, upto: nat, source: int)
    requires
        upto <= variants.len(),
        variant_arms(variants, upto).is_ok(),
        0 <= source < upto,
    ensures
        arm_of(variants[source]).is_ok(),
    decreases upto,
{
    if source < upto - 1 {
        lemma_variant_arms_ok(variants, (upto - 1) as nat, source);
    }
}

/// The generated walk through an enum is the walk through its values.
pub proof fn law_enum_walk_conforms(
    name: &'static str,
    generics: Seq<ParamView>,
    variants: Seq<Variant>,
    active: int,
    variant: &'static str,
    fields: Fields,
    trail: Seq<Segment>,
)
    requires
        distinct_variants(variants),
        0 <= active < variants.len(),
        variants[active].ident@ == variant@,
        fields_conform(fields, variants[active].fields),
        enum_implementation(name, generics, variants).is_ok(),
    ensures
        replayed(
            enum_implementation(name, generics, variants).unwrap(),
            Value::Enum(variant, fields),
            trail,
        ) == Some(walk(Value::Enum(variant, fields), trail)),
{
    let value = Value::Enum(variant, fields);
    let arms = variant_arms(variants, variants.len()).unwrap();
    let declared = variants[active].fields;
    let under = trail.push(Segment::Variant(variant@));
    lemma_variant_arms_ok(variants, variants.len(), active);
    if declared.count() > 0 {
        let arm = arm_of(variants[active]).unwrap().unwrap();
        let at = lemma_arm_kept(variants, variants.len(), active);
        lemma_find_arm_present(variants, active, at, 0);
        assert(variants[active] == (Variant { ident: arm.variant, fields: declared }));
        lemma_steps_walk_fields(fields, declared, Some(arm), trail);
        match declared {
            crate::shape::Fields::Unnamed(types) => lemma_positional_bindings_len(
                types@,
                types@.len(),
            ),
            _ => {},
        }
        assert(arm.bindings.len() == fields.count());
        assert(trail.push(Segment::Variant(arm.variant@)) == under);
        let found = roots(arm.steps, Some(arm), fields, trail).unwrap();
        assert(seq![Seen { trail, node: value }] + walk_roots(found, found.len()) =~= walk(value, trail));
    } else {
        lemma_find_arm_absent(variants, active, 0);
        assert(walk_fields(fields, under) =~= Seq::<Seen>::empty());
        assert(seq![Seen { trail, node: value }] =~= walk(value, trail));
    }
}

/// The generated walk is the walk: on every value of the declared type, the
/// walk that is generated from the declaration makes the visits of the walk
/// through that value, in the same order and under the same trails. For a
/// struct that is the struct itself, then its fields in the order of their
/// declaration; for an enum, the enum itself, then the fields of the active
/// variant, and of no other.
pub proof fn law_generated_walk_is_the_walk(input: DeriveInput, value: Value, trail: Seq<Segment>)
    requires
        conforms(value, input),
        derived(input).is_ok(),
    ensures
        replayed(derived(input).unwrap(), value, trail) == Some(walk(value, trail)),
{
    let generics = input.generics@.map_values(|param: ParamView| with_walk_bounds(param));
    match input.data {
        Data::Struct(declared) => {
            match value {
                Value::Struct(fields) => law_struct_walk_conforms(
                    input.ident,
                    generics,
                    declared,
                    fields,
                    trail,
                ),
                _ => {},
            }
        },
        Data::Enum(variants) => {
            match value {
                Value::Enum(variant, fields) => {
                    let active = choose|k: int|
                        0 <= k < variants@.len() && (#[trigger] variants@[k]).ident@ == variant@
                            && fields_conform(fields, variants@[k].fields);
                    law_enum_walk_conforms(
                        input.ident,
                        generics,
                        variants@,
                        active,
                        variant,
                        fields,
                        trail,
                    );
                },
                _ => {},
            }
        },
        Data::Union => {},
    }
}

} // verus!
