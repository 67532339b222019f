//! The generator: from the shape of a type declaration to the walk through
//! the values of that type.

use vstd::prelude::*;
use vstd::string::StringExecFns;
use crate::shape::{
    Bound, Data, DeriveInput, Fields, GenericParam, Generics, ParamView, Type, Variant,
};
use crate::text::{decimal, decimal_text, lowercase_text, numbered, to_lowercase};

verus! {

/// Why no walk can be generated for a declaration.
#[derive(Clone, Copy, PartialEq, Eq, Structural, Debug)]
pub enum DeriveError {
    /// The declaration is a union: its fields overlap, and which of them
    /// holds a value is not recorded.
    UnsupportedUnion,
    /// Every name that could be given to the visitor's type is taken by a
    /// generic parameter of the declaration.
    NoUnusedTypeParameter,
    /// A positional field has a type from which no name can be formed.
    UnrecognizedFieldType,
}

impl DeriveError {
    /// The diagnostic that is shown at the declaration.
    pub fn message(&self) -> (text: &'static str)
        ensures
            text@ == match *self {
                DeriveError::UnsupportedUnion => "Spectacle can only be derived for structs and enums"@,
                DeriveError::NoUnusedTypeParameter => "could not generate an appropriate unused type parameter"@,
                DeriveError::UnrecognizedFieldType => "cannot create appropriate type variable for this type"@,
            },
    {
        match self {
            DeriveError::UnsupportedUnion => "Spectacle can only be derived for structs and enums",
            DeriveError::NoUnusedTypeParameter => "could not generate an appropriate unused type parameter",
            DeriveError::UnrecognizedFieldType => "cannot create appropriate type variable for this type",
        }
    }

    /// What the author of the declaration can do about it, where there is
    /// something.
    pub fn help(&self) -> (text: Option<&'static str>)
        ensures
            match *self {
                DeriveError::NoUnusedTypeParameter => text.is_some() && text.unwrap()@
                    == "consider removing the type parameter F from your list of generic parameters"@,
                _ => text.is_none(),
            },
    {
        match self {
            DeriveError::NoUnusedTypeParameter => Some(
                "consider removing the type parameter F from your list of generic parameters",
            ),
            _ => None,
        }
    }
}

/// A type parameter with the two bounds that let its values be walked,
/// behind those that it has; any other parameter as it is.
pub open spec fn with_walk_bounds(param: ParamView) -> ParamView {
    match param {
        ParamView::Type { ident, bounds } => ParamView::Type {
            ident,
            bounds: bounds.push(Bound::Introspect).push(Bound::Static),
        },
        _ => param,
    }
}

/// Adds to every type parameter the bounds that let its values be walked.
pub fn add_trait_bounds(generics: Generics) -> (bounded: Generics)
    ensures
        bounded@ == generics@.map_values(|param: ParamView| with_walk_bounds(param)),
{
    let mut params: Vec<GenericParam> = Vec::new();
    let mut index: usize = 0;
    while index < generics.params.len()
        invariant
            index <= generics.params@.len(),
            params@.len() == index,
            forall|i: int| 0 <= i < index ==> (#[trigger] params@[i])@ == with_walk_bounds(generics.params@[i]@),
        decreases generics.params@.len() - index,
    {
        let param = match &generics.params[index] {
            GenericParam::Type { ident, bounds } => {
                let mut all: Vec<Bound> = Vec::new();
                let mut at: usize = 0;
                while at < bounds.len()
                    invariant
                        at <= bounds@.len(),
                        all@ == bounds@.take(at as int),
                    decreases bounds@.len() - at,
                {
                    all.push(bounds[at]);
                    assert(all@ =~= bounds@.take(at + 1));
                    at += 1;
                }
                assert(all@ =~= bounds@);
                all.push(Bound::Introspect);
                all.push(Bound::Static);
                GenericParam::Type { ident: *ident, bounds: all }
            },
            GenericParam::Lifetime { ident } => GenericParam::Lifetime { ident: *ident },
            GenericParam::Const { ident } => GenericParam::Const { ident: *ident },
        };
        params.push(param);
        index += 1;
    }
    let bounded = Generics { params };
    assert(bounded@ =~= generics@.map_values(|param: ParamView| with_walk_bounds(param)));
    bounded
}

/// The highest probe: the base name is probe 0, and probe `k + 1` is the base
/// name with the number `k` behind it.
pub const PROBES: usize = 254;

/// The name that a probe tries for the visitor's type.
pub open spec fn candidate(probe: nat) -> Seq<char> {
    if probe == 0 {
        "F"@
    } else {
        "F"@ + decimal_text((probe - 1) as nat)
    }
}

/// Whether a generic parameter takes up the name.
pub open spec fn is_used(params: Seq<ParamView>, name: Seq<char>) -> bool {
    exists|i: int| 0 <= i < params.len() && (#[trigger] params[i]).name()@ == name
}

/// The first name, from `probe` on, that no generic parameter takes up.
pub open spec fn unused_candidate(params: Seq<ParamView>, probe: nat) -> Option<Seq<char>>
    decreases PROBES + 1 - probe,
{
    if probe > PROBES {
        None
    } else if !is_used(params, candidate(probe)) {
        Some(candidate(probe))
    } else {
        unused_candidate(params, probe + 1)
    }
}

fn name_is_used(generics: &Generics, name: &String) -> (used: bool)
    ensures
        used == is_used(generics@, name@),
{
    let mut index: usize = 0;
    while index < generics.params.len()
        invariant
            index <= generics.params@.len(),
            forall|i: int| 0 <= i < index ==> (#[trigger] generics@[i]).name()@ != name@,
        decreases generics.params@.len() - index,
    {
        let ident = String::from_str(generics.params[index].ident());
        assert(generics@[index as int] == generics.params@[index as int]@);
        if ident == *name {
            return true;
        }
        index += 1;
    }
    false
}

fn probe_name(probe: usize) -> (name: String)
    ensures
        name@ == candidate(probe as nat),
{
    let base = String::from_str("F");
    if probe == 0 {
        base
    } else {
        base.concat(decimal(probe - 1).as_str())
    }
}

/// Finds a name for the visitor's type that no generic parameter takes up.
pub fn create_generic_ident(generics: &Generics) -> (ident: Result<String, DeriveError>)
    ensures
        match ident {
            Ok(name) => unused_candidate(generics@, 0) == Some(name@),
            Err(error) => error == DeriveError::NoUnusedTypeParameter && unused_candidate(
                generics@,
                0,
            ).is_none(),
        },
{
    let mut probe: usize = 0;
    while probe <= PROBES
        invariant
            probe <= PROBES + 1,
            unused_candidate(generics@, 0) == unused_candidate(generics@, probe as nat),
        decreases PROBES + 1 - probe,
    {
        let name = probe_name(probe);
        if !name_is_used(generics, &name) {
            return Ok(name);
        }
        probe += 1;
    }
    Err(DeriveError::NoUnusedTypeParameter)
}

/// The optional position as a natural number.
pub open spec fn as_nat(position: Option<usize>) -> Option<nat> {
    match position {
        Some(position) => Some(position as nat),
        None => None,
    }
}

/// A name as it stands, or in lower case with a position behind it.
pub open spec fn suffixed(name: Seq<char>, position: Option<nat>) -> Seq<char> {
    match position {
        Some(position) => lowercase_text(name) + decimal_text(position),
        None => name,
    }
}

/// A name with an `s` behind it.
pub open spec fn plural(name: Option<Seq<char>>) -> Option<Seq<char>> {
    match name {
        Some(name) => Some(name + "s"@),
        None => None,
    }
}

/// The name by which a positional field of the given type is bound, if one
/// can be formed. Arrays and slices are named after their element, in the
/// plural; pointers, references and bracketed types after what they lead to;
/// a path after its last segment; a tuple after all its elements.
pub open spec fn type_var_text(ty: Type, position: Option<nat>) -> Option<Seq<char>>
    decreases ty,
{
    match ty {
        Type::Array(elem) => plural(type_var_text(*elem, position)),
        Type::Slice(elem) => plural(type_var_text(*elem, position)),
        Type::Group(elem) => type_var_text(*elem, position),
        Type::Paren(elem) => type_var_text(*elem, position),
        Type::Ptr(elem) => type_var_text(*elem, position),
        Type::Reference(elem) => type_var_text(*elem, position),
        Type::Path(ident) => Some(suffixed(ident@, position)),
        Type::Tuple(elems) => if elems@.len() == 0 {
            None
        } else {
            match tuple_text(elems@, elems@.len()) {
                Some(name) => Some(suffixed(name, position)),
                None => None,
            }
        },
        Type::Other => None,
    }
}

/// The names of the first `upto` element types of a tuple, with `_` between
/// each two, if each of them has a name.
pub open spec fn tuple_text(elems: Seq<Type>, upto: nat) -> Option<Seq<char>>
    decreases elems, upto,
{
    if upto == 0 || upto > elems.len() {
        Some(Seq::<char>::empty())
    } else {
        match (tuple_text(elems, (upto - 1) as nat), type_var_text(elems[upto - 1], None)) {
            (Some(before), Some(name)) => Some(
                if upto == 1 {
                    name
                } else {
                    before + "_"@ + name
                },
            ),
            _ => None,
        }
    }
}

proof fn lemma_tuple_text_fails(elems: Seq<Type>, failed: nat, upto: nat)
    requires
        tuple_text(elems, failed).is_none(),
        failed <= upto <= elems.len(),
    ensures
        tuple_text(elems, upto).is_none(),
    decreases upto,
{
    if failed < upto {
        lemma_tuple_text_fails(elems, failed, (upto - 1) as nat);
    }
}

fn with_suffix(name: String, position: Option<usize>) -> (text: String)
    ensures
        text@ == suffixed(name@, as_nat(position)),
{
    match position {
        Some(position) => numbered(to_lowercase(name.as_str()), position),
        None => name,
    }
}

/// Forms the name by which a positional field of the given type is bound.
pub fn type_var(ty: &Type, position: Option<usize>) -> (name: Result<String, DeriveError>)
    ensures
        match name {
            Ok(text) => type_var_text(*ty, as_nat(position)) == Some(text@),
            Err(error) => error == DeriveError::UnrecognizedFieldType && type_var_text(
                *ty,
                as_nat(position),
            ).is_none(),
        },
    decreases *ty,
{
    match ty {
        Type::Array(elem) => match type_var(elem, position) {
            Ok(text) => Ok(text.concat("s")),
            Err(error) => Err(error),
        },
        Type::Slice(elem) => match type_var(elem, position) {
            Ok(text) => Ok(text.concat("s")),
            Err(error) => Err(error),
        },
        Type::Group(elem) => type_var(elem, position),
        Type::Paren(elem) => type_var(elem, position),
        Type::Ptr(elem) => type_var(elem, position),
        Type::Reference(elem) => type_var(elem, position),
        Type::Path(ident) => Ok(with_suffix(String::from_str(ident), position)),
        Type::Tuple(elems) => {
            if elems.len() == 0 {
                Err(DeriveError::UnrecognizedFieldType)
            } else {
                match tuple_var(elems) {
                    Ok(text) => Ok(with_suffix(text, position)),
                    Err(error) => Err(error),
                }
            }
        },
        Type::Other => Err(DeriveError::UnrecognizedFieldType),
    }
}

fn tuple_var(elems: &Vec<Type>) -> (name: Result<String, DeriveError>)
    ensures
        match name {
            Ok(text) => tuple_text(elems@, elems@.len()) == Some(text@),
            Err(error) => error == DeriveError::UnrecognizedFieldType && tuple_text(
                elems@,
                elems@.len(),
            ).is_none(),
        },
    decreases elems@,
{
    let mut text = String::new();
    let mut index: usize = 0;
    while index < elems.len()
        invariant
            index <= elems@.len(),
            tuple_text(elems@, index as nat) == Some(text@),
        decreases elems@.len() - index,
    {
        match type_var(&elems[index], None) {
            Ok(name) => {
                if index > 0 {
                    text.append("_");
                }
                text.append(name.as_str());
                assert(text@ =~= tuple_text(elems@, (index + 1) as nat).unwrap());
            },
            Err(error) => {
                proof {
                    lemma_tuple_text_fails(elems@, (index + 1) as nat, elems@.len());
                }
                return Err(error);
            },
        }
        index += 1;
    }
    Ok(text)
}

/// Where a generated step finds the value that it walks.
#[derive(Clone, Copy, PartialEq, Eq, Debug)]
pub enum Access {
    /// In the field of that name of the value that is walked.
    Named(&'static str),
    /// In the positional field of that number of the value that is walked.
    Position(usize),
    /// In the binding of that number of the arm that the step belongs to.
    Binding(usize),
}

/// How a generated step tells its field apart on the trail.
#[derive(Clone, Copy, PartialEq, Eq, Debug)]
pub enum FieldLabel {
    /// By the name of the field.
    Name(&'static str),
    /// By the position of the field.
    Position(usize),
}

/// One generated step: the trail is cloned, the clone is extended by the
/// name of the variant, where there is one, and by the label of the field,
/// and the field's value is walked under it.
#[derive(Clone, Copy, PartialEq, Eq, Debug)]
pub struct Visiting {
    pub variant: Option<&'static str>,
    pub label: FieldLabel,
    pub access: Access,
}

/// The generated arm for one variant of an enum: the pattern that binds the
/// variant's fields, and a step for each of them.
#[derive(PartialEq, Eq, Debug)]
pub struct Arm {
    pub variant: &'static str,
    /// Whether the pattern binds the fields by their names, or else by their
    /// positions.
    pub named: bool,
    pub bindings: Vec<String>,
    pub steps: Vec<Visiting>,
}

/// The mathematical value of an [`Arm`].
pub struct ArmView {
    pub variant: &'static str,
    pub named: bool,
    pub bindings: Seq<Seq<char>>,
    pub steps: Seq<Visiting>,
}

impl View for Arm {
    type V = ArmView;

    open spec fn view(&self) -> ArmView {
        ArmView {
            variant: self.variant,
            named: self.named,
            bindings: self.bindings@.map_values(|binding: String| binding@),
            steps: self.steps@,
        }
    }
}

/// What a generated walk does once it has visited the value itself.
#[derive(PartialEq, Eq, Debug)]
pub enum Body {
    /// It takes the steps one after the other.
    Struct(Vec<Visiting>),
    /// It takes the steps of the arm whose variant is the active one; where
    /// no arm is, it is done.
    Enum(Vec<Arm>),
}

/// The mathematical value of a [`Body`].
pub enum BodyView {
    Struct(Seq<Visiting>),
    Enum(Seq<ArmView>),
}

impl View for Body {
    type V = BodyView;

    open spec fn view(&self) -> BodyView {
        match *self {
            Body::Struct(steps) => BodyView::Struct(steps@),
            Body::Enum(arms) => BodyView::Enum(arms@.map_values(|arm: Arm| arm@)),
        }
    }
}

/// A generated walk through the values of a declared type.
#[derive(PartialEq, Eq, Debug)]
pub struct Implementation {
    /// The name of the type.
    pub name: &'static str,
    /// The generic parameters of the type, with the bounds that the walk
    /// needs.
    pub generics: Generics,
    /// The name that stands for the visitor's type.
    pub visitor: String,
    pub body: Body,
}

/// The mathematical value of an [`Implementation`].
pub struct ImplementationView {
    pub name: &'static str,
    pub generics: Seq<ParamView>,
    pub visitor: Seq<char>,
    pub body: BodyView,
}

impl View for Implementation {
    type V = ImplementationView;

    open spec fn view(&self) -> ImplementationView {
        ImplementationView {
            name: self.name,
            generics: self.generics@,
            visitor: self.visitor@,
            body: self.body@,
        }
    }
}

/// What generating gave, with the generated walk as its mathematical value.
pub open spec fn outcome(result: Result<Implementation, DeriveError>) -> Result<
    ImplementationView,
    DeriveError,
> {
    match result {
        Ok(implementation) => Ok(implementation@),
        Err(error) => Err(error),
    }
}

/// The steps for the fields, in the order of their declaration: `None` where
/// the declaration has neither braces nor parentheses.
pub open spec fn field_steps(
    fields: Fields,
    variant: Option<&'static str>,
    access: Seq<Access>,
) -> Option<Seq<Visiting>> {
    match fields {
        Fields::Unit => None,
        Fields::Named(named) => Some(
            Seq::new(
                named@.len(),
                |i: int| Visiting { variant, label: FieldLabel::Name(named@[i].ident), access: access[i] },
            ),
        ),
        Fields::Unnamed(types) => Some(
            Seq::new(
                types@.len(),
                |i: int| Visiting { variant, label: FieldLabel::Position(i as usize), access: access[i] },
            ),
        ),
    }
}

/// Generates a step for each field, in the order of their declaration. The
/// value of the field at a position is found where `access` says at that
/// position.
pub fn recurse_fields(fields: &Fields, variant: Option<&'static str>, access: &Vec<Access>) -> (steps:
    Option<Vec<Visiting>>)
    requires
        access@.len() == fields.count(),
    ensures
        match steps {
            Some(steps) => field_steps(*fields, variant, access@) == Some(steps@),
            None => field_steps(*fields, variant, access@).is_none(),
        },
{
    match fields {
        Fields::Unit => None,
        Fields::Named(named) => {
            let mut steps: Vec<Visiting> = Vec::new();
            let mut index: usize = 0;
            while index < named.len()
                invariant
                    index <= named@.len(),
                    access@.len() == named@.len(),
                    steps@.len() == index,
                    forall|i: int|
                        0 <= i < index ==> #[trigger] steps@[i] == (Visiting {
                            variant,
                            label: FieldLabel::Name(named@[i].ident),
                            access: access@[i],
                        }),
                decreases named@.len() - index,
            {
                steps.push(
                    Visiting {
                        variant,
                        label: FieldLabel::Name(named[index].ident),
                        access: access[index],
                    },
                );
                index += 1;
            }
            assert(steps@ =~= field_steps(*fields, variant, access@).unwrap());
            Some(steps)
        },
        Fields::Unnamed(types) => {
            let mut steps: Vec<Visiting> = Vec::new();
            let mut index: usize = 0;
            while index < types.len()
                invariant
                    index <= types@.len(),
                    access@.len() == types@.len(),
                    steps@.len() == index,
                    forall|i: int|
                        0 <= i < index ==> #[trigger] steps@[i] == (Visiting {
                            variant,
                            label: FieldLabel::Position(i as usize),
                            access: access@[i],
                        }),
                decreases types@.len() - index,
            {
                steps.push(
                    Visiting { variant, label: FieldLabel::Position(index), access: access[index] },
                );
                index += 1;
            }
            assert(steps@ =~= field_steps(*fields, variant, access@).unwrap());
            Some(steps)
        },
    }
}

/// Where the walk through a struct finds each of its fields: in the value
/// itself, under the field's name or position.
pub open spec fn own_access(fields: Fields) -> Seq<Access> {
    match fields {
        Fields::Unit => Seq::<Access>::empty(),
        Fields::Named(named) => Seq::new(named@.len(), |i: int| Access::Named(named@[i].ident)),
        Fields::Unnamed(types) => Seq::new(types@.len(), |i: int| Access::Position(i as usize)),
    }
}

fn field_names(fields: &Fields) -> (access: Vec<Access>)
    ensures
        access@ == own_access(*fields),
{
    let mut access: Vec<Access> = Vec::new();
    match fields {
        Fields::Unit => {},
        Fields::Named(named) => {
            let mut index: usize = 0;
            while index < named.len()
                invariant
                    index <= named@.len(),
                    access@.len() == index,
                    forall|i: int| 0 <= i < index ==> #[trigger] access@[i] == Access::Named(named@[i].ident),
                decreases named@.len() - index,
            {
                access.push(Access::Named(named[index].ident));
                index += 1;
            }
        },
        Fields::Unnamed(types) => {
            let mut index: usize = 0;
            while index < types.len()
                invariant
                    index <= types@.len(),
                    access@.len() == index,
                    forall|i: int| 0 <= i < index ==> #[trigger] access@[i] == Access::Position(i as usize),
                decreases types@.len() - index,
            {
                access.push(Access::Position(index));
                index += 1;
            }
        },
    }
    assert(access@ =~= own_access(*fields));
    access
}

/// The steps of the walk through a struct: one for each field, none for a
/// struct without fields.
pub open spec fn struct_steps(fields: Fields) -> Seq<Visiting> {
    match field_steps(fields, None, own_access(fields)) {
        Some(steps) => steps,
        None => Seq::<Visiting>::empty(),
    }
}

/// The walk through the values of a struct.
pub open spec fn struct_implementation(
    name: &'static str,
    generics: Seq<ParamView>,
    fields: Fields,
) -> Result<ImplementationView, DeriveError> {
    match unused_candidate(generics, 0) {
        Some(visitor) => Ok(
            ImplementationView { name, generics, visitor, body: BodyView::Struct(struct_steps(fields)) },
        ),
        None => Err(DeriveError::NoUnusedTypeParameter),
    }
}

/// Generates the walk through the values of a struct: the value itself, then
/// its fields in the order of their declaration.
pub fn impl_introspect_struct(name: &'static str, generics: Generics, fields: &Fields) -> (result:
    Result<Implementation, DeriveError>)
    ensures
        outcome(result) == struct_implementation(name, generics@, *fields),
{
    let visitor = match create_generic_ident(&generics) {
        Ok(visitor) => visitor,
        Err(error) => {
            return Err(error);
        },
    };
    let access = field_names(fields);
    let steps = match recurse_fields(fields, None, &access) {
        Some(steps) => steps,
        None => Vec::new(),
    };
    Ok(Implementation { name, generics, visitor, body: Body::Struct(steps) })
}

/// The names by which the first `upto` positional fields are bound, if one
/// can be formed for each.
pub open spec fn positional_bindings(types: Seq<Type>, upto: nat) -> Option<Seq<Seq<char>>>
    decreases upto,
{
    if upto == 0 || upto > types.len() {
        Some(Seq::<Seq<char>>::empty())
    } else {
        match (
            positional_bindings(types, (upto - 1) as nat),
            type_var_text(types[upto - 1], Some((upto - 1) as nat)),
        ) {
            (Some(before), Some(name)) => Some(before.push(name)),
            _ => None,
        }
    }
}

proof fn lemma_positional_bindings_fail(types: Seq<Type>, failed: nat, upto: nat)
    requires
        positional_bindings(types, failed).is_none(),
        failed <= upto <= types.len(),
    ensures
        positional_bindings(types, upto).is_none(),
    decreases upto,
{
    if failed < upto {
        lemma_positional_bindings_fail(types, failed, (upto - 1) as nat);
    }
}

/// Where the walk through a variant finds each of its fields: in the
/// bindings of the arm, in their order.
pub open spec fn bound_access(count: nat) -> Seq<Access> {
    Seq::new(count, |i: int| Access::Binding(i as usize))
}

/// The arm for a variant: none for a variant without fields; for one with
/// named fields, bindings under the fields' names; for one with positional
/// fields, bindings under names formed from the fields' types.
pub open spec fn arm_of(variant: Variant) -> Result<Option<ArmView>, DeriveError> {
    match variant.fields {
        Fields::Unit => Ok(None),
        Fields::Named(named) => if named@.len() == 0 {
            Ok(None)
        } else {
            Ok(
                Some(
                    ArmView {
                        variant: variant.ident,
                        named: true,
                        bindings: Seq::new(named@.len(), |i: int| named@[i].ident@),
                        steps: field_steps(
                            variant.fields,
                            Some(variant.ident),
                            bound_access(named@.len()),
                        ).unwrap(),
                    },
                ),
            )
        },
        Fields::Unnamed(types) => if types@.len() == 0 {
            Ok(None)
        } else {
            match positional_bindings(types@, types@.len()) {
                Some(bindings) => Ok(
                    Some(
                        ArmView {
                            variant: variant.ident,
                            named: false,
                            bindings,
                            steps: field_steps(
                                variant.fields,
                                Some(variant.ident),
                                bound_access(types@.len()),
                            ).unwrap(),
                        },
                    ),
                ),
                None => Err(DeriveError::UnrecognizedFieldType),
            }
        },
    }
}

/// The arms for the first `upto` variants, in the order of their
/// declaration.
pub open spec fn variant_arms(variants: Seq<Variant>, upto: nat) -> Result<Seq<ArmView>, DeriveError>
    decreases upto,
{
    if upto == 0 || upto > variants.len() {
        Ok(Seq::<ArmView>::empty())
    } else {
        match variant_arms(variants, (upto - 1) as nat) {
            Ok(before) => match arm_of(variants[upto - 1]) {
                Ok(Some(arm)) => Ok(before.push(arm)),
                Ok(None) => Ok(before),
                Err(error) => Err(error),
            },
            Err(error) => Err(error),
        }
    }
}

proof fn lemma_variant_arms_fail(variants: Seq<Variant>, failed: nat, upto: nat)
    requires
        variant_arms(variants, failed).is_err(),
        failed <= upto <= variants.len(),
    ensures
        variant_arms(variants, upto) == variant_arms(variants, failed),
    decreases upto,
{
    if failed < upto {
        lemma_variant_arms_fail(variants, failed, (upto - 1) as nat);
    }
}

fn bindings_access(count: usize) -> (access: Vec<Access>)
    ensures
        access@ == bound_access(count as nat),
{
    let mut access: Vec<Access> = Vec::new();
    let mut index: usize = 0;
    while index < count
        invariant
            index <= count,
            access@.len() == index,
            forall|i: int| 0 <= i < index ==> #[trigger] access@[i] == Access::Binding(i as usize),
        decreases count - index,
    {
        access.push(Access::Binding(index));
        index += 1;
    }
    assert(access@ =~= bound_access(count as nat));
    access
}

#[verifier::loop_isolation(false)]
fn variant_arm(variant: &Variant) -> (arm: Result<Option<Arm>, DeriveError>)
    ensures
        match arm {
            Ok(Some(arm)) => arm_of(*variant) == Ok::<Option<ArmView>, DeriveError>(Some(arm@)),
            Ok(None) => arm_of(*variant) == Ok::<Option<ArmView>, DeriveError>(None),
            Err(error) => arm_of(*variant) == Err::<Option<ArmView>, DeriveError>(error),
        },
{
    let count = variant.fields.len();
    if count == 0 {
        return Ok(None);
    }
    let mut bindings: Vec<String> = Vec::new();
    let named = match &variant.fields {
        Fields::Unit => false,
        Fields::Named(fields) => {
            let mut index: usize = 0;
            while index < fields.len()
                invariant
                    index <= fields@.len(),
                    bindings@.len() == index,
                    forall|i: int| 0 <= i < index ==> (#[trigger] bindings@[i])@ == fields@[i].ident@,
                decreases fields@.len() - index,
            {
                bindings.push(String::from_str(fields[index].ident));
                index += 1;
            }
            assert(bindings@.map_values(|binding: String| binding@) =~= Seq::new(
                fields@.len(),
                |i: int| fields@[i].ident@,
            ));
            true
        },
        Fields::Unnamed(types) => {
            let mut index: usize = 0;
            while index < types.len()
                invariant
                    index <= types@.len(),
                    positional_bindings(types@, index as nat) == Some(
                        bindings@.map_values(|binding: String| binding@),
                    ),
                decreases types@.len() - index,
            {
                match type_var(&types[index], Some(index)) {
                    Ok(name) => {
                        let ghost before = bindings@.map_values(|binding: String| binding@);
                        bindings.push(name);
                        assert(bindings@.map_values(|binding: String| binding@) =~= before.push(name@));
                    },
                    Err(error) => {
                        proof {
                            lemma_positional_bindings_fail(types@, (index + 1) as nat, types@.len());
                        }
                        return Err(error);
                    },
                }
                index += 1;
            }
            false
        },
    };
    let access = bindings_access(count);
    let steps = match recurse_fields(&variant.fields, Some(variant.ident), &access) {
        Some(steps) => steps,
        None => Vec::new(),
    };
    Ok(Some(Arm { variant: variant.ident, named, bindings, steps }))
}

/// Generates the arms of the walk through an enum: one for each variant that
/// has fields, in the order of their declaration.
pub fn recurse_variants(variants: &Vec<Variant>) -> (arms: Result<Vec<Arm>, DeriveError>)
    ensures
        match arms {
            Ok(arms) => variant_arms(variants@, variants@.len()) == Ok::<Seq<ArmView>, DeriveError>(
                arms@.map_values(|arm: Arm| arm@),
            ),
            Err(error) => variant_arms(variants@, variants@.len()) == Err::<Seq<ArmView>, DeriveError>(
                error,
            ),
        },
{
    let mut arms: Vec<Arm> = Vec::new();
    let mut index: usize = 0;
    assert(arms@.map_values(|arm: Arm| arm@) =~= Seq::<ArmView>::empty());
    while index < variants.len()
        invariant
            index <= variants@.len(),
            variant_arms(variants@, index as nat) == Ok::<Seq<ArmView>, DeriveError>(
                arms@.map_values(|arm: Arm| arm@),
            ),
        decreases variants@.len() - index,
    {
        match variant_arm(&variants[index]) {
            Ok(Some(arm)) => {
                let ghost before = arms@.map_values(|arm: Arm| arm@);
                arms.push(arm);
                assert(arms@.map_values(|arm: Arm| arm@) =~= before.push(arm@));
            },
            Ok(None) => {},
            Err(error) => {
                proof {
                    lemma_variant_arms_fail(variants@, (index + 1) as nat, variants@.len());
                }
                return Err(error);
            },
        }
        index += 1;
    }
    Ok(arms)
}

/// The walk through the values of an enum.
pub open spec fn enum_implementation(
    name: &'static str,
    generics: Seq<ParamView>,
    variants: Seq<Variant>,
) -> Result<ImplementationView, DeriveError> {
    match unused_candidate(generics, 0) {
        Some(visitor) => match variant_arms(variants, variants.len()) {
            Ok(arms) => Ok(ImplementationView { name, generics, visitor, body: BodyView::Enum(arms) }),
            Err(error) => Err(error),
        },
        None => Err(DeriveError::NoUnusedTypeParameter),
    }
}

/// Generates the walk through the values of an enum: the value itself, then
/// the fields of its active variant in the order of their declaration.
pub fn impl_introspect_enum(name: &'static str, generics: Generics, variants: &Vec<Variant>) -> (result:
    Result<Implementation, DeriveError>)
    ensures
        outcome(result) == enum_implementation(name, generics@, variants@),
{
    let visitor = match create_generic_ident(&generics) {
        Ok(visitor) => visitor,
        Err(error) => {
            return Err(error);
        },
    };
    let arms = match recurse_variants(variants) {
        Ok(arms) => arms,
        Err(error) => {
            return Err(error);
        },
    };
    Ok(Implementation { name, generics, visitor, body: Body::Enum(arms) })
}

/// The walk through the values of a declared type. None is generated for a
/// union, for a declaration whose generic parameters leave no name for the
/// visitor's type, or for a variant with a positional field whose type gives
/// no name.
pub open spec fn derived(input: DeriveInput) -> Result<ImplementationView, DeriveError> {
    let generics = input.generics@.map_values(|param: ParamView| with_walk_bounds(param));
    match input.data {
        Data::Struct(fields) => struct_implementation(input.ident, generics, fields),
        Data::Enum(variants) => enum_implementation(input.ident, generics, variants@),
        Data::Union => Err(DeriveError::UnsupportedUnion),
    }
}

/// Generates the walk through the values of a declared type.
pub fn derive_spectacle(input: DeriveInput) -> (result: Result<Implementation, DeriveError>)
    ensures
        outcome(result) == derived(input),
{
    let DeriveInput { ident, generics, data } = input;
    let generics = add_trait_bounds(generics);
    match &data {
        Data::Struct(fields) => impl_introspect_struct(ident, generics, fields),
        Data::Enum(variants) => impl_introspect_enum(ident, generics, variants),
        Data::Union => Err(DeriveError::UnsupportedUnion),
    }
}

/// The name that is found for the visitor's type is the first of the
/// probes that no generic parameter takes up, and none is found only where
/// every probe is taken up.
pub proof fn law_visitor_name_is_first_unused(params: Seq<ParamView>)
    ensures
        match unused_candidate(params, 0) {
            Some(name) => exists|probe: nat|
                probe <= PROBES && name == candidate(probe) && !is_used(params, candidate(probe))
                    && forall|earlier: nat|
                    earlier < probe ==> is_used(params, #[trigger] candidate(earlier)),
            None => forall|probe: nat| probe <= PROBES ==> is_used(params, #[trigger] candidate(probe)),
        },
{
    lemma_unused_candidate_from(params, 0);
}

proof fn lemma_unused_candidate_from(params: Seq<ParamView>, from: nat)
    requires
        from <= PROBES + 1,
    ensures
        match unused_candidate(params, from) {
            Some(name) => exists|probe: nat|
                from <= probe <= PROBES && name == candidate(probe) && !is_used(params, candidate(probe))
                    && forall|earlier: nat|
                    from <= earlier < probe ==> is_used(params, #[trigger] candidate(earlier)),
            None => forall|probe: nat|
                from <= probe <= PROBES ==> is_used(params, #[trigger] candidate(probe)),
        },
    decreases PROBES + 1 - from,
{
    if from > PROBES {
    } else if !is_used(params, candidate(from)) {
        assert(from <= from <= PROBES && candidate(from) == candidate(from) && !is_used(
            params,
            candidate(from),
        ));
    } else {
        lemma_unused_candidate_from(params, from + 1);
        match unused_candidate(params, from) {
            Some(name) => {
                let probe = choose|probe: nat|
                    from + 1 <= probe <= PROBES && name == candidate(probe) && !is_used(
                        params,
                        candidate(probe),
                    ) && forall|earlier: nat|
                        from + 1 <= earlier < probe ==> is_used(params, #[trigger] candidate(earlier));
                assert forall|earlier: nat| from <= earlier < probe implies is_used(
                    params,
                    #[trigger] candidate(earlier),
                ) by {
                    if earlier == from {
                    }
                }
                assert(from <= probe <= PROBES && name == candidate(probe));
            },
            None => {
                assert forall|probe: nat| from <= probe <= PROBES implies is_used(
                    params,
                    #[trigger] candidate(probe),
                ) by {
                    if probe == from {
                    }
                }
            },
        }
    }
}

} // verus!
