//! The shape of a type declaration, as far as the generator reads it.

use vstd::prelude::*;

verus! {

/// The form of a field's type.
#[derive(PartialEq, Eq, Debug)]
pub enum Type {
    /// A fixed-size array of the element type.
    Array(Box<Type>),
    /// A slice of the element type.
    Slice(Box<Type>),
    /// A type inside invisible delimiters.
    Group(Box<Type>),
    /// A type inside parentheses.
    Paren(Box<Type>),
    /// A raw pointer to the type.
    Ptr(Box<Type>),
    /// A reference to the type.
    Reference(Box<Type>),
    /// A path; what is kept of it is the identifier of its last segment.
    Path(&'static str),
    /// A tuple of the element types.
    Tuple(Vec<Type>),
    /// Any other form.
    Other,
}

/// A field that is declared with a name.
#[derive(PartialEq, Eq, Debug)]
pub struct NamedField {
    pub ident: &'static str,
    pub ty: Type,
}

/// The fields of a struct or of an enum variant, in the order of their
/// declaration.
#[derive(PartialEq, Eq, Debug)]
pub enum Fields {
    Unit,
    Named(Vec<NamedField>),
    Unnamed(Vec<Type>),
}

impl Fields {
    /// The number of fields.
    pub open spec fn count(self) -> nat {
        match self {
            Fields::Unit => 0,
            Fields::Named(fields) => fields@.len(),
            Fields::Unnamed(types) => types@.len(),
        }
    }

    /// The number of fields.
    pub fn len(&self) -> (count: usize)
        ensures
            count == self.count(),
    {
        match self {
            Fields::Unit => 0,
            Fields::Named(fields) => fields.len(),
            Fields::Unnamed(types) => types.len(),
        }
    }
}

/// A variant of an enum.
#[derive(PartialEq, Eq, Debug)]
pub struct Variant {
    pub ident: &'static str,
    pub fields: Fields,
}

/// A bound on a type parameter.
#[derive(Clone, Copy, PartialEq, Eq, Debug)]
pub enum Bound {
    /// The parameter's values can be walked.
    Introspect,
    /// The parameter's values hold no borrowed data.
    Static,
    /// A bound that the declaration itself states, as it is written there.
    Declared(&'static str),
}

/// A generic parameter of a declaration.
#[derive(PartialEq, Eq, Debug)]
pub enum GenericParam {
    Type { ident: &'static str, bounds: Vec<Bound> },
    Lifetime { ident: &'static str },
    Const { ident: &'static str },
}

impl GenericParam {
    /// The identifier that the parameter takes up.
    pub fn ident(&self) -> (ident: &'static str)
        ensures
            ident == self@.name(),
    {
        match self {
            GenericParam::Type { ident, .. } => *ident,
            GenericParam::Lifetime { ident } => *ident,
            GenericParam::Const { ident } => *ident,
        }
    }
}

/// The mathematical value of a [`GenericParam`].
pub enum ParamView {
    Type { ident: &'static str, bounds: Seq<Bound> },
    Lifetime { ident: &'static str },
    Const { ident: &'static str },
}

impl View for GenericParam {
    type V = ParamView;

    open spec fn view(&self) -> ParamView {
        match *self {
            GenericParam::Type { ident, bounds } => ParamView::Type { ident, bounds: bounds@ },
            GenericParam::Lifetime { ident } => ParamView::Lifetime { ident },
            GenericParam::Const { ident } => ParamView::Const { ident },
        }
    }
}

impl ParamView {
    /// The identifier that the parameter takes up.
    pub open spec fn name(self) -> &'static str {
        match self {
            ParamView::Type { ident, .. } => ident,
            ParamView::Lifetime { ident } => ident,
            ParamView::Const { ident } => ident,
        }
    }
}

/// The generic parameters of a declaration, in the order of their declaration.
#[derive(PartialEq, Eq, Debug)]
pub struct Generics {
    pub params: Vec<GenericParam>,
}

impl View for Generics {
    type V = Seq<ParamView>;

    open spec fn view(&self) -> Seq<ParamView> {
        self.params@.map_values(|param: GenericParam| param@)
    }
}

/// What a declaration declares.
#[derive(PartialEq, Eq, Debug)]
pub enum Data {
    Struct(Fields),
    Enum(Vec<Variant>),
    Union,
}

/// A type declaration.
#[derive(PartialEq, Eq, Debug)]
pub struct DeriveInput {
    pub ident: &'static str,
    pub generics: Generics,
    pub data: Data,
}

} // verus!
