//! The values that can be walked: a closed union of leaf values, container
//! shapes and declared types.

use vstd::prelude::*;
use crate::path::Segment;

verus! {

/// A field of a struct or of an enum variant, under its declared name.
#[derive(PartialEq, Eq, Debug)]
pub struct NamedValue {
    pub name: &'static str,
    pub value: Value,
}

/// An entry of a map: the rendering of its key, and its value.
#[derive(PartialEq, Eq, Debug)]
pub struct Entry {
    pub key: String,
    pub value: Value,
}

/// The fields of a struct or of the active variant of an enum, in the order
/// of their declaration.
#[derive(PartialEq, Eq, Debug)]
pub enum Fields {
    /// No fields at all.
    Unit,
    /// Fields that are declared with names.
    Named(Vec<NamedValue>),
    /// Fields that are declared by position.
    Unnamed(Vec<Value>),
}

/// A value, together with everything reachable inside it.
///
/// A node handed out by a walk is always one of these, so a caller finds out
/// what it holds by matching on it: a variant that is not the expected one is
/// an ordinary outcome.
#[derive(PartialEq, Eq, Debug)]
pub enum Value {
    Bool(bool),
    Char(char),
    U8(u8),
    U16(u16),
    U32(u32),
    U64(u64),
    U128(u128),
    Usize(usize),
    I8(i8),
    I16(i16),
    I32(i32),
    I64(i64),
    I128(i128),
    Isize(isize),
    /// A single-precision number, as its bit pattern.
    Single(u32),
    /// A double-precision number, as its bit pattern.
    Double(u64),
    /// A text that is part of the program.
    Str(&'static str),
    /// An owned text.
    Text(String),
    /// A sequence of fixed length.
    Array(Vec<Value>),
    /// The slots of a tuple.
    Tuple(Vec<Value>),
    /// A value that may be absent.
    Optional(Option<Box<Value>>),
    /// A success or a failure.
    Outcome(Result<Box<Value>, Box<Value>>),
    /// A sequence, in the order of its iteration.
    List(Vec<Value>),
    /// The members of a set, in the order of its iteration.
    SetOf(Vec<Value>),
    /// The entries of a map, in the order of its iteration.
    MapOf(Vec<Entry>),
    /// A value of a declared struct.
    Struct(Fields),
    /// A value of a declared enum: the name of its active variant, and that
    /// variant's fields.
    Enum(&'static str, Fields),
    /// A dynamically tagged value: the name of the kind it is of, and what it
    /// holds, if that kind holds anything.
    Tagged(&'static str, Option<Box<Value>>),
}

impl Fields {
    /// The number of fields.
    pub open spec fn count(self) -> nat {
        match self {
            Fields::Unit => 0,
            Fields::Named(fields) => fields@.len(),
            Fields::Unnamed(slots) => slots@.len(),
        }
    }

    /// The value of the field at `position`.
    pub open spec fn value_at(self, position: int) -> Value
        recommends
            0 <= position < self.count(),
    {
        match self {
            Fields::Named(fields) => fields@[position].value,
            Fields::Unnamed(slots) => slots@[position],
            Fields::Unit => arbitrary(),
        }
    }

    /// The segment that leads to the field at `position`: its name, or else
    /// its position.
    pub open spec fn segment_at(self, position: int) -> Segment
        recommends
            0 <= position < self.count(),
    {
        match self {
            Fields::Named(fields) => Segment::Field(fields@[position].name@),
            _ => Segment::TupleIndex(position as nat),
        }
    }
}

impl Value {
    /// Whether nothing is reachable inside this value by its shape alone.
    pub open spec fn is_leaf(self) -> bool {
        match self {
            Value::Array(_) | Value::Tuple(_) | Value::Optional(_) | Value::Outcome(_)
            | Value::List(_) | Value::SetOf(_) | Value::MapOf(_) | Value::Struct(_)
            | Value::Enum(_, _) | Value::Tagged(_, _) => false,
            _ => true,
        }
    }
}

} // verus!
