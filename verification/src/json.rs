//! Dynamically tagged values in the shape of JSON, and how they are walked:
//! a value of one of the kinds that hold something is visited itself, then
//! what it holds, under the name of the kind.

use vstd::prelude::*;
use crate::value::{Entry, Value};

verus! {

/// A JSON number.
#[derive(Clone, Copy, PartialEq, Eq, Structural, Debug)]
pub enum Number {
    /// A number that is not negative.
    PosInt(u64),
    /// A negative number.
    NegInt(i64),
    /// A number with a fraction or an exponent, as the bit pattern of its
    /// double-precision form.
    Float(u64),
}

/// A member of a JSON object.
#[derive(PartialEq, Eq, Debug)]
pub struct Member {
    pub key: String,
    pub value: Json,
}

/// A JSON value.
#[derive(PartialEq, Eq, Debug)]
pub enum Json {
    Null,
    Bool(bool),
    Number(Number),
    Text(String),
    Array(Vec<Json>),
    Object(Vec<Member>),
}

/// The leaf that stands for a number.
pub open spec fn number_leaf(number: Number) -> Value {
    match number {
        Number::PosInt(n) => Value::U64(n),
        Number::NegInt(n) => Value::I64(n),
        Number::Float(bits) => Value::Double(bits),
    }
}

/// Whether `value` is the form in which `json` is walked: tagged with the
/// name of its kind, and holding, for a truth value, a number or a text,
/// that leaf; for an array, the list of its elements in their order; for an
/// object, a map with an entry for each member, in their order, under the
/// member's key as it is; and for null, nothing.
pub open spec fn represents(value: Value, json: Json) -> bool
    decreases json,
{
    match json {
        Json::Null => value matches Value::Tagged(kind, None) && kind@ == "Null"@,
        Json::Bool(truth) => value matches Value::Tagged(kind, Some(held)) && kind@ == "Bool"@
            && *held == Value::Bool(truth),
        Json::Number(number) => value matches Value::Tagged(kind, Some(held)) && kind@ == "Number"@
            && *held == number_leaf(number),
        Json::Text(text) => value matches Value::Tagged(kind, Some(held)) && kind@ == "String"@
            && (*held matches Value::Text(copy) && copy@ == text@),
        Json::Array(items) => value matches Value::Tagged(kind, Some(held)) && kind@ == "Array"@
            && (*held matches Value::List(values) && represent_all(values@, items@)),
        Json::Object(members) => value matches Value::Tagged(kind, Some(held)) && kind@ == "Object"@
            && (*held matches Value::MapOf(entries) && represent_members(entries@, members@)),
    }
}

/// Whether the values are the forms of the items, one for one.
pub open spec fn represent_all(values: Seq<Value>, items: Seq<Json>) -> bool
    decreases items,
{
    values.len() == items.len() && forall|i: int|
        0 <= i < items.len() ==> represents(#[trigger] values[i], items[i])
}

/// Whether the entries are the forms of the members, one for one.
pub open spec fn represent_members(entries: Seq<Entry>, members: Seq<Member>) -> bool
    decreases members,
{
    entries.len() == members.len() && forall|i: int|
        0 <= i < members.len() ==> (#[trigger] entries[i]).key@ == members[i].key@ && represents(
            entries[i].value,
            members[i].value,
        )
}

impl Json {
    /// The form in which this value is walked.
    pub fn to_value(&self) -> (value: Value)
        ensures
            represents(value, *self),
        decreases *self,
    {
        match self {
            Json::Null => Value::Tagged("Null", None),
            Json::Bool(truth) => Value::Tagged("Bool", Some(Box::new(Value::Bool(*truth)))),
            Json::Number(number) => {
                let leaf = match number {
                    Number::PosInt(n) => Value::U64(*n),
                    Number::NegInt(n) => Value::I64(*n),
                    Number::Float(bits) => Value::Double(*bits),
                };
                Value::Tagged("Number", Some(Box::new(leaf)))
            },
            Json::Text(text) => Value::Tagged("String", Some(Box::new(Value::Text(text.clone())))),
            Json::Array(items) => Value::Tagged("Array", Some(Box::new(Value::List(values_of(items))))),
            Json::Object(members) => Value::Tagged(
                "Object",
                Some(Box::new(Value::MapOf(entries_of(members)))),
            ),
        }
    }
}

fn values_of(items: &Vec<Json>) -> (values: Vec<Value>)
    ensures
        represent_all(values@, items@),
    decreases items@,
{
    let mut values: Vec<Value> = Vec::new();
    let mut index: usize = 0;
    while index < items.len()
        invariant
            index <= items@.len(),
            values@.len() == index,
            forall|i: int| 0 <= i < index ==> represents(#[trigger] values@[i], items@[i]),
        decreases items@.len() - index,
    {
        values.push(items[index].to_value());
        index += 1;
    }
    values
}

fn entries_of(members: &Vec<Member>) -> (entries: Vec<Entry>)
    ensures
        represent_members(entries@, members@),
    decreases members@,
{
    let mut entries: Vec<Entry> = Vec::new();
    let mut index: usize = 0;
    while index < members.len()
        invariant
            index <= members@.len(),
            entries@.len() == index,
            forall|i: int|
                0 <= i < index ==> (#[trigger] entries@[i]).key@ == members@[i].key@ && represents(
                    entries@[i].value,
                    members@[i].value,
                ),
        decreases members@.len() - index,
    {
        let member = &members[index];
        entries.push(Entry { key: member.key.clone(), value: member.value.to_value() });
        index += 1;
    }
    entries
}

} // verus!
