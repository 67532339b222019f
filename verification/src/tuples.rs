//! The walks through tuples, one for each number of slots up to a limit.

use vstd::prelude::*;
use vstd::string::StringExecFns;
use crate::derive::{Access, FieldLabel, Visiting};
use crate::text::{decimal, decimal_text};

verus! {

/// The generated walk through the tuples of one arity: the tuple itself,
/// then its slots in their order.
#[derive(PartialEq, Eq, Debug)]
pub struct TupleImplementation {
    /// The names of the type parameters, one for each slot. Each is bound to
    /// types whose values can be walked and hold no borrowed data.
    pub params: Vec<String>,
    /// A step for each slot.
    pub steps: Vec<Visiting>,
}

/// The mathematical value of a [`TupleImplementation`].
pub struct TupleImplementationView {
    pub params: Seq<Seq<char>>,
    pub steps: Seq<Visiting>,
}

impl View for TupleImplementation {
    type V = TupleImplementationView;

    open spec fn view(&self) -> TupleImplementationView {
        TupleImplementationView {
            params: self.params@.map_values(|param: String| param@),
            steps: self.steps@,
        }
    }
}

/// The name of the type parameter for the slot at `position`.
pub open spec fn slot_param(position: nat) -> Seq<char> {
    "T"@ + decimal_text(position)
}

/// The step for the slot at `position`: the slot's value is walked under
/// the tuple's trail and the slot's position.
pub open spec fn slot_step(position: nat) -> Visiting {
    Visiting {
        variant: None,
        label: FieldLabel::Position(position as usize),
        access: Access::Position(position as usize),
    }
}

/// The walk through the tuples with `arity` slots.
pub open spec fn tuple_implementation(arity: nat) -> TupleImplementationView {
    TupleImplementationView {
        params: Seq::new(arity, |i: int| slot_param(i as nat)),
        steps: Seq::new(arity, |i: int| slot_step(i as nat)),
    }
}

fn impl_tuple(arity: usize) -> (implementation: TupleImplementation)
    ensures
        implementation@ == tuple_implementation(arity as nat),
{
    let mut params: Vec<String> = Vec::new();
    let mut steps: Vec<Visiting> = Vec::new();
    let mut index: usize = 0;
    while index < arity
        invariant
            index <= arity,
            params@.len() == index,
            steps@.len() == index,
            forall|i: int| 0 <= i < index ==> (#[trigger] params@[i])@ == slot_param(i as nat),
            forall|i: int| 0 <= i < index ==> #[trigger] steps@[i] == slot_step(i as nat),
        decreases arity - index,
    {
        params.push(String::from_str("T").concat(decimal(index).as_str()));
        steps.push(
            Visiting {
                variant: None,
                label: FieldLabel::Position(index),
                access: Access::Position(index),
            },
        );
        index += 1;
    }
    let implementation = TupleImplementation { params, steps };
    assert(implementation@.params =~= tuple_implementation(arity as nat).params);
    assert(implementation@.steps =~= tuple_implementation(arity as nat).steps);
    implementation
}

/// Generates the walks through tuples, from the empty tuple to the tuple
/// with `up_to` slots, in the order of their arity.
pub fn impl_tuples(up_to: usize) -> (implementations: Vec<TupleImplementation>)
    requires
        up_to < usize::MAX,
    ensures
        implementations@.len() == up_to + 1,
        forall|arity: int|
            0 <= arity <= up_to ==> (#[trigger] implementations@[arity])@ == tuple_implementation(
                arity as nat,
            ),
{
    let mut implementations: Vec<TupleImplementation> = Vec::new();
    let mut arity: usize = 0;
    while arity <= up_to
        invariant
            up_to < usize::MAX,
            arity <= up_to + 1,
            implementations@.len() == arity,
            forall|done: int|
                0 <= done < arity ==> (#[trigger] implementations@[done])@ == tuple_implementation(
                    done as nat,
                ),
        decreases up_to + 1 - arity,
    {
        implementations.push(impl_tuple(arity));
        arity += 1;
    }
    implementations
}

} // verus!
