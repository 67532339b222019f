use spectacle::introspect::{Introspect, Label, Visit};
use spectacle::value::{Entry, Fields, NamedValue, Value};
use spectacle::{Breadcrumb, Breadcrumbs};

fn walked(value: &Value) -> Vec<(Vec<Breadcrumb>, &Value)> {
    let mut visits: Vec<Visit> = Vec::new();
    value.introspect(&mut visits);
    visits.iter().map(|visit| (visit.trail.to_vec(), visit.node)).collect()
}

fn index(at: &str) -> Breadcrumb {
    Breadcrumb::Index(String::from(at))
}

#[test]
fn every_leaf_is_visited_alone_under_the_empty_trail() {
    let leaves = vec![
        Value::Bool(true),
        Value::Char('x'),
        Value::U8(1),
        Value::U16(2),
        Value::U32(3),
        Value::U64(4),
        Value::U128(5),
        Value::Usize(6),
        Value::I8(-1),
        Value::I16(-2),
        Value::I32(-3),
        Value::I64(-4),
        Value::I128(-5),
        Value::Isize(-6),
        Value::Single(1.5f32.to_bits()),
        Value::Double(2.5f64.to_bits()),
        Value::Str("text"),
        Value::Text(String::from("text")),
    ];
    for leaf in &leaves {
        assert_eq!(walked(leaf), vec![(vec![], leaf)]);
    }
}

#[test]
fn an_option_holds_its_value_under_some() {
    let none = Value::Optional(None);
    assert_eq!(walked(&none), vec![(vec![], &none)]);
    let some = Value::Optional(Some(Box::new(Value::U8(9))));
    assert_eq!(
        walked(&some),
        vec![(vec![], &some), (vec![Breadcrumb::Variant("Some")], &Value::U8(9))]
    );
}

#[test]
fn a_result_holds_its_value_under_ok_or_err() {
    let ok = Value::Outcome(Ok(Box::new(Value::U8(1))));
    assert_eq!(
        walked(&ok),
        vec![(vec![], &ok), (vec![Breadcrumb::Variant("Ok")], &Value::U8(1))]
    );
    let err = Value::Outcome(Err(Box::new(Value::Str("no"))));
    assert_eq!(
        walked(&err),
        vec![(vec![], &err), (vec![Breadcrumb::Variant("Err")], &Value::Str("no"))]
    );
}

#[test]
fn sequences_are_indexed_by_position() {
    let items = || vec![Value::U8(7), Value::U8(8), Value::U8(9)];
    for sequence in [Value::Array(items()), Value::List(items())] {
        assert_eq!(
            walked(&sequence),
            vec![
                (vec![], &sequence),
                (vec![index("0")], &Value::U8(7)),
                (vec![index("1")], &Value::U8(8)),
                (vec![index("2")], &Value::U8(9)),
            ]
        );
    }
    let empty = Value::List(vec![]);
    assert_eq!(walked(&empty), vec![(vec![], &empty)]);
}

#[test]
fn long_sequences_count_in_decimal() {
    let long = Value::List((0..12).map(Value::Usize).collect());
    let visits = walked(&long);
    assert_eq!(visits.len(), 13);
    assert_eq!(visits[10], (vec![index("9")], &Value::Usize(9)));
    assert_eq!(visits[11], (vec![index("10")], &Value::Usize(10)));
    assert_eq!(visits[12], (vec![index("11")], &Value::Usize(11)));
}

#[test]
fn tuples_are_indexed_by_slot() {
    let tuple = Value::Tuple(vec![Value::Bool(false), Value::Char('c')]);
    assert_eq!(
        walked(&tuple),
        vec![
            (vec![], &tuple),
            (vec![Breadcrumb::TupleIndex(0)], &Value::Bool(false)),
            (vec![Breadcrumb::TupleIndex(1)], &Value::Char('c')),
        ]
    );
    let unit = Value::Tuple(vec![]);
    assert_eq!(walked(&unit), vec![(vec![], &unit)]);
}

#[test]
fn set_members_have_no_address() {
    let set = Value::SetOf(vec![Value::U8(3), Value::U8(1)]);
    assert_eq!(
        walked(&set),
        vec![
            (vec![], &set),
            (vec![Breadcrumb::SetMember], &Value::U8(3)),
            (vec![Breadcrumb::SetMember], &Value::U8(1)),
        ]
    );
}

fn ages() -> Value {
    Value::MapOf(vec![
        Entry { key: String::from("\"ann\""), value: Value::U8(30) },
        Entry { key: String::from("\"bob\""), value: Value::U8(40) },
        Entry { key: String::from("\"cyd\""), value: Value::Optional(Some(Box::new(Value::U8(50)))) },
    ])
}

#[test]
fn map_values_are_found_under_their_keys() {
    let map = ages();
    assert_eq!(
        walked(&map),
        vec![
            (vec![], &map),
            (vec![index("\"ann\"")], &Value::U8(30)),
            (vec![index("\"bob\"")], &Value::U8(40)),
            (vec![index("\"cyd\"")], &Value::Optional(Some(Box::new(Value::U8(50))))),
            (vec![index("\"cyd\""), Breadcrumb::Variant("Some")], &Value::U8(50)),
        ]
    );
}

#[test]
fn each_map_entry_is_visited_exactly_once() {
    let map = ages();
    let visits = walked(&map);
    for key in ["\"ann\"", "\"bob\"", "\"cyd\""] {
        let under_key = visits.iter().filter(|(trail, _)| *trail == vec![index(key)]).count();
        assert_eq!(under_key, 1);
    }
}

fn nested() -> Value {
    Value::Struct(Fields::Named(vec![
        NamedValue {
            name: "first",
            value: Value::Enum("Pair", Fields::Unnamed(vec![Value::U8(1), Value::U8(2)])),
        },
        NamedValue { name: "second", value: Value::List(vec![Value::Tuple(vec![Value::U8(3)])]) },
    ]))
}

#[test]
fn parents_come_before_children_and_elder_siblings_first() {
    let value = nested();
    let trails: Vec<_> = walked(&value).into_iter().map(|(trail, _)| trail).collect();
    let first = Breadcrumb::Field("first");
    let second = Breadcrumb::Field("second");
    let pair = Breadcrumb::Variant("Pair");
    assert_eq!(
        trails,
        vec![
            vec![],
            vec![first.clone()],
            vec![first.clone(), pair.clone(), Breadcrumb::TupleIndex(0)],
            vec![first.clone(), pair.clone(), Breadcrumb::TupleIndex(1)],
            vec![second.clone()],
            vec![second.clone(), index("0")],
            vec![second.clone(), index("0"), Breadcrumb::TupleIndex(0)],
        ]
    );
}

#[test]
fn two_walks_make_the_same_visits() {
    let value = nested();
    assert_eq!(walked(&value), walked(&value));
    let again = nested();
    assert_eq!(walked(&value), walked(&again));
}

#[test]
fn a_walk_adds_to_the_visits_that_are_there() {
    let one = Value::U8(1);
    let two = Value::Tuple(vec![Value::U8(2)]);
    let mut visits: Vec<Visit> = Vec::new();
    one.introspect(&mut visits);
    two.introspect(&mut visits);
    assert_eq!(visits.len(), 3);
    assert_eq!(visits[0].node, &one);
    assert_eq!(visits[1].node, &two);
    assert_eq!(visits[2].trail.to_vec(), vec![Breadcrumb::TupleIndex(0)]);
}

#[test]
fn a_tagged_value_holds_its_value_under_its_kind() {
    let bare = Value::Tagged("Null", None);
    assert_eq!(walked(&bare), vec![(vec![], &bare)]);
    let held = Value::Tagged("Bool", Some(Box::new(Value::Bool(true))));
    assert_eq!(
        walked(&held),
        vec![(vec![], &held), (vec![Breadcrumb::Variant("Bool")], &Value::Bool(true))]
    );
}

#[test]
fn labels_give_the_segment_of_a_position() {
    assert_eq!(Label::Index.crumb(12), index("12"));
    assert_eq!(Label::TupleIndex.crumb(12), Breadcrumb::TupleIndex(12));
    assert_eq!(Label::SetMember.crumb(12), Breadcrumb::SetMember);
}

#[test]
fn siblings_do_not_see_each_others_segments() {
    let mut root = Breadcrumbs::new();
    root.push_back(Breadcrumb::Field("root"));
    let value = Value::Tuple(vec![Value::U8(1), Value::U8(2)]);
    let mut visits: Vec<Visit> = Vec::new();
    value.introspect_from(root.clone(), &mut visits);
    assert_eq!(root.to_vec(), vec![Breadcrumb::Field("root")]);
    assert_eq!(
        visits[1].trail.to_vec(),
        vec![Breadcrumb::Field("root"), Breadcrumb::TupleIndex(0)]
    );
    assert_eq!(
        visits[2].trail.to_vec(),
        vec![Breadcrumb::Field("root"), Breadcrumb::TupleIndex(1)]
    );
}
