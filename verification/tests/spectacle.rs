use spectacle::derive::derive_spectacle;
use spectacle::introspect::{Introspect, Visit};
use spectacle::shape::{Data, DeriveInput, GenericParam, Generics, NamedField, Type, Variant};
use spectacle::value::{Fields, NamedValue, Value};
use spectacle::{Breadcrumb, Breadcrumbs};

fn same_visits(visits: &[Visit], expected: &[(Vec<Breadcrumb>, Value)]) {
    for (idx, visit) in visits.iter().enumerate() {
        assert!(idx < expected.len(), "visited more items than expected");
        assert_eq!(visit.node, &expected[idx].1);
        assert_eq!(visit.trail.to_vec(), expected[idx].0);
    }
    assert_eq!(visits.len(), expected.len(), "visited fewer items than expected");
}

/// Checks that the walk that is generated for `declaration` makes the
/// expected visits on `value`, of the expected nodes under the expected
/// trails, in the expected order, and no others; and that the walk through
/// `value` makes the same.
fn expect_visits(declaration: DeriveInput, value: &Value, expected: Vec<(Vec<Breadcrumb>, Value)>) {
    let generated = derive_spectacle(declaration).unwrap();
    let mut visits: Vec<Visit> = Vec::new();
    assert!(generated.introspect(value, &mut visits));
    same_visits(&visits, &expected);

    let mut visits: Vec<Visit> = Vec::new();
    value.introspect(&mut visits);
    same_visits(&visits, &expected);
}

fn no_generics() -> Generics {
    Generics { params: vec![] }
}

fn one_type_parameter() -> Generics {
    Generics { params: vec![GenericParam::Type { ident: "T", bounds: vec![] }] }
}

fn simple_struct_declaration() -> DeriveInput {
    DeriveInput {
        ident: "SimpleStruct",
        generics: no_generics(),
        data: Data::Struct(spectacle::shape::Fields::Named(vec![
            NamedField { ident: "a", ty: Type::Path("usize") },
            NamedField { ident: "b", ty: Type::Reference(Box::new(Type::Path("str"))) },
        ])),
    }
}

fn unit_enum_declaration() -> DeriveInput {
    DeriveInput {
        ident: "UnitEnum",
        generics: no_generics(),
        data: Data::Enum(vec![
            Variant { ident: "A", fields: spectacle::shape::Fields::Unit },
            Variant { ident: "B", fields: spectacle::shape::Fields::Unit },
            Variant { ident: "C", fields: spectacle::shape::Fields::Unit },
        ]),
    }
}

fn generic_struct_declaration() -> DeriveInput {
    DeriveInput {
        ident: "GenericStruct",
        generics: one_type_parameter(),
        data: Data::Struct(spectacle::shape::Fields::Named(vec![NamedField {
            ident: "t",
            ty: Type::Path("T"),
        }])),
    }
}

fn pair_declaration() -> DeriveInput {
    DeriveInput {
        ident: "Pair",
        generics: one_type_parameter(),
        data: Data::Struct(spectacle::shape::Fields::Unnamed(vec![Type::Path("T"), Type::Path("T")])),
    }
}

fn struct_enum_declaration() -> DeriveInput {
    DeriveInput {
        ident: "StructEnum",
        generics: no_generics(),
        data: Data::Enum(vec![Variant {
            ident: "Variant",
            fields: spectacle::shape::Fields::Named(vec![
                NamedField { ident: "foo", ty: Type::Reference(Box::new(Type::Path("str"))) },
                NamedField {
                    ident: "bar",
                    ty: Type::Reference(Box::new(Type::Slice(Box::new(Type::Path("u8"))))),
                },
            ]),
        }]),
    }
}

fn simple_struct_value() -> Value {
    Value::Struct(Fields::Named(vec![
        NamedValue { name: "a", value: Value::Usize(123) },
        NamedValue { name: "b", value: Value::Str("bar") },
    ]))
}

#[test]
fn simple_struct() {
    expect_visits(
        simple_struct_declaration(),
        &simple_struct_value(),
        vec![
            (vec![], simple_struct_value()),
            (vec![Breadcrumb::Field("a")], Value::Usize(123)),
            (vec![Breadcrumb::Field("b")], Value::Str("bar")),
        ],
    );
}

#[test]
fn unit_enum() {
    expect_visits(
        unit_enum_declaration(),
        &Value::Enum("B", Fields::Unit),
        vec![(vec![], Value::Enum("B", Fields::Unit))],
    );
}

fn generic_simple_value() -> Value {
    Value::Struct(Fields::Named(vec![NamedValue { name: "t", value: simple_struct_value() }]))
}

#[test]
fn generic_struct() {
    expect_visits(
        generic_struct_declaration(),
        &generic_simple_value(),
        vec![
            (vec![], generic_simple_value()),
            (vec![Breadcrumb::Field("t")], simple_struct_value()),
            (vec![Breadcrumb::Field("t"), Breadcrumb::Field("a")], Value::Usize(123)),
            (vec![Breadcrumb::Field("t"), Breadcrumb::Field("b")], Value::Str("bar")),
        ],
    );
}

fn pair_value() -> Value {
    Value::Struct(Fields::Unnamed(vec![Value::U32(123), Value::U32(456)]))
}

#[test]
fn pair() {
    expect_visits(
        pair_declaration(),
        &pair_value(),
        vec![
            (vec![], pair_value()),
            (vec![Breadcrumb::TupleIndex(0)], Value::U32(123)),
            (vec![Breadcrumb::TupleIndex(1)], Value::U32(456)),
        ],
    );
}

fn bytes_value(bytes: &[u8]) -> Value {
    Value::List(bytes.iter().map(|byte| Value::U8(*byte)).collect())
}

fn struct_enum_value() -> Value {
    Value::Enum(
        "Variant",
        Fields::Named(vec![
            NamedValue { name: "foo", value: Value::Str("foo") },
            NamedValue { name: "bar", value: bytes_value(b"bar") },
        ]),
    )
}

#[test]
fn struct_enum() {
    let variant = Breadcrumb::Variant("Variant");
    let bar = vec![variant.clone(), Breadcrumb::Field("bar")];
    let byte = |index: &str| {
        let mut trail = bar.clone();
        trail.push(Breadcrumb::Index(String::from(index)));
        trail
    };
    expect_visits(
        struct_enum_declaration(),
        &struct_enum_value(),
        vec![
            (vec![], struct_enum_value()),
            (vec![variant.clone(), Breadcrumb::Field("foo")], Value::Str("foo")),
            (bar.clone(), bytes_value(b"bar")),
            (byte("0"), Value::U8(b'b')),
            (byte("1"), Value::U8(b'a')),
            (byte("2"), Value::U8(b'r')),
        ],
    );
}

#[test]
fn walk_goes_on_from_the_given_trail() {
    let mut start = Breadcrumbs::new();
    start.push_back(Breadcrumb::SetMember);
    let value = pair_value();
    let mut visits: Vec<Visit> = Vec::new();
    value.introspect_from(start, &mut visits);
    assert_eq!(visits.len(), 3);
    assert_eq!(visits[0].trail.to_vec(), vec![Breadcrumb::SetMember]);
    assert_eq!(
        visits[2].trail.to_vec(),
        vec![Breadcrumb::SetMember, Breadcrumb::TupleIndex(1)]
    );
}
