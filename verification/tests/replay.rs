use spectacle::derive::{derive_spectacle, Implementation};
use spectacle::introspect::Visit;
use spectacle::shape::{Data, DeriveInput, Generics, NamedField, Type, Variant};
use spectacle::value::{Fields, NamedValue, Value};
use spectacle::{Breadcrumb, Breadcrumbs};

fn generated(data: Data) -> Implementation {
    derive_spectacle(DeriveInput { ident: "Subject", generics: Generics { params: vec![] }, data })
        .unwrap()
}

fn shapes() -> Implementation {
    generated(Data::Enum(vec![
        Variant { ident: "Empty", fields: spectacle::shape::Fields::Unit },
        Variant {
            ident: "Circle",
            fields: spectacle::shape::Fields::Unnamed(vec![Type::Path("u32")]),
        },
        Variant {
            ident: "Rect",
            fields: spectacle::shape::Fields::Named(vec![
                NamedField { ident: "w", ty: Type::Path("u32") },
                NamedField { ident: "h", ty: Type::Path("u32") },
            ]),
        },
    ]))
}

fn trails(visits: &[Visit]) -> Vec<Vec<Breadcrumb>> {
    visits.iter().map(|visit| visit.trail.to_vec()).collect()
}

#[test]
fn only_the_active_variant_is_walked() {
    let circle = Value::Enum("Circle", Fields::Unnamed(vec![Value::U32(3)]));
    let mut visits: Vec<Visit> = Vec::new();
    assert!(shapes().introspect(&circle, &mut visits));
    assert_eq!(
        trails(&visits),
        vec![vec![], vec![Breadcrumb::Variant("Circle"), Breadcrumb::TupleIndex(0)]]
    );
    assert_eq!(visits[1].node, &Value::U32(3));

    let rect = Value::Enum(
        "Rect",
        Fields::Named(vec![
            NamedValue { name: "w", value: Value::U32(4) },
            NamedValue { name: "h", value: Value::U32(5) },
        ]),
    );
    let mut visits: Vec<Visit> = Vec::new();
    assert!(shapes().introspect(&rect, &mut visits));
    assert_eq!(
        trails(&visits),
        vec![
            vec![],
            vec![Breadcrumb::Variant("Rect"), Breadcrumb::Field("w")],
            vec![Breadcrumb::Variant("Rect"), Breadcrumb::Field("h")],
        ]
    );
    assert_eq!(visits[2].node, &Value::U32(5));
}

#[test]
fn a_variant_without_fields_is_visited_alone() {
    let empty = Value::Enum("Empty", Fields::Unit);
    let mut visits: Vec<Visit> = Vec::new();
    assert!(shapes().introspect(&empty, &mut visits));
    assert_eq!(trails(&visits), vec![Vec::<Breadcrumb>::new()]);
    assert_eq!(visits[0].node, &empty);
}

#[test]
fn fields_are_found_by_their_names() {
    let walk = generated(Data::Struct(spectacle::shape::Fields::Named(vec![
        NamedField { ident: "a", ty: Type::Path("u8") },
        NamedField { ident: "b", ty: Type::Path("u8") },
    ])));
    let swapped = Value::Struct(Fields::Named(vec![
        NamedValue { name: "b", value: Value::U8(2) },
        NamedValue { name: "a", value: Value::U8(1) },
    ]));
    let mut visits: Vec<Visit> = Vec::new();
    assert!(walk.introspect(&swapped, &mut visits));
    assert_eq!(
        trails(&visits),
        vec![vec![], vec![Breadcrumb::Field("a")], vec![Breadcrumb::Field("b")]]
    );
    assert_eq!(visits[1].node, &Value::U8(1));
    assert_eq!(visits[2].node, &Value::U8(2));
}

#[test]
fn a_value_of_another_shape_is_not_walked() {
    let walk = generated(Data::Struct(spectacle::shape::Fields::Named(vec![NamedField {
        ident: "a",
        ty: Type::Path("u8"),
    }])));
    let mut visits: Vec<Visit> = Vec::new();
    let missing = Value::Struct(Fields::Named(vec![NamedValue { name: "z", value: Value::U8(1) }]));
    assert!(!walk.introspect(&missing, &mut visits));
    assert!(!walk.introspect(&Value::Struct(Fields::Unit), &mut visits));
    assert!(!walk.introspect(&Value::Enum("a", Fields::Unit), &mut visits));
    assert!(!walk.introspect(&Value::U8(1), &mut visits));
    let two_slots = Value::Enum("Circle", Fields::Unnamed(vec![Value::U32(1), Value::U32(2)]));
    assert!(!shapes().introspect(&two_slots, &mut visits));
    let by_name = Value::Enum(
        "Circle",
        Fields::Named(vec![NamedValue { name: "r", value: Value::U32(1) }]),
    );
    assert!(!shapes().introspect(&by_name, &mut visits));
    assert!(visits.is_empty());
}

#[test]
fn a_variant_that_is_not_declared_is_visited_alone() {
    let other = Value::Enum("Other", Fields::Unnamed(vec![Value::U32(1)]));
    let mut visits: Vec<Visit> = Vec::new();
    assert!(shapes().introspect(&other, &mut visits));
    assert_eq!(visits.len(), 1);
}

#[test]
fn the_generated_walk_goes_on_from_the_given_trail() {
    let mut start = Breadcrumbs::new();
    start.push_back(Breadcrumb::Index(String::from("k")));
    let circle = Value::Enum("Circle", Fields::Unnamed(vec![Value::U32(3)]));
    let mut visits: Vec<Visit> = vec![];
    assert!(shapes().introspect_from(&circle, start, &mut visits));
    let key = Breadcrumb::Index(String::from("k"));
    assert_eq!(
        trails(&visits),
        vec![
            vec![key.clone()],
            vec![key.clone(), Breadcrumb::Variant("Circle"), Breadcrumb::TupleIndex(0)],
        ]
    );
}
