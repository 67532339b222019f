use spectacle::introspect::{Introspect, Visit};
use spectacle::json::{Json, Member, Number};
use spectacle::value::{Entry, Value};
use spectacle::Breadcrumb;

fn tagged(kind: &'static str, held: Value) -> Value {
    Value::Tagged(kind, Some(Box::new(held)))
}

#[test]
fn json_leaves_are_held_under_their_kind() {
    assert_eq!(Json::Null.to_value(), Value::Tagged("Null", None));
    assert_eq!(Json::Bool(true).to_value(), tagged("Bool", Value::Bool(true)));
    assert_eq!(Json::Number(Number::PosInt(7)).to_value(), tagged("Number", Value::U64(7)));
    assert_eq!(Json::Number(Number::NegInt(-7)).to_value(), tagged("Number", Value::I64(-7)));
    assert_eq!(
        Json::Number(Number::Float(1.5f64.to_bits())).to_value(),
        tagged("Number", Value::Double(1.5f64.to_bits()))
    );
    assert_eq!(
        Json::Text(String::from("hi")).to_value(),
        tagged("String", Value::Text(String::from("hi")))
    );
}

fn document() -> Json {
    Json::Object(vec![
        Member { key: String::from("on"), value: Json::Bool(false) },
        Member {
            key: String::from("list"),
            value: Json::Array(vec![Json::Null, Json::Number(Number::PosInt(3))]),
        },
    ])
}

#[test]
fn json_containers_keep_their_order() {
    assert_eq!(
        document().to_value(),
        tagged(
            "Object",
            Value::MapOf(vec![
                Entry { key: String::from("on"), value: tagged("Bool", Value::Bool(false)) },
                Entry {
                    key: String::from("list"),
                    value: tagged(
                        "Array",
                        Value::List(vec![
                            Value::Tagged("Null", None),
                            tagged("Number", Value::U64(3)),
                        ])
                    ),
                },
            ])
        )
    );
}

#[test]
fn json_is_walked_through_its_kinds() {
    let value = document().to_value();
    let mut visits: Vec<Visit> = Vec::new();
    value.introspect(&mut visits);
    let trails: Vec<Vec<Breadcrumb>> = visits.iter().map(|visit| visit.trail.to_vec()).collect();
    let object = Breadcrumb::Variant("Object");
    let on = Breadcrumb::Index(String::from("on"));
    let list = Breadcrumb::Index(String::from("list"));
    let array = Breadcrumb::Variant("Array");
    let index = |at: &str| Breadcrumb::Index(String::from(at));
    assert_eq!(
        trails,
        vec![
            vec![],
            vec![object.clone()],
            vec![object.clone(), on.clone()],
            vec![object.clone(), on.clone(), Breadcrumb::Variant("Bool")],
            vec![object.clone(), list.clone()],
            vec![object.clone(), list.clone(), array.clone()],
            vec![object.clone(), list.clone(), array.clone(), index("0")],
            vec![object.clone(), list.clone(), array.clone(), index("1")],
            vec![
                object.clone(),
                list.clone(),
                array.clone(),
                index("1"),
                Breadcrumb::Variant("Number")
            ],
        ]
    );
    assert_eq!(visits[3].node, &Value::Bool(false));
    assert_eq!(visits[8].node, &Value::U64(3));
}
