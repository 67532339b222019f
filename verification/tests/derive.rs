use spectacle::derive::{
    add_trait_bounds, create_generic_ident, derive_spectacle, impl_introspect_enum,
    impl_introspect_struct, recurse_fields, recurse_variants, type_var, Access, Arm, Body,
    DeriveError, FieldLabel, Visiting,
};
use spectacle::shape::{
    Bound, Data, DeriveInput, Fields, GenericParam, Generics, NamedField, Type, Variant,
};

fn path(ident: &'static str) -> Type {
    Type::Path(ident)
}

fn no_generics() -> Generics {
    Generics { params: vec![] }
}

fn type_param(ident: &'static str) -> GenericParam {
    GenericParam::Type { ident, bounds: vec![] }
}

fn simple_struct_fields() -> Fields {
    Fields::Named(vec![
        NamedField { ident: "a", ty: path("usize") },
        NamedField { ident: "b", ty: Type::Reference(Box::new(path("str"))) },
    ])
}

#[test]
fn bounds_are_added_to_type_parameters_only() {
    let generics = Generics {
        params: vec![
            GenericParam::Lifetime { ident: "a" },
            GenericParam::Type { ident: "T", bounds: vec![Bound::Declared("Clone")] },
            GenericParam::Const { ident: "N" },
            type_param("U"),
        ],
    };
    let bounded = add_trait_bounds(generics);
    assert_eq!(
        bounded.params,
        vec![
            GenericParam::Lifetime { ident: "a" },
            GenericParam::Type {
                ident: "T",
                bounds: vec![Bound::Declared("Clone"), Bound::Introspect, Bound::Static],
            },
            GenericParam::Const { ident: "N" },
            GenericParam::Type { ident: "U", bounds: vec![Bound::Introspect, Bound::Static] },
        ]
    );
}

#[test]
fn visitor_is_named_f_where_that_is_free() {
    assert_eq!(create_generic_ident(&no_generics()), Ok(String::from("F")));
    let generics = Generics { params: vec![type_param("T"), type_param("F1")] };
    assert_eq!(create_generic_ident(&generics), Ok(String::from("F")));
}

#[test]
fn visitor_name_avoids_every_kind_of_parameter() {
    let generics = Generics {
        params: vec![
            GenericParam::Const { ident: "F0" },
            type_param("F"),
            GenericParam::Lifetime { ident: "F1" },
            type_param("F3"),
        ],
    };
    assert_eq!(create_generic_ident(&generics), Ok(String::from("F2")));
}

fn leaked(name: String) -> &'static str {
    Box::leak(name.into_boxed_str())
}

fn taken(numbered: usize) -> Generics {
    let mut params = vec![type_param("F")];
    for n in 0..numbered {
        params.push(type_param(leaked(format!("F{}", n))));
    }
    Generics { params }
}

#[test]
fn visitor_name_takes_the_last_probe() {
    assert_eq!(create_generic_ident(&taken(253)), Ok(String::from("F253")));
    assert_eq!(create_generic_ident(&taken(11)), Ok(String::from("F11")));
}

#[test]
fn visitor_name_probes_run_out() {
    assert_eq!(create_generic_ident(&taken(254)), Err(DeriveError::NoUnusedTypeParameter));
    assert_eq!(create_generic_ident(&taken(300)), Err(DeriveError::NoUnusedTypeParameter));
}

#[test]
fn type_var_of_a_path_is_its_last_segment() {
    assert_eq!(type_var(&path("String"), None), Ok(String::from("String")));
    assert_eq!(type_var(&path("String"), Some(0)), Ok(String::from("string0")));
    assert_eq!(type_var(&path("HashMap"), Some(12)), Ok(String::from("hashmap12")));
}

#[test]
fn type_var_looks_through_wrappers() {
    let wrapped = Type::Reference(Box::new(Type::Paren(Box::new(Type::Ptr(Box::new(
        Type::Group(Box::new(path("Foo"))),
    ))))));
    assert_eq!(type_var(&wrapped, Some(3)), Ok(String::from("foo3")));
    assert_eq!(type_var(&wrapped, None), Ok(String::from("Foo")));
}

#[test]
fn type_var_of_arrays_and_slices_is_plural() {
    let array = Type::Array(Box::new(path("u8")));
    assert_eq!(type_var(&array, Some(1)), Ok(String::from("u81s")));
    let slices = Type::Reference(Box::new(Type::Slice(Box::new(array))));
    assert_eq!(type_var(&slices, None), Ok(String::from("u8ss")));
}

#[test]
fn type_var_of_a_tuple_joins_its_elements() {
    let tuple = Type::Tuple(vec![
        path("A"),
        Type::Array(Box::new(path("B"))),
        Type::Tuple(vec![path("C"), path("D")]),
    ]);
    assert_eq!(type_var(&tuple, None), Ok(String::from("A_Bs_C_D")));
    assert_eq!(type_var(&tuple, Some(7)), Ok(String::from("a_bs_c_d7")));
    assert_eq!(type_var(&Type::Tuple(vec![path("Only")]), Some(0)), Ok(String::from("only0")));
}

#[test]
fn type_var_fails_on_unrecognized_types() {
    assert_eq!(type_var(&Type::Other, Some(0)), Err(DeriveError::UnrecognizedFieldType));
    assert_eq!(type_var(&Type::Tuple(vec![]), None), Err(DeriveError::UnrecognizedFieldType));
    let inside = Type::Tuple(vec![path("A"), Type::Slice(Box::new(Type::Other)), path("B")]);
    assert_eq!(type_var(&inside, Some(2)), Err(DeriveError::UnrecognizedFieldType));
}

#[test]
fn unit_fields_give_no_steps() {
    assert_eq!(recurse_fields(&Fields::Unit, None, &vec![]), None);
}

#[test]
fn named_fields_give_steps_in_declaration_order() {
    let access = vec![Access::Binding(0), Access::Binding(1)];
    assert_eq!(
        recurse_fields(&simple_struct_fields(), Some("V"), &access),
        Some(vec![
            Visiting { variant: Some("V"), label: FieldLabel::Name("a"), access: Access::Binding(0) },
            Visiting { variant: Some("V"), label: FieldLabel::Name("b"), access: Access::Binding(1) },
        ])
    );
}

#[test]
fn positional_fields_give_steps_by_position() {
    let fields = Fields::Unnamed(vec![path("T"), path("T")]);
    let access = vec![Access::Position(0), Access::Position(1)];
    assert_eq!(
        recurse_fields(&fields, None, &access),
        Some(vec![
            Visiting { variant: None, label: FieldLabel::Position(0), access: Access::Position(0) },
            Visiting { variant: None, label: FieldLabel::Position(1), access: Access::Position(1) },
        ])
    );
    assert_eq!(recurse_fields(&Fields::Unnamed(vec![]), None, &vec![]), Some(vec![]));
}

#[test]
fn struct_walk_visits_each_field_of_the_value() {
    let generated = impl_introspect_struct("SimpleStruct", no_generics(), &simple_struct_fields())
        .unwrap();
    assert_eq!(generated.name, "SimpleStruct");
    assert_eq!(generated.visitor, "F");
    assert_eq!(generated.generics, no_generics());
    assert_eq!(
        generated.body,
        Body::Struct(vec![
            Visiting { variant: None, label: FieldLabel::Name("a"), access: Access::Named("a") },
            Visiting { variant: None, label: FieldLabel::Name("b"), access: Access::Named("b") },
        ])
    );
    let unit = impl_introspect_struct("Unit", no_generics(), &Fields::Unit).unwrap();
    assert_eq!(unit.body, Body::Struct(vec![]));
}

fn some_variants() -> Vec<Variant> {
    vec![
        Variant { ident: "A", fields: Fields::Unit },
        Variant {
            ident: "B",
            fields: Fields::Unnamed(vec![path("String"), Type::Array(Box::new(path("u8")))]),
        },
        Variant { ident: "C", fields: Fields::Named(vec![]) },
        Variant {
            ident: "D",
            fields: Fields::Named(vec![NamedField { ident: "foo", ty: path("bool") }]),
        },
    ]
}

fn some_arms() -> Vec<Arm> {
    vec![
        Arm {
            variant: "B",
            named: false,
            bindings: vec![String::from("string0"), String::from("u81s")],
            steps: vec![
                Visiting {
                    variant: Some("B"),
                    label: FieldLabel::Position(0),
                    access: Access::Binding(0),
                },
                Visiting {
                    variant: Some("B"),
                    label: FieldLabel::Position(1),
                    access: Access::Binding(1),
                },
            ],
        },
        Arm {
            variant: "D",
            named: true,
            bindings: vec![String::from("foo")],
            steps: vec![Visiting {
                variant: Some("D"),
                label: FieldLabel::Name("foo"),
                access: Access::Binding(0),
            }],
        },
    ]
}

#[test]
fn variants_with_fields_get_an_arm_each() {
    assert_eq!(recurse_variants(&some_variants()), Ok(some_arms()));
    assert_eq!(recurse_variants(&vec![]), Ok(vec![]));
}

#[test]
fn variants_with_an_unrecognized_field_type_fail() {
    let mut variants = some_variants();
    variants.push(Variant { ident: "E", fields: Fields::Unnamed(vec![path("u8"), Type::Other]) });
    assert_eq!(recurse_variants(&variants), Err(DeriveError::UnrecognizedFieldType));
}

#[test]
fn named_fields_need_no_recognized_type() {
    let variants = vec![Variant {
        ident: "E",
        fields: Fields::Named(vec![NamedField { ident: "f", ty: Type::Other }]),
    }];
    let arms = recurse_variants(&variants).unwrap();
    assert_eq!(arms.len(), 1);
    assert_eq!(arms[0].bindings, vec![String::from("f")]);
}

#[test]
fn enum_walk_has_the_arms_of_its_variants() {
    let generics = Generics { params: vec![type_param("F")] };
    let generated = impl_introspect_enum("Some", generics, &some_variants()).unwrap();
    assert_eq!(generated.name, "Some");
    assert_eq!(generated.visitor, "F0");
    assert_eq!(generated.body, Body::Enum(some_arms()));
}

#[test]
fn derive_bounds_the_parameters_and_walks_the_fields() {
    let input = DeriveInput {
        ident: "Pair",
        generics: Generics { params: vec![type_param("T")] },
        data: Data::Struct(Fields::Unnamed(vec![path("T"), path("T")])),
    };
    let generated = derive_spectacle(input).unwrap();
    assert_eq!(generated.name, "Pair");
    assert_eq!(generated.visitor, "F");
    assert_eq!(
        generated.generics.params,
        vec![GenericParam::Type { ident: "T", bounds: vec![Bound::Introspect, Bound::Static] }]
    );
    assert_eq!(
        generated.body,
        Body::Struct(vec![
            Visiting { variant: None, label: FieldLabel::Position(0), access: Access::Position(0) },
            Visiting { variant: None, label: FieldLabel::Position(1), access: Access::Position(1) },
        ])
    );
}

#[test]
fn derive_of_an_enum() {
    let input = DeriveInput { ident: "E", generics: no_generics(), data: Data::Enum(some_variants()) };
    let generated = derive_spectacle(input).unwrap();
    assert_eq!(generated.body, Body::Enum(some_arms()));
}

#[test]
fn derive_refuses_a_union() {
    let input = DeriveInput { ident: "U", generics: no_generics(), data: Data::Union };
    assert_eq!(derive_spectacle(input), Err(DeriveError::UnsupportedUnion));
}

#[test]
fn derive_fails_where_no_visitor_name_is_left() {
    let input = DeriveInput {
        ident: "Crowded",
        generics: taken(254),
        data: Data::Struct(simple_struct_fields()),
    };
    assert_eq!(derive_spectacle(input), Err(DeriveError::NoUnusedTypeParameter));
    let input = DeriveInput { ident: "Crowded", generics: taken(254), data: Data::Enum(vec![]) };
    assert_eq!(derive_spectacle(input), Err(DeriveError::NoUnusedTypeParameter));
}

#[test]
fn derive_fails_on_an_unrecognized_field_type() {
    let input = DeriveInput {
        ident: "E",
        generics: no_generics(),
        data: Data::Enum(vec![Variant { ident: "V", fields: Fields::Unnamed(vec![Type::Other]) }]),
    };
    assert_eq!(derive_spectacle(input), Err(DeriveError::UnrecognizedFieldType));
}

#[test]
fn derive_is_the_same_each_time() {
    let input = || DeriveInput {
        ident: "E",
        generics: Generics { params: vec![type_param("F"), type_param("T")] },
        data: Data::Enum(some_variants()),
    };
    assert_eq!(derive_spectacle(input()), derive_spectacle(input()));
}

#[test]
fn each_error_has_its_diagnostic() {
    assert_eq!(
        DeriveError::UnsupportedUnion.message(),
        "Spectacle can only be derived for structs and enums"
    );
    assert_eq!(
        DeriveError::NoUnusedTypeParameter.message(),
        "could not generate an appropriate unused type parameter"
    );
    assert_eq!(
        DeriveError::UnrecognizedFieldType.message(),
        "cannot create appropriate type variable for this type"
    );
}

#[test]
fn only_a_crowded_declaration_gets_help() {
    assert_eq!(
        DeriveError::NoUnusedTypeParameter.help(),
        Some("consider removing the type parameter F from your list of generic parameters")
    );
    assert_eq!(DeriveError::UnsupportedUnion.help(), None);
    assert_eq!(DeriveError::UnrecognizedFieldType.help(), None);
}
