use allem::product::{checked_volume, extend_rows, product_rows};
use allem::{
    alles_derive, Attribute, ConfigError, DeriveInput, ElementType, ErrorKind, Field, Literal,
    Registry, TypeSchema, Value, Variant,
};

fn plain(ty: ElementType) -> Field {
    Field { ty, attrs: vec![] }
}

fn with(ty: ElementType, attrs: Vec<Attribute>) -> Field {
    Field { ty, attrs }
}

fn refused(input: DeriveInput) -> ConfigError {
    let mut reg = Registry::new();
    let err = reg.register(input).unwrap_err();
    assert_eq!(reg.len(), 0);
    err
}

fn at_field(kind: ErrorKind, field: usize) -> ConfigError {
    ConfigError { kind, variant: None, field: Some(field) }
}

#[test]
fn conflicting_directives_are_refused_with_the_field() {
    let err = refused(DeriveInput::Struct(vec![
        plain(ElementType::U8),
        with(
            ElementType::U8,
            vec![Attribute::WithValues(vec![Literal::Int(1)]), Attribute::WithDefault],
        ),
    ]));
    assert_eq!(err, at_field(ErrorKind::ConflictingDirectives, 1));
}

#[test]
fn first_refused_field_is_reported() {
    let err = refused(DeriveInput::Struct(vec![
        plain(ElementType::U8),
        plain(ElementType::Bool),
        with(ElementType::U8, vec![Attribute::WithDefault, Attribute::WithDefault]),
    ]));
    assert_eq!(err, at_field(ErrorKind::NoProvider, 1));
}

#[test]
fn malformed_length_is_refused() {
    let err = refused(DeriveInput::Struct(vec![with(
        ElementType::List(Box::new(ElementType::U8)),
        vec![Attribute::GenerateCollectionLength(vec![2, -3])],
    )]));
    assert_eq!(err, at_field(ErrorKind::MalformedLength, 0));
}

#[test]
fn inconvertible_literal_is_refused() {
    let replaced = refused(DeriveInput::Struct(vec![with(
        ElementType::U8,
        vec![Attribute::WithValues(vec![Literal::Int(1), Literal::Int(256)])],
    )]));
    assert_eq!(replaced, at_field(ErrorKind::InconvertibleLiteral, 0));
    let appended = refused(DeriveInput::Struct(vec![with(
        ElementType::I8,
        vec![Attribute::AndValues(vec![Literal::Text("x".to_string())])],
    )]));
    assert_eq!(appended, at_field(ErrorKind::InconvertibleLiteral, 0));
}

#[test]
fn type_without_candidates_is_refused() {
    assert_eq!(
        refused(DeriveInput::Struct(vec![plain(ElementType::Text)])),
        at_field(ErrorKind::NoProvider, 0)
    );
    assert_eq!(
        refused(DeriveInput::Struct(vec![plain(ElementType::List(Box::new(
            ElementType::U8
        )))])),
        at_field(ErrorKind::NoProvider, 0)
    );
    assert_eq!(
        refused(DeriveInput::Struct(vec![with(
            ElementType::List(Box::new(ElementType::Text)),
            vec![Attribute::GenerateCollectionLength(vec![0, 1])],
        )])),
        at_field(ErrorKind::NoProvider, 0)
    );
}

#[test]
fn type_without_default_is_refused() {
    let mut reg = Registry::new();
    let unit = reg.register(DeriveInput::Struct(vec![])).unwrap();
    let err = reg
        .register(DeriveInput::Struct(vec![with(
            ElementType::Named(unit),
            vec![Attribute::WithDefault],
        )]))
        .unwrap_err();
    assert_eq!(err, at_field(ErrorKind::NoDefault, 0));
    assert_eq!(reg.len(), 1);
}

#[test]
fn lengths_on_a_field_that_is_no_collection_are_refused() {
    assert_eq!(
        refused(DeriveInput::Struct(vec![with(
            ElementType::U8,
            vec![Attribute::GenerateCollectionLength(vec![1])],
        )])),
        at_field(ErrorKind::NotACollection, 0)
    );
}

#[test]
fn unregistered_type_is_refused() {
    assert_eq!(
        refused(DeriveInput::Struct(vec![plain(ElementType::Named(0))])),
        at_field(ErrorKind::UnknownType, 0)
    );
    assert_eq!(
        refused(DeriveInput::Struct(vec![with(
            ElementType::Optional(Box::new(ElementType::Named(3))),
            vec![Attribute::WithDefault],
        )])),
        at_field(ErrorKind::UnknownType, 0)
    );
}

#[test]
fn type_cannot_name_itself() {
    let mut reg = Registry::new();
    reg.register(DeriveInput::Struct(vec![])).unwrap();
    let next = reg.len();
    let err = reg
        .register(DeriveInput::Struct(vec![plain(ElementType::Optional(Box::new(
            ElementType::Named(next),
        )))]))
        .unwrap_err();
    assert_eq!(err, at_field(ErrorKind::UnknownType, 0));
    assert_eq!(reg.len(), next);
}

#[test]
fn sum_without_variants_is_refused() {
    assert_eq!(
        refused(DeriveInput::Enum(vec![])),
        ConfigError { kind: ErrorKind::EmptySum, variant: None, field: None }
    );
}

#[test]
fn union_is_refused() {
    assert_eq!(
        refused(DeriveInput::Union),
        ConfigError { kind: ErrorKind::UnionUnsupported, variant: None, field: None }
    );
}

#[test]
fn refused_variant_is_reported_with_its_number() {
    let err = refused(DeriveInput::Enum(vec![
        Variant { ident: "A".to_string(), fields: vec![plain(ElementType::U8)] },
        Variant {
            ident: "B".to_string(),
            fields: vec![
                plain(ElementType::I8),
                with(
                    ElementType::Bool,
                    vec![Attribute::WithValues(vec![Literal::Int(0)])],
                ),
            ],
        },
        Variant { ident: "C".to_string(), fields: vec![plain(ElementType::Text)] },
    ]));
    assert_eq!(
        err,
        ConfigError { kind: ErrorKind::InconvertibleLiteral, variant: Some(1), field: Some(1) }
    );
}

#[test]
fn too_many_instances_are_refused() {
    let counts = vec![usize::MAX];
    let product = alles_derive(
        DeriveInput::Struct(vec![plain(ElementType::Named(0)), plain(ElementType::U8)]),
        &counts,
    );
    assert_eq!(
        product,
        Err(ConfigError { kind: ErrorKind::TooLarge, variant: None, field: None })
    );
    let field = alles_derive(
        DeriveInput::Struct(vec![
            plain(ElementType::U8),
            plain(ElementType::Optional(Box::new(ElementType::Named(0)))),
        ]),
        &counts,
    );
    assert_eq!(
        field,
        Err(ConfigError { kind: ErrorKind::TooLarge, variant: None, field: Some(1) })
    );
    let appended = alles_derive(
        DeriveInput::Struct(vec![with(
            ElementType::Named(0),
            vec![Attribute::AndValues(vec![])],
        )]),
        &counts,
    );
    assert!(matches!(appended, Ok((TypeSchema::Record(_), usize::MAX))));
    let sum = alles_derive(
        DeriveInput::Enum(vec![
            Variant { ident: "A".to_string(), fields: vec![plain(ElementType::Named(0))] },
            Variant { ident: "B".to_string(), fields: vec![] },
        ]),
        &counts,
    );
    assert_eq!(sum, Err(ConfigError { kind: ErrorKind::TooLarge, variant: None, field: None }));
    let variant = alles_derive(
        DeriveInput::Enum(vec![
            Variant { ident: "A".to_string(), fields: vec![] },
            Variant {
                ident: "B".to_string(),
                fields: vec![plain(ElementType::Named(0)), plain(ElementType::I8)],
            },
        ]),
        &counts,
    );
    assert_eq!(
        variant,
        Err(ConfigError { kind: ErrorKind::TooLarge, variant: Some(1), field: None })
    );
}

#[test]
fn field_without_candidates_keeps_a_large_record_small() {
    let counts = vec![usize::MAX];
    let got = alles_derive(
        DeriveInput::Struct(vec![
            plain(ElementType::Named(0)),
            plain(ElementType::Named(0)),
            with(ElementType::U8, vec![Attribute::WithValues(vec![])]),
        ]),
        &counts,
    );
    assert!(matches!(got, Ok((TypeSchema::Record(_), 0))));
}

#[test]
fn derived_shape_keeps_the_description() {
    let got = alles_derive(
        DeriveInput::Enum(vec![
            Variant { ident: "A".to_string(), fields: vec![] },
            Variant {
                ident: "B".to_string(),
                fields: vec![with(
                    ElementType::U8,
                    vec![Attribute::AndValues(vec![Literal::Int(4)])],
                )],
            },
        ]),
        &vec![],
    );
    let (schema, count) = got.unwrap();
    assert_eq!(count, 1 + 58);
    match schema {
        TypeSchema::Sum(variants) => {
            assert_eq!(variants.len(), 2);
            assert_eq!(variants[0].tag, "A");
            assert!(variants[0].fields.is_empty());
            assert_eq!(variants[1].tag, "B");
            assert_eq!(variants[1].fields.len(), 1);
            assert_eq!(variants[1].fields[0].element, ElementType::U8);
            assert_eq!(variants[1].fields[0].attributes.alternative_gen, None);
            assert_eq!(
                variants[1].fields[0].attributes.and_values,
                Some(vec![Literal::Int(4)])
            );
        }
        other => panic!("not a sum: {:?}", other),
    }
}

#[test]
fn checked_volume_multiplies_or_gives_up() {
    assert_eq!(checked_volume(&vec![]), Some(1));
    assert_eq!(checked_volume(&vec![3, 4, 5]), Some(60));
    assert_eq!(checked_volume(&vec![usize::MAX, 1]), Some(usize::MAX));
    assert_eq!(checked_volume(&vec![usize::MAX, 2]), None);
    assert_eq!(checked_volume(&vec![usize::MAX, usize::MAX, 0]), Some(0));
}

#[test]
fn product_rows_orders_by_the_first_field_first() {
    let fields = vec![
        vec![Value::U8(1), Value::U8(2)],
        vec![Value::Bool(false), Value::Bool(true), Value::Absent],
    ];
    let rows = product_rows(&fields);
    assert_eq!(
        rows,
        vec![
            vec![Value::U8(1), Value::Bool(false)],
            vec![Value::U8(1), Value::Bool(true)],
            vec![Value::U8(1), Value::Absent],
            vec![Value::U8(2), Value::Bool(false)],
            vec![Value::U8(2), Value::Bool(true)],
            vec![Value::U8(2), Value::Absent],
        ]
    );
    assert_eq!(product_rows(&vec![]), vec![Vec::<Value>::new()]);
    assert_eq!(product_rows(&vec![vec![Value::U8(1)], vec![]]), Vec::<Vec<Value>>::new());
}

#[test]
fn product_of_three_fields_has_every_combination_once() {
    let digits = |n: u8| (0..n).map(Value::U8).collect::<Vec<_>>();
    let rows = product_rows(&vec![digits(2), digits(3), digits(4)]);
    assert_eq!(rows.len(), 24);
    for (k, row) in rows.iter().enumerate() {
        let k = k as u8;
        assert_eq!(row, &vec![Value::U8(k / 12), Value::U8((k / 4) % 3), Value::U8(k % 4)]);
    }
}

#[test]
fn extend_rows_adds_one_field() {
    let rows = vec![vec![Value::U8(1)], vec![Value::U8(2)]];
    let last = vec![Value::I8(-1), Value::I8(1)];
    assert_eq!(
        extend_rows(&rows, &last),
        vec![
            vec![Value::U8(1), Value::I8(-1)],
            vec![Value::U8(1), Value::I8(1)],
            vec![Value::U8(2), Value::I8(-1)],
            vec![Value::U8(2), Value::I8(1)],
        ]
    );
    assert_eq!(extend_rows(&rows, &vec![]), Vec::<Vec<Value>>::new());
    assert_eq!(extend_rows(&vec![], &last), Vec::<Vec<Value>>::new());
}
