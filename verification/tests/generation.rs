use allem::{
    Attribute, DeriveInput, ElementType, Field, Literal, Registry, Value, Variant,
};

fn bytes(values: &[u8]) -> Vec<Value> {
    values.iter().map(|n| Value::U8(*n)).collect()
}

fn x() -> ElementType {
    ElementType::Custom(Box::new(ElementType::U8), bytes(&[0, 1, 2]))
}

fn y() -> ElementType {
    ElementType::Custom(Box::new(ElementType::U8), bytes(&[10, 20]))
}

fn pair(a: u8, b: u8) -> Value {
    Value::Record(vec![Value::U8(a), Value::U8(b)])
}

fn one_field(ty: ElementType, attrs: Vec<Attribute>) -> Vec<Value> {
    let mut reg = Registry::new();
    let id = reg.register(DeriveInput::Struct(vec![Field { ty, attrs }])).unwrap();
    reg.generate(id)
        .unwrap()
        .into_iter()
        .map(|row| match row {
            Value::Record(mut fields) => {
                assert_eq!(fields.len(), 1);
                fields.remove(0)
            }
            other => panic!("not a record: {:?}", other),
        })
        .collect()
}

#[test]
fn record_of_two_fields_varies_the_last_field_fastest() {
    let mut reg = Registry::new();
    let id = reg
        .register(DeriveInput::Struct(vec![
            Field { ty: x(), attrs: vec![] },
            Field { ty: y(), attrs: vec![] },
        ]))
        .unwrap();
    let all = reg.generate(id).unwrap();
    assert_eq!(
        all,
        vec![pair(0, 10), pair(0, 20), pair(1, 10), pair(1, 20), pair(2, 10), pair(2, 20)]
    );
    assert_eq!(reg.count(id), Some(6));
}

#[test]
fn record_without_fields_has_one_instance_on_every_call() {
    let mut reg = Registry::new();
    let id = reg.register(DeriveInput::Struct(vec![])).unwrap();
    assert_eq!(reg.generate(id).unwrap(), vec![Value::Record(vec![])]);
    assert_eq!(reg.generate(id).unwrap(), vec![Value::Record(vec![])]);
    assert_eq!(reg.count(id), Some(1));
}

#[test]
fn appended_values_follow_the_provider() {
    let got = one_field(x(), vec![Attribute::AndValues(vec![Literal::Int(9)])]);
    assert_eq!(got, bytes(&[0, 1, 2, 9]));
    assert_eq!(got.len(), 4);
}

#[test]
fn replacing_values_ignore_the_provider() {
    let got = one_field(
        x(),
        vec![Attribute::WithValues(vec![Literal::Int(5), Literal::Int(6)])],
    );
    assert_eq!(got, bytes(&[5, 6]));
    assert_eq!(got.len(), 2);
}

#[test]
fn sum_lists_its_variants_in_order() {
    let mut reg = Registry::new();
    let id = reg
        .register(DeriveInput::Enum(vec![
            Variant { ident: "V1".to_string(), fields: vec![] },
            Variant { ident: "V2".to_string(), fields: vec![Field { ty: x(), attrs: vec![] }] },
        ]))
        .unwrap();
    let all = reg.generate(id).unwrap();
    assert_eq!(
        all,
        vec![
            Value::Variant("V1".to_string(), vec![]),
            Value::Variant("V2".to_string(), vec![Value::U8(0)]),
            Value::Variant("V2".to_string(), vec![Value::U8(1)]),
            Value::Variant("V2".to_string(), vec![Value::U8(2)]),
        ]
    );
    assert_eq!(reg.count(id), Some(4));
}

#[test]
fn generating_twice_gives_the_same_list() {
    let mut reg = Registry::new();
    let id = reg
        .register(DeriveInput::Enum(vec![
            Variant {
                ident: "A".to_string(),
                fields: vec![
                    Field { ty: ElementType::U8, attrs: vec![] },
                    Field { ty: ElementType::Optional(Box::new(ElementType::I8)), attrs: vec![] },
                ],
            },
            Variant { ident: "B".to_string(), fields: vec![Field { ty: y(), attrs: vec![] }] },
        ]))
        .unwrap();
    let first = reg.generate(id).unwrap();
    let second = reg.generate(id).unwrap();
    assert_eq!(first.len(), 57 * 66 + 2);
    assert_eq!(first, second);
}

#[test]
fn record_length_is_the_product_of_its_fields_lengths() {
    let mut reg = Registry::new();
    let id = reg
        .register(DeriveInput::Struct(vec![
            Field { ty: x(), attrs: vec![Attribute::AndValues(vec![Literal::Int(9)])] },
            Field {
                ty: ElementType::Bool,
                attrs: vec![Attribute::WithDefault],
            },
            Field {
                ty: ElementType::I8,
                attrs: vec![Attribute::WithValues(vec![Literal::Int(-1), Literal::Int(1)])],
            },
            Field {
                ty: ElementType::List(Box::new(ElementType::U8)),
                attrs: vec![Attribute::GenerateCollectionLength(vec![0, 1, 3])],
            },
            Field { ty: y(), attrs: vec![] },
        ]))
        .unwrap();
    let all = reg.generate(id).unwrap();
    assert_eq!(all.len(), 4 * 1 * 2 * 3 * 2);
    assert_eq!(reg.count(id), Some(48));
    assert_eq!(
        all[0],
        Value::Record(vec![
            Value::U8(0),
            Value::Bool(false),
            Value::I8(-1),
            Value::List(vec![]),
            Value::U8(10),
        ])
    );
    assert_eq!(
        all[47],
        Value::Record(vec![
            Value::U8(9),
            Value::Bool(false),
            Value::I8(1),
            Value::List(bytes(&[0, 1, 2])),
            Value::U8(20),
        ])
    );
}

#[test]
fn record_with_a_field_without_candidates_has_no_instance() {
    let mut reg = Registry::new();
    let id = reg
        .register(DeriveInput::Struct(vec![
            Field { ty: ElementType::U8, attrs: vec![] },
            Field { ty: ElementType::U8, attrs: vec![Attribute::WithValues(vec![])] },
            Field { ty: ElementType::I8, attrs: vec![] },
        ]))
        .unwrap();
    assert_eq!(reg.generate(id).unwrap(), Vec::<Value>::new());
    assert_eq!(reg.count(id), Some(0));
}

#[test]
fn registered_types_nest() {
    let mut reg = Registry::new();
    let inner = reg
        .register(DeriveInput::Struct(vec![
            Field { ty: x(), attrs: vec![] },
            Field { ty: y(), attrs: vec![] },
        ]))
        .unwrap();
    let choice = reg
        .register(DeriveInput::Enum(vec![
            Variant { ident: "None".to_string(), fields: vec![] },
            Variant {
                ident: "One".to_string(),
                fields: vec![Field { ty: ElementType::Named(inner), attrs: vec![] }],
            },
        ]))
        .unwrap();
    let outer = reg
        .register(DeriveInput::Struct(vec![
            Field { ty: ElementType::Named(choice), attrs: vec![] },
            Field {
                ty: ElementType::Optional(Box::new(ElementType::Named(inner))),
                attrs: vec![],
            },
        ]))
        .unwrap();
    assert_eq!((inner, choice, outer), (0, 1, 2));
    assert_eq!(reg.len(), 3);
    assert_eq!(reg.counts(), &vec![6, 7, 49]);
    let all = reg.generate(outer).unwrap();
    assert_eq!(all.len(), 49);
    assert_eq!(
        all[0],
        Value::Record(vec![Value::Variant("None".to_string(), vec![]), Value::Absent])
    );
    assert_eq!(
        all[1],
        Value::Record(vec![
            Value::Variant("None".to_string(), vec![]),
            Value::Present(Box::new(pair(0, 10))),
        ])
    );
    assert_eq!(
        all[48],
        Value::Record(vec![
            Value::Variant("One".to_string(), vec![pair(2, 20)]),
            Value::Present(Box::new(pair(2, 20))),
        ])
    );
}

#[test]
fn unknown_number_generates_nothing() {
    let mut reg = Registry::new();
    assert_eq!(reg.generate(0), None);
    assert_eq!(reg.count(0), None);
    let id = reg.register(DeriveInput::Struct(vec![])).unwrap();
    assert_eq!(id, 0);
    assert!(reg.generate(0).is_some());
    assert_eq!(reg.generate(1), None);
    assert_eq!(reg.count(1), None);
}
