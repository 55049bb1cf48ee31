use allem::{
    Alles, Attribute, DeriveInput, ElementType, Field, Literal, Registry, Value, Variant,
};

fn plain(ty: ElementType) -> Field {
    Field { ty, attrs: vec![] }
}

fn with(ty: ElementType, attrs: Vec<Attribute>) -> Field {
    Field { ty, attrs }
}

fn ints(values: &[i64]) -> Vec<Literal> {
    values.iter().map(|n| Literal::Int(*n)).collect()
}

fn texts(values: &[&str]) -> Vec<Literal> {
    values.iter().map(|s| Literal::Text(s.to_string())).collect()
}

fn variant(ident: &str, fields: Vec<Field>) -> Variant {
    Variant { ident: ident.to_string(), fields }
}

#[test]
fn check_impls() {
    let mut reg = Registry::new();
    let test2 = reg
        .register(DeriveInput::Struct(vec![plain(ElementType::U8), plain(ElementType::I8)]))
        .unwrap();
    let test4 = reg
        .register(DeriveInput::Struct(vec![plain(ElementType::U8), plain(ElementType::I8)]))
        .unwrap();
    let cnt = reg.generate(test2).unwrap().len();
    let cnt2 = reg.generate(test4).unwrap().len();

    assert_eq!(cnt, cnt2);

    let test6 = reg
        .register(DeriveInput::Enum(vec![
            variant("Foo", vec![]),
            variant(
                "Bar",
                vec![with(ElementType::I8, vec![Attribute::AndValues(ints(&[-0, 2]))])],
            ),
            variant(
                "Baz",
                vec![with(
                    ElementType::Text,
                    vec![
                        Attribute::WithValues(texts(&["Test", "Foo"])),
                        Attribute::AndValues(texts(&["bar"])),
                    ],
                )],
            ),
            variant(
                "Frob",
                vec![with(ElementType::I8, vec![Attribute::AndValues(ints(&[23]))])],
            ),
            variant("Frab", vec![with(ElementType::Bool, vec![Attribute::WithDefault])]),
        ]))
        .unwrap();

    let i8cnt = <i8 as Alles>::generate().len();
    let cnt3 = reg.generate(test6).unwrap().len();

    assert_eq!(i8cnt + 1 + 2 + 2 + 1 + i8cnt + 1 + 1, cnt3);
}

#[test]
fn derive_check_impls() {
    let mut reg = Registry::new();
    let test2 = reg
        .register(DeriveInput::Struct(vec![plain(ElementType::U8), plain(ElementType::I8)]))
        .unwrap();
    let test4 = reg
        .register(DeriveInput::Struct(vec![plain(ElementType::U8), plain(ElementType::I8)]))
        .unwrap();
    let cnt = reg.generate(test2).unwrap().len();
    let cnt2 = reg.generate(test4).unwrap().len();

    assert_eq!(cnt, cnt2);

    let test6 = reg
        .register(DeriveInput::Enum(vec![
            variant("Foo", vec![]),
            variant("Bar", vec![plain(ElementType::I8)]),
            variant(
                "Baz",
                vec![with(
                    ElementType::Text,
                    vec![Attribute::WithValues(texts(&["Test", "Foo"]))],
                )],
            ),
        ]))
        .unwrap();

    let i8cnt = <i8 as Alles>::generate().len();
    let cnt3 = reg.generate(test6).unwrap().len();

    assert_eq!(i8cnt + 1 + 2, cnt3);
}

#[test]
fn check_generation() {
    let mut reg = Registry::new();
    let foo = reg
        .register(DeriveInput::Struct(vec![plain(ElementType::U8), plain(ElementType::I8)]))
        .unwrap();
    let all = reg.generate(foo).unwrap();

    println!("{:?}", all.len());
    assert_eq!(all.len(), 57 * 65);
    assert_eq!(reg.count(foo), Some(57 * 65));
    assert_eq!(all[0], Value::Record(vec![Value::U8(0), Value::I8(0)]));
    assert_eq!(all[1], Value::Record(vec![Value::U8(0), Value::I8(-1)]));
    assert_eq!(all[65], Value::Record(vec![Value::U8(1), Value::I8(0)]));
    assert_eq!(all[57 * 65 - 1], Value::Record(vec![Value::U8(255), Value::I8(127)]));
}

#[test]
fn lib_check_generation() {
    let name = <u8 as Alles>::generate();
    let age = <i8 as Alles>::generate();

    println!("{:?}", (name.len(), age.len()));
    assert_eq!(name.len(), 57);
    assert_eq!(age.len(), 65);
    assert_eq!(&name[..5], &[0, 1, 2, 3, 5]);
    assert_eq!(name[56], 255);
    assert_eq!(&age[..4], &[0, -1, -2, -3]);
    assert_eq!(age[32], -127);
    assert_eq!(age[33], 1);
    assert_eq!(age[64], 127);
}
