use factori::registry::Registry;
use factori::shape::Shape;
use factori::token::Token;
use factori::value::{Field, Value};
use factori::IdentityTransform;

fn fld(name: &str, v: Value) -> Field {
    Field { name: name.to_string(), value: v }
}

fn get_u64(s: &Shape, name: &str) -> u64 {
    match s.get(&name.to_string()).unwrap() {
        Value::Int(n) => *n,
        _ => panic!("expected an integer field"),
    }
}

fn get_bool(s: &Shape, name: &str) -> bool {
    match s.get(&name.to_string()).unwrap() {
        Value::Bool(b) => *b,
        _ => panic!("expected a boolean field"),
    }
}

fn vehicle_tokens() -> Vec<Token> {
    vec![
        Token::ident("Vehicle"),
        Token::Comma,
        Token::OpenBrace,
        Token::ident("default"),
        Token::OpenBrace,
        Token::ident("number_wheels"),
        Token::Equals,
        Token::int_lit(4),
        Token::Comma,
        Token::ident("electric"),
        Token::Equals,
        Token::bool_lit(false),
        Token::Comma,
        Token::CloseBrace,
        Token::ident("mixin"),
        Token::ident("bike"),
        Token::OpenBrace,
        Token::ident("number_wheels"),
        Token::Equals,
        Token::int_lit(2),
        Token::Comma,
        Token::CloseBrace,
        Token::ident("mixin"),
        Token::ident("trike"),
        Token::OpenBrace,
        Token::ident("number_wheels"),
        Token::Equals,
        Token::int_lit(3),
        Token::Comma,
        Token::CloseBrace,
        Token::ident("mixin"),
        Token::ident("electric"),
        Token::OpenBrace,
        Token::ident("electric"),
        Token::Equals,
        Token::bool_lit(true),
        Token::Comma,
        Token::CloseBrace,
        Token::CloseBrace,
    ]
}

fn vehicle_registry() -> Registry {
    let mut reg = Registry::new();
    reg.define(&vehicle_tokens()).unwrap();
    reg
}

fn create(reg: &Registry, ty: &str, mixins: &[&str], overrides: Vec<Field>) -> Shape {
    let mixin_names: Vec<String> = mixins.iter().map(|m| m.to_string()).collect();
    reg.create(&ty.to_string(), &mixin_names, &overrides, &IdentityTransform).unwrap()
}

#[test]
fn simple_struct() {
    let reg = vehicle_registry();
    let default = create(&reg, "Vehicle", &[], vec![]);
    assert_eq!(get_u64(&default, "number_wheels"), 4);
    assert!(!get_bool(&default, "electric"));
}

#[test]
fn nested_struct() {
    let mut reg = vehicle_registry();
    let vehicles = reg
        .create_many(&"Vehicle".to_string(), 3, &vec![], &vec![], &IdentityTransform)
        .unwrap();
    let as_values: Vec<Value> = vehicles.into_iter().map(|s| Value::Record(s.fields)).collect();
    let garage_tokens = vec![
        Token::ident("Garage"),
        Token::Comma,
        Token::OpenBrace,
        Token::ident("default"),
        Token::OpenBrace,
        Token::ident("vehicle"),
        Token::Equals,
        Token::Lit(Value::List(as_values)),
        Token::Comma,
        Token::CloseBrace,
        Token::CloseBrace,
    ];
    reg.define(&garage_tokens).unwrap();
    let default = create(&reg, "Garage", &[], vec![]);
    let vehicle = match default.get(&"vehicle".to_string()).unwrap() {
        Value::List(vs) => vs,
        _ => panic!("expected a list field"),
    };
    assert_eq!(vehicle.len(), 3);
    let first = match &vehicle[0] {
        Value::Record(fields) => fields,
        _ => panic!("expected a record element"),
    };
    let wheels = first.iter().find(|f| f.name == "number_wheels").unwrap();
    assert_eq!(wheels.value, Value::Int(4));
    let electric = first.iter().find(|f| f.name == "electric").unwrap();
    assert_eq!(electric.value, Value::Bool(false));
}

#[test]
fn simple_override_field() {
    let reg = vehicle_registry();
    let three_wheels = create(&reg, "Vehicle", &[], vec![fld("number_wheels", Value::Int(3))]);
    assert_eq!(get_u64(&three_wheels, "number_wheels"), 3);
}

#[test]
fn one_mixin() {
    let reg = vehicle_registry();
    let bike = create(&reg, "Vehicle", &["bike"], vec![]);
    assert_eq!(get_u64(&bike, "number_wheels"), 2);
    assert!(!get_bool(&bike, "electric"));
}

#[test]
fn mixin_and_override() {
    let reg = vehicle_registry();
    let electric_bike = create(&reg, "Vehicle", &["bike"], vec![fld(
        "electric",
        Value::Bool(true),
    )]);
    assert_eq!(get_u64(&electric_bike, "number_wheels"), 2);
    assert!(get_bool(&electric_bike, "electric"));
}

#[test]
fn two_mixins() {
    let reg = vehicle_registry();
    let electric_bike = create(&reg, "Vehicle", &["bike", "electric"], vec![]);
    assert_eq!(get_u64(&electric_bike, "number_wheels"), 2);
    assert!(get_bool(&electric_bike, "electric"));
}

#[test]
fn mixin_precedence() {
    let reg = vehicle_registry();
    let electric_bike = create(&reg, "Vehicle", &["bike", "trike"], vec![]);
    assert_eq!(get_u64(&electric_bike, "number_wheels"), 3);
}
