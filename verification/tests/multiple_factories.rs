use factori::registry::Registry;
use factori::shape::Shape;
use factori::token::Token;
use factori::value::{Field, Value};
use factori::IdentityTransform;

fn fld(name: &str, v: Value) -> Field {
    Field { name: name.to_string(), value: v }
}

fn get_u64(s: &Shape, name: &str) -> u64 {
    match s.get(&name.to_string()).unwrap() {
        Value::Int(n) => *n,
        _ => panic!("expected an integer field"),
    }
}

fn get_bool(s: &Shape, name: &str) -> bool {
    match s.get(&name.to_string()).unwrap() {
        Value::Bool(b) => *b,
        _ => panic!("expected a boolean field"),
    }
}

fn get_text(s: &Shape, name: &str) -> String {
    match s.get(&name.to_string()).unwrap() {
        Value::Text(t) => t.clone(),
        _ => panic!("expected a text field"),
    }
}

fn registry() -> Registry {
    let mut reg = Registry::new();
    let both = vec![
        Token::ident("Vehicle"),
        Token::Comma,
        Token::OpenBrace,
        Token::ident("default"),
        Token::OpenBrace,
        Token::ident("number_wheels"),
        Token::Equals,
        Token::int_lit(4),
        Token::Comma,
        Token::ident("electric"),
        Token::Equals,
        Token::bool_lit(false),
        Token::Comma,
        Token::CloseBrace,
        Token::CloseBrace,
        Token::ident("Passenger"),
        Token::Comma,
        Token::OpenBrace,
        Token::ident("default"),
        Token::OpenBrace,
        Token::ident("name"),
        Token::Equals,
        Token::text_lit("Michael"),
        Token::CloseBrace,
        Token::CloseBrace,
    ];
    reg.define(&both).unwrap();
    let cargo = vec![
        Token::ident("Cargo"),
        Token::Comma,
        Token::OpenBrace,
        Token::ident("default"),
        Token::OpenBrace,
        Token::ident("weight"),
        Token::Equals,
        Token::int_lit(0),
        Token::CloseBrace,
        Token::CloseBrace,
    ];
    reg.define(&cargo).unwrap();
    reg
}

fn create(reg: &Registry, ty: &str, overrides: Vec<Field>) -> Shape {
    reg.create(&ty.to_string(), &vec![], &overrides, &IdentityTransform).unwrap()
}

#[test]
fn multiple_factories_vehicle() {
    let reg = registry();
    let default = create(&reg, "Vehicle", vec![]);
    assert_eq!(get_u64(&default, "number_wheels"), 4);
    assert!(!get_bool(&default, "electric"));
}

#[test]
fn multiple_factories_passenger() {
    let reg = registry();
    let default = create(&reg, "Passenger", vec![]);
    assert_eq!(get_text(&default, "name"), "Michael");
}

#[test]
fn multiple_factories_cargo() {
    let reg = registry();
    let default = create(&reg, "Cargo", vec![]);
    assert_eq!(get_u64(&default, "weight"), 0);
}

#[test]
fn multiple_factories_override_field() {
    let reg = registry();
    let tom = create(&reg, "Passenger", vec![fld("name", Value::Text("Tom".to_string()))]);
    assert_eq!(get_text(&tom, "name"), "Tom");
}

#[test]
fn multiple_factories_multiple_fields() {
    let reg = registry();
    let multiple = create(&reg, "Vehicle", vec![
        fld("number_wheels", Value::Int(8)),
        fld("electric", Value::Bool(true)),
    ]);
    assert_eq!(get_u64(&multiple, "number_wheels"), 8);
    assert!(get_bool(&multiple, "electric"));
}
