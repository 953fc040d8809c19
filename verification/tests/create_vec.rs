use factori::registry::Registry;
use factori::shape::Shape;
use factori::token::Token;
use factori::value::{Field, Value};
use factori::Builder;

fn fld(name: &str, v: Value) -> Field {
    Field { name: name.to_string(), value: v }
}

fn get_u64(s: &Shape, name: &str) -> u64 {
    match s.get(&name.to_string()).unwrap() {
        Value::Int(n) => *n,
        _ => panic!("expected an integer field"),
    }
}

fn get_bool(s: &Shape, name: &str) -> bool {
    match s.get(&name.to_string()).unwrap() {
        Value::Bool(b) => *b,
        _ => panic!("expected a boolean field"),
    }
}

/// The host's transform step for Vehicle: double the wheel count when the
/// construction-only `double_wheels` input is set.
struct VehicleBuilder;

impl Builder for VehicleBuilder {
    fn build(&self, shape: Shape) -> Shape {
        let mut out = shape;
        if get_bool(&out, "double_wheels") {
            let wheels = get_u64(&out, "number_wheels");
            out.set(fld("number_wheels", Value::Int(wheels * 2)));
        }
        out
    }
}

fn vehicle_tokens() -> Vec<Token> {
    vec![
        Token::ident("Vehicle"),
        Token::Comma,
        Token::OpenBrace,
        Token::ident("default"),
        Token::OpenBrace,
        Token::ident("number_wheels"),
        Token::Colon,
        Token::ident("u8"),
        Token::Equals,
        Token::int_lit(4),
        Token::Comma,
        Token::ident("electric"),
        Token::Colon,
        Token::ident("bool"),
        Token::Equals,
        Token::bool_lit(false),
        Token::Comma,
        Token::CloseBrace,
        Token::ident("transient"),
        Token::OpenBrace,
        Token::ident("double_wheels"),
        Token::Colon,
        Token::ident("bool"),
        Token::Equals,
        Token::bool_lit(false),
        Token::CloseBrace,
        Token::ident("mixin"),
        Token::ident("bike"),
        Token::OpenBrace,
        Token::ident("number_wheels"),
        Token::Equals,
        Token::int_lit(2),
        Token::Comma,
        Token::CloseBrace,
        Token::ident("mixin"),
        Token::ident("trike"),
        Token::OpenBrace,
        Token::ident("number_wheels"),
        Token::Equals,
        Token::int_lit(3),
        Token::Comma,
        Token::CloseBrace,
        Token::ident("mixin"),
        Token::ident("electric"),
        Token::OpenBrace,
        Token::ident("electric"),
        Token::Equals,
        Token::bool_lit(true),
        Token::Comma,
        Token::CloseBrace,
        Token::ident("transform"),
        Token::code("if double_wheels { number_wheels = number_wheels * 2 }"),
        Token::CloseBrace,
    ]
}

fn vehicle_registry() -> Registry {
    let mut reg = Registry::new();
    reg.define(&vehicle_tokens()).unwrap();
    reg
}

fn create_vec(reg: &Registry, count: usize, mixins: &[&str], overrides: Vec<Field>) -> Vec<Shape> {
    let mixin_names: Vec<String> = mixins.iter().map(|m| m.to_string()).collect();
    reg.create_many(&"Vehicle".to_string(), count, &mixin_names, &overrides, &VehicleBuilder)
        .unwrap()
}

#[test]
fn can_create_many() {
    let reg = vehicle_registry();
    let vehicles = create_vec(&reg, 5, &[], vec![]);
    assert_eq!(vehicles.len(), 5);
}

#[test]
fn works_with_mixins() {
    let reg = vehicle_registry();
    let vehicles = create_vec(&reg, 3, &["bike"], vec![]);
    vehicles.iter().for_each(|vehicle| {
        assert_eq!(get_u64(vehicle, "number_wheels"), 2);
    });
}

#[test]
fn works_with_overriding_fields() {
    let reg = vehicle_registry();
    let vehicles = create_vec(&reg, 3, &[], vec![fld("electric", Value::Bool(true))]);
    vehicles.iter().for_each(|vehicle| {
        assert!(get_bool(vehicle, "electric"));
    });
}

#[test]
fn works_with_transient_fields() {
    let reg = vehicle_registry();
    let vehicles = create_vec(&reg, 3, &[], vec![fld("double_wheels", Value::Bool(true))]);
    vehicles.iter().for_each(|vehicle| {
        assert_eq!(get_u64(vehicle, "number_wheels"), 8);
    });
}

#[test]
fn works_with_all_of_them() {
    let reg = vehicle_registry();
    let vehicles = create_vec(&reg, 3, &["bike"], vec![
        fld("electric", Value::Bool(true)),
        fld("double_wheels", Value::Bool(true)),
    ]);
    vehicles.iter().for_each(|vehicle| {
        assert_eq!(get_u64(vehicle, "number_wheels"), 4);
        assert!(get_bool(vehicle, "electric"));
    });
}
