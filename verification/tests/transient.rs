use factori::registry::Registry;
use factori::shape::Shape;
use factori::token::Token;
use factori::value::{Field, Value};
use factori::Builder;

fn fld(name: &str, v: Value) -> Field {
    Field { name: name.to_string(), value: v }
}

fn get_bool(s: &Shape, name: &str) -> bool {
    match s.get(&name.to_string()).unwrap() {
        Value::Bool(b) => *b,
        _ => panic!("expected a boolean field"),
    }
}

fn get_text(s: &Shape, name: &str) -> String {
    match s.get(&name.to_string()).unwrap() {
        Value::Text(t) => t.clone(),
        _ => panic!("expected a text field"),
    }
}

/// The host's transform step for User: upper-case the name when the
/// construction-only `upcased` input is set.
struct UserBuilder;

impl Builder for UserBuilder {
    fn build(&self, shape: Shape) -> Shape {
        let mut out = shape;
        if get_bool(&out, "upcased") {
            let name = get_text(&out, "name");
            out.set(fld("name", Value::Text(name.to_uppercase())));
        }
        out
    }
}

fn user_registry() -> Registry {
    let mut reg = Registry::new();
    let tokens = vec![
        Token::ident("User"),
        Token::Comma,
        Token::OpenBrace,
        Token::ident("default"),
        Token::OpenBrace,
        Token::ident("name"),
        Token::Colon,
        Token::ident("String"),
        Token::Equals,
        Token::text_lit("Richard"),
        Token::CloseBrace,
        Token::ident("transient"),
        Token::OpenBrace,
        Token::ident("upcased"),
        Token::Colon,
        Token::ident("bool"),
        Token::Equals,
        Token::bool_lit(false),
        Token::CloseBrace,
        Token::ident("mixin"),
        Token::ident("upcased"),
        Token::OpenBrace,
        Token::ident("upcased"),
        Token::Equals,
        Token::bool_lit(true),
        Token::CloseBrace,
        Token::ident("transform"),
        Token::code("let name = if upcased { name.to_uppercase() } else { name }; User { name }"),
        Token::CloseBrace,
    ];
    reg.define(&tokens).unwrap();
    reg
}

fn create(reg: &Registry, mixins: &[&str], overrides: Vec<Field>) -> Shape {
    let mixin_names: Vec<String> = mixins.iter().map(|m| m.to_string()).collect();
    reg.create(&"User".to_string(), &mixin_names, &overrides, &UserBuilder).unwrap()
}

#[test]
fn transient_doesnt_change_anything() {
    let reg = user_registry();
    let user = create(&reg, &[], vec![fld("name", Value::Text("John".into()))]);
    assert_eq!(get_text(&user, "name"), "John");
}

#[test]
fn transient_changes_value() {
    let reg = user_registry();
    let user = create(&reg, &[], vec![fld("upcased", Value::Bool(true))]);
    assert_eq!(get_text(&user, "name"), "RICHARD");
}

#[test]
fn transient_works_with_mixins() {
    let reg = user_registry();
    let user = create(&reg, &["upcased"], vec![]);
    assert_eq!(get_text(&user, "name"), "RICHARD");
}
