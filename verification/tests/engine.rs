use factori::compile::{compile, CompileError};
use factori::compose::CreateError;
use factori::definition::validate;
use factori::parser::{parse, ParseError, ParseErrorKind};
use factori::registry::{DefineError, Registry, RequestError};
use factori::shape::Shape;
use factori::token::Token;
use factori::value::{Field, Value};
use factori::{Builder, IdentityTransform, Mixin};

fn fld(name: &str, v: Value) -> Field {
    Field { name: name.to_string(), value: v }
}

fn get_u64(s: &Shape, name: &str) -> u64 {
    match s.get(&name.to_string()).unwrap() {
        Value::Int(n) => *n,
        _ => panic!("expected an integer field"),
    }
}

fn get_bool(s: &Shape, name: &str) -> bool {
    match s.get(&name.to_string()).unwrap() {
        Value::Bool(b) => *b,
        _ => panic!("expected a boolean field"),
    }
}

fn vehicle_tokens() -> Vec<Token> {
    vec![
        Token::ident("Vehicle"),
        Token::Comma,
        Token::OpenBrace,
        Token::ident("default"),
        Token::OpenBrace,
        Token::ident("wheels"),
        Token::Equals,
        Token::int_lit(4),
        Token::Comma,
        Token::ident("electric"),
        Token::Equals,
        Token::bool_lit(false),
        Token::Comma,
        Token::CloseBrace,
        Token::ident("mixin"),
        Token::ident("bike"),
        Token::OpenBrace,
        Token::ident("wheels"),
        Token::Equals,
        Token::int_lit(2),
        Token::Comma,
        Token::CloseBrace,
        Token::ident("mixin"),
        Token::ident("trike"),
        Token::OpenBrace,
        Token::ident("wheels"),
        Token::Equals,
        Token::int_lit(3),
        Token::Comma,
        Token::CloseBrace,
        Token::CloseBrace,
    ]
}

fn vehicle_registry() -> Registry {
    let mut reg = Registry::new();
    reg.define(&vehicle_tokens()).unwrap();
    reg
}

fn create(reg: &Registry, ty: &str, mixins: &[&str], overrides: Vec<Field>) -> Result<
    Shape,
    CreateError,
> {
    let mixin_names: Vec<String> = mixins.iter().map(|m| m.to_string()).collect();
    reg.create(&ty.to_string(), &mixin_names, &overrides, &IdentityTransform)
}

#[test]
fn default_only() {
    let reg = vehicle_registry();
    let v = create(&reg, "Vehicle", &[], vec![]).unwrap();
    assert_eq!(get_u64(&v, "wheels"), 4);
    assert_eq!(get_bool(&v, "electric"), false);
    assert_eq!(v.len(), 2);
}

#[test]
fn override_outranks_default() {
    let reg = vehicle_registry();
    let v = create(&reg, "Vehicle", &[], vec![fld("wheels", Value::Int(3))]).unwrap();
    assert_eq!(get_u64(&v, "wheels"), 3);
    assert_eq!(get_bool(&v, "electric"), false);
}

#[test]
fn later_mixin_wins_both_orders() {
    let reg = vehicle_registry();
    let bike_then_trike = create(&reg, "Vehicle", &["bike", "trike"], vec![]).unwrap();
    assert_eq!(get_u64(&bike_then_trike, "wheels"), 3);
    let trike_then_bike = create(&reg, "Vehicle", &["trike", "bike"], vec![]).unwrap();
    assert_eq!(get_u64(&trike_then_bike, "wheels"), 2);
}

#[test]
fn mixin_plus_override() {
    let reg = vehicle_registry();
    let v = create(&reg, "Vehicle", &["bike"], vec![fld("electric", Value::Bool(true))]).unwrap();
    assert_eq!(get_u64(&v, "wheels"), 2);
    assert_eq!(get_bool(&v, "electric"), true);
}

#[test]
fn override_outranks_any_mixin_position() {
    let reg = vehicle_registry();
    let v = create(&reg, "Vehicle", &["bike"], vec![fld("wheels", Value::Int(9))]).unwrap();
    assert_eq!(get_u64(&v, "wheels"), 9);
}

#[test]
fn repeated_override_last_wins() {
    let reg = vehicle_registry();
    let v = create(&reg, "Vehicle", &[], vec![
        fld("wheels", Value::Int(7)),
        fld("wheels", Value::Int(5)),
    ])
        .unwrap();
    assert_eq!(get_u64(&v, "wheels"), 5);
}

struct AgeDoubler;

impl Builder for AgeDoubler {
    fn build(&self, shape: Shape) -> Shape {
        let mut out = shape;
        if get_bool(&out, "double_age") {
            let age = get_u64(&out, "age");
            out.set(fld("age", Value::Int(age * 2)));
        }
        out
    }
}

fn user_tokens() -> Vec<Token> {
    vec![
        Token::ident("User"),
        Token::Comma,
        Token::OpenBrace,
        Token::ident("default"),
        Token::OpenBrace,
        Token::ident("age"),
        Token::Colon,
        Token::ident("u8"),
        Token::Equals,
        Token::int_lit(42),
        Token::Comma,
        Token::CloseBrace,
        Token::ident("transient"),
        Token::OpenBrace,
        Token::ident("double_age"),
        Token::Colon,
        Token::ident("bool"),
        Token::Equals,
        Token::bool_lit(false),
        Token::CloseBrace,
        Token::ident("transform"),
        Token::code("let age = if double_age { age * 2 } else { age }; User { age }"),
        Token::CloseBrace,
    ]
}

#[test]
fn transient_drives_transform() {
    let mut reg = Registry::new();
    reg.define(&user_tokens()).unwrap();
    let user = reg
        .create(&"User".to_string(), &vec![], &vec![fld("double_age", Value::Bool(true))], &AgeDoubler)
        .unwrap();
    assert_eq!(get_u64(&user, "age"), 84);
}

#[test]
fn transient_never_reaches_instance() {
    let mut reg = Registry::new();
    reg.define(&user_tokens()).unwrap();
    let user = reg
        .create(&"User".to_string(), &vec![], &vec![fld("double_age", Value::Bool(true))], &AgeDoubler)
        .unwrap();
    assert!(user.get(&"double_age".to_string()).is_none());
    assert_eq!(user.len(), 1);
}

#[test]
fn replication_yields_count_independent_elements() {
    let reg = vehicle_registry();
    let vehicles = reg
        .create_many(
            &"Vehicle".to_string(),
            3,
            &vec![],
            &vec![fld("wheels", Value::Int(2))],
            &IdentityTransform,
        )
        .unwrap();
    assert_eq!(vehicles.len(), 3);
    for v in &vehicles {
        assert_eq!(get_u64(v, "wheels"), 2);
        assert_eq!(get_bool(v, "electric"), false);
    }
}

#[test]
fn replication_of_zero_is_empty() {
    let reg = vehicle_registry();
    let none = reg
        .create_many(&"Vehicle".to_string(), 0, &vec![], &vec![], &IdentityTransform)
        .unwrap();
    assert!(none.is_empty());
}

#[test]
fn create_unknown_type_fails() {
    let reg = vehicle_registry();
    let err = create(&reg, "Boat", &[], vec![]).unwrap_err();
    assert_eq!(err, CreateError::UnknownType("Boat".to_string()));
}

#[test]
fn create_unknown_mixin_fails() {
    let reg = vehicle_registry();
    let err = create(&reg, "Vehicle", &["hovercraft"], vec![]).unwrap_err();
    assert_eq!(err, CreateError::UnknownMixin("hovercraft".to_string()));
}

#[test]
fn create_unknown_field_fails() {
    let reg = vehicle_registry();
    let err = create(&reg, "Vehicle", &[], vec![fld("sails", Value::Int(1))]).unwrap_err();
    assert_eq!(err, CreateError::UnknownField("sails".to_string()));
}

#[test]
fn failed_create_corrupts_nothing() {
    let reg = vehicle_registry();
    assert!(create(&reg, "Vehicle", &["hovercraft"], vec![]).is_err());
    let v = create(&reg, "Vehicle", &[], vec![]).unwrap();
    assert_eq!(get_u64(&v, "wheels"), 4);
}

#[test]
fn missing_default_block_fails() {
    let tokens = vec![
        Token::ident("Vehicle"),
        Token::Comma,
        Token::OpenBrace,
        Token::CloseBrace,
    ];
    let err = parse(&tokens).unwrap_err();
    assert_eq!(err, ParseError { kind: ParseErrorKind::MissingDefault, pos: 3 });
}

#[test]
fn duplicate_default_block_fails() {
    let tokens = vec![
        Token::ident("Vehicle"),
        Token::Comma,
        Token::OpenBrace,
        Token::ident("default"),
        Token::OpenBrace,
        Token::CloseBrace,
        Token::ident("default"),
        Token::OpenBrace,
        Token::CloseBrace,
        Token::CloseBrace,
    ];
    let err = parse(&tokens).unwrap_err();
    assert_eq!(err.kind, ParseErrorKind::DuplicateDefault);
}

#[test]
fn unknown_block_key_fails() {
    let tokens = vec![
        Token::ident("Vehicle"),
        Token::Comma,
        Token::OpenBrace,
        Token::ident("defaults"),
        Token::OpenBrace,
        Token::CloseBrace,
        Token::CloseBrace,
    ];
    let err = parse(&tokens).unwrap_err();
    assert_eq!(err, ParseError { kind: ParseErrorKind::UnknownBlockKey, pos: 3 });
}

#[test]
fn missing_initializer_fails() {
    let tokens = vec![
        Token::ident("Vehicle"),
        Token::Comma,
        Token::OpenBrace,
        Token::ident("default"),
        Token::OpenBrace,
        Token::ident("wheels"),
        Token::Comma,
        Token::CloseBrace,
        Token::CloseBrace,
    ];
    let err = parse(&tokens).unwrap_err();
    assert_eq!(err, ParseError { kind: ParseErrorKind::ExpectedEquals, pos: 6 });
}

#[test]
fn unterminated_block_fails() {
    let tokens = vec![
        Token::ident("Vehicle"),
        Token::Comma,
        Token::OpenBrace,
        Token::ident("default"),
        Token::OpenBrace,
    ];
    let err = parse(&tokens).unwrap_err();
    assert_eq!(err.kind, ParseErrorKind::UnexpectedEnd);
}

#[test]
fn untyped_default_with_transform_is_invalid() {
    let tokens = vec![
        Token::ident("User"),
        Token::Comma,
        Token::OpenBrace,
        Token::ident("default"),
        Token::OpenBrace,
        Token::ident("age"),
        Token::Equals,
        Token::int_lit(42),
        Token::CloseBrace,
        Token::ident("transform"),
        Token::code("User { age }"),
        Token::CloseBrace,
    ];
    let defs = parse(&tokens).unwrap();
    let err = validate(&defs[0]).unwrap_err();
    assert_eq!(err.field, "age");
    let mut reg = Registry::new();
    match reg.define(&tokens).unwrap_err() {
        DefineError::Invalid(e) => assert_eq!(e.field, "age"),
        other => panic!("expected a validation error, got {:?}", other),
    }
}

#[test]
fn duplicate_default_field_fails_to_compile() {
    let tokens = vec![
        Token::ident("Vehicle"),
        Token::Comma,
        Token::OpenBrace,
        Token::ident("default"),
        Token::OpenBrace,
        Token::ident("wheels"),
        Token::Equals,
        Token::int_lit(4),
        Token::Comma,
        Token::ident("wheels"),
        Token::Equals,
        Token::int_lit(2),
        Token::Comma,
        Token::CloseBrace,
        Token::CloseBrace,
    ];
    let mut reg = Registry::new();
    let err = reg.define(&tokens).unwrap_err();
    assert_eq!(err, DefineError::Compile(CompileError::DuplicateField("wheels".to_string())));
}

#[test]
fn duplicate_mixin_name_fails_to_compile() {
    let tokens = vec![
        Token::ident("Vehicle"),
        Token::Comma,
        Token::OpenBrace,
        Token::ident("default"),
        Token::OpenBrace,
        Token::ident("wheels"),
        Token::Equals,
        Token::int_lit(4),
        Token::CloseBrace,
        Token::ident("mixin"),
        Token::ident("bike"),
        Token::OpenBrace,
        Token::ident("wheels"),
        Token::Equals,
        Token::int_lit(2),
        Token::CloseBrace,
        Token::ident("mixin"),
        Token::ident("bike"),
        Token::OpenBrace,
        Token::ident("wheels"),
        Token::Equals,
        Token::int_lit(3),
        Token::CloseBrace,
        Token::CloseBrace,
    ];
    let mut reg = Registry::new();
    let err = reg.define(&tokens).unwrap_err();
    assert_eq!(err, DefineError::Compile(CompileError::DuplicateMixin("bike".to_string())));
}

#[test]
fn mixin_field_outside_shape_fails_to_compile() {
    let tokens = vec![
        Token::ident("Vehicle"),
        Token::Comma,
        Token::OpenBrace,
        Token::ident("default"),
        Token::OpenBrace,
        Token::ident("wheels"),
        Token::Equals,
        Token::int_lit(4),
        Token::CloseBrace,
        Token::ident("mixin"),
        Token::ident("boat"),
        Token::OpenBrace,
        Token::ident("sails"),
        Token::Equals,
        Token::int_lit(1),
        Token::CloseBrace,
        Token::CloseBrace,
    ];
    let mut reg = Registry::new();
    let err = reg.define(&tokens).unwrap_err();
    assert_eq!(err, DefineError::Compile(CompileError::UnknownMixinField("sails".to_string())));
}

#[test]
fn duplicate_type_registration_is_rejected() {
    let mut reg = vehicle_registry();
    let err = reg.define(&vehicle_tokens()).unwrap_err();
    assert_eq!(err, DefineError::DuplicateType("Vehicle".to_string()));
    // The registry is unchanged and keeps serving the first registration.
    let v = create(&reg, "Vehicle", &["bike"], vec![]).unwrap();
    assert_eq!(get_u64(&v, "wheels"), 2);
}

#[test]
fn artifacts_compose_directly() {
    let defs = parse(&vehicle_tokens()).unwrap();
    validate(&defs[0]).unwrap();
    let factory = compile(&defs[0]).unwrap();
    let seed = factori::Default::default(&factory);
    assert_eq!(get_u64(&seed, "wheels"), 4);
    let bike = factory.mixins[0].extend(seed);
    assert_eq!(get_u64(&bike, "wheels"), 2);
    assert_eq!(get_bool(&bike, "electric"), false);
    // Mixin application is a copy with overrides: the seed can be rebuilt.
    let fresh = factori::Default::default(&factory);
    assert_eq!(get_u64(&fresh, "wheels"), 4);
}

#[test]
fn identity_composition_matches_default_constructor() {
    let defs = parse(&vehicle_tokens()).unwrap();
    let factory = compile(&defs[0]).unwrap();
    let reg = vehicle_registry();
    let created = create(&reg, "Vehicle", &[], vec![]).unwrap();
    assert_eq!(created, factori::Default::default(&factory));
}

#[test]
fn transient_ignored_without_transform() {
    // Without a transform step the transient block contributes nothing to the
    // intermediate shape, so overriding its field is rejected.
    let tokens = vec![
        Token::ident("Crate"),
        Token::Comma,
        Token::OpenBrace,
        Token::ident("default"),
        Token::OpenBrace,
        Token::ident("weight"),
        Token::Equals,
        Token::int_lit(10),
        Token::CloseBrace,
        Token::ident("transient"),
        Token::OpenBrace,
        Token::ident("scale"),
        Token::Colon,
        Token::ident("u8"),
        Token::Equals,
        Token::int_lit(1),
        Token::CloseBrace,
        Token::CloseBrace,
    ];
    let mut reg = Registry::new();
    reg.define(&tokens).unwrap();
    let plain = create(&reg, "Crate", &[], vec![]).unwrap();
    assert_eq!(plain.len(), 1);
    let err = create(&reg, "Crate", &[], vec![fld("scale", Value::Int(3))]).unwrap_err();
    assert_eq!(err, CreateError::UnknownField("scale".to_string()));
}

#[test]
fn token_request_composes() {
    let reg = vehicle_registry();
    let request = vec![
        Token::ident("Vehicle"),
        Token::Comma,
        Token::Colon,
        Token::ident("bike"),
        Token::Comma,
        Token::ident("electric"),
        Token::Colon,
        Token::bool_lit(true),
    ];
    let v = reg.create_from_tokens(&request, &IdentityTransform).unwrap();
    assert_eq!(get_u64(&v, "wheels"), 2);
    assert!(get_bool(&v, "electric"));
}

#[test]
fn token_request_replicates() {
    let reg = vehicle_registry();
    let request = vec![
        Token::ident("Vehicle"),
        Token::Comma,
        Token::ident("wheels"),
        Token::Colon,
        Token::int_lit(2),
    ];
    let many = reg.create_many_from_tokens(7, &request, &IdentityTransform).unwrap();
    assert_eq!(many.len(), 7);
    for v in &many {
        assert_eq!(get_u64(v, "wheels"), 2);
    }
}

#[test]
fn token_request_errors() {
    let reg = vehicle_registry();
    let unknown_mixin = vec![Token::ident("Vehicle"), Token::Colon, Token::ident("boat")];
    match reg.create_from_tokens(&unknown_mixin, &IdentityTransform).unwrap_err() {
        RequestError::Create(e) => assert_eq!(e, CreateError::UnknownMixin("boat".to_string())),
        other => panic!("expected an instantiation error, got {:?}", other),
    }
    let malformed = vec![Token::ident("Vehicle"), Token::ident("wheels"), Token::Equals];
    match reg.create_from_tokens(&malformed, &IdentityTransform).unwrap_err() {
        RequestError::Parse(e) => assert_eq!(e.kind, ParseErrorKind::ExpectedColon),
        other => panic!("expected a parse error, got {:?}", other),
    }
}
