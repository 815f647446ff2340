//! Concrete instances of the framework's general laws: numeral
//! round-trips, key aliasing, default totality, idempotent
//! revalidation, and plain-versus-tagged enum dispatch.

use quire::ast::{Ast, NullKind, Pos, ScalarKind, Tag};
use quire::errors::ErrorCollector;
use quire::numerals::from_numeric;
use quire::validate::{Enum, Nothing, Numeric, Scalar, Sequence, Structure, Validator};

fn pos() -> Pos {
    Pos::new("<inline text>", 1, 1)
}

fn scalar(text: &str) -> Ast {
    Ast::Scalar(pos(), Tag::NonSpecific, ScalarKind::Plain, text.to_string())
}

fn map(entries: Vec<(&str, Ast)>) -> Ast {
    let mut v: Vec<(String, Ast)> = entries
        .into_iter()
        .map(|(k, a)| (k.to_string(), a))
        .collect();
    v.sort_by(|a, b| a.0.cmp(&b.0));
    Ast::Mapping(pos(), Tag::NonSpecific, v)
}

fn validate_ok<V: Validator>(v: &V, ast: Ast) -> Ast {
    let mut err = ErrorCollector::new();
    let out = v.validate(ast, &mut err);
    let listing = err.unwrap();
    assert!(
        listing.errors().is_empty(),
        "unexpected errors: {:?}",
        listing.errors().iter().map(|e| e.render()).collect::<Vec<_>>()
    );
    out
}

#[test]
fn test_from_numeric_suffixes() {
    assert_eq!(from_numeric("1k"), Some(1000));
    assert_eq!(from_numeric("1M"), Some(1000000));
    assert_eq!(from_numeric("1G"), Some(1000000000));
    assert_eq!(from_numeric("1ki"), Some(1024));
    assert_eq!(from_numeric("1Mi"), Some(1048576));
    assert_eq!(from_numeric("1Gi"), Some(1073741824));
    assert_eq!(from_numeric("100M"), Some(100000000));
}

#[test]
fn test_from_numeric_radixes() {
    assert_eq!(from_numeric("0x12c"), Some(300));
    assert_eq!(from_numeric("0o144"), Some(100));
    assert_eq!(from_numeric("0b101"), Some(5));
    assert_eq!(from_numeric("-5"), Some(-5));
    assert_eq!(from_numeric("+5"), Some(5));
    assert_eq!(from_numeric("0x-10"), Some(-16));
}

#[test]
fn test_from_numeric_range() {
    assert_eq!(from_numeric("9223372036854775807"), Some(i64::MAX));
    assert_eq!(from_numeric("-9223372036854775808"), Some(i64::MIN));
    assert_eq!(from_numeric("9223372036854775808"), None);
    assert_eq!(from_numeric("10000000000G"), None);
}

#[test]
fn test_from_numeric_rejects() {
    assert_eq!(from_numeric(""), None);
    assert_eq!(from_numeric("k"), None);
    assert_eq!(from_numeric("0x"), None);
    assert_eq!(from_numeric("1.5"), None);
    assert_eq!(from_numeric("12abc"), None);
    assert_eq!(from_numeric(" 5"), None);
}

#[test]
fn test_numeric_canonical_output() {
    let out = validate_ok(&Numeric::new(), scalar("0x64"));
    match out {
        Ast::Scalar(_, Tag::NonSpecific, ScalarKind::Plain, t) => assert_eq!(t, "100"),
        other => panic!("unexpected result {:?}", other),
    }
}

#[test]
fn test_numeric_round_trip_unchanged() {
    for n in ["0", "1", "-1", "123456", "-9223372036854775808", "9223372036854775807"] {
        let out = validate_ok(&Numeric::new(), scalar(n));
        match out {
            Ast::Scalar(_, _, _, t) => assert_eq!(t, n),
            other => panic!("unexpected result {:?}", other),
        }
    }
}

#[test]
fn test_numeric_same_value_same_output() {
    let a = validate_ok(&Numeric::new(), scalar("100M"));
    let b = validate_ok(&Numeric::new(), scalar("100000000"));
    assert_eq!(a, b);
}

#[test]
fn test_alias_both_spellings_same_value() {
    let schema = Structure::new().member("some_key", Numeric::new().default(123));
    let under = validate_ok(&schema, map(vec![("some_key", scalar("13"))]));
    let hyphen = validate_ok(&schema, map(vec![("some-key", scalar("13"))]));
    assert_eq!(under, hyphen);
}

#[test]
fn test_default_totality_optional_schema() {
    let schema = Structure::new()
        .optional()
        .member("a", Scalar::new().optional())
        .member("b", Numeric::new().optional());
    let d = schema.default(pos()).expect("an optional schema has a default");
    let out = validate_ok(&schema, d.clone());
    assert_eq!(out, d);
}

#[test]
fn test_default_totality_optional_leaves() {
    // a required record of optional members: its default validates clean
    let schema = Structure::new()
        .member("a", Scalar::new().optional())
        .member("b", Numeric::new().optional());
    let d = schema.default(pos()).expect("members all have defaults");
    let out = validate_ok(&schema, d.clone());
    assert_eq!(out, d);
}

#[test]
fn test_default_totality_nested() {
    // a required record holding another required record of optional
    // members: the synthesized default validates with no error
    let inner = Structure::new()
        .member("host", Scalar::new().optional())
        .member("port", Numeric::new().optional());
    let schema = Structure::new()
        .member("listen", inner)
        .member("workers", Numeric::new().optional());
    let d = schema.default(pos()).expect("every member has a default");
    let _ = validate_ok(&schema, d);
}

#[test]
fn test_default_totality_leaf_defaults() {
    // an optional leaf whose default satisfies its own bounds
    let v = Numeric::new().optional().default(7).min(0).max(10);
    let d = Validator::default(&v, pos()).expect("an optional leaf has a default");
    let mut err = ErrorCollector::new();
    let out = v.validate(d, &mut err);
    assert!(err.unwrap().errors().is_empty());
    match out {
        Ast::Scalar(_, _, _, t) => assert_eq!(t, "7"),
        other => panic!("unexpected result {:?}", other),
    }
}

#[test]
fn test_idempotent_revalidation() {
    let schema = Structure::new()
        .member("intkey", Numeric::new().default(123))
        .member("strkey", Scalar::new().default("default_value"));
    let input = map(vec![("intkey", scalar("100M")), ("strkey", scalar("x"))]);
    let once = validate_ok(&schema, input);
    let twice = validate_ok(&schema, once.clone());
    assert_eq!(once, twice);
}

#[test]
fn test_idempotent_revalidation_sequence() {
    let schema = Sequence::new(Numeric::new());
    let input = Ast::List(pos(), Tag::NonSpecific, vec![scalar("0x10"), scalar("2k")]);
    let once = validate_ok(&schema, input);
    let twice = validate_ok(&schema, once.clone());
    assert_eq!(once, twice);
}

#[test]
fn test_enum_plain_equals_tagged() {
    let schema = Enum::new()
        .allow_plain()
        .option("Alpha", Nothing)
        .option("Gamma", Numeric::new().optional().default(7));
    let plain = validate_ok(&schema, scalar("Alpha"));
    let tagged = validate_ok(
        &schema,
        Ast::Null(pos(), Tag::LocalTag("Alpha".to_string()), NullKind::Implicit),
    );
    assert_eq!(plain, tagged);
}

#[test]
fn test_enum_gamma_payload_dispatch() {
    let schema = Enum::new()
        .option("Alpha", Nothing)
        .option("Gamma", Numeric::new().optional().default(7));
    let out = validate_ok(
        &schema,
        Ast::Scalar(pos(), Tag::LocalTag("Gamma".to_string()), ScalarKind::Plain,
            "5".to_string()),
    );
    // equals the Gamma member's own validation of the payload, stamped
    let mut err = ErrorCollector::new();
    let payload = Numeric::new().optional().default(7).validate(scalar("5"), &mut err);
    assert!(err.unwrap().errors().is_empty());
    assert_eq!(out, payload.with_tag(Tag::LocalTag("Gamma".to_string())));
}

#[test]
fn test_enum_default_tag() {
    let schema = Enum::new()
        .option("Alpha", Nothing)
        .option("Gamma", Numeric::new().optional().default(7))
        .default_tag("Gamma");
    let out = validate_ok(&schema, scalar("5"));
    match out {
        Ast::Scalar(_, Tag::LocalTag(t), _, v) => {
            assert_eq!(t, "Gamma");
            assert_eq!(v, "5");
        },
        other => panic!("unexpected result {:?}", other),
    }
}

#[test]
fn test_scalar_preserves_quoted_kind() {
    let input = Ast::Scalar(pos(), Tag::LocalTag("x".to_string()), ScalarKind::Quoted,
        "hello".to_string());
    let out = validate_ok(&Scalar::new(), input);
    // tag is reset, kind is kept
    match out {
        Ast::Scalar(_, Tag::NonSpecific, ScalarKind::Quoted, t) => assert_eq!(t, "hello"),
        other => panic!("unexpected result {:?}", other),
    }
}
