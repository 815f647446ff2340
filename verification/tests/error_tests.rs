//! Error collection, rendering, and the diagnostics each validator
//! reports on bad input.

use quire::ast::{Ast, NullKind, Pos, ScalarKind, Tag};
use quire::errors::{Error, ErrorCollector};
use quire::options::{DoEmbed, Embed, Options};
use quire::validate::{Directory, Nothing, Numeric, Scalar, Structure, Validator};

fn pos() -> Pos {
    Pos::new("<inline text>", 1, 1)
}

fn scalar(text: &str) -> Ast {
    Ast::Scalar(pos(), Tag::NonSpecific, ScalarKind::Plain, text.to_string())
}

fn map(entries: Vec<(&str, Ast)>) -> Ast {
    let mut v: Vec<(String, Ast)> = entries
        .into_iter()
        .map(|(k, a)| (k.to_string(), a))
        .collect();
    v.sort_by(|a, b| a.0.cmp(&b.0));
    Ast::Mapping(pos(), Tag::NonSpecific, v)
}

fn messages<V: Validator>(v: &V, ast: Ast) -> (Ast, Vec<String>) {
    let mut err = ErrorCollector::new();
    let out = v.validate(ast, &mut err);
    let listing = err.unwrap();
    (out, listing.errors().iter().map(|e| e.render()).collect())
}

#[test]
fn test_collector_into_result_ok() {
    let err = ErrorCollector::new();
    assert_eq!(err.into_result(42), Ok(42));
}

#[test]
fn test_collector_into_result_err() {
    let mut err = ErrorCollector::new();
    err.add_error(Error::validation_error(&pos(), "boom".to_string()));
    let listing = err.into_result(42).unwrap_err();
    assert_eq!(
        listing.errors().iter().map(|e| e.render()).collect::<Vec<_>>(),
        vec!["<inline text>:1:1: Validation Error: boom".to_string()]
    );
}

#[test]
fn test_collector_into_fatal() {
    let mut err = ErrorCollector::new();
    err.add_error(Error::parse_error(&pos(), "first".to_string()));
    let listing = err.into_fatal(Error::decode_error(&pos(), &"a.b".to_string(),
        "second".to_string()));
    assert_eq!(
        listing.errors().iter().map(|e| e.render()).collect::<Vec<_>>(),
        vec![
            "<inline text>:1:1: Parse Error: first".to_string(),
            "<inline text>:1:1: Decode error at a.b: second".to_string(),
        ]
    );
}

#[test]
fn test_error_render_variants() {
    let p = Pos::new("cfg.yaml", 3, 7);
    assert_eq!(
        Error::tokenizer_error(&p, "bad token".to_string()).render(),
        "cfg.yaml:3:7: Tokenizer Error: bad token"
    );
    assert_eq!(
        Error::preprocess_error(&p, "nope".to_string()).render(),
        "cfg.yaml:3:7: Preprocess Error: nope"
    );
    assert_eq!(
        Error::OpenError("cfg.yaml".to_string(), "no such file".to_string()).render(),
        "cfg.yaml: Error reading file: no such file"
    );
}

#[test]
fn test_scalar_length_bounds() {
    let v = Scalar::new().min_length(5).max_length(3);
    let (out, msgs) = messages(&v, scalar("abcd"));
    assert_eq!(
        msgs,
        vec![
            "<inline text>:1:1: Validation Error: Value must be at least 5 characters".to_string(),
            "<inline text>:1:1: Validation Error: Value must be at most 3 characters".to_string(),
        ]
    );
    match out {
        Ast::Scalar(_, Tag::NonSpecific, ScalarKind::Plain, t) => assert_eq!(t, "abcd"),
        other => panic!("unexpected result {:?}", other),
    }
}

#[test]
fn test_scalar_shape_error() {
    let v = Scalar::new();
    let input = Ast::List(pos(), Tag::NonSpecific, vec![]);
    let (out, msgs) = messages(&v, input);
    assert_eq!(msgs, vec![
        "<inline text>:1:1: Validation Error: Value must be scalar".to_string(),
    ]);
    assert!(matches!(out, Ast::List(_, _, _)));
}

#[test]
fn test_scalar_null_not_optional() {
    let v = Scalar::new();
    let input = Ast::Null(pos(), Tag::NonSpecific, NullKind::Implicit);
    let (out, msgs) = messages(&v, input);
    assert_eq!(msgs, vec![
        "<inline text>:1:1: Validation Error: Value must be scalar".to_string(),
    ]);
    assert!(matches!(out, Ast::Null(_, _, _)));
}

#[test]
fn test_numeric_not_numeric() {
    let v = Numeric::new();
    let (out, msgs) = messages(&v, scalar("12abc"));
    assert_eq!(msgs, vec![
        "<inline text>:1:1: Validation Error: Value must be numeric".to_string(),
    ]);
    // the original node comes back verbatim
    match out {
        Ast::Scalar(_, _, _, t) => assert_eq!(t, "12abc"),
        other => panic!("unexpected result {:?}", other),
    }
}

#[test]
fn test_numeric_range_errors() {
    let v = Numeric::new().min(10).max(20);
    let (_, low) = messages(&v, scalar("5"));
    assert_eq!(low, vec![
        "<inline text>:1:1: Validation Error: Value must be at least 10".to_string(),
    ]);
    let (_, high) = messages(&v, scalar("25"));
    assert_eq!(high, vec![
        "<inline text>:1:1: Validation Error: Value must be at most 20".to_string(),
    ]);
}

#[test]
fn test_structure_field_expected() {
    let v = Structure::new().member("needed", Numeric::new());
    let (out, msgs) = messages(&v, map(vec![]));
    assert_eq!(msgs, vec![
        "<inline text>:1:1: Validation Error: Field needed is expected".to_string(),
    ]);
    // the missing field is omitted from the result
    match out {
        Ast::Mapping(_, _, es) => assert!(es.is_empty()),
        other => panic!("unexpected result {:?}", other),
    }
}

#[test]
fn test_structure_not_mapping() {
    let v = Structure::new().member("k", Numeric::new().default(1));
    let (out, msgs) = messages(&v, scalar("oops"));
    assert_eq!(msgs, vec![
        "<inline text>:1:1: Validation Error: Value must be mapping".to_string(),
    ]);
    assert!(matches!(out, Ast::Scalar(_, _, _, _)));
}

#[test]
fn test_unexpected_keys_aggregated() {
    let v = Structure::new();
    let (_, msgs) = messages(&v, map(vec![("beta", scalar("2")), ("alpha", scalar("1"))]));
    assert_eq!(msgs, vec![
        "<inline text>:1:1: Validation Error: Keys {\"alpha\", \"beta\"} are not expected"
            .to_string(),
    ]);
}

#[test]
fn test_enum_no_tag_expected() {
    let v = quire::validate::Enum::new()
        .option("Alpha", Nothing)
        .option("Beta", Nothing);
    let (_, msgs) = messages(&v, scalar("what"));
    assert_eq!(msgs, vec![
        "<inline text>:1:1: Validation Error: One of the tags [\"Alpha\", \"Beta\"] expected"
            .to_string(),
    ]);
}

#[test]
fn test_enum_unexpected_tag() {
    let v = quire::validate::Enum::new().option("Alpha", Nothing);
    let input = Ast::Null(pos(), Tag::LocalTag("Omega".to_string()), NullKind::Implicit);
    let (_, msgs) = messages(&v, input);
    assert_eq!(msgs, vec![
        "<inline text>:1:1: Validation Error: The tag Omega is not expected".to_string(),
    ]);
}

#[test]
fn test_enum_payload_null_required() {
    // a tag with no payload runs the option's validator on the null:
    // an optional payload passes it through, a required one objects
    let optional_payload = quire::validate::Enum::new()
        .option("Gamma", Numeric::new().optional().default(7));
    let input = Ast::Null(pos(), Tag::LocalTag("Gamma".to_string()), NullKind::Implicit);
    let (_, msgs) = messages(&optional_payload, input);
    assert_eq!(msgs, Vec::<String>::new());

    let required_payload = quire::validate::Enum::new().option("Gamma", Numeric::new());
    let input = Ast::Null(pos(), Tag::LocalTag("Gamma".to_string()), NullKind::Implicit);
    let (_, msgs) = messages(&required_payload, input);
    assert_eq!(msgs, vec![
        "<inline text>:1:1: Validation Error: Value must be scalar".to_string(),
    ]);
}

#[test]
fn test_nothing_null_expected() {
    let v = Nothing;
    let (out, msgs) = messages(&v, scalar("x"));
    assert_eq!(msgs, vec![
        "<inline text>:1:1: Parse Error: Null expected, x found".to_string(),
    ]);
    assert!(matches!(out, Ast::Scalar(_, _, _, _)));
}

#[test]
fn test_path_rel_abs_err() {
    let v = Directory::new().is_absolute(true);
    let (_, msgs) = messages(&v, scalar("root/dir"));
    assert_eq!(msgs, vec![
        "<inline text>:1:1: Validation Error: Path must be absolute".to_string(),
    ]);
}

#[test]
fn test_path_abs_rel_err() {
    let v = Directory::new().is_absolute(false);
    let (_, msgs) = messages(&v, scalar("/root/dir"));
    assert_eq!(msgs, vec![
        "<inline text>:1:1: Validation Error: Path must not be absolute".to_string(),
    ]);
}

#[test]
fn test_path_down_rel_err() {
    let v = Directory::new().is_absolute(false);
    let (out, msgs) = messages(&v, scalar("../root/dir"));
    assert_eq!(msgs, vec![
        "<inline text>:1:1: Validation Error: The /../ is not allowed in path".to_string(),
    ]);
    // the node still carries the literal path text
    match out {
        Ast::Scalar(_, _, _, t) => assert_eq!(t, "../root/dir"),
        other => panic!("unexpected result {:?}", other),
    }
}

#[test]
fn test_path_double_parent_two_errors() {
    let v = Directory::new().is_absolute(false);
    let (_, msgs) = messages(&v, scalar("../a/../b"));
    assert_eq!(msgs.len(), 2);
}

#[test]
fn test_path_null_not_optional() {
    let v = Directory::new();
    let input = Ast::Null(pos(), Tag::NonSpecific, NullKind::Implicit);
    let (_, msgs) = messages(&v, input);
    assert_eq!(msgs, vec![
        "<inline text>:1:1: Validation Error: Path expected".to_string(),
    ]);
}

#[test]
fn test_decline_embed() {
    let mut err = ErrorCollector::new();
    let options = Options::default();
    let request = Embed::File { filename: "other.yaml".to_string() };
    let out = options.embed(&pos(), &request, &mut err);
    assert!(matches!(out, Ast::Null(_, Tag::NonSpecific, NullKind::Implicit)));
    let listing = err.unwrap();
    assert_eq!(
        listing.errors().iter().map(|e| e.render()).collect::<Vec<_>>(),
        vec![
            "<inline text>:1:1: Preprocess Error: Embedded documents are not supported"
                .to_string()
        ]
    );
}
