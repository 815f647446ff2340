//! The validator combinators exercised over hand-built document trees:
//! records with defaults and aliased keys, dictionaries, lists, sum
//! types and paths.

use std::collections::HashMap;

use quire::ast::{Ast, NullKind, Pos, ScalarKind, Tag};
use quire::errors::ErrorCollector;
use quire::validate::{
    Directory, Enum, ListShortcut, Mapping, Nothing, Numeric, Scalar, ScalarShortcut, Sequence,
    Structure, Validator,
};

fn pos() -> Pos {
    Pos::new("<inline text>", 1, 1)
}

fn scalar(text: &str) -> Ast {
    Ast::Scalar(pos(), Tag::NonSpecific, ScalarKind::Plain, text.to_string())
}

fn null_implicit() -> Ast {
    Ast::Null(pos(), Tag::NonSpecific, NullKind::Implicit)
}

fn tagged_null(tag: &str) -> Ast {
    Ast::Null(pos(), Tag::LocalTag(tag.to_string()), NullKind::Implicit)
}

fn map(entries: Vec<(&str, Ast)>) -> Ast {
    let mut v: Vec<(String, Ast)> = entries
        .into_iter()
        .map(|(k, a)| (k.to_string(), a))
        .collect();
    v.sort_by(|a, b| a.0.cmp(&b.0));
    Ast::Mapping(pos(), Tag::NonSpecific, v)
}

fn tagged_map(tag: &str, entries: Vec<(&str, Ast)>) -> Ast {
    match map(entries) {
        Ast::Mapping(p, _, v) => Ast::Mapping(p, Tag::LocalTag(tag.to_string()), v),
        _ => unreachable!(),
    }
}

fn list(items: Vec<Ast>) -> Ast {
    Ast::List(pos(), Tag::NonSpecific, items)
}

fn validate_ok<V: Validator>(v: &V, ast: Ast) -> Ast {
    let mut err = ErrorCollector::new();
    let out = v.validate(ast, &mut err);
    let listing = err.unwrap();
    assert!(
        listing.errors().is_empty(),
        "unexpected errors: {:?}",
        listing.errors().iter().map(|e| e.render()).collect::<Vec<_>>()
    );
    out
}

fn validate_warn<V: Validator>(v: &V, ast: Ast) -> (Ast, Vec<String>) {
    let mut err = ErrorCollector::new();
    let out = v.validate(ast, &mut err);
    let listing = err.unwrap();
    let msgs = listing.errors().iter().map(|e| e.render()).collect();
    (out, msgs)
}

fn field<'a>(ast: &'a Ast, key: &str) -> &'a Ast {
    match ast {
        Ast::Mapping(_, _, es) => &es.iter().find(|e| e.0 == key).expect("missing field").1,
        other => panic!("expected mapping, got {:?}", other),
    }
}

fn as_int(a: &Ast) -> i64 {
    match a {
        Ast::Scalar(_, _, _, t) => t.parse().expect("not an integer"),
        other => panic!("expected scalar, got {:?}", other),
    }
}

fn as_text(a: &Ast) -> String {
    match a {
        Ast::Scalar(_, _, _, t) => t.clone(),
        other => panic!("expected scalar, got {:?}", other),
    }
}

fn str_schema() -> Structure {
    Structure::new()
        .member("intkey", Numeric::new().default(123))
        .member("strkey", Scalar::new().default("default_value"))
}

fn parse_str(input: Ast) -> (i64, String) {
    let out = validate_ok(&str_schema(), input);
    (as_int(field(&out, "intkey")), as_text(field(&out, "strkey")))
}

#[test]
fn test_all_fields() {
    assert_eq!(
        parse_str(map(vec![("intkey", scalar("1")), ("strkey", scalar("test"))])),
        (1, "test".to_string())
    );
}

#[test]
fn test_no_fields() {
    assert_eq!(parse_str(map(vec![])), (123, "default_value".to_string()));
}

#[test]
fn test_only_int() {
    assert_eq!(
        parse_str(map(vec![("intkey", scalar("777"))])),
        (777, "default_value".to_string())
    );
}

#[test]
fn test_only_str() {
    assert_eq!(
        parse_str(map(vec![("strkey", scalar("strvalue"))])),
        (123, "strvalue".to_string())
    );
}

#[test]
fn test_unit() {
    assert_eq!(
        parse_str(map(vec![("intkey", scalar("100M"))])),
        (100000000, "default_value".to_string())
    );
}

fn dash_schema() -> Structure {
    Structure::new().member("some_key", Numeric::new().default(123))
}

fn parse_dash(input: Ast) -> i64 {
    let out = validate_ok(&dash_schema(), input);
    as_int(field(&out, "some_key"))
}

#[test]
fn test_dash_str() {
    assert_eq!(parse_dash(map(vec![("some-key", scalar("13"))])), 13);
}

#[test]
fn test_underscore_str() {
    assert_eq!(parse_dash(map(vec![("some_key", scalar("7"))])), 7);
}

fn parse_with_warnings(input: Ast) -> (i64, Vec<String>) {
    let (out, msgs) = validate_warn(&dash_schema(), input);
    (as_int(field(&out, "some_key")), msgs)
}

#[test]
fn test_underscore_keys() {
    assert_eq!(
        parse_with_warnings(map(vec![
            ("some-key", scalar("13")),
            ("_another-key", scalar("12")),
        ])),
        (13, vec![])
    );
}

#[test]
fn test_additional_keys() {
    assert_eq!(
        parse_with_warnings(map(vec![
            ("some-key", scalar("13")),
            ("another-key", scalar("12")),
        ])),
        (
            13,
            vec![
                "<inline text>:1:1: Validation Error: Keys {\"another-key\"} are not expected"
                    .to_string()
            ]
        )
    );
}

fn opt_schema() -> Structure {
    Structure::new().member("some_key", Numeric::new().optional())
}

fn parse_opt(input: Ast) -> Option<i64> {
    let out = validate_ok(&opt_schema(), input);
    match field(&out, "some_key") {
        Ast::Null(_, _, _) => None,
        other => Some(as_int(other)),
    }
}

#[test]
fn test_opt_val() {
    assert_eq!(parse_opt(map(vec![("some-key", scalar("13"))])), Some(13));
}

#[test]
fn test_opt_none() {
    assert_eq!(parse_opt(map(vec![("some_key", null_implicit())])), None);
}

#[test]
fn test_opt_no_key() {
    assert_eq!(parse_opt(map(vec![])), None);
}

fn map_schema() -> Mapping {
    Mapping::new(Scalar::new(), Numeric::new().default(0))
        .parser(ScalarShortcut::UnderKey("default_value".to_string()))
}

fn parse_map(input: Ast) -> Vec<(String, i64)> {
    let out = validate_ok(&map_schema(), input);
    match out {
        Ast::Mapping(_, _, es) => es.iter().map(|e| (e.0.clone(), as_int(&e.1))).collect(),
        other => panic!("expected mapping, got {:?}", other),
    }
}

#[test]
fn test_map_1() {
    assert_eq!(parse_map(map(vec![("a", scalar("1"))])), vec![("a".to_string(), 1)]);
}

#[test]
fn test_map_2() {
    assert_eq!(
        parse_map(map(vec![("a", scalar("1")), ("bc", scalar("2"))])),
        vec![("a".to_string(), 1), ("bc".to_string(), 2)]
    );
}

#[test]
fn test_hash_map() {
    let mut m = HashMap::new();
    m.insert("a".to_string(), 1);
    m.insert("bc".to_string(), 2);
    let res: HashMap<String, i64> = parse_map(map(vec![("a", scalar("1")), ("bc", scalar("2"))]))
        .into_iter()
        .collect();
    assert_eq!(res, m);
}

#[test]
fn test_map_empty() {
    assert_eq!(parse_map(map(vec![])), vec![]);
}

#[test]
fn test_map_null() {
    assert_eq!(parse_map(null_implicit()), vec![]);
}

#[test]
fn test_map_with_parser() {
    assert_eq!(
        parse_map(scalar("404")),
        vec![("default_value".to_string(), 404)]
    );
}

fn complex_map_schema() -> Mapping {
    Mapping::new(
        Scalar::new(),
        Structure::new().member("some_key", Numeric::new().default(123)),
    )
}

fn parse_complex_map(input: Ast) -> Vec<(String, i64)> {
    let out = validate_ok(&complex_map_schema(), input);
    match out {
        Ast::Mapping(_, _, es) => es
            .iter()
            .map(|e| (e.0.clone(), as_int(field(&e.1, "some_key"))))
            .collect(),
        other => panic!("expected mapping, got {:?}", other),
    }
}

#[test]
fn test_cmap_1() {
    assert_eq!(
        parse_complex_map(map(vec![("a", map(vec![("some_key", scalar("13"))]))])),
        vec![("a".to_string(), 13)]
    );
}

#[test]
fn test_cmap_2() {
    assert_eq!(
        parse_complex_map(map(vec![("a", null_implicit())])),
        vec![("a".to_string(), 123)]
    );
}

#[test]
fn test_cmap_3() {
    assert_eq!(
        parse_complex_map(map(vec![("a", map(vec![]))])),
        vec![("a".to_string(), 123)]
    );
}

fn seq_schema() -> Sequence {
    Sequence::new(Numeric::new()).parser(ListShortcut::SplitOn(' '))
}

fn parse_seq(input: Ast) -> Vec<i64> {
    let out = validate_ok(&seq_schema(), input);
    match out {
        Ast::List(_, _, items) => items.iter().map(as_int).collect(),
        other => panic!("expected list, got {:?}", other),
    }
}

#[test]
fn test_seq_1() {
    assert_eq!(parse_seq(list(vec![scalar("1")])), vec![1]);
}

#[test]
fn test_seq_2() {
    assert_eq!(parse_seq(list(vec![scalar("1"), scalar("2")])), vec![1, 2]);
}

#[test]
fn test_seq_empty() {
    assert_eq!(parse_seq(list(vec![])), Vec::<i64>::new());
}

#[test]
fn test_seq_null() {
    assert_eq!(parse_seq(null_implicit()), Vec::<i64>::new());
}

#[test]
fn test_seq_parser() {
    assert_eq!(parse_seq(scalar("1 2 3")), vec![1, 2, 3]);
}

#[test]
fn test_numeric() {
    assert_eq!(
        parse_seq(list(vec![scalar("0o144"), scalar("0b11001000"), scalar("0x12c")])),
        vec![100, 200, 300]
    );
}

#[derive(Debug, PartialEq)]
enum TestEnum {
    Alpha,
    Beta,
    Gamma(i64),
    Delta(i64, String),
    Epsilon(Option<(i64, String)>),
}

fn enum_validator() -> Enum {
    Enum::new()
        .allow_plain()
        .option("Alpha", Nothing)
        .option("Beta", Nothing)
        .option("Gamma", Numeric::new().optional().default(7))
        .option("Delta", str_schema())
        .option(
            "Epsilon",
            Structure::new()
                .optional()
                .member("intkey", Numeric::new().default(457))
                .member("strkey", Scalar::new().default("epsilon")),
        )
}

fn decode_enum(ast: &Ast) -> TestEnum {
    let name = match ast.tag() {
        Tag::LocalTag(n) => n.clone(),
        Tag::NonSpecific => panic!("expected a tagged node, got {:?}", ast),
    };
    match name.as_str() {
        "Alpha" => TestEnum::Alpha,
        "Beta" => TestEnum::Beta,
        "Gamma" => TestEnum::Gamma(as_int(ast)),
        "Delta" => TestEnum::Delta(as_int(field(ast, "intkey")), as_text(field(ast, "strkey"))),
        "Epsilon" => match ast {
            Ast::Null(_, _, _) => TestEnum::Epsilon(None),
            other => TestEnum::Epsilon(Some((
                as_int(field(other, "intkey")),
                as_text(field(other, "strkey")),
            ))),
        },
        other => panic!("unexpected tag {}", other),
    }
}

fn parse_enum(input: Ast) -> TestEnum {
    let out = validate_ok(&enum_validator(), input);
    decode_enum(&out)
}

#[test]
fn test_enum_1() {
    assert_eq!(parse_enum(tagged_null("Alpha")), TestEnum::Alpha);
}

#[test]
fn test_enum_2() {
    assert_eq!(parse_enum(tagged_null("Beta")), TestEnum::Beta);
}

#[test]
fn test_enum_str() {
    assert_eq!(parse_enum(scalar("Alpha")), TestEnum::Alpha);
}

#[test]
fn test_enum_3() {
    let explicit = Ast::Null(pos(), Tag::LocalTag("Alpha".to_string()), NullKind::Explicit);
    assert_eq!(parse_enum(explicit), TestEnum::Alpha);
}

#[test]
fn test_enum_4() {
    let input = Ast::Scalar(pos(), Tag::LocalTag("Gamma".to_string()), ScalarKind::Plain,
        "5".to_string());
    assert_eq!(parse_enum(input), TestEnum::Gamma(5));
}

#[test]
fn test_enum_6() {
    assert_eq!(
        parse_enum(tagged_map("Delta", vec![("intkey", scalar("1")), ("strkey", scalar("a"))])),
        TestEnum::Delta(1, "a".to_string())
    );
}

#[test]
fn test_enum_7() {
    assert_eq!(
        parse_enum(tagged_null("Delta")),
        TestEnum::Delta(123, "default_value".to_string())
    );
}

#[test]
fn test_enum_opt_struct() {
    assert_eq!(
        parse_enum(tagged_map("Epsilon", vec![
            ("intkey", scalar("457")),
            ("strkey", scalar("a")),
        ])),
        TestEnum::Epsilon(Some((457, "a".to_string())))
    );
}

#[test]
fn test_enum_opt_struct_2() {
    assert_eq!(parse_enum(tagged_null("Epsilon")), TestEnum::Epsilon(None));
}

#[test]
fn test_enum_opt_struct_3() {
    assert_eq!(
        parse_enum(tagged_map("Epsilon", vec![])),
        TestEnum::Epsilon(Some((457, "epsilon".to_string())))
    );
}

fn parse_enum_list(input: Ast) -> Vec<TestEnum> {
    let out = validate_ok(&Sequence::new(enum_validator()), input);
    match out {
        Ast::List(_, _, items) => items.iter().map(decode_enum).collect(),
        other => panic!("expected list, got {:?}", other),
    }
}

#[test]
fn test_enum_list_null() {
    assert_eq!(
        parse_enum_list(list(vec![tagged_null("Delta"), tagged_null("Epsilon")])),
        vec![
            TestEnum::Delta(123, "default_value".to_string()),
            TestEnum::Epsilon(None),
        ]
    );
}

fn parse_enum_opt(input: Ast) -> Option<TestEnum> {
    let schema = Structure::new().member("val", enum_validator().optional());
    let out = validate_ok(&schema, input);
    match field(&out, "val") {
        Ast::Null(_, Tag::NonSpecific, _) => None,
        other => Some(decode_enum(other)),
    }
}

#[test]
fn test_enum_val_none() {
    assert_eq!(parse_enum_opt(map(vec![])), None);
}

#[test]
fn test_enum_val_some() {
    assert_eq!(
        parse_enum_opt(map(vec![("val", tagged_null("Epsilon"))])),
        Some(TestEnum::Epsilon(None))
    );
}

fn path_schema(abs: Option<bool>) -> Structure {
    let d = Directory::new().default("/test");
    let d = match abs {
        Some(b) => d.is_absolute(b),
        None => d,
    };
    Structure::new().member("path", d)
}

fn parse_path(input: Ast, abs: Option<bool>) -> String {
    let out = validate_ok(&path_schema(abs), input);
    as_text(field(&out, "path"))
}

#[test]
fn test_path_abs() {
    assert_eq!(parse_path(map(vec![("path", scalar("/root/dir"))]), None), "/root/dir");
}

#[test]
fn test_path_rel() {
    assert_eq!(parse_path(map(vec![("path", scalar("root/dir"))]), None), "root/dir");
}

#[test]
fn test_path_down() {
    assert_eq!(parse_path(map(vec![("path", scalar("../root/dir"))]), None), "../root/dir");
}

#[test]
fn test_path_abs_abs() {
    assert_eq!(
        parse_path(map(vec![("path", scalar("/root/dir"))]), Some(true)),
        "/root/dir"
    );
}

#[test]
fn test_path_rel_rel() {
    assert_eq!(
        parse_path(map(vec![("path", scalar("root/dir"))]), Some(false)),
        "root/dir"
    );
}

fn parser_schema() -> Structure {
    Structure::new()
        .member("value", Scalar::new())
        .parser(ScalarShortcut::UnderKey("value".to_string()))
}

#[test]
fn test_struct_with_parser() {
    let out = validate_ok(&parser_schema(), map(vec![("value", scalar("test"))]));
    assert_eq!(as_text(field(&out, "value")), "test");
}

#[test]
fn test_struct_with_parser_custom() {
    let out = validate_ok(&parser_schema(), scalar("test"));
    assert_eq!(as_text(field(&out, "value")), "test");
}
