use tracegrep::float::FloatRepr;
use tracegrep::parser::json::record_from_json;
use tracegrep::{parse_json_line, RecordError, Value};

fn read_float(t: &str) -> FloatRepr {
    let x: f64 = t.parse().expect("float text");
    FloatRepr::new(x.to_bits(), x.to_string())
}

#[test]
fn flattens_one_level_nested_object_with_dot_keys() {
    let rec = parse_json_line(r#"{"a":1,"b":{"c":2}}"#, &read_float).expect("parse");
    assert_eq!(rec.get("a"), Some(&Value::Int(1)));
    assert_eq!(rec.get("b.c"), Some(&Value::Int(2)));
    assert_eq!(rec.raw(), r#"{"a":1,"b":{"c":2}}"#);
    assert_eq!(rec.get("b"), None);
}

#[test]
fn flattens_deeply_nested_objects() {
    let rec = parse_json_line(r#"{"x":{"y":{"z":true,"n":null}}}"#, &read_float).expect("parse");
    assert_eq!(rec.get("x.y.z"), Some(&Value::Bool(true)));
    assert_eq!(rec.get("x.y.n"), Some(&Value::Null));
}

#[test]
fn preserves_scalar_types() {
    let rec = parse_json_line(
        r#"{"s":"hi","i":42,"f":3.14,"t":true,"f2":false,"n":null}"#,
        &read_float,
    )
    .expect("parse");
    assert_eq!(rec.get("s"), Some(&Value::Str("hi".into())));
    assert_eq!(rec.get("i"), Some(&Value::Int(42)));
    match rec.get("f") {
        Some(Value::Float(x)) => assert!((f64::from_bits(x.bits) - 3.14).abs() < 1e-12),
        other => panic!("expected float, got {:?}", other),
    }
    assert_eq!(rec.get("t"), Some(&Value::Bool(true)));
    assert_eq!(rec.get("f2"), Some(&Value::Bool(false)));
    assert_eq!(rec.get("n"), Some(&Value::Null));
}

#[test]
fn arrays_are_json_strings() {
    let rec = parse_json_line(r#"{"items":[1,2,"three"],"nested":[{"a":1}]}"#, &read_float)
        .expect("parse");
    match rec.get("items") {
        Some(Value::Str(s)) => assert_eq!(s, "[1,2,\"three\"]"),
        other => panic!("expected Str for array, got {:?}", other),
    }
    match rec.get("nested") {
        Some(Value::Str(s)) => assert_eq!(s, "[{\"a\":1}]"),
        other => panic!("expected Str for nested array, got {:?}", other),
    }
}

#[test]
fn malformed_returns_err() {
    assert!(matches!(parse_json_line("not json", &read_float).unwrap_err(), RecordError::Parse(_)));
    assert!(matches!(parse_json_line("", &read_float).unwrap_err(), RecordError::Parse(_)));
    let err = parse_json_line("not json", &read_float).expect_err("malformed");
    assert!(err.message().starts_with("parse: "));
    assert!(parse_json_line("{\"a\":", &read_float).is_err());
}

#[test]
fn root_must_be_object() {
    assert!(matches!(parse_json_line(r#"[1,2]"#, &read_float).unwrap_err(), RecordError::Parse(_)));
    let err = parse_json_line("[1,2]", &read_float).expect_err("array root");
    assert_eq!(err.message(), "parse: expected JSON object");
}

#[test]
fn raw_line_is_kept_and_big_unsigned_becomes_float() {
    let line = r#"{"u":18446744073709551615,"m":9223372036854775807}"#;
    let rec = parse_json_line(line, &read_float).expect("parse");
    assert_eq!(rec.raw(), line);
    assert_eq!(rec.get("m"), Some(&Value::Int(i64::MAX)));
    match rec.get("u") {
        Some(Value::Float(x)) => assert_eq!(f64::from_bits(x.bits), 18446744073709551615u64 as f64),
        other => panic!("expected float, got {:?}", other),
    }
}

#[test]
fn record_from_parsed_document_flattens_members() {
    let doc: serde_json::Value = serde_json::from_str(r#"{"k":{"j":"v"},"z":-3}"#).expect("doc");
    let rec = record_from_json("line", &doc, &read_float).expect("object");
    assert_eq!(rec.get("k.j"), Some(&Value::Str("v".into())));
    assert_eq!(rec.get("z"), Some(&Value::Int(-3)));
    assert_eq!(rec.raw(), "line");
    let not_obj: serde_json::Value = serde_json::from_str("3").expect("doc");
    assert!(record_from_json("3", &not_obj, &read_float).is_err());
}
