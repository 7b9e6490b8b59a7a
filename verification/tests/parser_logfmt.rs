use tracegrep::float::FloatRepr;
use tracegrep::{parse_logfmt_line, RecordError, Value};

fn read_float(t: &str) -> FloatRepr {
    let x: f64 = t.parse().expect("float text");
    FloatRepr::new(x.to_bits(), x.to_string())
}

fn float_of(v: Option<&Value>) -> f64 {
    match v {
        Some(Value::Float(x)) => f64::from_bits(x.bits),
        other => panic!("expected float, got {:?}", other),
    }
}

#[test]
fn parses_quoted_and_unquoted_fields_full_sample() {
    let line = "ts=2026-05-22T10:00:00Z level=error msg=\"a b c\" lat=15.2 ok=true";
    let rec = parse_logfmt_line(line, &read_float).expect("parses");
    assert_eq!(rec.get("ts"), Some(&Value::Str("2026-05-22T10:00:00Z".into())));
    assert_eq!(rec.get("level"), Some(&Value::Str("error".into())));
    assert_eq!(rec.get("msg"), Some(&Value::Str("a b c".into())));
    assert_eq!(rec.get("lat"), Some(&Value::Float(read_float("15.2"))));
    assert_eq!(rec.get("ok"), Some(&Value::Bool(true)));
    assert_eq!(rec.raw(), line);
}

#[test]
fn quoted_double_quote_escape() {
    let rec = parse_logfmt_line(r#"msg="escaped \"quotes\" inside""#, &read_float).expect("parses");
    assert_eq!(rec.get("msg"), Some(&Value::Str("escaped \"quotes\" inside".into())));
}

#[test]
fn quoted_backslash_escape() {
    let rec = parse_logfmt_line(r#"p="path\\to\\file""#, &read_float).expect("parses");
    assert_eq!(rec.get("p"), Some(&Value::Str("path\\to\\file".into())));
}

#[test]
fn bare_type_inference_int_float_bool_string() {
    let rec = parse_logfmt_line("n=42 pi=3.14 flag=false label=not-a-number", &read_float)
        .expect("parses");
    assert_eq!(rec.get("n"), Some(&Value::Int(42)));
    assert!((float_of(rec.get("pi")) - 3.14).abs() < 1e-12);
    assert_eq!(rec.get("flag"), Some(&Value::Bool(false)));
    assert_eq!(rec.get("label"), Some(&Value::Str("not-a-number".into())));
}

#[test]
fn rejects_unclosed_quote() {
    let err = parse_logfmt_line(r#"x="oops"#, &read_float).unwrap_err();
    assert!(matches!(err, RecordError::Parse(_)));
    let msg = err.message();
    assert!(msg.contains("unclosed") && msg.contains("quoted"), "unexpected message: {}", msg);
}

#[test]
fn rejects_empty_field_name() {
    let err = parse_logfmt_line(r#"=v"#, &read_float).unwrap_err();
    assert!(matches!(err, RecordError::Parse(_)));
}

#[test]
fn rejects_missing_equals() {
    let err = parse_logfmt_line("notlogfmt", &read_float).expect_err("no =");
    let msg = err.message();
    assert!(msg.contains("field"), "unexpected message: {}", msg);
}

#[test]
fn rejects_empty_bare_value() {
    let err = parse_logfmt_line("key=", &read_float).unwrap_err();
    assert!(matches!(err, RecordError::Parse(_)));
}

#[test]
fn rejects_unknown_escape_in_quotes() {
    let err = parse_logfmt_line(r#"z="\z""#, &read_float).unwrap_err();
    assert!(matches!(err, RecordError::Parse(_)));
}

#[test]
fn logfmt_error_messages_are_exact() {
    let m = |s: &str| parse_logfmt_line(s, &read_float).expect_err("error").message();
    assert_eq!(m("a=1 héllo"), "parse: expected '=' in field starting at byte 4");
    assert_eq!(m("é=1 x"), "parse: expected '=' in field starting at byte 5");
    assert_eq!(m(" =1"), "parse: empty field name");
    assert_eq!(m("k= x=1"), "parse: empty bare value");
    assert_eq!(m("k=\"a\\"), "parse: dangling backslash in quoted value");
    assert_eq!(m("k=\"a\\n\""), "parse: unsupported escape sequence in quoted value: \\n");
    assert_eq!(m("k=\"abc"), "parse: unclosed quoted value");
}

#[test]
fn later_pairs_replace_earlier_and_blank_line_is_empty() {
    let rec = parse_logfmt_line("a=1 a=2", &read_float).expect("parses");
    assert_eq!(rec.get("a"), Some(&Value::Int(2)));
    let empty = parse_logfmt_line("   ", &read_float).expect("parses");
    assert!(empty.iter().is_empty());
    let nan = parse_logfmt_line("x=NaN y=+7 z=-inf", &read_float).expect("parses");
    assert!(float_of(nan.get("x")).is_nan());
    assert_eq!(nan.get("y"), Some(&Value::Int(7)));
    assert_eq!(float_of(nan.get("z")), f64::NEG_INFINITY);
}
