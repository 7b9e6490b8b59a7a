use tracegrep::float::FloatRepr;
use tracegrep::parser::resilience::{
    parse_auto_perline, parse_json_line_skip, parse_logfmt_line_skip,
};
use tracegrep::Value;

fn read_float(t: &str) -> FloatRepr {
    let x: f64 = t.parse().expect("float text");
    FloatRepr::new(x.to_bits(), x.to_string())
}

#[test]
fn json_skip_blank_is_none() {
    assert!(parse_json_line_skip("", &read_float).is_none());
    assert!(parse_json_line_skip("   \t  ", &read_float).is_none());
    assert!(parse_json_line_skip("\n", &read_float).is_none());
}

#[test]
fn json_skip_valid_returns_ok() {
    let r = parse_json_line_skip(r#"{"a":1}"#, &read_float).expect("some");
    let rec = r.expect("ok");
    assert_eq!(rec.get("a"), Some(&Value::Int(1)));
}

#[test]
fn json_skip_malformed_returns_err() {
    let r = parse_json_line_skip("{not-json", &read_float).expect("some");
    assert!(r.is_err());
}

#[test]
fn logfmt_skip_blank_is_none() {
    assert!(parse_logfmt_line_skip("", &read_float).is_none());
    assert!(parse_logfmt_line_skip("  ", &read_float).is_none());
}

#[test]
fn logfmt_skip_valid_returns_ok() {
    let r = parse_logfmt_line_skip("k=v", &read_float).expect("some");
    let rec = r.expect("ok");
    assert_eq!(rec.get("k"), Some(&Value::Str("v".into())));
}

#[test]
fn logfmt_skip_malformed_returns_err() {
    let r = parse_logfmt_line_skip("noequals", &read_float).expect("some");
    assert!(r.is_err());
}

#[test]
fn auto_perline_blank_is_none() {
    assert!(parse_auto_perline("", &read_float).is_none());
    assert!(parse_auto_perline("   ", &read_float).is_none());
}

#[test]
fn auto_perline_swaps_json_then_logfmt() {
    let j = parse_auto_perline(r#"{"x":42}"#, &read_float).expect("some");
    let jr = j.expect("json ok");
    assert_eq!(jr.get("x"), Some(&Value::Int(42)));

    let lf = parse_auto_perline("level=info msg=\"hi\"", &read_float).expect("some");
    let lr = lf.expect("logfmt ok");
    assert_eq!(lr.get("level"), Some(&Value::Str("info".into())));
    assert_eq!(lr.get("msg"), Some(&Value::Str("hi".into())));
}

#[test]
fn auto_perline_plain_even_with_equals_inside_json_shape_priority() {
    let p = parse_auto_perline(r#"{"q":"a=b"}"#, &read_float).expect("some");
    let rec = p.expect("ok");
    assert_eq!(rec.get("q"), Some(&Value::Str("a=b".into())));
}
