use tracegrep::float::FloatRepr;
use tracegrep::{parse_auto, sniff, Format, RecordError, Value};

fn read_float(t: &str) -> FloatRepr {
    let x: f64 = t.parse().expect("float text");
    FloatRepr::new(x.to_bits(), x.to_string())
}

#[test]
fn sniff_plain_empty_skips_then_json() {
    let input = "\n  \r\n{\"lvl\":\"warn\",\"msg\":\"x\"}\nafterignored";
    assert_eq!(sniff(input), Format::JsonLines);
}

#[test]
fn sniff_logfmt_need_word_key_prefix_at_trim_start_and_equals_in_line() {
    assert_eq!(sniff("  level=error msg=dial tcp"), Format::Logfmt);
    assert_eq!(sniff("plain text tail key=value"), Format::Plain);
}

#[test]
fn sniff_plain_when_only_equals_without_key() {
    assert_eq!(sniff("=nokey"), Format::Plain);
}

#[test]
fn parse_auto_plain_wraps_entire_line_as_msg() {
    let rec = parse_auto("hello world", Format::Plain, &read_float).expect("plain");
    assert_eq!(rec.get("msg"), Some(&Value::Str("hello world".into())));
    assert_eq!(rec.raw(), "hello world");
}

#[test]
fn parse_auto_json_round_trips_via_sniff_heuristic_branch() {
    let line = r#"{"a":{"b":1}}"#;
    let fmt = sniff(line);
    assert_eq!(fmt, Format::JsonLines);
    let rec = parse_auto(line, fmt, &read_float).expect("json");
    assert_eq!(rec.get("a.b"), Some(&Value::Int(1)));
}

#[test]
fn parse_auto_logfmt_respects_logfmt_semantics() {
    let line = "level=info msg=started";
    let fmt = sniff(line);
    assert_eq!(fmt, Format::Logfmt);
    let rec = parse_auto(line, fmt, &read_float).expect("logfmt");
    assert_eq!(rec.get("level"), Some(&Value::Str("info".into())));
}

#[test]
fn parse_auto_json_errors_on_plain_line_when_forced_json() {
    let err = parse_auto("not-json", Format::JsonLines, &read_float).unwrap_err();
    assert!(matches!(err, RecordError::Parse(_)));
}

#[test]
fn sniff_empty_and_blank_inputs_are_plain() {
    assert_eq!(sniff(""), Format::Plain);
    assert_eq!(sniff(" \n\t\r\n  "), Format::Plain);
}

#[test]
fn sniff_decides_by_first_nonblank_line_only() {
    assert_eq!(sniff("\n\nk=v\n{\"a\":1}"), Format::Logfmt);
    assert_eq!(sniff("  {\"a\":1}\nk=v"), Format::JsonLines);
    assert_eq!(sniff("key-with-dash=1"), Format::Plain);
}
