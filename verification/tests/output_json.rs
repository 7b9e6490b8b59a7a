use serde_json::{Number, Value as JsonVal};

use tracegrep::float::FloatRepr;
use tracegrep::output::JsonFormatter;
use tracegrep::{Record, Value};

#[test]
fn json_formatter_emits_one_compact_object_line_per_record_with_raw_field() {
    let mut buf = Vec::new();
    {
        let mut f = JsonFormatter::new(&mut buf);
        let mut record = Record::new(r#"{"msg":"hello"}"#);
        record.insert("level".to_string(), Value::Str("error".into()));
        f.write(&record).unwrap();
        f.flush().unwrap();
    }
    let rendered = String::from_utf8(buf).unwrap();
    let line = rendered.lines().next().unwrap();
    assert!(
        line.contains("\"level\""),
        "expected emitted JSON to quote field keys: {}",
        line
    );
    let parsed: JsonVal = serde_json::from_str(line).unwrap();
    assert_eq!(parsed.get("level"), Some(&JsonVal::String("error".into())));
    assert_eq!(
        parsed.get("_raw"),
        Some(&JsonVal::String(r#"{"msg":"hello"}"#.into()))
    );
}

#[test]
fn json_formatter_serializes_distinct_records_on_separate_lines() {
    let mut buf = Vec::new();
    {
        let mut f = JsonFormatter::new(&mut buf);
        let mut first = Record::new("{}");
        first.insert("k".to_string(), Value::Int(1));
        f.write(&first).unwrap();
        let mut second = Record::new("{}");
        second.insert("k".to_string(), Value::Int(2));
        f.write(&second).unwrap();
        f.flush().unwrap();
    }
    let text = String::from_utf8(buf).unwrap();
    let mut iter = text.lines();
    assert_eq!(
        serde_json::from_str::<JsonVal>(iter.next().unwrap())
            .unwrap()
            .get("k"),
        Some(&JsonVal::Number(Number::from(1)))
    );
    assert_eq!(
        serde_json::from_str::<JsonVal>(iter.next().unwrap())
            .unwrap()
            .get("k"),
        Some(&JsonVal::Number(Number::from(2)))
    );
    assert!(iter.next().is_none());
}

#[test]
fn json_formatter_maps_numeric_bool_and_null_scalars() {
    let mut buf = Vec::new();
    {
        let mut f = JsonFormatter::new(&mut buf);
        let mut record = Record::new("raw-ref");
        record.insert("pi".to_string(), Value::Float(FloatRepr::new(std::f64::consts::PI.to_bits(), std::f64::consts::PI.to_string())));
        record.insert("ok".to_string(), Value::Bool(false));
        record.insert("n".to_string(), Value::Null);
        record.insert("tiny".to_string(), Value::Int(-7));
        f.write(&record).unwrap();
        f.flush().unwrap();
    }
    let line = String::from_utf8(buf)
        .unwrap()
        .lines()
        .next()
        .unwrap()
        .to_owned();
    let parsed: JsonVal = serde_json::from_str(&line).unwrap();
    let pi_number = serde_json::Number::from_f64(std::f64::consts::PI).unwrap();
    assert_eq!(parsed.get("pi"), Some(&JsonVal::Number(pi_number)));
    assert_eq!(parsed.get("ok"), Some(&JsonVal::Bool(false)));
    assert_eq!(parsed.get("n"), Some(&JsonVal::Null));
    assert_eq!(parsed.get("tiny"), Some(&JsonVal::Number(Number::from(-7))));
}

fn lines(buf: &[u8]) -> Vec<String> {
    String::from_utf8(buf.to_vec()).expect("utf-8").lines().map(|l| l.to_string()).collect()
}

#[test]
fn json_formatter_writes_sorted_keys_and_float_forms() {
    let mut buf: Vec<u8> = Vec::new();
    {
        let mut f = JsonFormatter::new(&mut buf);
        let mut r = Record::new("raw-ref");
        r.insert("i".to_string(), Value::Int(-7));
        r.insert("f".to_string(), Value::Float(FloatRepr::new(3.0f64.to_bits(), 3.0f64.to_string())));
        r.insert("tiny".to_string(), Value::Float(FloatRepr::new(1e-7f64.to_bits(), 1e-7f64.to_string())));
        r.insert("nan".to_string(), Value::Float(FloatRepr::new(f64::NAN.to_bits(), f64::NAN.to_string())));
        r.insert("b".to_string(), Value::Bool(false));
        r.insert("n".to_string(), Value::Null);
        f.write(&r).expect("write");
    }
    let ls = lines(&buf);
    assert_eq!(ls[0], "{\"_raw\":\"raw-ref\",\"b\":false,\"f\":3.0,\"i\":-7,\"n\":null,\"nan\":null,\"tiny\":1e-7}");
}

#[test]
fn json_formatter_readme_quickstart_line() {
    let mut buf: Vec<u8> = Vec::new();
    {
        let mut f = JsonFormatter::new(&mut buf);
        let raw = "{\"level\":\"error\",\"msg\":\"timeout connecting to upstream\"}";
        let mut r = Record::new(raw);
        r.insert("level".to_string(), Value::Str("error".into()));
        r.insert("msg".to_string(), Value::Str("timeout connecting to upstream".into()));
        f.write(&r).expect("write");
    }
    assert_eq!(
        String::from_utf8(buf).unwrap(),
        "{\"_raw\":\"{\\\"level\\\":\\\"error\\\",\\\"msg\\\":\\\"timeout connecting to upstream\\\"}\",\"level\":\"error\",\"msg\":\"timeout connecting to upstream\"}\n"
    );
}

#[test]
fn json_formatter_without_raw_footer_omits_raw() {
    let mut buf: Vec<u8> = Vec::new();
    {
        let mut f = JsonFormatter::without_raw_footer(&mut buf);
        let mut r = Record::new("line");
        r.insert("msg".to_string(), Value::Str("hi".into()));
        f.write(&r).expect("write");
    }
    assert_eq!(lines(&buf), vec!["{\"msg\":\"hi\"}".to_string()]);
}

#[test]
fn json_floats_print_as_the_float_itself() {
    for x in [1e300f64, 1.2345678901234567e300, 2.2250738585072014e-308, 0.1, -0.0, 123456789.125, 5e-324, 1.7976931348623157e308] {
        let mut buf: Vec<u8> = Vec::new();
        {
            let mut f = JsonFormatter::without_raw_footer(&mut buf);
            let mut r = Record::new("x");
            r.insert("f".to_string(), Value::Float(FloatRepr::new(x.to_bits(), x.to_string())));
            f.write(&r).unwrap();
        }
        let want = format!("{{\"f\":{}}}\n", serde_json::Value::Number(Number::from_f64(x).unwrap()));
        assert_eq!(String::from_utf8(buf).unwrap(), want, "float {x:e}");
    }
}
