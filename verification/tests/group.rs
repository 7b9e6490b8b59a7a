use tracegrep::float::FloatRepr;
use tracegrep::group::{format_float_bucket, group_count};
use tracegrep::{Record, Value};

fn rec(field: &str, v: Option<Value>) -> Record {
    let mut r = Record::new("raw");
    if let Some(v) = v {
        r.insert(field.to_string(), v);
    }
    r
}

fn fl(x: f64) -> FloatRepr {
    FloatRepr::new(x.to_bits(), x.to_string())
}

#[test]
fn group_counts_by_level() {
    let mut error1 = Record::new("r1");
    error1.insert("level".to_string(), Value::Str("error".into()));
    let mut warn = Record::new("r2");
    warn.insert("level".to_string(), Value::Str("warn".into()));
    let mut info = Record::new("r3");
    info.insert("level".to_string(), Value::Str("info".into()));
    let mut error2 = Record::new("r4");
    error2.insert("level".to_string(), Value::Str("error".into()));

    let counts = group_count(vec![error1, warn, info, error2], "level");
    assert_eq!(counts.get("error"), Some(2));
    assert_eq!(counts.get("warn"), Some(1));
    assert_eq!(counts.get("info"), Some(1));
    assert_eq!(counts.len(), 3);
}

#[test]
fn group_buckets_missing_and_null_under_empty_key() {
    let mut labeled = Record::new("r1");
    labeled.insert("level".to_string(), Value::Str("info".into()));
    let missing = Record::new("r2");
    let mut explicit_null = Record::new("r3");
    explicit_null.insert("level".to_string(), Value::Null);

    let counts = group_count(vec![labeled, missing, explicit_null], "level");
    assert_eq!(counts.get(""), Some(2));
    assert_eq!(counts.get("info"), Some(1));
}

#[test]
fn group_single_record() {
    let mut r = Record::new("only");
    r.insert("k".to_string(), Value::Str("v".into()));

    let counts = group_count(vec![r], "k");
    assert_eq!(counts.len(), 1);
    assert_eq!(counts.get("v"), Some(1));
}

#[test]
fn float_buckets_drop_spurious_decimals_when_exact() {
    assert_eq!(format_float_bucket(&fl(3.0)), "3");
    assert_eq!(format_float_bucket(&fl(-0.0)), "0");
    assert_eq!(format_float_bucket(&fl(2.5)), "2.5");
    assert_eq!(format_float_bucket(&fl(f64::NAN)), "NaN");
    assert_eq!(format_float_bucket(&fl(f64::INFINITY)), "inf");
    assert_eq!(format_float_bucket(&fl(f64::NEG_INFINITY)), "-inf");
    assert_eq!(format_float_bucket(&fl(9223372036854775808.0)), "9223372036854775807");
    assert_eq!(format_float_bucket(&fl(-9223372036854775808.0)), "-9223372036854775808");
    assert_eq!(format_float_bucket(&fl(1e19)), "10000000000000000000");
    assert_eq!(format_float_bucket(&fl(1e300)), 1e300f64.to_string());
}

#[test]
fn group_tally_text_lists_keys_in_order() {
    let rs = vec![
        rec("host", Some(Value::Str("b".into()))),
        rec("host", Some(Value::Str("a".into()))),
        rec("host", Some(Value::Str("a".into()))),
    ];
    assert_eq!(group_count(rs, "host").tally_text(), "a\t2\nb\t1\n");
}
