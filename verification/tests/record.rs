use std::cmp::Ordering;
use tracegrep::float::FloatRepr;
use tracegrep::{Record, Value};

fn fl(x: f64) -> Value {
    Value::Float(FloatRepr::new(x.to_bits(), x.to_string()))
}

#[test]
fn insert_and_get_roundtrip() {
    let mut record = Record::new("{}");
    record.insert("level".to_string(), Value::Str("error".into()));
    record.insert("code".to_string(), Value::Int(42));
    assert_eq!(record.get("level"), Some(&Value::Str("error".into())));
    assert_eq!(record.get("code"), Some(&Value::Int(42)));
    assert!(record.get("missing").is_none());
}

#[test]
fn raw_preserved_independent_of_fields() {
    let raw = r#"{"trace_id":"abc","msg":"boom"}"#;
    let mut record = Record::new(raw);
    record.insert("extra".to_string(), Value::Bool(true));
    assert_eq!(record.raw(), raw);
}

#[test]
fn ordering_compares_integer_and_float_numerically() {
    assert_eq!(
        Value::Int(1).partial_cmp(&fl(2.0)),
        Some(Ordering::Less)
    );
    assert_eq!(
        fl(2.0).partial_cmp(&Value::Int(1)),
        Some(Ordering::Greater)
    );
    assert_eq!(
        fl(1.25).partial_cmp(&Value::Int(1)),
        Some(Ordering::Greater)
    );
}

#[test]
fn ordering_lexicographic_for_strings() {
    assert_eq!(
        Value::Str("aaa".into()).partial_cmp(&Value::Str("zzz".into())),
        Some(Ordering::Less)
    );
}

#[test]
fn mixed_types_do_not_partial_compare() {
    assert_eq!(Value::Int(1).partial_cmp(&Value::Str("1".into())), None);
}

#[test]
fn ordering_integer_equal_to_float_and_reverse_kinds() {
    assert_eq!(Value::Int(1).partial_cmp(&fl(1.5)), Some(Ordering::Less));
    assert_eq!(Value::Int(3).partial_cmp(&fl(3.0)), Some(Ordering::Equal));
    assert_eq!(Value::Str("1".into()).partial_cmp(&Value::Int(1)), None);
}

#[test]
fn insert_replaces_and_iterates_in_key_order() {
    let mut r = Record::new("x");
    r.insert("b".to_string(), Value::Int(1));
    r.insert("a".to_string(), Value::Null);
    r.insert("b".to_string(), Value::Int(2));
    let names: Vec<&str> = r.iter().iter().map(|f| f.name).collect();
    assert_eq!(names, vec!["a", "b"]);
    assert_eq!(r.get("b"), Some(&Value::Int(2)));
}

#[test]
fn value_equality_is_by_kind() {
    assert_ne!(Value::Int(1), fl(1.0));
    assert_eq!(fl(0.0), fl(-0.0));
    assert_ne!(fl(f64::NAN), fl(f64::NAN));
    assert_eq!(Value::Null.partial_cmp(&Value::Null), Some(Ordering::Equal));
}
