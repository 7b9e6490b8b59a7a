use std::cmp::Ordering;
use tracegrep::float::FloatRepr;
use tracegrep::group::group_count;
use tracegrep::output::row::Row;
use tracegrep::{ExitCode, Record, TableFormatter, Value};

fn fl(x: f64) -> Value {
    Value::Float(FloatRepr::new(x.to_bits(), x.to_string()))
}

#[test]
fn comparing_values_the_other_way_flips_the_outcome() {
    let vals = vec![
        Value::Int(3),
        fl(2.5),
        fl(3.0),
        fl(f64::NAN),
        Value::Str("b".into()),
        Value::Str("ab".into()),
        Value::Bool(true),
        Value::Bool(false),
        Value::Null,
    ];
    for a in &vals {
        for b in &vals {
            let ab = a.partial_cmp(b);
            let ba = b.partial_cmp(a);
            assert_eq!(ab, ba.map(Ordering::reverse), "{a:?} vs {b:?}");
        }
    }
}

#[test]
fn group_counts_equal_occurrences() {
    let keys = ["x", "y", "x", "z", "x", "y"];
    let rs: Vec<Record> = keys
        .iter()
        .map(|k| {
            let mut r = Record::new("r");
            r.insert("k".to_string(), Value::Str(k.to_string()));
            r
        })
        .collect();
    let m = group_count(rs, "k");
    for k in ["x", "y", "z"] {
        let n = keys.iter().filter(|x| **x == k).count() as u64;
        assert_eq!(m.get(k), Some(n));
    }
    assert_eq!(m.get("w"), None);
}

#[test]
fn table_lines_have_equal_length() {
    let mut buf: Vec<u8> = Vec::new();
    {
        let mut t = TableFormatter::new(&mut buf, 3);
        for (a, b) in [("x", "long value"), ("yyyyyy", ""), ("z", "q")] {
            let mut r = Row::new();
            r.insert("a".to_string(), a.to_string());
            r.insert("bb".to_string(), b.to_string());
            t.push_row(r).expect("push");
        }
        let mut late = Row::new();
        late.insert("a".to_string(), "much longer than the column".to_string());
        t.push_row(late).expect("push");
        t.flush().expect("flush");
    }
    let text = String::from_utf8(buf).expect("utf-8");
    let widths: Vec<usize> = text.lines().map(|l| l.chars().count()).collect();
    assert_eq!(widths.len(), 6);
    assert!(widths.iter().all(|w| *w == widths[0]), "{text}");
}

#[test]
fn finished_runs_exit_zero_or_one_errors_two() {
    assert_eq!(ExitCode::from(true).as_i32(), 0);
    assert_eq!(ExitCode::from(false).as_i32(), 1);
    assert_ne!(ExitCode::from(true).as_i32(), ExitCode::Error.as_i32());
    assert_ne!(ExitCode::from(false).as_i32(), ExitCode::Error.as_i32());
}
