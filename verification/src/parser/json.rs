//! One JSON object line into a [`Record`] with dot-flattened keys.
//!
//! Nested objects are flattened recursively: `{"b":{"c":2}}` gives the field
//! `b.c`. Arrays are kept as strings holding their compact JSON text.

use vstd::prelude::*;
use serde_json::Value as JsonValue;
use serde_json::Map as JsonMap;
use crate::float::{FloatRepr, FloatView, is_float_reader, reader_fn, read_float};
use crate::json_doc::{JsonView, NumberView, json_view, json_members, json_number_view, json_document,
    json_compact, json_from_str, json_number_text, json_map_items, json_compact_text};
use crate::record::{Record, RecordError, Value, ValueView};
use crate::text::{chars_of, is_float_text, is_float_text_exec, push_str};

verus! {

/// The field name of member `key` under the path `prefix`.
pub open spec fn member_path(prefix: Seq<char>, key: Seq<char>) -> Seq<char> {
    if prefix.len() == 0 {
        key
    } else {
        prefix + seq!['.'] + key
    }
}

pub open spec fn msg_not_object() -> Seq<char> {
    "expected JSON object"@
}

/// The field value of a JSON number: an `i64` when it is an integer in
/// range, else the float its text denotes (read by `rd`).
pub open spec fn json_number_value(n: NumberView, rd: spec_fn(Seq<char>) -> FloatView) -> Result<
    ValueView,
    Seq<char>,
> {
    if n.int is Some {
        Ok(ValueView::Int(n.int->0))
    } else if n.uint is Some && n.uint->0 <= i64::MAX {
        Ok(ValueView::Int(n.uint->0 as i64))
    } else if is_float_text(n.text) {
        Ok(ValueView::Float(rd(n.text)))
    } else {
        Err("unsupported JSON number Number("@ + n.text + ")"@)
    }
}

/// The fields of the members `ms` under `prefix`, added to `acc` in order,
/// or the first error.
pub open spec fn flatten_members(
    prefix: Seq<char>,
    ms: Seq<(Seq<char>, JsonView)>,
    acc: Map<Seq<char>, ValueView>,
    rd: spec_fn(Seq<char>) -> FloatView,
) -> Result<Map<Seq<char>, ValueView>, Seq<char>>
    decreases ms,
{
    if ms.len() == 0 {
        Ok(acc)
    } else {
        let path = member_path(prefix, ms[0].0);
        let child = ms[0].1;
        let first = match child {
            JsonView::Object(sub) => {
                proof {
                    assert(decreases_to!(ms => ms[0]));
                }
                flatten_members(path, sub, acc, rd)
            },
            JsonView::Array(_) => Ok(acc.insert(path, ValueView::Str(json_compact(child)))),
            JsonView::Str(t) => Ok(acc.insert(path, ValueView::Str(t))),
            JsonView::Bool(b) => Ok(acc.insert(path, ValueView::Bool(b))),
            JsonView::Null => Ok(acc.insert(path, ValueView::Null)),
            JsonView::Number(n) => match json_number_value(n, rd) {
                Ok(v) => Ok(acc.insert(path, v)),
                Err(e) => Err(e),
            },
        };
        match first {
            Err(e) => Err(e),
            Ok(a) => {
                proof {
                    assert(decreases_to!(ms => ms.subrange(1, ms.len() as int)));
                }
                flatten_members(prefix, ms.subrange(1, ms.len() as int), a, rd)
            },
        }
    }
}

/// The fields a parsed JSON document gives: an object's flattened members.
pub open spec fn json_record_fields(doc: JsonView, rd: spec_fn(Seq<char>) -> FloatView) -> Result<
    Map<Seq<char>, ValueView>,
    Seq<char>,
> {
    match doc {
        JsonView::Object(ms) => flatten_members(Seq::empty(), ms, Map::empty(), rd),
        _ => Err(msg_not_object()),
    }
}

/// The fields of a JSON line, or the error message.
pub open spec fn json_line(s: Seq<char>, rd: spec_fn(Seq<char>) -> FloatView) -> Result<
    Map<Seq<char>, ValueView>,
    Seq<char>,
> {
    match json_document(s) {
        Ok(doc) => json_record_fields(doc, rd),
        Err(e) => Err(e),
    }
}

/// The field value of a JSON number.
fn json_number<F: Fn(&str) -> FloatRepr>(n: &serde_json::Number, read: &F) -> (r: Result<
    Value,
    RecordError,
>)
    requires
        is_float_reader(*read),
    ensures
        match json_number_value(json_number_view(*n), reader_fn(*read)) {
            Ok(v) => r matches Ok(x) && x@ == v,
            Err(e) => r matches Err(x) && x.detail() == e,
        },
{
    if let Some(i) = n.as_i64() {
        return Ok(Value::Int(i));
    }
    if let Some(u) = n.as_u64() {
        if u <= i64::MAX as u64 {
            return Ok(Value::Int(u as i64));
        }
    }
    let t = json_number_text(n);
    let tv = chars_of(t.as_str());
    assert(tv@.subrange(0, tv.len() as int) =~= tv@);
    if is_float_text_exec(&tv, 0, tv.len()) {
        Ok(Value::Float(read_float(read, t.as_str())))
    } else {
        let mut msg = String::from_str("unsupported JSON number Number(");
        push_str(&mut msg, t.as_str());
        push_str(&mut msg, ")");
        Err(RecordError::Parse(msg))
    }
}

/// Adds the flattened members of `obj`, under `prefix`, to `record`.
fn flatten_object<F: Fn(&str) -> FloatRepr>(
    prefix: &str,
    obj: &JsonMap<String, JsonValue>,
    record: &mut Record,
    read: &F,
) -> (r: Result<(), RecordError>)
    requires
        is_float_reader(*read),
    ensures
        final(record).raw_view() == old(record).raw_view(),
        match flatten_members(prefix@, json_members(*obj), old(record).view(), reader_fn(*read)) {
            Ok(m) => r is Ok && final(record).view() == m,
            Err(e) => r matches Err(x) && x.detail() == e,
        },
    decreases json_members(*obj),
{
    let ghost rd = reader_fn(*read);
    let ghost ms = json_members(*obj);
    let ghost target = flatten_members(prefix@, ms, old(record).view(), rd);
    let items = json_map_items(obj);
    let mut i: usize = 0;
    assert(ms.subrange(0, ms.len() as int) =~= ms);
    while i < items.len()
        invariant
            is_float_reader(*read),
            rd == reader_fn(*read),
            ms == json_members(*obj),
            items.len() == ms.len(),
            forall|k: int|
                0 <= k < items.len() ==> (#[trigger] items[k]).0@ == ms[k].0 && json_view(
                    *items[k].1,
                ) == ms[k].1,
            i <= items.len(),
            record.raw_view() == old(record).raw_view(),
            target == flatten_members(prefix@, ms, old(record).view(), rd),
            flatten_members(prefix@, ms.subrange(i as int, ms.len() as int), record.view(), rd)
                == target,
        decreases items.len() - i,
    {
        let key = items[i].0;
        let child = items[i].1;
        let ghost rest = ms.subrange(i as int, ms.len() as int);
        assert(rest[0] == ms[i as int]);
        assert(rest.subrange(1, rest.len() as int) =~= ms.subrange(i + 1, ms.len() as int));
        let mut path = String::new();
        if prefix.is_empty() {
            push_str(&mut path, key.as_str());
        } else {
            push_str(&mut path, prefix);
            path.push('.');
            push_str(&mut path, key.as_str());
        }
        assert(path@ =~= member_path(prefix@, ms[i as int].0));
        let ghost before = record.view();
        if let Some(nested) = child.as_object() {
            proof {
                assert(decreases_to!(ms => ms[i as int]));
            }
            match flatten_object(path.as_str(), nested, record, read) {
                Ok(()) => {},
                Err(e) => {
                    return Err(e);
                },
            }
        } else if let Some(t) = child.as_str() {
            record.insert(path, Value::Str(t.to_owned()));
        } else if let Some(b) = child.as_bool() {
            record.insert(path, Value::Bool(b));
        } else if child.is_null() {
            record.insert(path, Value::Null);
        } else if let Some(n) = child.as_number() {
            match json_number(n, read) {
                Ok(v) => {
                    record.insert(path, v);
                },
                Err(e) => {
                    return Err(e);
                },
            }
        } else {
            let text = json_compact_text(child);
            record.insert(path, Value::Str(text));
        }
        i += 1;
    }
    Ok(())
}

/// The record a parsed JSON document gives for the line `line`: the
/// document must be an object, whose members are flattened into fields.
pub fn record_from_json<F: Fn(&str) -> FloatRepr>(line: &str, doc: &JsonValue, read_float: &F) -> (r:
    Result<Record, RecordError>)
    requires
        is_float_reader(*read_float),
    ensures
        match json_record_fields(json_view(*doc), reader_fn(*read_float)) {
            Ok(m) => r matches Ok(rec) && rec.view() == m && rec.raw_view() == line@,
            Err(e) => r matches Err(x) && x.detail() == e,
        },
{
    match doc.as_object() {
        None => Err(RecordError::Parse(String::from_str("expected JSON object"))),
        Some(obj) => {
            let mut record = Record::new(line);
            proof {
                reveal_strlit("");
            }
            assert(""@ =~= Seq::<char>::empty());
            match flatten_object("", obj, &mut record, read_float) {
                Ok(()) => Ok(record),
                Err(e) => Err(e),
            }
        },
    }
}

/// Parses one JSON object line. Float members are read with `read_float`.
pub fn parse_json_line<F: Fn(&str) -> FloatRepr>(s: &str, read_float: &F) -> (r: Result<
    Record,
    RecordError,
>)
    requires
        is_float_reader(*read_float),
    ensures
        match json_line(s@, reader_fn(*read_float)) {
            Ok(m) => r matches Ok(rec) && rec.view() == m && rec.raw_view() == s@,
            Err(e) => r matches Err(x) && x.detail() == e,
        },
{
    match json_from_str(s) {
        Err(msg) => Err(RecordError::Parse(msg)),
        Ok(doc) => record_from_json(s, &doc, read_float),
    }
}

} // verus!
