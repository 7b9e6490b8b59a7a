//! JSON documents as `serde_json` reads and writes them.
//!
//! `JsonValue`, its `Map` and its `Number` are opaque here; what a
//! value holds is named by [`json_view`] (a [`JsonView`] of plain values),
//! and every call into `serde_json` states its effect over those names.

use vstd::prelude::*;
use crate::keyed::{entries_map, keys_strictly_sorted};
use crate::text::int_text;
use serde_json::Value as JsonValue;
use serde_json::Map as JsonMap;

verus! {

#[verifier::external_type_specification]
#[verifier::external_body]
pub struct ExJsonValue(JsonValue);

#[verifier::external_type_specification]
#[verifier::external_body]
#[verifier::reject_recursive_types(K)]
#[verifier::reject_recursive_types(V)]
pub struct ExJsonMap<K, V>(JsonMap<K, V>);

#[verifier::external_type_specification]
#[verifier::external_body]
pub struct ExJsonNumber(serde_json::Number);

/// What a JSON number offers: its value as `i64` and as `u64` where it is an
/// integer in range, and its decimal text.
pub struct NumberView {
    pub int: Option<i64>,
    pub uint: Option<u64>,
    pub text: Seq<char>,
}

/// A JSON value; an object lists its members in iteration order.
pub enum JsonView {
    Null,
    Bool(bool),
    Number(NumberView),
    Str(Seq<char>),
    Array(Seq<JsonView>),
    Object(Seq<(Seq<char>, JsonView)>),
}

/// What a `JsonValue` holds.
pub uninterp spec fn json_view(v: JsonValue) -> JsonView;

/// The members of a `serde_json::Map`, in iteration order.
pub uninterp spec fn json_members(m: JsonMap<String, JsonValue>) -> Seq<(Seq<char>, JsonView)>;

/// What a `serde_json::Number` holds.
pub uninterp spec fn json_number_view(n: serde_json::Number) -> NumberView;

/// The document `serde_json::from_str` reads from a text, or the message of
/// its error.
pub uninterp spec fn json_document(text: Seq<char>) -> Result<JsonView, Seq<char>>;

/// The compact serialization of a JSON value (its `Display` form).
pub uninterp spec fn json_compact(v: JsonView) -> Seq<char>;

/// `serde_json::from_str::<Value>`: the document in `s`, or the error's
/// message.
#[verifier::external_body]
pub(crate) fn json_from_str(s: &str) -> (r: Result<JsonValue, String>)
    ensures
        match r {
            Ok(v) => json_document(s@) == Ok::<JsonView, Seq<char>>(json_view(v)),
            Err(e) => json_document(s@) == Err::<JsonView, Seq<char>>(e@),
        },
{
    serde_json::from_str::<JsonValue>(s).map_err(|e| e.to_string())
}

/// `Value::as_object`: the map of an object, and `None` for any other value.
pub assume_specification[ JsonValue::as_object ](v: &JsonValue) -> (r: Option<
    &JsonMap<String, JsonValue>,
>)
    ensures
        match r {
            Some(m) => json_view(*v) == JsonView::Object(json_members(*m)),
            None => !(json_view(*v) is Object),
        },
;

/// `Value::as_str`: the text of a string, and `None` for any other value.
pub assume_specification[ JsonValue::as_str ](v: &JsonValue) -> (r: Option<&str>)
    ensures
        match r {
            Some(t) => json_view(*v) == JsonView::Str(t@),
            None => !(json_view(*v) is Str),
        },
;

/// `Value::as_bool`: the boolean of a boolean, and `None` for any other value.
pub assume_specification[ JsonValue::as_bool ](v: &JsonValue) -> (r: Option<bool>)
    ensures
        match r {
            Some(b) => json_view(*v) == JsonView::Bool(b),
            None => !(json_view(*v) is Bool),
        },
;

/// `Value::is_null`: whether the value is `null`.
pub assume_specification[ JsonValue::is_null ](v: &JsonValue) -> (r: bool)
    ensures
        r == (json_view(*v) is Null),
;

/// `Value::as_number`: the number of a number, and `None` for any other value.
pub assume_specification[ JsonValue::as_number ](v: &JsonValue) -> (r: Option<
    &serde_json::Number,
>)
    ensures
        match r {
            Some(n) => json_view(*v) == JsonView::Number(json_number_view(*n)),
            None => !(json_view(*v) is Number),
        },
;

/// `Number::as_i64`.
pub assume_specification[ serde_json::Number::as_i64 ](n: &serde_json::Number) -> (r: Option<i64>)
    ensures
        r == json_number_view(*n).int,
;

/// `Number::as_u64`.
pub assume_specification[ serde_json::Number::as_u64 ](n: &serde_json::Number) -> (r: Option<u64>)
    ensures
        r == json_number_view(*n).uint,
;

/// The decimal text of a number (`Number`'s `Display`).
#[verifier::external_body]
pub(crate) fn json_number_text(n: &serde_json::Number) -> (r: String)
    ensures
        r@ == json_number_view(*n).text,
{
    n.to_string()
}

/// The members of a map in its iteration order (`Map::iter`).
#[verifier::external_body]
pub(crate) fn json_map_items(m: &JsonMap<String, JsonValue>) -> (r: Vec<
    (&String, &JsonValue),
>)
    ensures
        r.len() == json_members(*m).len(),
        forall|i: int|
            0 <= i < r.len() ==> (#[trigger] r[i]).0@ == json_members(*m)[i].0 && json_view(*r[i].1)
                == json_members(*m)[i].1,
{
    m.iter().collect()
}

/// The compact serialization of a value (`Value`'s `Display`).
#[verifier::external_body]
pub(crate) fn json_compact_text(v: &JsonValue) -> (r: String)
    ensures
        r@ == json_compact(json_view(*v)),
{
    v.to_string()
}

/// What `Number::from(i)` holds for an `i64`.
pub open spec fn int_number(i: i64) -> NumberView {
    NumberView {
        int: Some(i),
        uint: if i >= 0 {
            Some(i as u64)
        } else {
            None
        },
        text: int_text(i as int),
    }
}

/// `Map::new`: an empty map.
#[verifier::external_body]
pub(crate) fn json_map_new() -> (r: JsonMap<String, JsonValue>)
    ensures
        json_members(r) == Seq::<(Seq<char>, JsonView)>::empty(),
{
    JsonMap::new()
}

/// `Map::insert`: sets member `k` to `v`, replacing an earlier value. The
/// map is a `BTreeMap<String, Value>` (the `preserve_order` feature is off),
/// so its members come out in increasing key order, which for `String` is
/// the order of the code points.
#[verifier::external_body]
pub(crate) fn json_map_insert(m: &mut JsonMap<String, JsonValue>, k: String, v: JsonValue)
    ensures
        keys_strictly_sorted(json_members(*final(m))),
        keys_strictly_sorted(json_members(*old(m))) ==> entries_map(json_members(*final(m)))
            == entries_map(json_members(*old(m))).insert(k@, json_view(v)),
{
    m.insert(k, v);
}

/// `Value::String`.
#[verifier::external_body]
pub(crate) fn json_string(s: String) -> (r: JsonValue)
    ensures
        json_view(r) == JsonView::Str(s@),
{
    JsonValue::String(s)
}

/// `Value::Bool`.
#[verifier::external_body]
pub(crate) fn json_bool(b: bool) -> (r: JsonValue)
    ensures
        json_view(r) == JsonView::Bool(b),
{
    JsonValue::Bool(b)
}

/// `Value::Null`.
#[verifier::external_body]
pub(crate) fn json_null() -> (r: JsonValue)
    ensures
        json_view(r) == JsonView::Null,
{
    JsonValue::Null
}

/// `Value::Number(Number::from(i))` for an `i64`.
#[verifier::external_body]
pub(crate) fn json_int(i: i64) -> (r: JsonValue)
    ensures
        json_view(r) == JsonView::Number(int_number(i)),
{
    JsonValue::Number(serde_json::Number::from(i))
}

/// `Value::Object`.
#[verifier::external_body]
pub(crate) fn json_object(m: JsonMap<String, JsonValue>) -> (r: JsonValue)
    ensures
        json_view(r) == JsonView::Object(json_members(m)),
{
    JsonValue::Object(m)
}

} // verus!
