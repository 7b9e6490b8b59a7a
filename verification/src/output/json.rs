//! Matched records as compact JSON objects, one per line.

use vstd::prelude::*;
use serde_json::Value as JsonValue;
use crate::json_doc::{JsonView, json_view, json_members, json_document, json_compact,
    int_number, json_from_str, json_compact_text, json_map_new, json_map_insert,
    json_string, json_bool, json_null, json_int, json_object};
use crate::keyed::{entries_map, keys_strictly_sorted, lemma_insert_map, sorted_listing,
    lemma_sorted_listing};
use crate::record::{Record, Value, ValueView};
use crate::sink::{LoggedWriter, WriteEvent, wrote, lemma_prefix_of_extension};
use crate::text::{chars_of, first_index_of, lemma_first_index_of, push_str};

verus! {

/// A float's text as a JSON float literal: with `.0` added when it has no
/// decimal point (so `3` reads back as the float `3.0`).
pub open spec fn json_float_literal(t: Seq<char>) -> Seq<char> {
    if first_index_of(t, '.') < t.len() {
        t
    } else {
        t + seq!['.', '0']
    }
}

/// The JSON form of a field value: strings, integers, booleans and null as
/// themselves; a float as the number its text reads as, or `null` when that
/// text is no JSON number (NaN and the infinities). serde_json is built with
/// `float_roundtrip`, so the shortest text of a float reads back as that
/// very float.
pub open spec fn scalar_json(v: ValueView) -> JsonView {
    match v {
        ValueView::Str(s) => JsonView::Str(s),
        ValueView::Int(i) => JsonView::Number(int_number(i)),
        ValueView::Float(f) => match json_document(json_float_literal(f.text)) {
            Ok(d) => d,
            Err(_) => JsonView::Null,
        },
        ValueView::Bool(b) => JsonView::Bool(b),
        ValueView::Null => JsonView::Null,
    }
}

/// The members of a record's JSON object: every field, and `_raw` holding
/// the raw input line when `attach_raw`.
pub open spec fn record_json_map(
    fields: Map<Seq<char>, ValueView>,
    raw: Seq<char>,
    attach_raw: bool,
) -> Map<Seq<char>, JsonView> {
    let base = fields.map_values(|v: ValueView| scalar_json(v));
    if attach_raw {
        base.insert("_raw"@, JsonView::Str(raw))
    } else {
        base
    }
}

/// The compact text of the JSON object whose members are `m`, listed in
/// increasing key order.
pub open spec fn object_text(m: Map<Seq<char>, JsonView>) -> Seq<char> {
    json_compact(JsonView::Object(sorted_listing(m)))
}

/// What writing one record asks of the writer: its JSON text, then a newline.
pub open spec fn record_line_events(t: Seq<char>) -> Seq<WriteEvent> {
    seq![WriteEvent::Text(t), WriteEvent::Text("\n"@)]
}

/// The JSON value of a field value.
pub fn scalar_to_json(value: &Value) -> (r: JsonValue)
    ensures
        json_view(r) == scalar_json(value@),
{
    match value {
        Value::Str(s) => json_string(s.clone()),
        Value::Int(i) => json_int(*i),
        Value::Float(f) => {
            let mut lit = f.text.clone();
            let tv = chars_of(f.text.as_str());
            if !has_point(&tv) {
                push_str(&mut lit, ".0");
                proof {
                    reveal_strlit(".0");
                }
            }
            assert(lit@ =~= json_float_literal(f.text@));
            match json_from_str(lit.as_str()) {
                Ok(x) => x,
                Err(_) => json_null(),
            }
        },
        Value::Bool(b) => json_bool(*b),
        Value::Null => json_null(),
    }
}

/// Whether `v` holds a `.`.
fn has_point(v: &Vec<char>) -> (r: bool)
    ensures
        r == (first_index_of(v@, '.') < v@.len()),
{
    let mut i: usize = 0;
    while i < v.len()
        invariant
            i <= v.len(),
            forall|k: int| 0 <= k < i ==> v@[k] != '.',
        decreases v.len() - i,
    {
        if v[i] == '.' {
            proof {
                lemma_first_index_of(v@, '.');
            }
            return true;
        }
        i += 1;
    }
    proof {
        lemma_first_index_of(v@, '.');
    }
    false
}

/// The JSON object of a record: its fields, and `_raw` when `attach_raw`.
pub fn record_json(r: &Record, attach_raw: bool) -> (j: JsonValue)
    ensures
        json_view(j) is Object,
        keys_strictly_sorted(json_members_of(json_view(j))),
        entries_map(json_members_of(json_view(j))) == record_json_map(
            r.view(),
            r.raw_view(),
            attach_raw,
        ),
{
    let fields = r.iter();
    let ghost e = r.entries();
    let mut map = json_map_new();
    let mut i: usize = 0;
    assert(entries_map(e.take(0)) =~= Map::<Seq<char>, ValueView>::empty());
    assert(entries_map(json_members(map)) =~= Map::<Seq<char>, JsonView>::empty());
    while i < fields.len()
        invariant
            i <= fields.len(),
            fields.len() == e.len(),
            e == r.entries(),
            keys_strictly_sorted(e),
            forall|k: int|
                0 <= k < fields.len() ==> (#[trigger] fields[k]).name@ == e[k].0 && fields[k].value@
                    == e[k].1,
            keys_strictly_sorted(json_members(map)),
            entries_map(json_members(map)) == entries_map(e.take(i as int)).map_values(
                |v: ValueView| scalar_json(v),
            ),
        decreases fields.len() - i,
    {
        let f = fields[i];
        let jv = scalar_to_json(f.value);
        json_map_insert(&mut map, f.name.to_owned(), jv);
        proof {
            let k = e[i as int].0;
            let v = e[i as int].1;
            let t = e.take(i as int);
            assert(t.insert(i as int, (k, v)) =~= e.take(i + 1));
            assert(keys_strictly_sorted(t));
            lemma_insert_map(t, i as int, k, v);
            assert(entries_map(e.take(i + 1)).map_values(|v: ValueView| scalar_json(v)) =~= entries_map(
                t,
            ).map_values(|v: ValueView| scalar_json(v)).insert(k, scalar_json(v)));
        }
        i += 1;
    }
    assert(e.take(e.len() as int) =~= e);
    if attach_raw {
        json_map_insert(&mut map, String::from_str("_raw"), json_string(r.raw().to_owned()));
    }
    json_object(map)
}

/// The members of an object view (empty for any other value).
pub open spec fn json_members_of(v: JsonView) -> Seq<(Seq<char>, JsonView)> {
    match v {
        JsonView::Object(ms) => ms,
        _ => Seq::empty(),
    }
}

/// Writes each record as one compact JSON object and a newline.
pub struct JsonFormatter<W> {
    inner: LoggedWriter<W>,
    attach_raw: bool,
}

impl<W: std::io::Write> JsonFormatter<W> {
    /// What was asked of the writer so far.
    pub closed spec fn events(&self) -> Seq<WriteEvent> {
        self.inner.events()
    }

    /// Whether each object carries the raw input line as `_raw`.
    pub closed spec fn attaches_raw(&self) -> bool {
        self.attach_raw
    }

    /// Objects carry `_raw`.
    pub fn new(inner: W) -> (r: Self)
        ensures
            r.events() == Seq::<WriteEvent>::empty(),
            r.attaches_raw(),
    {
        JsonFormatter { inner: LoggedWriter::new(inner), attach_raw: true }
    }

    /// Objects hold the fields only.
    pub fn without_raw_footer(inner: W) -> (r: Self)
        ensures
            r.events() == Seq::<WriteEvent>::empty(),
            !r.attaches_raw(),
    {
        JsonFormatter { inner: LoggedWriter::new(inner), attach_raw: false }
    }

    /// Writes the record's JSON object and a newline.
    pub fn write(&mut self, r: &Record) -> (res: Result<(), std::io::Error>)
        ensures
            final(self).attaches_raw() == old(self).attaches_raw(),
            wrote(
                old(self).events(),
                final(self).events(),
                record_line_events(
                    object_text(record_json_map(r.view(), r.raw_view(), old(self).attaches_raw())),
                ),
                res is Ok,
            ),
    {
        let ghost start = self.inner.events();
        let v = record_json(r, self.attach_raw);
        let text = json_compact_text(&v);
        let ghost planned = record_line_events(text@);
        proof {
            lemma_sorted_listing(json_members_of(json_view(v)));
            assert(text@ == object_text(record_json_map(r.view(), r.raw_view(), self.attach_raw)));
        }
        let w = self.inner.write_str(text.as_str());
        if w.is_err() {
            proof {
                lemma_prefix_of_extension(start, planned, 1);
                assert(start + planned.take(1) =~= self.inner.events());
            }
            return w;
        }
        let n = self.inner.write_str("\n");
        proof {
            lemma_prefix_of_extension(start, planned, 2);
            assert(planned.take(2) =~= planned);
            assert(start + planned =~= self.inner.events());
        }
        n
    }

    /// Flushes the writer.
    pub fn flush(&mut self) -> (res: Result<(), std::io::Error>)
        ensures
            final(self).attaches_raw() == old(self).attaches_raw(),
            final(self).events() == old(self).events().push(WriteEvent::Flush),
    {
        self.inner.flush()
    }
}

} // verus!
