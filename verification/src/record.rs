//! Parsed log records: a raw line plus named, typed fields kept in key order.

use vstd::prelude::*;
use crate::float::{Cmp3, FloatRepr, FloatView};
use crate::keyed::{keys_strictly_sorted, entries_map, lemma_unique_index,
    lemma_update_keeps_sorted, lemma_update_map, lemma_insert_keeps_sorted, lemma_insert_map};
use crate::text::{compare_str, seq_less, lemma_seq_less_trichotomy};

verus! {

/// A typed field value.
#[derive(Debug, Clone)]
pub enum Value {
    Str(String),
    Int(i64),
    Float(FloatRepr),
    Bool(bool),
    Null,
}

/// The mathematical content of a [`Value`].
pub enum ValueView {
    Str(Seq<char>),
    Int(i64),
    Float(FloatView),
    Bool(bool),
    Null,
}

impl View for Value {
    type V = ValueView;

    open spec fn view(&self) -> ValueView {
        match self {
            Value::Str(s) => ValueView::Str(s@),
            Value::Int(i) => ValueView::Int(*i),
            Value::Float(f) => ValueView::Float(f@),
            Value::Bool(b) => ValueView::Bool(*b),
            Value::Null => ValueView::Null,
        }
    }
}

impl Value {
    /// A copy of the value with the same view.
    pub fn duplicate(&self) -> (r: Value)
        ensures
            r@ == self@,
    {
        match self {
            Value::Str(s) => Value::Str(s.clone()),
            Value::Int(i) => Value::Int(*i),
            Value::Float(f) => Value::Float(FloatRepr::new(f.bits, f.text.clone())),
            Value::Bool(b) => Value::Bool(*b),
            Value::Null => Value::Null,
        }
    }
}

/// A borrowed view of one field of a [`Record`].
#[derive(Debug, Clone, Copy)]
pub struct Field<'a> {
    pub name: &'a str,
    pub value: &'a Value,
}

/// The error every line parser reports.
#[derive(Debug, Clone)]
pub enum RecordError {
    Parse(String),
}

impl RecordError {
    /// The parse failure's explanation.
    pub open spec fn detail(&self) -> Seq<char> {
        match self {
            RecordError::Parse(s) => s@,
        }
    }

    /// The human-readable message: `parse: <detail>`.
    pub fn message(&self) -> (r: String)
        ensures
            r@ == "parse: "@ + self.detail(),
    {
        match self {
            RecordError::Parse(s) => {
                let mut out = String::from_str("parse: ");
                out.append(s.as_str());
                out
            },
        }
    }
}

/// `r` is what a line parser owes for the line `raw` whose expected outcome
/// is `expected`: a record with exactly those fields and that raw text, or
/// an error with that message.
pub open spec fn yields(
    r: Result<Record, RecordError>,
    raw: Seq<char>,
    expected: Result<Map<Seq<char>, ValueView>, Seq<char>>,
) -> bool {
    match expected {
        Ok(m) => r matches Ok(rec) && rec.view() == m && rec.raw_view() == raw,
        Err(e) => r matches Err(x) && x.detail() == e,
    }
}

/// One structured log line.
#[derive(Debug)]
pub struct Record {
    fields: Vec<(String, Value)>,
    raw: String,
}

impl Record {
    /// The fields in key order.
    pub closed spec fn entries(&self) -> Seq<(Seq<char>, ValueView)> {
        self.fields@.map_values(|kv: (String, Value)| (kv.0@, kv.1@))
    }

    /// The fields as a map from name to value.
    pub open spec fn view(&self) -> Map<Seq<char>, ValueView> {
        entries_map(self.entries())
    }

    /// The raw input line.
    pub closed spec fn raw_view(&self) -> Seq<char> {
        self.raw@
    }

    #[verifier::type_invariant]
    spec fn sorted(&self) -> bool {
        keys_strictly_sorted(self.entries())
    }

    /// A record with no fields for the line `raw`.
    pub fn new(raw: &str) -> (r: Record)
        ensures
            r.entries() == Seq::<(Seq<char>, ValueView)>::empty(),
            r.view() == Map::<Seq<char>, ValueView>::empty(),
            r.raw_view() == raw@,
    {
        let r = Record { fields: Vec::new(), raw: raw.to_owned() };
        assert(r.entries() =~= Seq::<(Seq<char>, ValueView)>::empty());
        assert(r.view() =~= Map::<Seq<char>, ValueView>::empty());
        r
    }

    /// The value of field `name`, if present.
    pub fn get(&self, name: &str) -> (r: Option<&Value>)
        ensures
            match r {
                Some(v) => self.view().contains_key(name@) && self.view()[name@] == v@,
                None => !self.view().contains_key(name@),
            },
    {
        proof {
            use_type_invariant(self);
        }
        let mut i: usize = 0;
        while i < self.fields.len()
            invariant
                i <= self.fields.len(),
                keys_strictly_sorted(self.entries()),
                forall|j: int| 0 <= j < i ==> self.entries()[j].0 != name@,
            decreases self.fields.len() - i,
        {
            let c = compare_str(self.fields[i].0.as_str(), name);
            assert(self.entries()[i as int].0 == self.fields@[i as int].0@);
            if c == Cmp3::Equal {
                proof {
                    lemma_unique_index(self.entries(), i as int);
                }
                return Some(&self.fields[i].1);
            }
            i += 1;
        }
        None
    }

    /// Sets field `name` to `value`, replacing any previous value.
    pub fn insert(&mut self, name: String, value: Value)
        ensures
            final(self).view() == old(self).view().insert(name@, value@),
            final(self).raw_view() == old(self).raw_view(),
    {
        proof {
            use_type_invariant(&*self);
        }
        let ghost old_e = self.entries();
        let mut i: usize = 0;
        let mut found = false;
        while !found && i < self.fields.len()
            invariant
                i <= self.fields.len(),
                old_e == self.entries(),
                keys_strictly_sorted(old_e),
                forall|j: int| 0 <= j < i ==> seq_less(#[trigger] old_e[j].0, name@),
                found ==> i < old_e.len() && !seq_less(old_e[i as int].0, name@),
            decreases self.fields.len() - i + (if found { 0int } else { 1int }),
        {
            let c = compare_str(self.fields[i].0.as_str(), name.as_str());
            assert(old_e[i as int].0 == self.fields@[i as int].0@);
            if c != Cmp3::Less {
                found = true;
            } else {
                i += 1;
            }
        }
        let ghost nv = value@;
        let replace = i < self.fields.len() && compare_str(self.fields[i].0.as_str(), name.as_str())
            == Cmp3::Equal;
        let ghost nk = name@;
        if replace {
            let ghost new_e = old_e.update(i as int, (nk, nv));
            proof {
                lemma_update_keeps_sorted(old_e, i as int, nv);
                lemma_update_map(old_e, i as int, nv);
            }
            let mut fields: Vec<(String, Value)> = Vec::new();
            std::mem::swap(&mut fields, &mut self.fields);
            fields.set(i, (name, value));
            assert(fields@.map_values(|kv: (String, Value)| (kv.0@, kv.1@)) =~= new_e);
            self.fields = fields;
        } else {
            let ghost new_e = old_e.insert(i as int, (nk, nv));
            proof {
                if i < old_e.len() {
                    lemma_seq_less_trichotomy(old_e[i as int].0, nk);
                }
                lemma_insert_keeps_sorted(old_e, i as int, nk, nv);
                lemma_insert_map(old_e, i as int, nk, nv);
            }
            let mut fields: Vec<(String, Value)> = Vec::new();
            std::mem::swap(&mut fields, &mut self.fields);
            fields.insert(i, (name, value));
            assert(fields@.map_values(|kv: (String, Value)| (kv.0@, kv.1@)) =~= new_e);
            self.fields = fields;
        }
    }

    /// A copy with the same fields and line.
    pub fn duplicate(&self) -> (r: Record)
        ensures
            r.entries() == self.entries(),
            r.view() == self.view(),
            r.raw_view() == self.raw_view(),
    {
        proof {
            use_type_invariant(self);
        }
        let mut fields: Vec<(String, Value)> = Vec::new();
        let mut i: usize = 0;
        while i < self.fields.len()
            invariant
                i <= self.fields.len(),
                fields.len() == i,
                forall|j: int|
                    0 <= j < i ==> (#[trigger] fields@[j]).0@ == self.fields@[j].0@ && fields@[j].1@
                        == self.fields@[j].1@,
            decreases self.fields.len() - i,
        {
            fields.push((self.fields[i].0.clone(), self.fields[i].1.duplicate()));
            i += 1;
        }
        assert(fields@.map_values(|kv: (String, Value)| (kv.0@, kv.1@)) =~= self.entries());
        Record { fields, raw: self.raw.clone() }
    }

    /// The raw input line.
    pub fn raw(&self) -> (r: &str)
        ensures
            r@ == self.raw_view(),
    {
        self.raw.as_str()
    }

    /// The fields, in increasing key order.
    pub fn iter(&self) -> (r: Vec<Field<'_>>)
        ensures
            r.len() == self.entries().len(),
            forall|i: int|
                0 <= i < r.len() ==> (#[trigger] r[i]).name@ == self.entries()[i].0 && r[i].value@
                    == self.entries()[i].1,
            keys_strictly_sorted(self.entries()),
    {
        proof {
            use_type_invariant(self);
        }
        let mut out: Vec<Field<'_>> = Vec::new();
        let mut i: usize = 0;
        while i < self.fields.len()
            invariant
                i <= self.fields.len(),
                out.len() == i,
                forall|j: int|
                    0 <= j < i ==> (#[trigger] out[j]).name@ == self.entries()[j].0
                        && out[j].value@ == self.entries()[j].1,
            decreases self.fields.len() - i,
        {
            out.push(Field { name: self.fields[i].0.as_str(), value: &self.fields[i].1 });
            i += 1;
        }
        out
    }
}

impl Clone for Record {
    fn clone(&self) -> (r: Record)
        ensures
            r.entries() == self.entries(),
            r.raw_view() == self.raw_view(),
    {
        self.duplicate()
    }
}

} // verus!
