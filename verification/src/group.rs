//! Counting records by the value of one field.

use vstd::prelude::*;
use vstd::arithmetic::power2::pow2;
use crate::float::{Cmp3, FloatView, is_nan, sign_bit, exponent_field, fraction_field, magnitude};
use crate::keyed::{keys_strictly_sorted, key_index, entries_map, lemma_unique_index,
    lemma_update_keeps_sorted, lemma_update_map, lemma_insert_keeps_sorted, lemma_insert_map};
use crate::record::{Record, Value, ValueView};
use crate::text::{compare_str, seq_less, lemma_seq_less_trichotomy, int_text, nat_text, i64_text,
    u64_text, push_str};

verus! {

/// Counts per key, kept in increasing key order.
#[derive(Debug)]
pub struct GroupCounts {
    cells: Vec<(String, u64)>,
}

impl GroupCounts {
    /// The keys and their counts, in key order.
    pub closed spec fn entries(&self) -> Seq<(Seq<char>, nat)> {
        self.cells@.map_values(|kv: (String, u64)| (kv.0@, kv.1 as nat))
    }

    /// The count of each key seen.
    pub open spec fn view(&self) -> Map<Seq<char>, nat> {
        entries_map(self.entries())
    }

    #[verifier::type_invariant]
    spec fn sorted(&self) -> bool {
        keys_strictly_sorted(self.entries())
    }

    /// No key counted yet.
    pub fn new() -> (r: GroupCounts)
        ensures
            r.view() == Map::<Seq<char>, nat>::empty(),
    {
        let r = GroupCounts { cells: Vec::new() };
        assert(r.entries() =~= Seq::<(Seq<char>, nat)>::empty());
        assert(r.view() =~= Map::<Seq<char>, nat>::empty());
        r
    }

    /// The count of `name`, if it was seen.
    pub fn get(&self, name: &str) -> (r: Option<u64>)
        ensures
            match r {
                Some(v) => self.view().contains_key(name@) && self.view()[name@] == v as nat,
                None => !self.view().contains_key(name@),
            },
    {
        proof {
            use_type_invariant(self);
        }
        let mut i: usize = 0;
        while i < self.cells.len()
            invariant
                i <= self.cells.len(),
                keys_strictly_sorted(self.entries()),
                forall|j: int| 0 <= j < i ==> self.entries()[j].0 != name@,
            decreases self.cells.len() - i,
        {
            let c = compare_str(self.cells[i].0.as_str(), name);
            assert(self.entries()[i as int].0 == self.cells@[i as int].0@);
            if c == Cmp3::Equal {
                proof {
                    lemma_unique_index(self.entries(), i as int);
                }
                return Some(self.cells[i].1);
            }
            i += 1;
        }
        None
    }

    /// Sets the count of `name`.
    fn set_count(&mut self, name: String, value: u64)
        ensures
            final(self).view() == old(self).view().insert(name@, value as nat),
    {
        proof {
            use_type_invariant(&*self);
        }
        let ghost old_e = self.entries();
        let mut i: usize = 0;
        let mut found = false;
        while !found && i < self.cells.len()
            invariant
                i <= self.cells.len(),
                old_e == self.entries(),
                keys_strictly_sorted(old_e),
                forall|j: int| 0 <= j < i ==> seq_less(#[trigger] old_e[j].0, name@),
                found ==> i < old_e.len() && !seq_less(old_e[i as int].0, name@),
            decreases self.cells.len() - i + (if found { 0int } else { 1int }),
        {
            let c = compare_str(self.cells[i].0.as_str(), name.as_str());
            assert(old_e[i as int].0 == self.cells@[i as int].0@);
            if c != Cmp3::Less {
                found = true;
            } else {
                i += 1;
            }
        }
        let ghost nv = value as nat;
        let replace = i < self.cells.len() && compare_str(self.cells[i].0.as_str(), name.as_str())
            == Cmp3::Equal;
        let ghost nk = name@;
        if replace {
            let ghost new_e = old_e.update(i as int, (nk, nv));
            proof {
                lemma_update_keeps_sorted(old_e, i as int, nv);
                lemma_update_map(old_e, i as int, nv);
            }
            let mut fields: Vec<(String, u64)> = Vec::new();
            std::mem::swap(&mut fields, &mut self.cells);
            fields.set(i, (name, value));
            assert(fields@.map_values(|kv: (String, u64)| (kv.0@, kv.1 as nat)) =~= new_e);
            self.cells = fields;
        } else {
            let ghost new_e = old_e.insert(i as int, (nk, nv));
            proof {
                if i < old_e.len() {
                    lemma_seq_less_trichotomy(old_e[i as int].0, nk);
                }
                lemma_insert_keeps_sorted(old_e, i as int, nk, nv);
                lemma_insert_map(old_e, i as int, nk, nv);
            }
            let mut fields: Vec<(String, u64)> = Vec::new();
            std::mem::swap(&mut fields, &mut self.cells);
            fields.insert(i, (name, value));
            assert(fields@.map_values(|kv: (String, u64)| (kv.0@, kv.1 as nat)) =~= new_e);
            self.cells = fields;
        }
    }

    /// Counts one more occurrence of `key`.
    pub fn bump(&mut self, key: String)
        requires
            old(self).view().contains_key(key@) ==> old(self).view()[key@] < u64::MAX,
        ensures
            final(self).view() == old(self).view().insert(
                key@,
                if old(self).view().contains_key(key@) {
                    old(self).view()[key@] + 1
                } else {
                    1
                },
            ),
    {
        let n = match self.get(key.as_str()) {
            Some(c) => c + 1,
            None => 1,
        };
        self.set_count(key, n);
    }

    /// The largest count (0 when no key was seen).
    pub fn max_count(&self) -> (r: u64)
        ensures
            forall|k: Seq<char>| #[trigger] self.view().contains_key(k) ==> self.view()[k] <= r,
    {
        proof {
            use_type_invariant(self);
        }
        let mut m: u64 = 0;
        let mut i: usize = 0;
        while i < self.cells.len()
            invariant
                i <= self.cells.len(),
                forall|j: int| 0 <= j < i ==> (#[trigger] self.entries()[j]).1 <= m,
            decreases self.cells.len() - i,
        {
            if self.cells[i].1 > m {
                m = self.cells[i].1;
            }
            i += 1;
        }
        proof {
            assert forall|k: Seq<char>| #[trigger] self.view().contains_key(k) implies self.view()[k]
                <= m by {
                let j = key_index(self.entries(), k);
                assert(self.entries()[j].1 <= m);
            }
        }
        m
    }

    /// The number of keys.
    pub fn len(&self) -> (r: usize)
        ensures
            r == self.view().len(),
    {
        proof {
            use_type_invariant(self);
            lemma_entries_map_len(self.entries());
        }
        self.cells.len()
    }

    /// One line per key, in key order: the key, a tab, its count.
    pub fn tally_text(&self) -> (r: String)
        ensures
            r@ == tally_lines(self.entries()),
    {
        let mut out = String::new();
        let mut i: usize = 0;
        assert(self.entries().take(0) =~= Seq::<(Seq<char>, nat)>::empty());
        while i < self.cells.len()
            invariant
                i <= self.cells.len(),
                out@ == tally_lines(self.entries().take(i as int)),
            decreases self.cells.len() - i,
        {
            push_str(&mut out, self.cells[i].0.as_str());
            out.push('\t');
            let num = u64_text(self.cells[i].1);
            push_str(&mut out, num.as_str());
            out.push('\n');
            proof {
                let t = self.entries().take(i + 1);
                assert(t.drop_last() =~= self.entries().take(i as int));
                assert(t.last() == (self.cells@[i as int].0@, self.cells@[i as int].1 as nat));
                assert(out@ =~= tally_lines(t));
            }
            i += 1;
        }
        assert(self.entries().take(self.cells.len() as int) =~= self.entries());
        out
    }
}

/// The text of tallies: per entry, the key, a tab, the count and a newline.
pub open spec fn tally_lines(es: Seq<(Seq<char>, nat)>) -> Seq<char>
    decreases es.len(),
{
    if es.len() == 0 {
        Seq::empty()
    } else {
        tally_lines(es.drop_last()) + es.last().0 + seq!['\t'] + nat_text(es.last().1) + seq!['\n']
    }
}

/// A strictly sorted listing has as many entries as its map has keys.
proof fn lemma_entries_map_len<V>(e: Seq<(Seq<char>, V)>)
    requires
        keys_strictly_sorted(e),
    ensures
        entries_map(e).dom().finite(),
        entries_map(e).len() == e.len(),
    decreases e.len(),
{
    if e.len() == 0 {
        assert(entries_map(e) =~= Map::<Seq<char>, V>::empty());
    } else {
        let p = e.drop_last();
        let k = e.last().0;
        assert(keys_strictly_sorted(p));
        lemma_entries_map_len(p);
        assert forall|j: int| 0 <= j < p.len() implies seq_less(#[trigger] p[j].0, k) by {
            assert(p[j] == e[j]);
        }
        lemma_insert_map(p, p.len() as int, k, e.last().1);
        assert(p.insert(p.len() as int, e.last()) =~= e);
        if entries_map(p).contains_key(k) {
            let j = key_index(p, k);
            assert(seq_less(p[j].0, k));
            crate::text::lemma_seq_less_irreflexive(k);
        }
    }
}

/// How many times each key occurs in `keys`.
pub open spec fn tally(keys: Seq<Seq<char>>) -> Map<Seq<char>, nat>
    decreases keys.len(),
{
    if keys.len() == 0 {
        Map::empty()
    } else {
        let m = tally(keys.drop_last());
        let k = keys.last();
        m.insert(
            k,
            if m.contains_key(k) {
                m[k] + 1
            } else {
                1
            },
        )
    }
}

/// No count exceeds the number of keys.
proof fn lemma_tally_bound(keys: Seq<Seq<char>>)
    ensures
        forall|k: Seq<char>| #[trigger] tally(keys).contains_key(k) ==> tally(keys)[k] <= keys.len(),
    decreases keys.len(),
{
    if keys.len() > 0 {
        let p = keys.drop_last();
        lemma_tally_bound(p);
        let m = tally(p);
        let last = keys.last();
        assert(tally(keys) == m.insert(last, if m.contains_key(last) { m[last] + 1 } else { 1 }));
        assert forall|k: Seq<char>| #[trigger] tally(keys).contains_key(k) implies tally(keys)[k]
            <= keys.len() by {
            if k != keys.last() {
                assert(tally(p).contains_key(k));
            }
        }
    }
}

/// The value of an integral binary64 significand `m` divided by `2^k`, when
/// that is an integer.
pub open spec fn halved_exactly(m: nat, k: nat) -> Option<nat>
    decreases k,
{
    if k == 0 {
        Some(m)
    } else if m % 2 == 1 {
        None
    } else {
        halved_exactly(m / 2, (k - 1) as nat)
    }
}

/// The integer a finite binary64 encoding denotes, when it denotes one.
pub open spec fn float_int_value(b: u64) -> Option<int> {
    let ex = exponent_field(b);
    let fr = fraction_field(b);
    let neg = sign_bit(b);
    if ex == 0x7ff {
        None
    } else if ex == 0 {
        if fr == 0 {
            Some(0)
        } else {
            None
        }
    } else {
        let m = (fr + 0x10_0000_0000_0000) as nat;
        let v: Option<nat> = if ex >= 1075 {
            Some(m * pow2((ex - 1075) as nat))
        } else {
            halved_exactly(m, (1075 - ex) as nat)
        };
        match v {
            Some(x) => Some(if neg {
                -(x as int)
            } else {
                x as int
            }),
            None => None,
        }
    }
}

/// The group key of a float: `NaN`, `inf` and `-inf` as such; an integer
/// within `[-2^63, 2^63]` without a fractional part, converted to `i64`
/// (so `2^63` becomes `i64::MAX`); any other value as displayed.
pub open spec fn float_bucket(f: FloatView) -> Seq<char> {
    if is_nan(f.bits) {
        seq!['N', 'a', 'N']
    } else if f.bits == 0x7ff0_0000_0000_0000 {
        seq!['i', 'n', 'f']
    } else if f.bits == 0xfff0_0000_0000_0000 {
        seq!['-', 'i', 'n', 'f']
    } else {
        match float_int_value(f.bits) {
            Some(v) => if -0x8000_0000_0000_0000 <= v <= 0x8000_0000_0000_0000 {
                int_text(
                    if v == 0x8000_0000_0000_0000 {
                        i64::MAX as int
                    } else {
                        v
                    },
                )
            } else {
                f.text
            },
            None => f.text,
        }
    }
}

/// The group key of a field value: strings as they are, null as the empty
/// string, integers and booleans as displayed, floats by [`float_bucket`].
pub open spec fn group_key(v: ValueView) -> Seq<char> {
    match v {
        ValueView::Null => Seq::empty(),
        ValueView::Str(s) => s,
        ValueView::Int(i) => int_text(i as int),
        ValueView::Float(f) => float_bucket(f),
        ValueView::Bool(b) => if b {
            seq!['t', 'r', 'u', 'e']
        } else {
            seq!['f', 'a', 'l', 's', 'e']
        },
    }
}

/// The group key of a record: that of its field `field`, or the empty
/// string when it has none.
pub open spec fn record_group_key(fields: Map<Seq<char>, ValueView>, field: Seq<char>) -> Seq<char> {
    if fields.contains_key(field) {
        group_key(fields[field])
    } else {
        Seq::empty()
    }
}

/// The magnitude of the integer a finite, non-NaN encoding denotes, when it
/// denotes one not beyond `2^63`.
fn integral_magnitude(b: u64) -> (r: Option<u64>)
    requires
        exponent_field(b) != 0x7ff,
    ensures
        match float_int_value(b) {
            Some(v) => if -0x8000_0000_0000_0000 <= v <= 0x8000_0000_0000_0000 {
                r == Some((if v < 0 { -v } else { v }) as u64)
            } else {
                r is None
            },
            None => r is None,
        },
{
    let mag = b % 0x8000_0000_0000_0000;
    let ex = mag / 0x10_0000_0000_0000;
    let fr = b % 0x10_0000_0000_0000;
    assert(ex == exponent_field(b) && fr == fraction_field(b));
    if ex == 0 {
        if fr == 0 {
            return Some(0);
        }
        return None;
    }
    let m: u64 = fr + 0x10_0000_0000_0000;
    let ghost mn = m as nat;
    proof {
        vstd::arithmetic::power2::lemma2_to64();
    }
    if ex >= 1075 {
        let k = ex - 1075;
        if k > 11 {
            proof {
                if k > 12 {
                    vstd::arithmetic::power2::lemma_pow2_strictly_increases(12, k as nat);
                }
                let p = pow2(k as nat);
                assert(mn * p >= 0x10_0000_0000_0000 * 4096) by (nonlinear_arith)
                    requires
                        mn >= 0x10_0000_0000_0000,
                        p >= 4096,
                ;
            }
            return None;
        }
        let mut t: u64 = m;
        let mut j: u64 = 0;
        while j < k
            invariant
                j <= k <= 11,
                mn == m,
                0x10_0000_0000_0000 <= m < 0x20_0000_0000_0000,
                t == mn * pow2(j as nat),
                t < 0x20_0000_0000_0000 * pow2(j as nat),
                pow2(j as nat) <= 0x800,
            decreases k - j,
        {
            proof {
                vstd::arithmetic::power2::lemma_pow2_unfold((j + 1) as nat);
                vstd::arithmetic::power2::lemma2_to64();
                if j + 1 < 11 {
                    vstd::arithmetic::power2::lemma_pow2_strictly_increases((j + 1) as nat, 11);
                }
                let p = pow2(j as nat);
                assert(mn * (2 * p) == 2 * (mn * p)) by (nonlinear_arith);
                assert(0x20_0000_0000_0000 * (2 * p) == 2 * (0x20_0000_0000_0000 * p)) by (nonlinear_arith);
            }
            t = t * 2;
            j = j + 1;
        }
        if t <= 0x8000_0000_0000_0000 {
            return Some(t);
        }
        return None;
    }
    let k = 1075 - ex;
    let mut t: u64 = m;
    let mut j: u64 = k;
    while j > 0 && t % 2 == 0
        invariant
            j <= k,
            halved_exactly(t as nat, j as nat) == halved_exactly(mn, k as nat),
            mn == m,
            t <= m,
        decreases j,
    {
        t = t / 2;
        j = j - 1;
    }
    if j == 0 {
        Some(t)
    } else {
        None
    }
}

/// The group key of a float.
pub fn format_float_bucket(f: &crate::float::FloatRepr) -> (r: String)
    ensures
        r@ == float_bucket(f@),
{
    let b = f.bits;
    let mag = b % 0x8000_0000_0000_0000;
    let ex = mag / 0x10_0000_0000_0000;
    let fr = b % 0x10_0000_0000_0000;
    assert(ex == exponent_field(b) && fr == fraction_field(b));
    proof {
        reveal_strlit("NaN");
        reveal_strlit("inf");
        reveal_strlit("-inf");
    }
    if ex == 0x7ff && fr != 0 {
        return String::from_str("NaN");
    }
    if b == 0x7ff0_0000_0000_0000 {
        return String::from_str("inf");
    }
    if b == 0xfff0_0000_0000_0000 {
        return String::from_str("-inf");
    }
    if ex == 0x7ff {
        assert(fr == 0);
        assert(b == 0x7ff0_0000_0000_0000 || b == 0xfff0_0000_0000_0000);
    }
    match integral_magnitude(b) {
        Some(v) => {
            let neg = b >= 0x8000_0000_0000_0000;
            let n: i64 = if v == 0x8000_0000_0000_0000 {
                if neg {
                    i64::MIN
                } else {
                    i64::MAX
                }
            } else if neg {
                -(v as i64)
            } else {
                v as i64
            };
            i64_text(n)
        },
        None => f.text.clone(),
    }
}

/// The group key of a field value.
pub fn value_to_group_key(v: &Value) -> (r: String)
    ensures
        r@ == group_key(v@),
{
    match v {
        Value::Null => String::new(),
        Value::Str(s) => s.clone(),
        Value::Int(i) => i64_text(*i),
        Value::Float(f) => format_float_bucket(f),
        Value::Bool(b) => {
            proof {
                reveal_strlit("true");
                reveal_strlit("false");
            }
            if *b {
                String::from_str("true")
            } else {
                String::from_str("false")
            }
        },
    }
}

/// Counts `record` under its group key for `field`.
pub fn bump_group_count(tallies: &mut GroupCounts, record: &Record, field: &str)
    requires
        forall|k: Seq<char>| #[trigger] old(tallies).view().contains_key(k) ==> old(tallies).view()[k]
            < u64::MAX,
    ensures
        ({
            let k = record_group_key(record.view(), field@);
            final(tallies).view() == old(tallies).view().insert(
                k,
                if old(tallies).view().contains_key(k) {
                    old(tallies).view()[k] + 1
                } else {
                    1
                },
            )
        }),
{
    let key = match record.get(field) {
        None => String::new(),
        Some(v) => value_to_group_key(v),
    };
    tallies.bump(key);
}

/// Counts the records by the group key of `field`: a missing field and a
/// null both count under the empty key.
pub fn group_count(records: Vec<Record>, field: &str) -> (r: GroupCounts)
    ensures
        r.view() == tally(records@.map_values(|rec: Record| record_group_key(rec.view(), field@))),
{
    let ghost keys = records@.map_values(|rec: Record| record_group_key(rec.view(), field@));
    let mut out = GroupCounts::new();
    let mut i: usize = 0;
    assert(keys.take(0) =~= Seq::<Seq<char>>::empty());
    while i < records.len()
        invariant
            i <= records.len(),
            keys == records@.map_values(|rec: Record| record_group_key(rec.view(), field@)),
            out.view() == tally(keys.take(i as int)),
        decreases records.len() - i,
    {
        proof {
            lemma_tally_bound(keys.take(i as int));
            let t = keys.take(i + 1);
            assert(t.drop_last() =~= keys.take(i as int));
            assert(t.last() == keys[i as int]);
        }
        bump_group_count(&mut out, &records[i], field);
        i += 1;
    }
    assert(keys.take(records.len() as int) =~= keys);
    out
}

} // verus!
