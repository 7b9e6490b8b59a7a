//! Table rows: cells keyed by column name, kept in column order.

use vstd::prelude::*;
use crate::float::Cmp3;
use crate::keyed::{keys_strictly_sorted, has_key, key_index, entries_map, lemma_unique_index,
    lemma_update_keeps_sorted, lemma_update_map, lemma_insert_keeps_sorted, lemma_insert_map};
use crate::text::{compare_str, seq_less, lemma_seq_less_trichotomy};

verus! {

/// One table row: a cell per named column.
#[derive(Debug)]
pub struct Row {
    cells: Vec<(String, String)>,
}

impl Row {
    /// The cells in column-name order.
    pub closed spec fn entries(&self) -> Seq<(Seq<char>, Seq<char>)> {
        self.cells@.map_values(|kv: (String, String)| (kv.0@, kv.1@))
    }

    /// The cells as a map from column name to text.
    pub open spec fn view(&self) -> Map<Seq<char>, Seq<char>> {
        entries_map(self.entries())
    }

    #[verifier::type_invariant]
    spec fn sorted(&self) -> bool {
        keys_strictly_sorted(self.entries())
    }

    /// A row with no cells.
    pub fn new() -> (r: Row)
        ensures
            r.view() == Map::<Seq<char>, Seq<char>>::empty(),
    {
        let r = Row { cells: Vec::new() };
        assert(r.entries() =~= Seq::<(Seq<char>, Seq<char>)>::empty());
        assert(r.view() =~= Map::<Seq<char>, Seq<char>>::empty());
        r
    }

    /// The cell of column `name`, if present.
    pub fn get(&self, name: &str) -> (r: Option<&String>)
        ensures
            match r {
                Some(v) => self.view().contains_key(name@) && self.view()[name@] == v@,
                None => !self.view().contains_key(name@),
            },
    {
        proof {
            use_type_invariant(self);
        }
        let mut i: usize = 0;
        while i < self.cells.len()
            invariant
                i <= self.cells.len(),
                keys_strictly_sorted(self.entries()),
                forall|j: int| 0 <= j < i ==> self.entries()[j].0 != name@,
            decreases self.cells.len() - i,
        {
            let c = compare_str(self.cells[i].0.as_str(), name);
            assert(self.entries()[i as int].0 == self.cells@[i as int].0@);
            if c == Cmp3::Equal {
                proof {
                    lemma_unique_index(self.entries(), i as int);
                }
                return Some(&self.cells[i].1);
            }
            i += 1;
        }
        None
    }

    /// Sets column `name` to `value`, replacing any previous value.
    pub fn insert(&mut self, name: String, value: String)
        ensures
            final(self).view() == old(self).view().insert(name@, value@),
    {
        proof {
            use_type_invariant(&*self);
        }
        let ghost old_e = self.entries();
        let mut i: usize = 0;
        let mut found = false;
        while !found && i < self.cells.len()
            invariant
                i <= self.cells.len(),
                old_e == self.entries(),
                keys_strictly_sorted(old_e),
                forall|j: int| 0 <= j < i ==> seq_less(#[trigger] old_e[j].0, name@),
                found ==> i < old_e.len() && !seq_less(old_e[i as int].0, name@),
            decreases self.cells.len() - i + (if found { 0int } else { 1int }),
        {
            let c = compare_str(self.cells[i].0.as_str(), name.as_str());
            assert(old_e[i as int].0 == self.cells@[i as int].0@);
            if c != Cmp3::Less {
                found = true;
            } else {
                i += 1;
            }
        }
        let ghost nv = value@;
        let replace = i < self.cells.len() && compare_str(self.cells[i].0.as_str(), name.as_str())
            == Cmp3::Equal;
        let ghost nk = name@;
        if replace {
            let ghost new_e = old_e.update(i as int, (nk, nv));
            proof {
                lemma_update_keeps_sorted(old_e, i as int, nv);
                lemma_update_map(old_e, i as int, nv);
            }
            let mut fields: Vec<(String, String)> = Vec::new();
            std::mem::swap(&mut fields, &mut self.cells);
            fields.set(i, (name, value));
            assert(fields@.map_values(|kv: (String, String)| (kv.0@, kv.1@)) =~= new_e);
            self.cells = fields;
        } else {
            let ghost new_e = old_e.insert(i as int, (nk, nv));
            proof {
                if i < old_e.len() {
                    lemma_seq_less_trichotomy(old_e[i as int].0, nk);
                }
                lemma_insert_keeps_sorted(old_e, i as int, nk, nv);
                lemma_insert_map(old_e, i as int, nk, nv);
            }
            let mut fields: Vec<(String, String)> = Vec::new();
            std::mem::swap(&mut fields, &mut self.cells);
            fields.insert(i, (name, value));
            assert(fields@.map_values(|kv: (String, String)| (kv.0@, kv.1@)) =~= new_e);
            self.cells = fields;
        }
    }

    /// The column names, in increasing order.
    pub fn keys(&self) -> (r: Vec<&String>)
        ensures
            r.len() == self.entries().len(),
            forall|i: int| 0 <= i < r.len() ==> (#[trigger] r[i])@ == self.entries()[i].0,
            keys_strictly_sorted(self.entries()),
            forall|k: Seq<char>| #[trigger] self.view().contains_key(k) <==> exists|i: int|
                0 <= i < r.len() && r[i]@ == k,
    {
        proof {
            use_type_invariant(self);
        }
        let mut out: Vec<&String> = Vec::new();
        let mut i: usize = 0;
        while i < self.cells.len()
            invariant
                i <= self.cells.len(),
                out.len() == i,
                forall|j: int| 0 <= j < i ==> (#[trigger] out[j])@ == self.entries()[j].0,
            decreases self.cells.len() - i,
        {
            out.push(&self.cells[i].0);
            i += 1;
        }
        proof {
            assert forall|k: Seq<char>| #[trigger] self.view().contains_key(k) <==> exists|i: int|
                0 <= i < out.len() && out[i]@ == k by {
                if self.view().contains_key(k) {
                    let j = key_index(self.entries(), k);
                    assert(out[j]@ == k);
                }
                if exists|i: int| 0 <= i < out.len() && out[i]@ == k {
                    let j = choose|i: int| 0 <= i < out.len() && out[i]@ == k;
                    assert(self.entries()[j].0 == k);
                    assert(has_key(self.entries(), k));
                }
            }
        }
        out
    }
}

} // verus!
