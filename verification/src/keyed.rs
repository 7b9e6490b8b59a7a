//! Listings of named entries kept in strictly increasing key order, and the
//! maps they denote.

use vstd::prelude::*;
use crate::text::{seq_less, lemma_seq_less_irreflexive, lemma_seq_less_transitive};

verus! {

/// Keys strictly increasing: no key repeats and the order is the key order.
pub open spec fn keys_strictly_sorted<V>(e: Seq<(Seq<char>, V)>) -> bool {
    forall|i: int, j: int| 0 <= i < j < e.len() ==> seq_less(#[trigger] e[i].0, #[trigger] e[j].0)
}

pub open spec fn has_key<V>(e: Seq<(Seq<char>, V)>, k: Seq<char>) -> bool {
    exists|i: int| 0 <= i < e.len() && #[trigger] e[i].0 == k
}

/// An index at which `k` is listed (meaningful when `has_key(e, k)`).
pub open spec fn key_index<V>(e: Seq<(Seq<char>, V)>, k: Seq<char>) -> int {
    choose|i: int| 0 <= i < e.len() && #[trigger] e[i].0 == k
}

/// The map that a listing of fields denotes.
pub open spec fn entries_map<V>(e: Seq<(Seq<char>, V)>) -> Map<Seq<char>, V> {
    Map::new(|k: Seq<char>| has_key(e, k), |k: Seq<char>| e[key_index(e, k)].1)
}

pub proof fn lemma_unique_index<V>(e: Seq<(Seq<char>, V)>, i: int)
    requires
        keys_strictly_sorted(e),
        0 <= i < e.len(),
    ensures
        entries_map(e).contains_key(e[i].0),
        entries_map(e)[e[i].0] == e[i].1,
{
    let k = e[i].0;
    assert(has_key(e, k));
    let j = key_index(e, k);
    if j != i {
        if j < i {
            assert(seq_less(e[j].0, e[i].0));
        } else {
            assert(seq_less(e[i].0, e[j].0));
        }
        lemma_seq_less_irreflexive(k);
    }
    assert(entries_map(e)[k] == e[j].1);
}

pub proof fn lemma_update_keeps_sorted<V>(e: Seq<(Seq<char>, V)>, i: int, v: V)
    requires
        keys_strictly_sorted(e),
        0 <= i < e.len(),
    ensures
        keys_strictly_sorted(e.update(i, (e[i].0, v))),
{
    let n = e.update(i, (e[i].0, v));
    assert forall|a: int, b: int| 0 <= a < b < n.len() implies seq_less(#[trigger] n[a].0, #[trigger] n[b].0) by {
        assert(n[a].0 == e[a].0);
        assert(n[b].0 == e[b].0);
    }
}

pub proof fn lemma_update_map<V>(e: Seq<(Seq<char>, V)>, i: int, v: V)
    requires
        keys_strictly_sorted(e),
        0 <= i < e.len(),
    ensures
        entries_map(e.update(i, (e[i].0, v))) == entries_map(e).insert(e[i].0, v),
{
    let n = e.update(i, (e[i].0, v));
    lemma_update_keeps_sorted(e, i, v);
    let m1 = entries_map(n);
    let m2 = entries_map(e).insert(e[i].0, v);
    assert forall|k: Seq<char>| m1.contains_key(k) <==> m2.contains_key(k) by {
        if has_key(n, k) {
            let j = key_index(n, k);
            assert(e[j].0 == k);
        }
        if has_key(e, k) {
            let j = key_index(e, k);
            assert(n[j].0 == k);
        }
    }
    assert forall|k: Seq<char>| m1.contains_key(k) implies m1[k] == m2[k] by {
        let j = key_index(n, k);
        lemma_unique_index(n, j);
        if j == i {
        } else {
            assert(e[j] == n[j]);
            lemma_unique_index(e, j);
            if k == e[i].0 {
                if j < i {
                    assert(seq_less(e[j].0, e[i].0));
                } else {
                    assert(seq_less(e[i].0, e[j].0));
                }
                lemma_seq_less_irreflexive(k);
            }
        }
    }
    assert(m1 =~= m2);
}

pub proof fn lemma_insert_keeps_sorted<V>(e: Seq<(Seq<char>, V)>, i: int, k: Seq<char>, v: V)
    requires
        keys_strictly_sorted(e),
        0 <= i <= e.len(),
        forall|j: int| 0 <= j < i ==> seq_less(#[trigger] e[j].0, k),
        i < e.len() ==> seq_less(k, e[i].0),
    ensures
        keys_strictly_sorted(e.insert(i, (k, v))),
{
    let n = e.insert(i, (k, v));
    assert forall|a: int, b: int| 0 <= a < b < n.len() implies seq_less(#[trigger] n[a].0, #[trigger] n[b].0) by {
        if a < i && b < i {
            assert(n[a] == e[a] && n[b] == e[b]);
        } else if a < i && b == i {
            assert(n[a] == e[a]);
        } else if a < i && b > i {
            assert(n[a] == e[a] && n[b] == e[b - 1]);
            if b - 1 > i {
                assert(seq_less(e[i].0, e[b - 1].0));
                lemma_seq_less_transitive(k, e[i].0, e[b - 1].0);
            }
            lemma_seq_less_transitive(e[a].0, k, e[b - 1].0);
        } else if a == i {
            assert(n[b] == e[b - 1]);
            if b - 1 > i {
                assert(seq_less(e[i].0, e[b - 1].0));
                lemma_seq_less_transitive(k, e[i].0, e[b - 1].0);
            }
        } else {
            assert(n[a] == e[a - 1] && n[b] == e[b - 1]);
        }
    }
}

pub proof fn lemma_insert_map<V>(e: Seq<(Seq<char>, V)>, i: int, k: Seq<char>, v: V)
    requires
        keys_strictly_sorted(e),
        0 <= i <= e.len(),
        forall|j: int| 0 <= j < i ==> seq_less(#[trigger] e[j].0, k),
        i < e.len() ==> seq_less(k, e[i].0),
    ensures
        entries_map(e.insert(i, (k, v))) == entries_map(e).insert(k, v),
{
    let n = e.insert(i, (k, v));
    lemma_insert_keeps_sorted(e, i, k, v);
    let m1 = entries_map(n);
    let m2 = entries_map(e).insert(k, v);
    assert forall|key: Seq<char>| m1.contains_key(key) <==> m2.contains_key(key) by {
        if has_key(n, key) {
            let j = key_index(n, key);
            if j < i {
                assert(e[j].0 == key);
            } else if j > i {
                assert(e[j - 1].0 == key);
            }
        }
        if has_key(e, key) {
            let j = key_index(e, key);
            if j < i {
                assert(n[j].0 == key);
            } else {
                assert(n[j + 1].0 == key);
            }
        }
        assert(n[i].0 == k);
    }
    assert forall|key: Seq<char>| m1.contains_key(key) implies m1[key] == m2[key] by {
        let j = key_index(n, key);
        lemma_unique_index(n, j);
        if j == i {
        } else {
            let ej = if j < i { j } else { j - 1 };
            assert(e[ej] == n[j]);
            lemma_unique_index(e, ej);
            if key == k {
                assert(n[i].0 == k);
                if j < i {
                    assert(seq_less(n[j].0, n[i].0));
                } else {
                    assert(seq_less(n[i].0, n[j].0));
                }
                lemma_seq_less_irreflexive(k);
            }
        }
    }
    assert(m1 =~= m2);
}


/// Two strictly increasing lists of keys with the same members are the same
/// list.
pub proof fn lemma_sorted_keys_unique(a: Seq<Seq<char>>, b: Seq<Seq<char>>)
    requires
        forall|i: int, j: int| 0 <= i < j < a.len() ==> seq_less(#[trigger] a[i], #[trigger] a[j]),
        forall|i: int, j: int| 0 <= i < j < b.len() ==> seq_less(#[trigger] b[i], #[trigger] b[j]),
        forall|x: Seq<char>| a.contains(x) <==> b.contains(x),
    ensures
        a == b,
    decreases a.len(),
{
    if a.len() == 0 {
        if b.len() > 0 {
            assert(b.contains(b[0]));
        }
        assert(a =~= b);
    } else {
        assert(a.contains(a[0]));
        let j = choose|j: int| 0 <= j < b.len() && b[j] == a[0];
        assert(b.contains(b[0]));
        let i = choose|i: int| 0 <= i < a.len() && a[i] == b[0];
        if i > 0 {
            lemma_seq_less_irreflexive(a[0]);
            if j > 0 {
                lemma_seq_less_transitive(a[0], a[i], a[0]);
            }
        }
        assert(a[0] == b[0]);
        let a1 = a.drop_first();
        let b1 = b.drop_first();
        assert forall|x: Seq<char>| a1.contains(x) implies b1.contains(x) by {
            let k = choose|k: int| 0 <= k < a1.len() && a1[k] == x;
            assert(a[k + 1] == x);
            lemma_seq_less_irreflexive(x);
            assert(b.contains(x));
            let m = choose|m: int| 0 <= m < b.len() && b[m] == x;
            assert(m != 0);
            assert(b1[m - 1] == x);
        }
        assert forall|x: Seq<char>| b1.contains(x) implies a1.contains(x) by {
            let k = choose|k: int| 0 <= k < b1.len() && b1[k] == x;
            assert(b[k + 1] == x);
            lemma_seq_less_irreflexive(x);
            assert(a.contains(x));
            let m = choose|m: int| 0 <= m < a.len() && a[m] == x;
            assert(m != 0);
            assert(a1[m - 1] == x);
        }
        lemma_sorted_keys_unique(a1, b1);
        assert forall|k: int| 0 < k < a.len() implies a[k] == b[k] by {
            assert(a[k] == a1[k - 1]);
            assert(b[k] == b1[k - 1]);
        }
        assert(a =~= b);
    }
}

/// Two strictly sorted listings that denote the same map are the same
/// listing.
pub proof fn lemma_sorted_entries_unique<V>(a: Seq<(Seq<char>, V)>, b: Seq<(Seq<char>, V)>)
    requires
        keys_strictly_sorted(a),
        keys_strictly_sorted(b),
        entries_map(a) == entries_map(b),
    ensures
        a == b,
{
    let ka = a.map_values(|p: (Seq<char>, V)| p.0);
    let kb = b.map_values(|p: (Seq<char>, V)| p.0);
    assert forall|x: Seq<char>| ka.contains(x) implies kb.contains(x) by {
        let i = choose|i: int| 0 <= i < ka.len() && ka[i] == x;
        assert(has_key(a, a[i].0));
        assert(entries_map(a).contains_key(x));
        assert(has_key(b, x));
        let j = choose|j: int| 0 <= j < b.len() && #[trigger] b[j].0 == x;
        assert(kb[j] == x);
    }
    assert forall|x: Seq<char>| kb.contains(x) implies ka.contains(x) by {
        let i = choose|i: int| 0 <= i < kb.len() && kb[i] == x;
        assert(has_key(b, b[i].0));
        assert(entries_map(b).contains_key(x));
        assert(has_key(a, x));
        let j = choose|j: int| 0 <= j < a.len() && #[trigger] a[j].0 == x;
        assert(ka[j] == x);
    }
    assert forall|i: int, j: int| 0 <= i < j < ka.len() implies seq_less(#[trigger] ka[i], #[trigger] ka[j]) by {
        assert(seq_less(a[i].0, a[j].0));
    }
    assert forall|i: int, j: int| 0 <= i < j < kb.len() implies seq_less(#[trigger] kb[i], #[trigger] kb[j]) by {
        assert(seq_less(b[i].0, b[j].0));
    }
    lemma_sorted_keys_unique(ka, kb);
    assert(a.len() == ka.len() && b.len() == kb.len());
    assert forall|i: int| 0 <= i < a.len() implies a[i] == b[i] by {
        assert(ka[i] == a[i].0);
        assert(kb[i] == b[i].0);
        lemma_unique_index(a, i);
        lemma_unique_index(b, i);
        assert(a[i].1 == b[i].1);
    }
    assert(a =~= b);
}

/// The strictly sorted listing of a map (meaningful for a finite map).
pub open spec fn sorted_listing<V>(m: Map<Seq<char>, V>) -> Seq<(Seq<char>, V)> {
    choose|e: Seq<(Seq<char>, V)>| keys_strictly_sorted(e) && entries_map(e) == m
}

/// A strictly sorted listing is the sorted listing of the map it denotes.
pub proof fn lemma_sorted_listing<V>(e: Seq<(Seq<char>, V)>)
    requires
        keys_strictly_sorted(e),
    ensures
        sorted_listing(entries_map(e)) == e,
{
    let m = entries_map(e);
    assert(keys_strictly_sorted(e) && entries_map(e) == m);
    let c = sorted_listing(m);
    lemma_sorted_entries_unique(c, e);
}

} // verus!
