//! Insertion-ordered maps from text keys, as `indexmap::IndexMap` keeps them: the entries in
//! the order in which their keys first came, each key once.
use vstd::prelude::*;

verus! {

#[verifier::external_type_specification]
#[verifier::external_body]
#[verifier::reject_recursive_types(K)]
#[verifier::reject_recursive_types(V)]
#[verifier::reject_recursive_types(S)]
pub struct ExIndexMap<K, V, S>(indexmap::IndexMap<K, V, S>);

/// The position of the entry with key `k`, the first one where several have it.
pub open spec fn entry_index<V>(c: Seq<(Seq<char>, V)>, k: Seq<char>) -> Option<int>
    decreases c.len(),
{
    if c.len() == 0 {
        None
    } else if c[0].0 == k {
        Some(0)
    } else {
        match entry_index(c.drop_first(), k) {
            Some(i) => Some(i + 1),
            None => None,
        }
    }
}

/// The entries after inserting `v` under `k`: an entry with that key keeps its place and takes
/// the new value; otherwise the entry goes last.
pub open spec fn entry_insert<V>(c: Seq<(Seq<char>, V)>, k: Seq<char>, v: V) -> Seq<(Seq<char>, V)> {
    match entry_index(c, k) {
        Some(i) => c.update(i, (k, v)),
        None => c.push((k, v)),
    }
}

/// The entries after removing the one with key `k`, the others keeping their order.
pub open spec fn entry_remove<V>(c: Seq<(Seq<char>, V)>, k: Seq<char>) -> Seq<(Seq<char>, V)> {
    match entry_index(c, k) {
        Some(i) => c.remove(i),
        None => c,
    }
}

/// The value under `k`, if any.
pub open spec fn entry_get<V>(c: Seq<(Seq<char>, V)>, k: Seq<char>) -> Option<V> {
    match entry_index(c, k) {
        Some(i) => Some(c[i].1),
        None => None,
    }
}

/// Whether `k` is the key of an entry.
pub open spec fn has_key<V>(c: Seq<(Seq<char>, V)>, k: Seq<char>) -> bool {
    exists|i: int| 0 <= i < c.len() && (#[trigger] c[i]).0 == k
}

/// No two entries share a key.
pub open spec fn keys_unique<V>(c: Seq<(Seq<char>, V)>) -> bool {
    forall|i: int, j: int| 0 <= i < j < c.len() ==> (#[trigger] c[i]).0 != (#[trigger] c[j]).0
}

/// The entries of a map built from `pairs` in order: a later pair with a key already seen
/// replaces the value in place.
pub open spec fn entries_from_pairs<V>(pairs: Seq<(Seq<char>, V)>) -> Seq<(Seq<char>, V)>
    decreases pairs.len(),
{
    if pairs.len() == 0 {
        Seq::empty()
    } else {
        entry_insert(entries_from_pairs(pairs.drop_last()), pairs.last().0, pairs.last().1)
    }
}

/// The first entry with key `k` is where `entry_index` says, and none has it where it says
/// there is none.
pub proof fn lemma_entry_index<V>(c: Seq<(Seq<char>, V)>, k: Seq<char>)
    ensures
        match entry_index(c, k) {
            Some(i) => 0 <= i < c.len() && c[i].0 == k && forall|j: int| 0 <= j < i ==> (#[trigger] c[j]).0 != k,
            None => forall|j: int| 0 <= j < c.len() ==> (#[trigger] c[j]).0 != k,
        },
        entry_index(c, k) is Some <==> has_key(c, k),
    decreases c.len(),
{
    if c.len() > 0 {
        lemma_entry_index(c.drop_first(), k);
        if c[0].0 != k {
            match entry_index(c.drop_first(), k) {
                Some(i) => {
                    assert forall|j: int| 0 <= j < i + 1 implies (#[trigger] c[j]).0 != k by {
                        if j > 0 {
                            assert(c[j] == c.drop_first()[j - 1]);
                        }
                    }
                    assert(c[i + 1] == c.drop_first()[i]);
                },
                None => {
                    assert forall|j: int| 0 <= j < c.len() implies (#[trigger] c[j]).0 != k by {
                        if j > 0 {
                            assert(c[j] == c.drop_first()[j - 1]);
                        }
                    }
                },
            }
        }
        if has_key(c, k) {
            let j = choose|j: int| 0 <= j < c.len() && (#[trigger] c[j]).0 == k;
            if entry_index(c, k) is None {
                assert(c[j].0 != k);
            }
        }
        if let Some(i) = entry_index(c, k) {
            assert(c[i].0 == k);
        }
    }
}

/// Reading after an insert: the inserted value under its key, the old value under any other.
pub proof fn lemma_insert_get<V>(c: Seq<(Seq<char>, V)>, k1: Seq<char>, v: V, k: Seq<char>)
    ensures
        entry_get(entry_insert(c, k1, v), k) == if k == k1 {
            Some(v)
        } else {
            entry_get(c, k)
        },
{
    lemma_entry_index(c, k1);
    lemma_entry_index(c, k);
    let d = entry_insert(c, k1, v);
    lemma_entry_index(d, k);
    match entry_index(d, k) {
        Some(i) => {
            if k != k1 {
                match entry_index(c, k) {
                    Some(j) => {
                        assert(d[j] == c[j]);
                        assert(c[i] == d[i] || i == c.len());
                    },
                    None => {
                        if i < c.len() {
                            assert(d[i] == c[i]);
                        }
                    },
                }
            } else {
                match entry_index(c, k1) {
                    Some(j) => {
                        assert(d[j].0 == k);
                    },
                    None => {
                        assert(d[c.len() as int].0 == k);
                        if i < c.len() {
                            assert(d[i] == c[i]);
                        }
                    },
                }
            }
        },
        None => {
            match entry_index(c, k1) {
                Some(j) => {
                    assert(d[j].0 == k1);
                },
                None => {
                    assert(d[c.len() as int].0 == k1);
                },
            }
            if k != k1 {
                if let Some(j) = entry_index(c, k) {
                    assert(d[j] == c[j]);
                }
            }
        },
    }
}

/// Reading after a removal: nothing under the removed key, the old value under any other.
pub proof fn lemma_remove_get<V>(c: Seq<(Seq<char>, V)>, k1: Seq<char>, k: Seq<char>)
    ensures
        k != k1 ==> entry_get(entry_remove(c, k1), k) == entry_get(c, k),
        k == k1 && keys_unique(c) ==> entry_get(entry_remove(c, k1), k) is None,
{
    lemma_entry_index(c, k1);
    lemma_entry_index(c, k);
    let d = entry_remove(c, k1);
    lemma_entry_index(d, k);
    match entry_index(c, k1) {
        None => {},
        Some(i1) => {
            if k != k1 {
                match entry_index(c, k) {
                    Some(j) => {
                        if j < i1 {
                            assert(d[j] == c[j]);
                        } else {
                            assert(d[j - 1] == c[j]);
                        }
                        if let Some(x) = entry_index(d, k) {
                            if x < i1 {
                                assert(d[x] == c[x]);
                            } else {
                                assert(d[x] == c[x + 1]);
                            }
                        }
                    },
                    None => {
                        if let Some(x) = entry_index(d, k) {
                            if x < i1 {
                                assert(d[x] == c[x]);
                            } else {
                                assert(d[x] == c[x + 1]);
                            }
                        }
                    },
                }
            } else if keys_unique(c) {
                if let Some(x) = entry_index(d, k) {
                    if x < i1 {
                        assert(d[x] == c[x]);
                    } else {
                        assert(d[x] == c[x + 1]);
                    }
                }
            }
        },
    }
}

/// Reading a map built from pairs: the value of the last pair with that key.
pub proof fn lemma_get_from_pairs<V>(pairs: Seq<(Seq<char>, V)>, k: Seq<char>)
    ensures
        entry_get(entries_from_pairs(pairs), k) == last_value(pairs, k),
    decreases pairs.len(),
{
    if pairs.len() > 0 {
        lemma_get_from_pairs(pairs.drop_last(), k);
        lemma_insert_get(entries_from_pairs(pairs.drop_last()), pairs.last().0, pairs.last().1, k);
    }
}

/// The value of the last pair with key `k`, if any.
pub open spec fn last_value<V>(pairs: Seq<(Seq<char>, V)>, k: Seq<char>) -> Option<V>
    decreases pairs.len(),
{
    if pairs.len() == 0 {
        None
    } else if pairs.last().0 == k {
        Some(pairs.last().1)
    } else {
        last_value(pairs.drop_last(), k)
    }
}

} // verus!
