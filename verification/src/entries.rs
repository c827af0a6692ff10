//! Entries of an object: keys with their values, in order.

use vstd::prelude::*;

verus! {

pub open spec fn distinct_keys<V>(es: Seq<(Seq<char>, V)>) -> bool {
    forall|i: int, j: int| 0 <= i < j < es.len() ==> (#[trigger] es[i]).0 != (#[trigger] es[j]).0
}

pub open spec fn has_key<V>(es: Seq<(Seq<char>, V)>, k: Seq<char>) -> bool {
    exists|i: int| 0 <= i < es.len() && (#[trigger] es[i]).0 == k
}

/// Whether `i` is the first place where key `k` stands.
pub open spec fn first_at<V>(es: Seq<(Seq<char>, V)>, k: Seq<char>, i: int) -> bool {
    &&& 0 <= i < es.len()
    &&& es[i].0 == k
    &&& forall|j: int| 0 <= j < i ==> (#[trigger] es[j]).0 != k
}

/// The first place of key `k`, where there is one.
pub open spec fn key_index<V>(es: Seq<(Seq<char>, V)>, k: Seq<char>) -> int {
    choose|i: int| first_at(es, k, i)
}

/// The value under `k`.
pub open spec fn lookup<V>(es: Seq<(Seq<char>, V)>, k: Seq<char>) -> Option<V> {
    if has_key(es, k) {
        Some(es[key_index(es, k)].1)
    } else {
        None
    }
}

/// `es` with `v` under `k`: in the place of the value that was there, or
/// as a new last entry.
pub open spec fn put<V>(es: Seq<(Seq<char>, V)>, k: Seq<char>, v: V) -> Seq<(Seq<char>, V)> {
    if has_key(es, k) {
        es.update(key_index(es, k), (k, v))
    } else {
        es.push((k, v))
    }
}

/// `es` without the entry under `k`.
pub open spec fn without<V>(es: Seq<(Seq<char>, V)>, k: Seq<char>) -> Seq<(Seq<char>, V)> {
    if has_key(es, k) {
        es.remove(key_index(es, k))
    } else {
        es
    }
}

/// The first place of a key is the one place that `first_at` holds of.
pub proof fn lemma_key_index<V>(es: Seq<(Seq<char>, V)>, k: Seq<char>, i: int)
    requires
        first_at(es, k, i),
    ensures
        has_key(es, k),
        key_index(es, k) == i,
{
    let c = key_index(es, k);
    assert(first_at(es, k, c));
    if c < i {
        assert(es[c].0 != k);
    }
    if i < c {
        assert(es[i].0 != k);
    }
}

/// A key that stands somewhere has a first place.
pub proof fn lemma_has_first<V>(es: Seq<(Seq<char>, V)>, k: Seq<char>)
    requires
        has_key(es, k),
    ensures
        first_at(es, k, key_index(es, k)),
{
    let w = choose|i: int| 0 <= i < es.len() && (#[trigger] es[i]).0 == k;
    lemma_first_up_to(es, k, w);
}

proof fn lemma_first_up_to<V>(es: Seq<(Seq<char>, V)>, k: Seq<char>, w: int)
    requires
        0 <= w < es.len(),
        es[w].0 == k,
    ensures
        exists|i: int| first_at(es, k, i),
    decreases w,
{
    if exists|j: int| 0 <= j < w && (#[trigger] es[j]).0 == k {
        let j = choose|j: int| 0 <= j < w && (#[trigger] es[j]).0 == k;
        lemma_first_up_to(es, k, j);
    } else {
        assert(first_at(es, k, w));
    }
}

/// After a value is put under a key, it is the value under that key.
pub proof fn lemma_put_lookup<V>(es: Seq<(Seq<char>, V)>, k: Seq<char>, v: V)
    ensures
        lookup(put(es, k, v), k) == Some(v),
{
    let after = put(es, k, v);
    if has_key(es, k) {
        lemma_has_first(es, k);
        let i = key_index(es, k);
        assert(first_at(after, k, i)) by {
            assert forall|j: int| 0 <= j < i implies (#[trigger] after[j]).0 != k by {
                assert(es[j].0 != k);
            }
        }
        lemma_key_index(after, k, i);
    } else {
        let i = es.len() as int;
        assert(first_at(after, k, i)) by {
            assert forall|j: int| 0 <= j < i implies (#[trigger] after[j]).0 != k by {
                assert(after[j] == es[j]);
            }
        }
        lemma_key_index(after, k, i);
    }
}

/// Putting a value under one key leaves the values under all other keys.
pub proof fn lemma_put_other<V>(es: Seq<(Seq<char>, V)>, k: Seq<char>, v: V, other: Seq<char>)
    requires
        other != k,
    ensures
        lookup(put(es, k, v), other) == lookup(es, other),
{
    let after = put(es, k, v);
    if has_key(es, k) {
        lemma_has_first(es, k);
    }
    if has_key(es, other) {
        lemma_has_first(es, other);
        let i = key_index(es, other);
        assert(after[i] == es[i]);
        assert(first_at(after, other, i)) by {
            assert forall|j: int| 0 <= j < i implies (#[trigger] after[j]).0 != other by {
                assert(es[j].0 != other);
            }
        }
        lemma_key_index(after, other, i);
    } else {
        if has_key(after, other) {
            let j = choose|j: int| 0 <= j < after.len() && (#[trigger] after[j]).0 == other;
            if j < es.len() {
                assert(es[j].0 == other);
            }
        }
    }
}

/// The last write wins: putting a second value under a key leaves what
/// putting only the second would have left, with no entry more than after
/// the first.
pub proof fn last_write_wins<V>(es: Seq<(Seq<char>, V)>, k: Seq<char>, first: V, second: V)
    ensures
        lookup(put(put(es, k, first), k, second), k) == Some(second),
        put(put(es, k, first), k, second) == put(es, k, second),
        put(put(es, k, first), k, second).len() == put(es, k, first).len(),
{
    let once = put(es, k, first);
    lemma_put_lookup(once, k, second);
    lemma_put_lookup(es, k, first);
    if has_key(es, k) {
        lemma_has_first(es, k);
        let i = key_index(es, k);
        assert(first_at(once, k, i)) by {
            assert forall|j: int| 0 <= j < i implies (#[trigger] once[j]).0 != k by {
                assert(es[j].0 != k);
            }
        }
        lemma_key_index(once, k, i);
        assert(put(once, k, second) =~= put(es, k, second));
    } else {
        let i = es.len() as int;
        assert(first_at(once, k, i)) by {
            assert forall|j: int| 0 <= j < i implies (#[trigger] once[j]).0 != k by {
                assert(once[j] == es[j]);
            }
        }
        lemma_key_index(once, k, i);
        assert(put(once, k, second) =~= put(es, k, second));
    }
}

/// Putting a value keeps the keys distinct.
pub proof fn lemma_put_distinct<V>(es: Seq<(Seq<char>, V)>, k: Seq<char>, v: V)
    requires
        distinct_keys(es),
    ensures
        distinct_keys(put(es, k, v)),
{
    let after = put(es, k, v);
    if has_key(es, k) {
        lemma_has_first(es, k);
        let c = key_index(es, k);
        assert forall|i: int, j: int| 0 <= i < j < after.len() implies (#[trigger] after[i]).0 != (
        #[trigger] after[j]).0 by {
            assert(after[i].0 == es[i].0);
            assert(after[j].0 == es[j].0);
        }
    } else {
        assert forall|i: int, j: int| 0 <= i < j < after.len() implies (#[trigger] after[i]).0 != (
        #[trigger] after[j]).0 by {
            if j < es.len() {
                assert(after[i] == es[i]);
                assert(after[j] == es[j]);
            } else {
                assert(after[i] == es[i]);
            }
        }
    }
}

/// Among distinct keys, a deleted key is gone, and the others stay.
pub proof fn lemma_without<V>(es: Seq<(Seq<char>, V)>, k: Seq<char>)
    requires
        distinct_keys(es),
    ensures
        !has_key(without(es, k), k),
        distinct_keys(without(es, k)),
        without(es, k).len() == (if has_key(es, k) {
            es.len() - 1
        } else {
            es.len() as int
        }),
{
    let after = without(es, k);
    if has_key(es, k) {
        lemma_has_first(es, k);
        let c = key_index(es, k);
        assert forall|i: int| 0 <= i < after.len() implies (#[trigger] after[i]).0 != k by {
            if i < c {
                assert(after[i] == es[i]);
            } else {
                assert(after[i] == es[i + 1]);
                assert(es[c].0 != es[i + 1].0);
            }
        }
        assert forall|i: int, j: int| 0 <= i < j < after.len() implies (#[trigger] after[i]).0 != (
        #[trigger] after[j]).0 by {
            let a = if i < c {
                i
            } else {
                i + 1
            };
            let b = if j < c {
                j
            } else {
                j + 1
            };
            assert(after[i] == es[a]);
            assert(after[j] == es[b]);
            assert(es[a].0 != es[b].0);
        }
    }
}

} // verus!
