//! Flat association lists seen as maps.
//!
//! The engine's stores are vectors of rows with a key field. Contracts speak
//! of them as `Map`s; the functions here build that map from the row sequence
//! and relate row-level edits (push, update at an index) to map-level
//! insertions, provided the keys are pairwise distinct.

use vstd::prelude::*;

verus! {

/// The map described by a row sequence, later rows winning on a repeated key.
pub open spec fn assoc_map<E, K, V>(
    rows: Seq<E>,
    key: spec_fn(E) -> K,
    val: spec_fn(E) -> V,
) -> Map<K, V>
    decreases rows.len(),
{
    if rows.len() == 0 {
        Map::empty()
    } else {
        assoc_map(rows.drop_last(), key, val).insert(key(rows.last()), val(rows.last()))
    }
}

/// No two rows share a key.
pub open spec fn unique_keys<E, K>(rows: Seq<E>, key: spec_fn(E) -> K) -> bool {
    forall|i: int, j: int|
        0 <= i < j < rows.len() ==> key(#[trigger] rows[i]) != key(#[trigger] rows[j])
}

/// A key is in the map exactly when some row carries it.
pub proof fn lemma_assoc_map_contains<E, K, V>(
    rows: Seq<E>,
    key: spec_fn(E) -> K,
    val: spec_fn(E) -> V,
    k: K,
)
    ensures
        assoc_map(rows, key, val).contains_key(k) <==> exists|i: int|
            0 <= i < rows.len() && key(#[trigger] rows[i]) == k,
    decreases rows.len(),
{
    if rows.len() > 0 {
        lemma_assoc_map_contains(rows.drop_last(), key, val, k);
        if key(rows.last()) == k {
            assert(key(rows[rows.len() - 1]) == k);
        } else if assoc_map(rows, key, val).contains_key(k) {
            let i = choose|i: int| 0 <= i < rows.len() - 1 && key(#[trigger] rows.drop_last()[i])
                == k;
            assert(key(rows[i]) == k);
        } else {
            assert forall|i: int| 0 <= i < rows.len() implies key(#[trigger] rows[i]) != k by {
                if i < rows.len() - 1 {
                    assert(rows.drop_last()[i] == rows[i]);
                }
            }
        }
    }
}

/// Under distinct keys, the map sends each row's key to that row's value.
pub proof fn lemma_assoc_map_index<E, K, V>(
    rows: Seq<E>,
    key: spec_fn(E) -> K,
    val: spec_fn(E) -> V,
    i: int,
)
    requires
        unique_keys(rows, key),
        0 <= i < rows.len(),
    ensures
        assoc_map(rows, key, val).contains_key(key(rows[i])),
        assoc_map(rows, key, val)[key(rows[i])] == val(rows[i]),
    decreases rows.len(),
{
    if i == rows.len() - 1 {
    } else {
        assert(unique_keys(rows.drop_last(), key)) by {
            assert forall|m: int, n: int| 0 <= m < n < rows.drop_last().len() implies key(
                #[trigger] rows.drop_last()[m],
            ) != key(#[trigger] rows.drop_last()[n]) by {
                assert(rows.drop_last()[m] == rows[m]);
                assert(rows.drop_last()[n] == rows[n]);
            }
        }
        assert(rows.drop_last()[i] == rows[i]);
        lemma_assoc_map_index(rows.drop_last(), key, val, i);
        assert(key(rows[rows.len() - 1]) != key(rows[i]));
    }
}

/// Appending a row inserts its key/value pair.
pub proof fn lemma_assoc_map_push<E, K, V>(
    rows: Seq<E>,
    key: spec_fn(E) -> K,
    val: spec_fn(E) -> V,
    e: E,
)
    ensures
        assoc_map(rows.push(e), key, val) == assoc_map(rows, key, val).insert(key(e), val(e)),
{
    assert(rows.push(e).drop_last() =~= rows);
    assert(rows.push(e).last() == e);
}

/// Appending a row whose key is absent keeps keys pairwise distinct.
pub proof fn lemma_unique_push<E, K, V>(
    rows: Seq<E>,
    key: spec_fn(E) -> K,
    val: spec_fn(E) -> V,
    e: E,
)
    requires
        unique_keys(rows, key),
        !assoc_map(rows, key, val).contains_key(key(e)),
    ensures
        unique_keys(rows.push(e), key),
{
    lemma_assoc_map_contains(rows, key, val, key(e));
    assert forall|i: int, j: int| 0 <= i < j < rows.push(e).len() implies key(
        #[trigger] rows.push(e)[i],
    ) != key(#[trigger] rows.push(e)[j]) by {
        if j < rows.len() {
            assert(rows.push(e)[i] == rows[i]);
            assert(rows.push(e)[j] == rows[j]);
        } else {
            assert(rows.push(e)[j] == e);
            assert(rows.push(e)[i] == rows[i]);
        }
    }
}

/// Replacing a row by one with the same key keeps keys pairwise distinct.
pub proof fn lemma_unique_update<E, K>(rows: Seq<E>, key: spec_fn(E) -> K, i: int, e: E)
    requires
        unique_keys(rows, key),
        0 <= i < rows.len(),
        key(e) == key(rows[i]),
    ensures
        unique_keys(rows.update(i, e), key),
{
    assert forall|m: int, n: int| 0 <= m < n < rows.update(i, e).len() implies key(
        #[trigger] rows.update(i, e)[m],
    ) != key(#[trigger] rows.update(i, e)[n]) by {
        if m != i {
            assert(rows.update(i, e)[m] == rows[m]);
        }
        if n != i {
            assert(rows.update(i, e)[n] == rows[n]);
        }
    }
}

/// Row sequences that agree key by key and value by value describe the same
/// map, and distinctness carries over.
pub proof fn lemma_assoc_map_congruence<E, K, V>(
    rows1: Seq<E>,
    rows2: Seq<E>,
    key: spec_fn(E) -> K,
    val: spec_fn(E) -> V,
)
    requires
        rows1.len() == rows2.len(),
        forall|j: int|
            0 <= j < rows1.len() ==> key(#[trigger] rows1[j]) == key(#[trigger] rows2[j]) && val(
                rows1[j],
            ) == val(rows2[j]),
    ensures
        assoc_map(rows1, key, val) == assoc_map(rows2, key, val),
        unique_keys(rows1, key) == unique_keys(rows2, key),
    decreases rows1.len(),
{
    if rows1.len() > 0 {
        assert forall|j: int| 0 <= j < rows1.drop_last().len() implies key(
            #[trigger] rows1.drop_last()[j],
        ) == key(#[trigger] rows2.drop_last()[j]) && val(rows1.drop_last()[j]) == val(
            rows2.drop_last()[j],
        ) by {
            assert(rows1.drop_last()[j] == rows1[j]);
            assert(rows2.drop_last()[j] == rows2[j]);
        }
        lemma_assoc_map_congruence(rows1.drop_last(), rows2.drop_last(), key, val);
        assert(key(rows1[rows1.len() - 1]) == key(rows2[rows2.len() - 1]));
        assert(val(rows1[rows1.len() - 1]) == val(rows2[rows2.len() - 1]));
    }
    assert forall|m: int, n: int| 0 <= m < n < rows1.len() implies (key(#[trigger] rows1[m])
        != key(#[trigger] rows1[n])) == (key(rows2[m]) != key(rows2[n])) by {}
    if unique_keys(rows1, key) {
        assert forall|m: int, n: int| 0 <= m < n < rows2.len() implies key(#[trigger] rows2[m])
            != key(#[trigger] rows2[n]) by {
            assert(key(rows1[m]) != key(rows1[n]));
        }
    }
    if unique_keys(rows2, key) {
        assert forall|m: int, n: int| 0 <= m < n < rows1.len() implies key(#[trigger] rows1[m])
            != key(#[trigger] rows1[n]) by {
            assert(key(rows2[m]) != key(rows2[n]));
        }
    }
}

/// Under distinct keys, deleting the row at `i` removes exactly its key.
pub proof fn lemma_assoc_map_remove<E, K, V>(
    rows: Seq<E>,
    key: spec_fn(E) -> K,
    val: spec_fn(E) -> V,
    i: int,
)
    requires
        unique_keys(rows, key),
        0 <= i < rows.len(),
    ensures
        assoc_map(rows.remove(i), key, val) == assoc_map(rows, key, val).remove(key(rows[i])),
        unique_keys(rows.remove(i), key),
    decreases rows.len(),
{
    assert forall|m: int, n: int| 0 <= m < n < rows.remove(i).len() implies key(
        #[trigger] rows.remove(i)[m],
    ) != key(#[trigger] rows.remove(i)[n]) by {
        if m < i {
            assert(rows.remove(i)[m] == rows[m]);
        } else {
            assert(rows.remove(i)[m] == rows[m + 1]);
        }
        if n < i {
            assert(rows.remove(i)[n] == rows[n]);
        } else {
            assert(rows.remove(i)[n] == rows[n + 1]);
        }
    }
    if i == rows.len() - 1 {
        assert(rows.remove(i) =~= rows.drop_last());
        lemma_assoc_map_contains(rows.drop_last(), key, val, key(rows[i]));
        if assoc_map(rows.drop_last(), key, val).contains_key(key(rows[i])) {
            let j = choose|j: int|
                0 <= j < rows.drop_last().len() && key(#[trigger] rows.drop_last()[j]) == key(
                    rows[i],
                );
            assert(rows.drop_last()[j] == rows[j]);
            assert(false);
        }
        assert(assoc_map(rows.remove(i), key, val) =~= assoc_map(rows, key, val).remove(
            key(rows[i]),
        ));
    } else {
        assert(unique_keys(rows.drop_last(), key)) by {
            assert forall|m: int, n: int| 0 <= m < n < rows.drop_last().len() implies key(
                #[trigger] rows.drop_last()[m],
            ) != key(#[trigger] rows.drop_last()[n]) by {
                assert(rows.drop_last()[m] == rows[m]);
                assert(rows.drop_last()[n] == rows[n]);
            }
        }
        assert(rows.drop_last()[i] == rows[i]);
        lemma_assoc_map_remove(rows.drop_last(), key, val, i);
        assert(rows.remove(i).drop_last() =~= rows.drop_last().remove(i));
        assert(rows.remove(i).last() == rows.last());
        assert(key(rows[rows.len() - 1]) != key(rows[i]));
        assert(assoc_map(rows.remove(i), key, val) == assoc_map(rows.drop_last(), key, val)
            .remove(key(rows[i])).insert(key(rows.last()), val(rows.last())));
        assert(assoc_map(rows.drop_last(), key, val).remove(key(rows[i])).insert(
            key(rows.last()),
            val(rows.last()),
        ) =~= assoc_map(rows.drop_last(), key, val).insert(
            key(rows.last()),
            val(rows.last()),
        ).remove(key(rows[i])));
    }
}

/// Under distinct keys, replacing the row at `i` by one with the same key
/// re-inserts that key with the new value.
pub proof fn lemma_assoc_map_update<E, K, V>(
    rows: Seq<E>,
    key: spec_fn(E) -> K,
    val: spec_fn(E) -> V,
    i: int,
    e: E,
)
    requires
        unique_keys(rows, key),
        0 <= i < rows.len(),
        key(e) == key(rows[i]),
    ensures
        assoc_map(rows.update(i, e), key, val) == assoc_map(rows, key, val).insert(
            key(e),
            val(e),
        ),
    decreases rows.len(),
{
    let pre = assoc_map(rows, key, val);
    let post = assoc_map(rows.update(i, e), key, val);
    if i == rows.len() - 1 {
        assert(rows.update(i, e).drop_last() =~= rows.drop_last());
        assert(rows.update(i, e).last() == e);
        assert(post =~= pre.insert(key(e), val(e))) by {
            lemma_assoc_map_contains(rows.drop_last(), key, val, key(e));
            if assoc_map(rows.drop_last(), key, val).contains_key(key(e)) {
                let j = choose|j: int|
                    0 <= j < rows.drop_last().len() && key(#[trigger] rows.drop_last()[j]) == key(
                        e,
                    );
                assert(rows.drop_last()[j] == rows[j]);
                assert(false);
            }
        }
    } else {
        assert(unique_keys(rows.drop_last(), key)) by {
            assert forall|m: int, n: int| 0 <= m < n < rows.drop_last().len() implies key(
                #[trigger] rows.drop_last()[m],
            ) != key(#[trigger] rows.drop_last()[n]) by {
                assert(rows.drop_last()[m] == rows[m]);
                assert(rows.drop_last()[n] == rows[n]);
            }
        }
        assert(rows.drop_last()[i] == rows[i]);
        lemma_assoc_map_update(rows.drop_last(), key, val, i, e);
        assert(rows.update(i, e).drop_last() =~= rows.drop_last().update(i, e));
        assert(rows.update(i, e).last() == rows.last());
        let lk = key(rows.last());
        let lv = val(rows.last());
        assert(key(rows[rows.len() - 1]) == lk);
        assert(lk != key(rows[i]));
        assert(post == assoc_map(rows.drop_last(), key, val).insert(key(e), val(e)).insert(
            lk,
            lv,
        ));
        assert(pre.insert(key(e), val(e)) == assoc_map(rows.drop_last(), key, val).insert(
            lk,
            lv,
        ).insert(key(e), val(e)));
        assert(assoc_map(rows.drop_last(), key, val).insert(key(e), val(e)).insert(lk, lv)
            =~= assoc_map(rows.drop_last(), key, val).insert(lk, lv).insert(key(e), val(e)));
    }
}

} // verus!
