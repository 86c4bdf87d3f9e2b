//! Keyed lookup in a sequence, used to model every store of the registry.
//!
//! A store is a `Vec` of entries together with a key function; under
//! `unique_keys` the sequence behaves as a finite map, and the lemmas here
//! describe how a lookup changes under push, update and removal.

use vstd::prelude::*;

verus! {

/// Whether some entry of `s` has key `key`.
pub open spec fn assoc_has<K, V>(s: Seq<V>, kf: spec_fn(V) -> K, key: K) -> bool {
    exists|i: int| #![trigger kf(s[i])] 0 <= i < s.len() && kf(s[i]) == key
}

/// The index of an entry with key `key`, meaningful only when one exists.
pub open spec fn assoc_index<K, V>(s: Seq<V>, kf: spec_fn(V) -> K, key: K) -> int {
    choose|i: int| #![trigger kf(s[i])] 0 <= i < s.len() && kf(s[i]) == key
}

/// The entry of `s` with key `key`, if any.
pub open spec fn assoc_get<K, V>(s: Seq<V>, kf: spec_fn(V) -> K, key: K) -> Option<V> {
    if assoc_has(s, kf, key) {
        Some(s[assoc_index(s, kf, key)])
    } else {
        None
    }
}

/// No two entries of `s` share a key.
pub open spec fn unique_keys<K, V>(s: Seq<V>, kf: spec_fn(V) -> K) -> bool {
    forall|i: int, j: int|
        #![trigger kf(s[i]), kf(s[j])]
        0 <= i < j < s.len() ==> kf(s[i]) != kf(s[j])
}

/// Under unique keys, the entry at any index is exactly what lookup by its
/// key returns.
pub proof fn lemma_assoc_at<K, V>(s: Seq<V>, kf: spec_fn(V) -> K, i: int)
    requires
        unique_keys(s, kf),
        0 <= i < s.len(),
    ensures
        assoc_has(s, kf, kf(s[i])),
        assoc_index(s, kf, kf(s[i])) == i,
        assoc_get(s, kf, kf(s[i])) == Some(s[i]),
{
    assert(assoc_has(s, kf, kf(s[i])));
    let j = assoc_index(s, kf, kf(s[i]));
    assert(0 <= j < s.len() && kf(s[j]) == kf(s[i]));
    if i < j {
        assert(kf(s[i]) != kf(s[j]));
    } else if j < i {
        assert(kf(s[j]) != kf(s[i]));
    }
}

/// A key held by no entry looks up to nothing.
pub proof fn lemma_assoc_none<K, V>(s: Seq<V>, kf: spec_fn(V) -> K, key: K)
    requires
        forall|i: int| #![trigger kf(s[i])] 0 <= i < s.len() ==> kf(s[i]) != key,
    ensures
        assoc_get(s, kf, key) == None::<V>,
{
}

/// Pushing an entry with a fresh key adds exactly that binding.
pub proof fn lemma_assoc_push<K, V>(s: Seq<V>, kf: spec_fn(V) -> K, v: V)
    requires
        unique_keys(s, kf),
        !assoc_has(s, kf, kf(v)),
    ensures
        unique_keys(s.push(v), kf),
        assoc_get(s.push(v), kf, kf(v)) == Some(v),
        forall|k: K| k != kf(v) ==> assoc_get(s.push(v), kf, k) == assoc_get(s, kf, k),
{
    let t = s.push(v);
    assert forall|i: int, j: int|
        #![trigger kf(t[i]), kf(t[j])]
        0 <= i < j < t.len() implies kf(t[i]) != kf(t[j]) by {
        assert(t[i] == s[i]);
        if j == s.len() {
            assert(t[j] == v);
            if kf(s[i]) == kf(v) {
                assert(assoc_has(s, kf, kf(v)));
            }
        } else {
            assert(t[j] == s[j]);
        }
    }
    assert(t[s.len() as int] == v);
    lemma_assoc_at(t, kf, s.len() as int);
    assert forall|k: K| k != kf(v) implies assoc_get(t, kf, k) == assoc_get(s, kf, k) by {
        if assoc_has(s, kf, k) {
            let i = assoc_index(s, kf, k);
            assert(0 <= i < s.len() && kf(s[i]) == k);
            assert(t[i] == s[i]);
            lemma_assoc_at(s, kf, i);
            lemma_assoc_at(t, kf, i);
        } else {
            assert forall|i: int| #![trigger kf(t[i])] 0 <= i < t.len() implies kf(t[i]) != k by {
                if i < s.len() {
                    assert(t[i] == s[i]);
                    if kf(s[i]) == k {
                        assert(assoc_has(s, kf, k));
                    }
                } else {
                    assert(t[i] == v);
                }
            }
            lemma_assoc_none(t, kf, k);
            assert forall|i: int| #![trigger kf(s[i])] 0 <= i < s.len() implies kf(s[i]) != k by {
                if kf(s[i]) == k {
                    assert(assoc_has(s, kf, k));
                }
            }
            lemma_assoc_none(s, kf, k);
        }
    }
}

/// Replacing the entry at an index by one with the same key rebinds exactly
/// that key.
pub proof fn lemma_assoc_update<K, V>(s: Seq<V>, kf: spec_fn(V) -> K, i: int, v: V)
    requires
        unique_keys(s, kf),
        0 <= i < s.len(),
        kf(v) == kf(s[i]),
    ensures
        unique_keys(s.update(i, v), kf),
        assoc_get(s.update(i, v), kf, kf(v)) == Some(v),
        forall|k: K| k != kf(v) ==> assoc_get(s.update(i, v), kf, k) == assoc_get(s, kf, k),
{
    let t = s.update(i, v);
    assert forall|a: int, b: int|
        #![trigger kf(t[a]), kf(t[b])]
        0 <= a < b < t.len() implies kf(t[a]) != kf(t[b]) by {
        assert(kf(t[a]) == kf(s[a]));
        assert(kf(t[b]) == kf(s[b]));
    }
    assert(t[i] == v);
    lemma_assoc_at(t, kf, i);
    assert forall|k: K| k != kf(v) implies assoc_get(t, kf, k) == assoc_get(s, kf, k) by {
        if assoc_has(s, kf, k) {
            let j = assoc_index(s, kf, k);
            assert(0 <= j < s.len() && kf(s[j]) == k);
            assert(j != i);
            assert(t[j] == s[j]);
            lemma_assoc_at(s, kf, j);
            lemma_assoc_at(t, kf, j);
        } else {
            assert forall|j: int| #![trigger kf(t[j])] 0 <= j < t.len() implies kf(t[j]) != k by {
                if j != i {
                    assert(t[j] == s[j]);
                    if kf(s[j]) == k {
                        assert(assoc_has(s, kf, k));
                    }
                } else {
                    assert(t[j] == v);
                }
            }
            lemma_assoc_none(t, kf, k);
        }
    }
}

/// Removing the entry at an index unbinds exactly its key.
pub proof fn lemma_assoc_remove<K, V>(s: Seq<V>, kf: spec_fn(V) -> K, i: int)
    requires
        unique_keys(s, kf),
        0 <= i < s.len(),
    ensures
        unique_keys(s.remove(i), kf),
        assoc_get(s.remove(i), kf, kf(s[i])) == None::<V>,
        forall|k: K| k != kf(s[i]) ==> assoc_get(s.remove(i), kf, k) == assoc_get(s, kf, k),
{
    let t = s.remove(i);
    assert(t.len() == s.len() - 1);
    assert forall|j: int| 0 <= j < t.len() implies #[trigger] t[j] == (if j < i {
        s[j]
    } else {
        s[j + 1]
    }) by {}
    assert forall|a: int, b: int|
        #![trigger kf(t[a]), kf(t[b])]
        0 <= a < b < t.len() implies kf(t[a]) != kf(t[b]) by {
        let a0 = if a < i { a } else { a + 1 };
        let b0 = if b < i { b } else { b + 1 };
        assert(t[a] == s[a0]);
        assert(t[b] == s[b0]);
        assert(kf(s[a0]) != kf(s[b0]));
    }
    assert forall|j: int| #![trigger kf(t[j])] 0 <= j < t.len() implies kf(t[j]) != kf(s[i]) by {
        let j0 = if j < i { j } else { j + 1 };
        assert(t[j] == s[j0]);
        assert(j0 != i);
        if j0 < i {
            assert(kf(s[j0]) != kf(s[i]));
        } else {
            assert(kf(s[i]) != kf(s[j0]));
        }
    }
    lemma_assoc_none(t, kf, kf(s[i]));
    assert forall|k: K| k != kf(s[i]) implies assoc_get(t, kf, k) == assoc_get(s, kf, k) by {
        if assoc_has(s, kf, k) {
            let j = assoc_index(s, kf, k);
            assert(0 <= j < s.len() && kf(s[j]) == k);
            assert(j != i);
            let j1 = if j < i { j } else { j - 1 };
            assert(t[j1] == s[j]);
            lemma_assoc_at(s, kf, j);
            lemma_assoc_at(t, kf, j1);
        } else {
            assert forall|j: int| #![trigger kf(t[j])] 0 <= j < t.len() implies kf(t[j]) != k by {
                let j0 = if j < i { j } else { j + 1 };
                assert(t[j] == s[j0]);
                if kf(s[j0]) == k {
                    assert(assoc_has(s, kf, k));
                }
            }
            lemma_assoc_none(t, kf, k);
        }
    }
}

} // verus!
