//! Tables stored as vectors with distinct keys, viewed as maps.

use vstd::prelude::*;

verus! {

/// The map a sequence of entries denotes: each entry under its key, later
/// entries winning.
pub open spec fn map_of<K, T>(s: Seq<T>, key: spec_fn(T) -> K) -> Map<K, T>
    decreases s.len(),
{
    if s.len() == 0 {
        Map::empty()
    } else {
        map_of(s.drop_last(), key).insert(key(s.last()), s.last())
    }
}

pub open spec fn keys_distinct<K, T>(s: Seq<T>, key: spec_fn(T) -> K) -> bool {
    forall|i: int, j: int| 0 <= i < s.len() && 0 <= j < s.len() && i != j ==> key(s[i]) != key(s[j])
}

pub open spec fn has_key<K, T>(s: Seq<T>, key: spec_fn(T) -> K, k: K) -> bool {
    exists|i: int| 0 <= i < s.len() && key(s[i]) == k
}

/// The keys of `map_of(s)` are the keys of the entries, and each entry is the
/// value under its own key.
pub proof fn lemma_map_of<K, T>(s: Seq<T>, key: spec_fn(T) -> K)
    requires
        keys_distinct(s, key),
    ensures
        forall|k: K| #[trigger] map_of(s, key).contains_key(k) <==> has_key(s, key, k),
        forall|i: int| 0 <= i < s.len() ==> #[trigger] map_of(s, key)[key(s[i])] == s[i],
    decreases s.len(),
{
    if s.len() > 0 {
        let t = s.drop_last();
        assert(keys_distinct(t, key));
        lemma_map_of(t, key);
        assert forall|k: K| #[trigger] map_of(s, key).contains_key(k) <==> has_key(
            s,
            key,
            k,
        ) by {
            if has_key(s, key, k) {
                let i = choose|i: int| 0 <= i < s.len() && key(s[i]) == k;
                if i < s.len() - 1 {
                    assert(key(t[i]) == k);
                }
            }
            if map_of(t, key).contains_key(k) {
                let i = choose|i: int| 0 <= i < t.len() && key(t[i]) == k;
                assert(key(s[i]) == k);
            }
        }
        assert forall|i: int| 0 <= i < s.len() implies #[trigger] map_of(s, key)[key(s[i])]
            == s[i] by {
            assert(map_of(s, key) == map_of(t, key).insert(key(s.last()), s.last()));
            if i < s.len() - 1 {
                assert(t[i] == s[i]);
                assert(key(s[i]) != key(s.last()));
                assert(map_of(t, key)[key(t[i])] == t[i]);
            }
        }
    }
}

/// Every value of `map_of(s)` sits under its own key.
pub proof fn lemma_map_of_keyed<K, T>(s: Seq<T>, key: spec_fn(T) -> K)
    ensures
        forall|k: K| #[trigger] map_of(s, key).contains_key(k) ==> key(map_of(s, key)[k]) == k,
    decreases s.len(),
{
    if s.len() > 0 {
        let t = s.drop_last();
        lemma_map_of_keyed(t, key);
        let m = map_of(t, key).insert(key(s.last()), s.last());
        assert(map_of(s, key) == m);
        assert forall|k: K| #[trigger] m.contains_key(k) implies key(m[k]) == k by {
            if k != key(s.last()) {
                assert(map_of(t, key).contains_key(k));
            }
        }
    }
}

/// Replacing the entry at `i` by one with the same key updates the map there.
pub proof fn lemma_map_of_update<K, T>(s: Seq<T>, key: spec_fn(T) -> K, i: int, x: T)
    requires
        keys_distinct(s, key),
        0 <= i < s.len(),
        key(x) == key(s[i]),
    ensures
        keys_distinct(s.update(i, x), key),
        map_of(s.update(i, x), key) == map_of(s, key).insert(key(x), x),
{
    let u = s.update(i, x);
    assert(keys_distinct(u, key)) by {
        assert forall|a: int, b: int|
            0 <= a < u.len() && 0 <= b < u.len() && a != b implies key(u[a]) != key(u[b]) by {
            assert(key(u[a]) == key(s[a]));
            assert(key(u[b]) == key(s[b]));
        }
    }
    lemma_map_of(s, key);
    lemma_map_of(u, key);
    assert forall|k: K| has_key(u, key, k) <==> has_key(s, key, k) by {
        if has_key(u, key, k) {
            let j = choose|j: int| 0 <= j < u.len() && key(u[j]) == k;
            assert(key(s[j]) == k);
        }
        if has_key(s, key, k) {
            let j = choose|j: int| 0 <= j < s.len() && key(s[j]) == k;
            assert(key(u[j]) == k);
        }
    }
    let m1 = map_of(u, key);
    let m2 = map_of(s, key).insert(key(x), x);
    assert(m1.dom() =~= m2.dom()) by {
        assert forall|k: K| m1.dom().contains(k) <==> m2.dom().contains(k) by {
            if k == key(x) {
                assert(has_key(s, key, k));
            }
        }
    }
    assert forall|k: K| m1.contains_key(k) implies m1[k] == m2[k] by {
        let j = choose|j: int| 0 <= j < u.len() && key(u[j]) == k;
        if j != i {
            assert(u[j] == s[j]);
            assert(m1[key(u[j])] == u[j]);
        }
    }
    assert(m1 =~= m2);
}

/// Appending an entry with a new key inserts it.
pub proof fn lemma_map_of_push<K, T>(s: Seq<T>, key: spec_fn(T) -> K, x: T)
    requires
        keys_distinct(s, key),
        !has_key(s, key, key(x)),
    ensures
        keys_distinct(s.push(x), key),
        map_of(s.push(x), key) == map_of(s, key).insert(key(x), x),
{
    let u = s.push(x);
    assert(u.drop_last() =~= s);
    assert(keys_distinct(u, key)) by {
        assert forall|a: int, b: int|
            0 <= a < u.len() && 0 <= b < u.len() && a != b implies key(u[a]) != key(u[b]) by {
            if a == s.len() {
                assert(key(s[b]) != key(x));
            } else if b == s.len() {
                assert(key(s[a]) != key(x));
            }
        }
    }
}

/// Removing the entry at `i` removes its key.
pub proof fn lemma_map_of_remove<K, T>(s: Seq<T>, key: spec_fn(T) -> K, i: int)
    requires
        keys_distinct(s, key),
        0 <= i < s.len(),
    ensures
        keys_distinct(s.remove(i), key),
        map_of(s.remove(i), key) == map_of(s, key).remove(key(s[i])),
{
    let u = s.remove(i);
    assert(keys_distinct(u, key)) by {
        assert forall|a: int, b: int|
            0 <= a < u.len() && 0 <= b < u.len() && a != b implies key(u[a]) != key(u[b]) by {
            let sa = if a < i { a } else { a + 1 };
            let sb = if b < i { b } else { b + 1 };
            assert(u[a] == s[sa]);
            assert(u[b] == s[sb]);
        }
    }
    lemma_map_of(s, key);
    lemma_map_of(u, key);
    let m1 = map_of(u, key);
    let m2 = map_of(s, key).remove(key(s[i]));
    assert forall|k: K| m1.dom().contains(k) <==> m2.dom().contains(k) by {
        if has_key(u, key, k) {
            let j = choose|j: int| 0 <= j < u.len() && key(u[j]) == k;
            let sj = if j < i { j } else { j + 1 };
            assert(u[j] == s[sj]);
            assert(key(s[sj]) == k);
        }
        if has_key(s, key, k) && k != key(s[i]) {
            let j = choose|j: int| 0 <= j < s.len() && key(s[j]) == k;
            let uj = if j < i { j } else { j - 1 };
            assert(u[uj] == s[j]);
        }
    }
    assert(m1.dom() =~= m2.dom());
    assert forall|k: K| m1.contains_key(k) implies m1[k] == m2[k] by {
        let j = choose|j: int| 0 <= j < u.len() && key(u[j]) == k;
        let sj = if j < i { j } else { j + 1 };
        assert(u[j] == s[sj]);
        assert(m1[key(u[j])] == u[j]);
        assert(map_of(s, key)[key(s[sj])] == s[sj]);
    }
    assert(m1 =~= m2);
}

/// Without distinct keys: the value under a key is the last entry with it.
pub proof fn lemma_map_of_last<K, T>(s: Seq<T>, key: spec_fn(T) -> K, i: int)
    requires
        0 <= i < s.len(),
        forall|j: int| i < j < s.len() ==> key(#[trigger] s[j]) != key(s[i]),
    ensures
        map_of(s, key).contains_key(key(s[i])),
        map_of(s, key)[key(s[i])] == s[i],
    decreases s.len(),
{
    if i < s.len() - 1 {
        let t = s.drop_last();
        assert forall|j: int| i < j < t.len() implies key(#[trigger] t[j]) != key(t[i]) by {
            assert(t[j] == s[j]);
        }
        lemma_map_of_last(t, key, i);
        assert(key(s.last()) != key(s[i]));
    }
}

/// A key no entry has is not in the map.
pub proof fn lemma_map_of_absent<K, T>(s: Seq<T>, key: spec_fn(T) -> K, k: K)
    requires
        forall|j: int| 0 <= j < s.len() ==> key(#[trigger] s[j]) != k,
    ensures
        !map_of(s, key).contains_key(k),
    decreases s.len(),
{
    if s.len() > 0 {
        let t = s.drop_last();
        assert forall|j: int| 0 <= j < t.len() implies key(#[trigger] t[j]) != k by {
            assert(t[j] == s[j]);
        }
        lemma_map_of_absent(t, key, k);
        assert(key(s[s.len() - 1]) != k);
    }
}

/// With distinct keys, the map has one key per entry.
pub proof fn lemma_map_of_len<K, T>(s: Seq<T>, key: spec_fn(T) -> K)
    requires
        keys_distinct(s, key),
    ensures
        map_of(s, key).dom().len() == s.len(),
        map_of(s, key).dom().finite(),
    decreases s.len(),
{
    if s.len() > 0 {
        let t = s.drop_last();
        assert(keys_distinct(t, key));
        lemma_map_of_len(t, key);
        lemma_map_of(t, key);
        if map_of(t, key).contains_key(key(s.last())) {
            let j = choose|j: int| 0 <= j < t.len() && key(t[j]) == key(s.last());
            assert(s[j] == t[j]);
        }
    }
}

} // verus!
