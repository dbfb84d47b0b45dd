//! A `Map` view for row sets held as sequences of rows with a primary key.
//!
//! The store addresses each row set by a primary key; locally a row set is a
//! sequence of rows with pairwise distinct keys, and its meaning is the map
//! from key to row. The lemmas here relate the sequence edits the executable
//! code performs (push, in-place update, removal) to `insert` and `remove`
//! on that map.

use vstd::prelude::*;

verus! {

/// The map from key to row described by a sequence of rows.
/// A later row with the same key shadows an earlier one, matching the
/// store's upsert semantics; under `distinct_keys` there is no shadowing.
pub open spec fn keyed_map_of<T, K>(s: Seq<T>, key: spec_fn(T) -> K) -> Map<K, T>
    decreases s.len(),
{
    if s.len() == 0 {
        Map::<K, T>::empty()
    } else {
        keyed_map_of(s.drop_last(), key).insert(key(s.last()), s.last())
    }
}

/// No two rows share a primary key.
pub open spec fn distinct_keys<T, K>(s: Seq<T>, key: spec_fn(T) -> K) -> bool {
    forall|i: int, j: int| 0 <= i < j < s.len() ==> key(#[trigger] s[i]) != key(#[trigger] s[j])
}

/// What the map holds, in terms of the sequence: a key is present exactly
/// when some row carries it, and under distinct keys each row is the value
/// at its own key.
pub proof fn lemma_keyed_map_of<T, K>(s: Seq<T>, key: spec_fn(T) -> K)
    ensures
        forall|k: K|
            #[trigger] keyed_map_of(s, key).contains_key(k) <==> exists|i: int|
                0 <= i < s.len() && key(#[trigger] s[i]) == k,
        distinct_keys(s, key) ==> forall|i: int|
            0 <= i < s.len() ==> keyed_map_of(s, key)[key(#[trigger] s[i])] == s[i],
    decreases s.len(),
{
    if s.len() > 0 {
        let s0 = s.drop_last();
        let last = s.last();
        lemma_keyed_map_of(s0, key);
        assert forall|k: K| #[trigger] keyed_map_of(s, key).contains_key(k) implies exists|i: int|
            0 <= i < s.len() && key(#[trigger] s[i]) == k by {
            if k == key(last) {
                assert(key(s[s.len() - 1]) == k);
            } else {
                assert(keyed_map_of(s0, key).contains_key(k));
                let i = choose|i: int| 0 <= i < s0.len() && key(#[trigger] s0[i]) == k;
                assert(s0[i] == s[i]);
                assert(key(s[i]) == k);
            }
        }
        assert forall|k: K|
            (exists|i: int| 0 <= i < s.len() && key(#[trigger] s[i]) == k) implies #[trigger] keyed_map_of(
            s,
            key,
        ).contains_key(k) by {
            let i = choose|i: int| 0 <= i < s.len() && key(#[trigger] s[i]) == k;
            if i == s.len() - 1 {
                assert(k == key(last));
            } else {
                assert(s0[i] == s[i]);
                assert(key(s0[i]) == k);
                assert(keyed_map_of(s0, key).contains_key(k));
            }
        }
        if distinct_keys(s, key) {
            assert forall|i: int| 0 <= i < s.len() implies keyed_map_of(s, key)[key(
                #[trigger] s[i],
            )] == s[i] by {
                if i < s.len() - 1 {
                    assert(key(s[i]) != key(s[s.len() - 1]));
                    assert(key(s0[i]) == key(s[i]));
                }
            }
        }
    }
}

/// Appending a row with a fresh key inserts it into the map and keeps the
/// keys distinct; without freshness the insert still describes the map.
pub proof fn lemma_keyed_map_push<T, K>(s: Seq<T>, key: spec_fn(T) -> K, t: T)
    ensures
        keyed_map_of(s.push(t), key) == keyed_map_of(s, key).insert(key(t), t),
        distinct_keys(s, key) && !keyed_map_of(s, key).contains_key(key(t)) ==> distinct_keys(
            s.push(t),
            key,
        ),
{
    let sp = s.push(t);
    assert(sp.drop_last() =~= s);
    assert(sp.last() == t);
    if distinct_keys(s, key) && !keyed_map_of(s, key).contains_key(key(t)) {
        lemma_keyed_map_of(s, key);
        assert forall|i: int, j: int| 0 <= i < j < sp.len() implies key(#[trigger] sp[i]) != key(
            #[trigger] sp[j],
        ) by {
            if j == sp.len() - 1 {
                assert(key(s[i]) != key(t));
            }
        }
    }
}

/// Overwriting the row that holds a key re-inserts under that key.
pub proof fn lemma_keyed_map_update<T, K>(s: Seq<T>, key: spec_fn(T) -> K, i: int, t: T)
    requires
        distinct_keys(s, key),
        0 <= i < s.len(),
        key(s[i]) == key(t),
    ensures
        keyed_map_of(s.update(i, t), key) == keyed_map_of(s, key).insert(key(t), t),
        distinct_keys(s.update(i, t), key),
{
    let su = s.update(i, t);
    let m1 = keyed_map_of(su, key);
    let m2 = keyed_map_of(s, key).insert(key(t), t);
    lemma_keyed_map_of(s, key);
    assert forall|p: int, q: int| 0 <= p < q < su.len() implies key(#[trigger] su[p]) != key(
        #[trigger] su[q],
    ) by {
        assert(key(su[p]) == key(s[p]) && key(su[q]) == key(s[q]));
    }
    lemma_keyed_map_of(su, key);
    assert forall|k: K| #[trigger] m1.contains_key(k) implies m2.contains_key(k) by {
        let p = choose|p: int| 0 <= p < su.len() && key(#[trigger] su[p]) == k;
        if p != i {
            assert(key(s[p]) == k);
        }
    }
    assert forall|k: K| #[trigger] m2.contains_key(k) implies m1.contains_key(k) by {
        if k == key(t) {
            assert(key(su[i]) == k);
        } else {
            let p = choose|p: int| 0 <= p < s.len() && key(#[trigger] s[p]) == k;
            assert(key(su[p]) == k);
        }
    }
    assert forall|k: K| m1.contains_key(k) && m2.contains_key(k) implies #[trigger] m1[k]
        == #[trigger] m2[k] by {
        let p = choose|p: int| 0 <= p < su.len() && key(#[trigger] su[p]) == k;
        assert(m1[key(su[p])] == su[p]);
        if p == i {
            assert(m2[k] == t);
        } else {
            assert(key(s[p]) == k);
            assert(m2[k] == keyed_map_of(s, key)[k]);
            assert(keyed_map_of(s, key)[key(s[p])] == s[p]);
        }
    }
    assert(m1 =~= m2);
}

/// Removing the row that holds a key removes that key from the map.
pub proof fn lemma_keyed_map_remove<T, K>(s: Seq<T>, key: spec_fn(T) -> K, i: int)
    requires
        distinct_keys(s, key),
        0 <= i < s.len(),
    ensures
        keyed_map_of(s.remove(i), key) == keyed_map_of(s, key).remove(key(s[i])),
        distinct_keys(s.remove(i), key),
{
    let sr = s.remove(i);
    let m1 = keyed_map_of(sr, key);
    let m2 = keyed_map_of(s, key).remove(key(s[i]));
    lemma_keyed_map_of(s, key);
    assert forall|p: int, q: int| 0 <= p < q < sr.len() implies key(#[trigger] sr[p]) != key(
        #[trigger] sr[q],
    ) by {
        let p0 = if p < i { p } else { p + 1 };
        let q0 = if q < i { q } else { q + 1 };
        assert(sr[p] == s[p0] && sr[q] == s[q0]);
    }
    lemma_keyed_map_of(sr, key);
    assert forall|k: K| #[trigger] m1.contains_key(k) implies m2.contains_key(k) by {
        let p = choose|p: int| 0 <= p < sr.len() && key(#[trigger] sr[p]) == k;
        let p0 = if p < i { p } else { p + 1 };
        assert(sr[p] == s[p0]);
        assert(key(s[p0]) == k);
        assert(p0 != i);
        assert(key(s[p0]) != key(s[i]));
    }
    assert forall|k: K| #[trigger] m2.contains_key(k) implies m1.contains_key(k) by {
        let p = choose|p: int| 0 <= p < s.len() && key(#[trigger] s[p]) == k;
        assert(p != i);
        let pr = if p < i { p } else { p - 1 };
        assert(sr[pr] == s[p]);
        assert(key(sr[pr]) == k);
    }
    assert forall|k: K| m1.contains_key(k) && m2.contains_key(k) implies #[trigger] m1[k]
        == #[trigger] m2[k] by {
        let p = choose|p: int| 0 <= p < sr.len() && key(#[trigger] sr[p]) == k;
        let p0 = if p < i { p } else { p + 1 };
        assert(sr[p] == s[p0]);
        assert(m1[key(sr[p])] == sr[p]);
        assert(keyed_map_of(s, key)[key(s[p0])] == s[p0]);
    }
    assert(m1 =~= m2);
}


/// Inserting a row with a fresh key at any position inserts it into the map
/// and keeps the keys distinct.
pub proof fn lemma_keyed_map_insert_at<T, K>(s: Seq<T>, key: spec_fn(T) -> K, p: int, t: T)
    requires
        distinct_keys(s, key),
        0 <= p <= s.len(),
        forall|i: int| 0 <= i < s.len() ==> key(#[trigger] s[i]) != key(t),
    ensures
        keyed_map_of(s.insert(p, t), key) == keyed_map_of(s, key).insert(key(t), t),
        distinct_keys(s.insert(p, t), key),
{
    let si = s.insert(p, t);
    s.insert_ensures(p, t);
    let m1 = keyed_map_of(si, key);
    let m2 = keyed_map_of(s, key).insert(key(t), t);
    lemma_keyed_map_of(s, key);
    assert forall|a: int, b: int| 0 <= a < b < si.len() implies key(#[trigger] si[a]) != key(
        #[trigger] si[b],
    ) by {
        if a != p && b != p {
            let a0 = if a < p { a } else { a - 1 };
            let b0 = if b < p { b } else { b - 1 };
            assert(si[a] == s[a0] && si[b] == s[b0]);
        } else if a == p {
            assert(si[b] == s[b - 1]);
        } else {
            assert(si[a] == s[a]);
        }
    }
    lemma_keyed_map_of(si, key);
    assert forall|k: K| #[trigger] m1.contains_key(k) implies m2.contains_key(k) by {
        let q = choose|q: int| 0 <= q < si.len() && key(#[trigger] si[q]) == k;
        if q != p {
            let q0 = if q < p { q } else { q - 1 };
            assert(si[q] == s[q0]);
            assert(key(s[q0]) == k);
        }
    }
    assert forall|k: K| #[trigger] m2.contains_key(k) implies m1.contains_key(k) by {
        if k == key(t) {
            assert(key(si[p]) == k);
        } else {
            let q = choose|q: int| 0 <= q < s.len() && key(#[trigger] s[q]) == k;
            let qi = if q < p { q } else { q + 1 };
            assert(si[qi] == s[q]);
            assert(key(si[qi]) == k);
        }
    }
    assert forall|k: K| m1.contains_key(k) && m2.contains_key(k) implies #[trigger] m1[k]
        == #[trigger] m2[k] by {
        let q = choose|q: int| 0 <= q < si.len() && key(#[trigger] si[q]) == k;
        assert(m1[key(si[q])] == si[q]);
        if q == p {
            assert(m2[k] == t);
        } else {
            let q0 = if q < p { q } else { q - 1 };
            assert(si[q] == s[q0]);
            assert(key(s[q0]) == k);
            assert(keyed_map_of(s, key)[key(s[q0])] == s[q0]);
        }
    }
    assert(m1 =~= m2);
}

} // verus!
