//! Lists of key/value pairs with distinct keys, read as finite maps.

use vstd::prelude::*;

verus! {

/// Value stored under `k`, looking from the end of the list.
pub open spec fn assoc_lookup<K, V>(s: Seq<(K, V)>, k: K) -> Option<V>
    decreases s.len(),
{
    if s.len() == 0 {
        None
    } else if s.last().0 == k {
        Some(s.last().1)
    } else {
        assoc_lookup(s.drop_last(), k)
    }
}

/// No key occurs twice.
pub open spec fn keys_distinct<K, V>(s: Seq<(K, V)>) -> bool {
    forall|i: int, j: int|
        0 <= i < s.len() && 0 <= j < s.len() && i != j ==> #[trigger] s[i].0 != #[trigger] s[j].0
}

/// With distinct keys, the value under the key at position `i` is the one
/// stored there.
pub proof fn lemma_assoc_lookup_at<K, V>(s: Seq<(K, V)>, i: int)
    requires
        keys_distinct(s),
        0 <= i < s.len(),
    ensures
        assoc_lookup(s, s[i].0) == Some(s[i].1),
    decreases s.len(),
{
    if i != s.len() - 1 {
        assert(s[s.len() - 1].0 != s[i].0);
        let t = s.drop_last();
        assert(t[i] == s[i]);
        assert forall|a: int, b: int|
            0 <= a < t.len() && 0 <= b < t.len() && a != b implies #[trigger] t[a].0
            != #[trigger] t[b].0 by {
            assert(t[a] == s[a]);
            assert(t[b] == s[b]);
        }
        lemma_assoc_lookup_at(t, i);
    }
}

/// A key that no entry holds has no value.
pub proof fn lemma_assoc_lookup_absent<K, V>(s: Seq<(K, V)>, k: K)
    requires
        forall|i: int| 0 <= i < s.len() ==> #[trigger] s[i].0 != k,
    ensures
        assoc_lookup(s, k) == None::<V>,
    decreases s.len(),
{
    if s.len() > 0 {
        let t = s.drop_last();
        assert(s[s.len() - 1].0 != k);
        assert forall|i: int| 0 <= i < t.len() implies #[trigger] t[i].0 != k by {
            assert(t[i] == s[i]);
        }
        lemma_assoc_lookup_absent(t, k);
    }
}

/// Lookup in terms of positions: the value at the position holding the key,
/// or nothing.
pub proof fn lemma_assoc_lookup_cases<K, V>(s: Seq<(K, V)>, k: K)
    requires
        keys_distinct(s),
    ensures
        (exists|i: int| 0 <= i < s.len() && #[trigger] s[i].0 == k) ==> (forall|i: int|
            0 <= i < s.len() && #[trigger] s[i].0 == k ==> assoc_lookup(s, k) == Some(s[i].1)),
        (forall|i: int| 0 <= i < s.len() ==> #[trigger] s[i].0 != k) ==> assoc_lookup(s, k)
            == None::<V>,
{
    assert forall|i: int| 0 <= i < s.len() && #[trigger] s[i].0 == k implies assoc_lookup(s, k)
        == Some(s[i].1) by {
        lemma_assoc_lookup_at(s, i);
    }
    if forall|i: int| 0 <= i < s.len() ==> #[trigger] s[i].0 != k {
        lemma_assoc_lookup_absent(s, k);
    }
}

/// Replacing the value at position `i` changes only the lookup of its key.
pub proof fn lemma_assoc_lookup_update<K, V>(s: Seq<(K, V)>, i: int, v: V, k: K)
    requires
        keys_distinct(s),
        0 <= i < s.len(),
    ensures
        keys_distinct(s.update(i, (s[i].0, v))),
        assoc_lookup(s.update(i, (s[i].0, v)), k) == if k == s[i].0 {
            Some(v)
        } else {
            assoc_lookup(s, k)
        },
{
    let u = s.update(i, (s[i].0, v));
    assert forall|a: int, b: int|
        0 <= a < u.len() && 0 <= b < u.len() && a != b implies #[trigger] u[a].0 != #[trigger] u[b].0 by {
        assert(u[a].0 == s[a].0);
        assert(u[b].0 == s[b].0);
    }
    lemma_assoc_lookup_cases(s, k);
    lemma_assoc_lookup_cases(u, k);
    if k == s[i].0 {
        assert(u[i].0 == k);
    } else if exists|j: int| 0 <= j < s.len() && #[trigger] s[j].0 == k {
        let j = choose|j: int| 0 <= j < s.len() && #[trigger] s[j].0 == k;
        assert(u[j] == s[j]);
    } else {
        assert forall|j: int| 0 <= j < u.len() implies #[trigger] u[j].0 != k by {
            assert(u[j].0 == s[j].0);
        }
    }
}

/// Appending a pair for a new key keeps keys distinct.
pub proof fn lemma_assoc_push<K, V>(s: Seq<(K, V)>, k: K, v: V)
    requires
        keys_distinct(s),
        forall|i: int| 0 <= i < s.len() ==> #[trigger] s[i].0 != k,
    ensures
        keys_distinct(s.push((k, v))),
        forall|k2: K| assoc_lookup(s.push((k, v)), k2) == if k2 == k {
            Some(v)
        } else {
            assoc_lookup(s, k2)
        },
{
    let u = s.push((k, v));
    assert(u.drop_last() =~= s);
    assert forall|a: int, b: int|
        0 <= a < u.len() && 0 <= b < u.len() && a != b implies #[trigger] u[a].0 != #[trigger] u[b].0 by {
        if a < s.len() {
            assert(u[a] == s[a]);
        }
        if b < s.len() {
            assert(u[b] == s[b]);
        }
    }
}

} // verus!
