//! Sequences of pairs, read as maps from the first component to the second.

use vstd::prelude::*;

verus! {

/// What the first pair with the given key holds.
pub open spec fn assoc_get<K, V>(s: Seq<(K, V)>, key: K) -> Option<V>
    decreases s.len(),
{
    if s.len() == 0 {
        None
    } else if s[0].0 == key {
        Some(s[0].1)
    } else {
        assoc_get(s.drop_first(), key)
    }
}

/// Whether a pair with the given key occurs.
pub open spec fn assoc_has<K, V>(s: Seq<(K, V)>, key: K) -> bool {
    exists|i: int| 0 <= i < s.len() && (#[trigger] s[i]).0 == key
}

/// No two pairs share a key.
pub open spec fn unique_keys<K, V>(s: Seq<(K, V)>) -> bool {
    forall|i: int, j: int| 0 <= i < j < s.len() ==> (#[trigger] s[i]).0 != (#[trigger] s[j]).0
}

/// The keys, in order.
pub open spec fn keys<K, V>(s: Seq<(K, V)>) -> Seq<K> {
    Seq::new(s.len(), |i: int| s[i].0)
}

/// The pairs with what the given key holds replaced; without such a pair, the pairs as they are.
pub open spec fn assoc_update<K, V>(s: Seq<(K, V)>, key: K, value: V) -> Seq<(K, V)> {
    Seq::new(s.len(), |i: int| if s[i].0 == key { (key, value) } else { s[i] })
}

/// The pairs with the given key set: in place where it occurs, at the end where it does not.
pub open spec fn assoc_set<K, V>(s: Seq<(K, V)>, key: K, value: V) -> Seq<(K, V)> {
    if assoc_has(s, key) {
        assoc_update(s, key, value)
    } else {
        s.push((key, value))
    }
}

/// The pairs without those of the given key.
pub open spec fn assoc_remove<K, V>(s: Seq<(K, V)>, key: K) -> Seq<(K, V)>
    decreases s.len(),
{
    if s.len() == 0 {
        s
    } else {
        let rest = assoc_remove(s.drop_last(), key);
        if s.last().0 == key {
            rest
        } else {
            rest.push(s.last())
        }
    }
}

/// A key is found exactly where a pair with it occurs.
pub proof fn lemma_get_has<K, V>(s: Seq<(K, V)>, key: K)
    ensures
        assoc_get(s, key) is Some <==> assoc_has(s, key),
        assoc_get(s, key) is Some ==> exists|i: int|
            0 <= i < s.len() && (#[trigger] s[i]) == (key, assoc_get(s, key)->0),
    decreases s.len(),
{
    if s.len() > 0 {
        if s[0].0 == key {
            assert(s[0] == (key, s[0].1));
        } else {
            let rest = s.drop_first();
            lemma_get_has(rest, key);
            assert forall|i: int| 0 <= i < s.len() && (#[trigger] s[i]).0 == key implies assoc_has(
                rest,
                key,
            ) by {
                assert(rest[i - 1] == s[i]);
            }
            if assoc_get(rest, key) is Some {
                let i = choose|i: int|
                    0 <= i < rest.len() && (#[trigger] rest[i]) == (key, assoc_get(rest, key)->0);
                assert(s[i + 1] == rest[i]);
            }
        }
    }
}

/// Where keys are unique, a pair is what its key holds.
pub proof fn lemma_get_at<K, V>(s: Seq<(K, V)>, i: int)
    requires
        unique_keys(s),
        0 <= i < s.len(),
    ensures
        assoc_get(s, s[i].0) == Some(s[i].1),
{
    assert(s[i].0 == s[i].0);
    lemma_get_has(s, s[i].0);
    let j = choose|j: int|
        0 <= j < s.len() && (#[trigger] s[j]) == (s[i].0, assoc_get(s, s[i].0)->0);
    if j < i {
        assert(s[j].0 != s[i].0);
    }
    if i < j {
        assert(s[i].0 != s[j].0);
    }
}

/// The first pair with a key that no earlier pair has is what the key holds.
pub proof fn lemma_get_first<K, V>(s: Seq<(K, V)>, i: int)
    requires
        0 <= i < s.len(),
        forall|j: int| 0 <= j < i ==> (#[trigger] s[j]).0 != s[i].0,
    ensures
        assoc_get(s, s[i].0) == Some(s[i].1),
    decreases i,
{
    if i > 0 {
        assert(s[0].0 != s[i].0);
        let rest = s.drop_first();
        assert forall|j: int| 0 <= j < i - 1 implies (#[trigger] rest[j]).0 != rest[i - 1].0 by {
            assert(rest[j] == s[j + 1]);
        }
        assert(rest[i - 1] == s[i]);
        lemma_get_first(rest, i - 1);
    }
}

/// Where no pair has a key, the key is not found.
pub proof fn lemma_get_absent<K, V>(s: Seq<(K, V)>, key: K)
    requires
        !assoc_has(s, key),
    ensures
        assoc_get(s, key) is None,
{
    lemma_get_has(s, key);
}

/// Replacing what a key holds leaves the keys and what the other keys hold.
pub proof fn lemma_update<K, V>(s: Seq<(K, V)>, key: K, value: V)
    ensures
        assoc_update(s, key, value).len() == s.len(),
        keys(assoc_update(s, key, value)) == keys(s),
        unique_keys(s) ==> unique_keys(assoc_update(s, key, value)),
        forall|k: K| assoc_has(assoc_update(s, key, value), k) <==> assoc_has(s, k),
        forall|k: K|
            k != key ==> #[trigger] assoc_get(assoc_update(s, key, value), k) == assoc_get(s, k),
        assoc_has(s, key) ==> assoc_get(assoc_update(s, key, value), key) == Some(value),
        !assoc_has(s, key) ==> assoc_update(s, key, value) == s,
    decreases s.len(),
{
    let t = assoc_update(s, key, value);
    assert(keys(t) =~= keys(s));
    assert forall|k: K| assoc_has(t, k) <==> assoc_has(s, k) by {
        if assoc_has(t, k) {
            let i = choose|i: int| 0 <= i < t.len() && (#[trigger] t[i]).0 == k;
            assert(s[i].0 == k);
        }
        if assoc_has(s, k) {
            let i = choose|i: int| 0 <= i < s.len() && (#[trigger] s[i]).0 == k;
            assert(t[i].0 == k);
        }
    }
    if s.len() > 0 {
        lemma_update(s.drop_first(), key, value);
        assert(t.drop_first() =~= assoc_update(s.drop_first(), key, value));
        if assoc_has(s, key) && s[0].0 != key {
            let i = choose|i: int| 0 <= i < s.len() && (#[trigger] s[i]).0 == key;
            assert(s.drop_first()[i - 1].0 == key);
        }
        assert forall|k: K| k != key implies #[trigger] assoc_get(t, k) == assoc_get(s, k) by {
            assert(t[0].0 == s[0].0);
            assert(assoc_get(t.drop_first(), k) == assoc_get(s.drop_first(), k));
        }
    }
    if !assoc_has(s, key) {
        assert forall|i: int| 0 <= i < s.len() implies t[i] == s[i] by {
            assert(s[i].0 != key);
        }
        assert(t =~= s);
    }
}

/// A pair at the end is found only where no earlier pair has its key.
pub proof fn lemma_get_push<K, V>(s: Seq<(K, V)>, pair: (K, V), k: K)
    ensures
        assoc_get(s.push(pair), k) == (if assoc_has(s, k) {
            assoc_get(s, k)
        } else if pair.0 == k {
            Some(pair.1)
        } else {
            None
        }),
    decreases s.len(),
{
    let t = s.push(pair);
    lemma_get_has(s, k);
    if s.len() == 0 {
        assert(t[0] == pair);
        assert(assoc_get(t.drop_first(), k) is None);
    } else {
        assert(t[0] == s[0]);
        assert(t.drop_first() =~= s.drop_first().push(pair));
        lemma_get_push(s.drop_first(), pair, k);
        lemma_get_has(s.drop_first(), k);
    }
}

/// Setting a key changes what that key holds, and nothing else.
pub proof fn lemma_set<K, V>(s: Seq<(K, V)>, key: K, value: V)
    ensures
        unique_keys(s) ==> unique_keys(assoc_set(s, key, value)),
        forall|k: K| #[trigger]
            assoc_get(assoc_set(s, key, value), k) == (if k == key {
                Some(value)
            } else {
                assoc_get(s, k)
            }),
{
    lemma_update(s, key, value);
    if !assoc_has(s, key) {
        let t = s.push((key, value));
        assert forall|i: int, j: int| unique_keys(s) && 0 <= i < j < t.len() implies (
        #[trigger] t[i]).0 != (#[trigger] t[j]).0 by {
            assert(t[i] == s[i]);
        }
        assert forall|k: K| #[trigger]
            assoc_get(t, k) == (if k == key {
                Some(value)
            } else {
                assoc_get(s, k)
            }) by {
            lemma_get_push(s, (key, value), k);
            lemma_get_has(s, k);
        }
    }
}

/// Removing a key takes its pairs away and leaves the others as they are, in their order.
pub proof fn lemma_remove<K, V>(s: Seq<(K, V)>, key: K)
    ensures
        assoc_remove(s, key).len() <= s.len(),
        unique_keys(s) ==> unique_keys(assoc_remove(s, key)),
        forall|i: int| 0 <= i < assoc_remove(s, key).len() ==> exists|j: int|
            0 <= j < s.len() && #[trigger] s[j] == #[trigger] assoc_remove(s, key)[i],
        forall|i: int|
            0 <= i < assoc_remove(s, key).len() ==> (#[trigger] assoc_remove(s, key)[i]).0 != key,
        forall|k: K| #[trigger]
            assoc_get(assoc_remove(s, key), k) == (if k == key {
                None
            } else {
                assoc_get(s, k)
            }),
    decreases s.len(),
{
    let t = assoc_remove(s, key);
    if s.len() > 0 {
        let init = s.drop_last();
        let r = assoc_remove(init, key);
        lemma_remove(init, key);
        assert(s =~= init.push(s.last()));
        assert forall|i: int| 0 <= i < t.len() implies exists|j: int|
            0 <= j < s.len() && #[trigger] s[j] == #[trigger] t[i] by {
            if i < r.len() {
                let j = choose|j: int| 0 <= j < init.len() && #[trigger] init[j] == r[i];
                assert(s[j] == t[i]);
            } else {
                assert(s[s.len() - 1] == t[i]);
            }
        }
        if unique_keys(s) {
            assert(unique_keys(init)) by {
                assert forall|i: int, j: int| 0 <= i < j < init.len() implies (#[trigger] init[i]).0
                    != (#[trigger] init[j]).0 by {
                    assert(init[i] == s[i] && init[j] == s[j]);
                }
            }
            assert forall|i: int, j: int| 0 <= i < j < t.len() implies (#[trigger] t[i]).0 != (
            #[trigger] t[j]).0 by {
                if j == r.len() {
                    let k = choose|k: int| 0 <= k < init.len() && #[trigger] init[k] == r[i];
                    assert(s[k].0 != s[s.len() - 1].0);
                }
            }
        }
        assert forall|k: K| #[trigger]
            assoc_get(t, k) == (if k == key {
                None
            } else {
                assoc_get(s, k)
            }) by {
            lemma_get_push(init, s.last(), k);
            lemma_get_has(init, k);
            lemma_get_has(r, k);
            if s.last().0 != key {
                lemma_get_push(r, s.last(), k);
            }
            assert(assoc_get(r, k) == (if k == key { None } else { assoc_get(init, k) }));
        }
    }
}

/// Taking the only pair with a key out is taking out its place.
pub proof fn lemma_remove_at<K, V>(s: Seq<(K, V)>, i: int)
    requires
        unique_keys(s),
        0 <= i < s.len(),
    ensures
        assoc_remove(s, s[i].0) == s.remove(i),
    decreases s.len(),
{
    let init = s.drop_last();
    let id = s[i].0;
    if i == s.len() - 1 {
        assert forall|j: int| 0 <= j < init.len() implies (#[trigger] init[j]).0 != id by {
            assert(s[j].0 != s[i].0);
        }
        lemma_remove_none(init, id);
        assert(s.remove(i) =~= init);
    } else {
        assert(unique_keys(init)) by {
            assert forall|a: int, b: int| 0 <= a < b < init.len() implies (#[trigger] init[a]).0
                != (#[trigger] init[b]).0 by {
                assert(init[a] == s[a] && init[b] == s[b]);
            }
        }
        assert(init[i] == s[i]);
        lemma_remove_at(init, i);
        assert(s[i].0 != s[s.len() - 1].0);
        assert(s.remove(i) =~= init.remove(i).push(s.last()));
    }
}

/// Taking out a key that does not occur changes nothing.
pub proof fn lemma_remove_none<K, V>(s: Seq<(K, V)>, id: K)
    requires
        !assoc_has(s, id),
    ensures
        assoc_remove(s, id) == s,
    decreases s.len(),
{
    if s.len() > 0 {
        let init = s.drop_last();
        assert forall|j: int| 0 <= j < init.len() implies (#[trigger] init[j]).0 != id by {
            assert(s[j].0 != id);
        }
        lemma_remove_none(init, id);
        assert(s[s.len() - 1].0 != id);
        assert(s =~= init.push(s.last()));
    }
}

/// Pairs that differ from others only in what they hold have the same keys, found in the same
/// places.
pub proof fn lemma_same_keys<K, V, W>(s: Seq<(K, V)>, t: Seq<(K, W)>)
    requires
        keys(s) == keys(t),
    ensures
        s.len() == t.len(),
        forall|i: int| 0 <= i < s.len() ==> (#[trigger] s[i]).0 == (#[trigger] t[i]).0,
        unique_keys(s) <==> unique_keys(t),
        forall|k: K| assoc_has(s, k) <==> assoc_has(t, k),
{
    assert(keys(s).len() == s.len() && keys(t).len() == t.len());
    assert forall|i: int| 0 <= i < s.len() implies (#[trigger] s[i]).0 == (#[trigger] t[i]).0 by {
        assert(keys(s)[i] == s[i].0);
        assert(keys(t)[i] == t[i].0);
    }
    assert forall|k: K| assoc_has(s, k) <==> assoc_has(t, k) by {
        if assoc_has(s, k) {
            let i = choose|i: int| 0 <= i < s.len() && (#[trigger] s[i]).0 == k;
            assert(t[i].0 == k);
        }
        if assoc_has(t, k) {
            let i = choose|i: int| 0 <= i < t.len() && (#[trigger] t[i]).0 == k;
            assert(s[i].0 == k);
        }
    }
    if unique_keys(s) {
        assert forall|i: int, j: int| 0 <= i < j < t.len() implies (#[trigger] t[i]).0 != (
        #[trigger] t[j]).0 by {
            assert(s[i].0 != s[j].0);
        }
    }
    if unique_keys(t) {
        assert forall|i: int, j: int| 0 <= i < j < s.len() implies (#[trigger] s[i]).0 != (
        #[trigger] s[j]).0 by {
            assert(t[i].0 != t[j].0);
        }
    }
}

} // verus!
