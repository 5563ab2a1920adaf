//! Association lists as the model of the key-value state the core keeps:
//! per-sender sequence counters, asset metadata, balances, and history are
//! held as vectors of pairs and reasoned about through a first-match
//! `lookup` function and a `sum_vals` total over the values.

use vstd::prelude::*;

verus! {

/// The value bound to the first entry whose key is `k`, if any.
pub open spec fn lookup<K, V>(s: Seq<(K, V)>, k: K) -> Option<V>
    decreases s.len(),
{
    if s.len() == 0 {
        None
    } else if s[0].0 == k {
        Some(s[0].1)
    } else {
        lookup(s.skip(1), k)
    }
}

/// Whether some entry has key `k`.
pub open spec fn contains_key<K, V>(s: Seq<(K, V)>, k: K) -> bool {
    lookup(s, k) is Some
}

/// Whether no two entries share a key.
pub open spec fn distinct_keys<K, V>(s: Seq<(K, V)>) -> bool {
    forall|i: int, j: int| 0 <= i < j < s.len() ==> s[i].0 != s[j].0
}

/// If no entry has key `k`, the lookup misses.
pub proof fn lemma_lookup_none<K, V>(s: Seq<(K, V)>, k: K)
    requires
        forall|i: int| 0 <= i < s.len() ==> s[i].0 != k,
    ensures
        lookup(s, k) is None,
    decreases s.len(),
{
    if s.len() > 0 {
        assert(s[0].0 != k);
        assert(forall|i: int| 0 <= i < s.skip(1).len() ==> s.skip(1)[i].0 != k);
        lemma_lookup_none(s.skip(1), k);
    }
}

/// If entry `i` is the first with key `k`, the lookup returns its value.
pub proof fn lemma_lookup_at<K, V>(s: Seq<(K, V)>, k: K, i: int)
    requires
        0 <= i < s.len(),
        s[i].0 == k,
        forall|j: int| 0 <= j < i ==> s[j].0 != k,
    ensures
        lookup(s, k) == Some(s[i].1),
    decreases s.len(),
{
    if i > 0 {
        assert(s.skip(1)[i - 1] == s[i]);
        assert(forall|j: int| 0 <= j < i - 1 ==> s.skip(1)[j] == s[j + 1]);
        lemma_lookup_at(s.skip(1), k, i - 1);
    }
}

/// The lookup hits exactly when some entry has key `k`.
pub proof fn lemma_lookup_is_some<K, V>(s: Seq<(K, V)>, k: K)
    ensures
        (lookup(s, k) is Some) <==> (exists|i: int| 0 <= i < s.len() && s[i].0 == k),
    decreases s.len(),
{
    if s.len() > 0 {
        lemma_lookup_is_some(s.skip(1), k);
        if s[0].0 == k {
        } else {
            if exists|i: int| 0 <= i < s.len() && s[i].0 == k {
                let i = choose|i: int| 0 <= i < s.len() && s[i].0 == k;
                assert(s.skip(1)[i - 1] == s[i]);
            }
            if exists|i: int| 0 <= i < s.skip(1).len() && s.skip(1)[i].0 == k {
                let i = choose|i: int| 0 <= i < s.skip(1).len() && s.skip(1)[i].0 == k;
                assert(s[i + 1] == s.skip(1)[i]);
            }
        }
    }
}

/// Rebinding the value of the first entry for its key changes the lookup
/// for that key alone.
pub proof fn lemma_lookup_update<K, V>(s: Seq<(K, V)>, i: int, v: V, k2: K)
    requires
        0 <= i < s.len(),
        forall|j: int| 0 <= j < i ==> s[j].0 != s[i].0,
    ensures
        lookup(s.update(i, (s[i].0, v)), k2) == if k2 == s[i].0 {
            Some(v)
        } else {
            lookup(s, k2)
        },
    decreases s.len(),
{
    let s2 = s.update(i, (s[i].0, v));
    if i == 0 {
        assert(s2[0] == (s[0].0, v));
        assert(s2.skip(1) =~= s.skip(1));
    } else {
        assert(s2[0] == s[0]);
        assert(s.skip(1).update(i - 1, (s.skip(1)[i - 1].0, v)) =~= s2.skip(1));
        assert(forall|j: int| 0 <= j < i - 1 ==> s.skip(1)[j] == s[j + 1]);
        lemma_lookup_update(s.skip(1), i - 1, v, k2);
    }
}

/// Appending an entry leaves every present key unchanged and binds an
/// absent key exactly when it is the appended one.
pub proof fn lemma_lookup_push<K, V>(s: Seq<(K, V)>, e: (K, V), k2: K)
    ensures
        lookup(s.push(e), k2) == if lookup(s, k2) is Some {
            lookup(s, k2)
        } else if k2 == e.0 {
            Some(e.1)
        } else {
            None::<V>
        },
    decreases s.len(),
{
    if s.len() == 0 {
        assert(s.push(e)[0] == e);
        assert(s.push(e).skip(1) =~= Seq::<(K, V)>::empty());
        assert(lookup(s, k2) is None);
        if k2 == e.0 {
            assert(lookup(s.push(e), k2) == Some(e.1));
        } else {
            assert(lookup(s.push(e), k2) == lookup(s.push(e).skip(1), k2));
        }
    } else {
        assert(s.push(e)[0] == s[0]);
        assert(s.push(e).skip(1) =~= s.skip(1).push(e));
        lemma_lookup_push(s.skip(1), e, k2);
        if s[0].0 == k2 {
            assert(lookup(s.push(e), k2) == Some(s[0].1));
            assert(lookup(s, k2) == Some(s[0].1));
        } else {
            assert(lookup(s.push(e), k2) == lookup(s.skip(1).push(e), k2));
            assert(lookup(s, k2) == lookup(s.skip(1), k2));
        }
    }
}

/// With distinct keys, removing entry `i` unbinds its key and no other.
pub proof fn lemma_lookup_remove<K, V>(s: Seq<(K, V)>, i: int, k2: K)
    requires
        distinct_keys(s),
        0 <= i < s.len(),
    ensures
        lookup(s.remove(i), k2) == if k2 == s[i].0 {
            None::<V>
        } else {
            lookup(s, k2)
        },
    decreases s.len(),
{
    let s2 = s.remove(i);
    if i == 0 {
        assert(s2 =~= s.skip(1));
        if k2 == s[0].0 {
            assert(forall|j: int| 0 <= j < s.skip(1).len() ==> s.skip(1)[j] == s[j + 1]);
            assert(forall|j: int| 0 <= j < s.skip(1).len() ==> s.skip(1)[j].0 != k2);
            lemma_lookup_none(s.skip(1), k2);
        }
    } else {
        assert(s2[0] == s[0]);
        assert(s2.skip(1) =~= s.skip(1).remove(i - 1));
        assert(forall|j: int| 0 <= j < s.skip(1).len() ==> s.skip(1)[j] == s[j + 1]);
        assert(distinct_keys(s.skip(1)));
        assert(s.skip(1)[i - 1] == s[i]);
        lemma_lookup_remove(s.skip(1), i - 1, k2);
    }
}

/// Keys stay distinct when a value is rebound in place.
pub proof fn lemma_distinct_update<K, V>(s: Seq<(K, V)>, i: int, v: V)
    requires
        distinct_keys(s),
        0 <= i < s.len(),
    ensures
        distinct_keys(s.update(i, (s[i].0, v))),
{
    let s2 = s.update(i, (s[i].0, v));
    assert forall|a: int, b: int| 0 <= a < b < s2.len() implies s2[a].0 != s2[b].0 by {
        assert(s2[a].0 == s[a].0);
        assert(s2[b].0 == s[b].0);
    }
}

/// Keys stay distinct when an absent key is appended.
pub proof fn lemma_distinct_push<K, V>(s: Seq<(K, V)>, e: (K, V))
    requires
        distinct_keys(s),
        lookup(s, e.0) is None,
    ensures
        distinct_keys(s.push(e)),
{
    lemma_lookup_is_some(s, e.0);
    let s2 = s.push(e);
    assert forall|a: int, b: int| 0 <= a < b < s2.len() implies s2[a].0 != s2[b].0 by {
        if b < s.len() {
            assert(s2[a] == s[a] && s2[b] == s[b]);
        } else {
            assert(s2[a] == s[a] && s2[b] == e);
        }
    }
}

/// Keys stay distinct when an entry is removed.
pub proof fn lemma_distinct_remove<K, V>(s: Seq<(K, V)>, i: int)
    requires
        distinct_keys(s),
        0 <= i < s.len(),
    ensures
        distinct_keys(s.remove(i)),
{
    let s2 = s.remove(i);
    assert forall|a: int, b: int| 0 <= a < b < s2.len() implies s2[a].0 != s2[b].0 by {
        let a0: int = if a < i { a } else { a + 1 };
        let b0: int = if b < i { b } else { b + 1 };
        assert(s2[a] == s[a0]);
        assert(s2[b] == s[b0]);
    }
}

/// The total of the values of a balance list.
pub open spec fn sum_vals<K>(s: Seq<(K, u128)>) -> int
    decreases s.len(),
{
    if s.len() == 0 {
        0
    } else {
        s[0].1 + sum_vals(s.skip(1))
    }
}

/// The total is never negative.
pub proof fn lemma_sum_nonneg<K>(s: Seq<(K, u128)>)
    ensures
        sum_vals(s) >= 0,
    decreases s.len(),
{
    if s.len() > 0 {
        lemma_sum_nonneg(s.skip(1));
    }
}

/// Each entry's value is at most the total.
pub proof fn lemma_sum_entry_bound<K>(s: Seq<(K, u128)>, i: int)
    requires
        0 <= i < s.len(),
    ensures
        s[i].1 <= sum_vals(s),
    decreases s.len(),
{
    if i == 0 {
        lemma_sum_nonneg(s.skip(1));
    } else {
        assert(s.skip(1)[i - 1] == s[i]);
        lemma_sum_entry_bound(s.skip(1), i - 1);
    }
}

/// A value found by lookup is at most the total.
pub proof fn lemma_lookup_le_sum<K>(s: Seq<(K, u128)>, k: K)
    requires
        lookup(s, k) is Some,
    ensures
        lookup(s, k)->Some_0 <= sum_vals(s),
    decreases s.len(),
{
    if s[0].0 == k {
        lemma_sum_nonneg(s.skip(1));
    } else {
        lemma_lookup_le_sum(s.skip(1), k);
        lemma_sum_nonneg(s.skip(1));
    }
}

/// Rebinding a value at entry `i` shifts the total by the difference.
pub proof fn lemma_sum_update<K>(s: Seq<(K, u128)>, i: int, v: u128)
    requires
        0 <= i < s.len(),
    ensures
        sum_vals(s.update(i, (s[i].0, v))) == sum_vals(s) - s[i].1 + v,
    decreases s.len(),
{
    let s2 = s.update(i, (s[i].0, v));
    if i == 0 {
        assert(s2[0] == (s[0].0, v));
        assert(s2.skip(1) =~= s.skip(1));
    } else {
        assert(s2[0] == s[0]);
        assert(s.skip(1).update(i - 1, (s.skip(1)[i - 1].0, v)) =~= s2.skip(1));
        lemma_sum_update(s.skip(1), i - 1, v);
    }
}

/// Appending an entry adds its value to the total.
pub proof fn lemma_sum_push<K>(s: Seq<(K, u128)>, e: (K, u128))
    ensures
        sum_vals(s.push(e)) == sum_vals(s) + e.1,
    decreases s.len(),
{
    if s.len() == 0 {
        assert(s.push(e)[0] == e);
        assert(s.push(e).skip(1) =~= Seq::<(K, u128)>::empty());
        assert(sum_vals(s.push(e)) == e.1 + sum_vals(s.push(e).skip(1)));
    } else {
        assert(s.push(e)[0] == s[0]);
        assert(s.push(e).skip(1) =~= s.skip(1).push(e));
        lemma_sum_push(s.skip(1), e);
        assert(sum_vals(s.push(e)) == s[0].1 + sum_vals(s.skip(1).push(e)));
    }
}

} // verus!
