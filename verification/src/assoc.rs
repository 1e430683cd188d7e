//! Association lists viewed as maps.
//!
//! Both the registry (path -> object) and each object's component set
//! (kind -> value) are stored as vectors of pairs with pairwise-distinct
//! keys; their mathematical model is the `Map` built by inserting the pairs
//! in order.

use vstd::prelude::*;

verus! {

/// The map holding exactly the pairs of `s`, later pairs overriding earlier
/// ones on an equal key.
pub open spec fn assoc_map<K, V>(s: Seq<(K, V)>) -> Map<K, V>
    decreases s.len(),
{
    if s.len() == 0 {
        Map::empty()
    } else {
        assoc_map(s.drop_last()).insert(s.last().0, s.last().1)
    }
}

/// The keys of `s` are pairwise distinct.
pub open spec fn unique_keys<K, V>(s: Seq<(K, V)>) -> bool {
    forall|i: int, j: int| 0 <= i < j < s.len() ==> s[i].0 != s[j].0
}

/// A key is in the map exactly when some pair of the list carries it.
pub proof fn lemma_assoc_contains<K, V>(s: Seq<(K, V)>, k: K)
    ensures
        assoc_map(s).contains_key(k) <==> (exists|i: int| 0 <= i < s.len() && s[i].0 == k),
    decreases s.len(),
{
    if s.len() > 0 {
        lemma_assoc_contains(s.drop_last(), k);
        if s.last().0 == k {
            assert(s[s.len() - 1].0 == k);
        } else if assoc_map(s).contains_key(k) {
            let i = choose|i: int| 0 <= i < s.drop_last().len() && s.drop_last()[i].0 == k;
            assert(s[i].0 == k);
        } else if exists|i: int| 0 <= i < s.len() && s[i].0 == k {
            let i = choose|i: int| 0 <= i < s.len() && s[i].0 == k;
            assert(s.drop_last()[i].0 == k);
        }
    }
}

/// With distinct keys, the map sends each listed key to the value paired
/// with it.
pub proof fn lemma_assoc_get<K, V>(s: Seq<(K, V)>, i: int)
    requires
        unique_keys(s),
        0 <= i < s.len(),
    ensures
        assoc_map(s).contains_key(s[i].0),
        assoc_map(s)[s[i].0] == s[i].1,
    decreases s.len(),
{
    if i == s.len() - 1 {
    } else {
        assert(s.drop_last()[i] == s[i]);
        lemma_assoc_get(s.drop_last(), i);
        assert(s[s.len() - 1].0 != s[i].0);
    }
}

/// Appending a pair inserts it into the map.
pub proof fn lemma_assoc_push<K, V>(s: Seq<(K, V)>, k: K, v: V)
    ensures
        assoc_map(s.push((k, v))) == assoc_map(s).insert(k, v),
{
    assert(s.push((k, v)).drop_last() =~= s);
}

/// Updating the value at position `i` updates the map at that pair's key.
pub proof fn lemma_assoc_update<K, V>(s: Seq<(K, V)>, i: int, v: V)
    requires
        unique_keys(s),
        0 <= i < s.len(),
    ensures
        assoc_map(s.update(i, (s[i].0, v))) =~= assoc_map(s).insert(s[i].0, v),
    decreases s.len(),
{
    let t = s.update(i, (s[i].0, v));
    assert(unique_keys(t));
    lemma_assoc_get(t, i);
    assert forall|k: K| #[trigger] assoc_map(t).contains_key(k)
        <==> assoc_map(s).insert(s[i].0, v).contains_key(k) by {
        lemma_assoc_contains(t, k);
        lemma_assoc_contains(s, k);
        assert forall|j: int| 0 <= j < s.len() implies (t[j].0 == k <==> s[j].0 == k) by {}
    }
    assert forall|k: K| assoc_map(t).contains_key(k) implies #[trigger] assoc_map(t)[k]
        == assoc_map(s).insert(s[i].0, v)[k] by {
        lemma_assoc_contains(t, k);
        let j = choose|j: int| 0 <= j < t.len() && t[j].0 == k;
        lemma_assoc_get(t, j);
        if j != i {
            assert(s[j] == t[j]);
            lemma_assoc_get(s, j);
        }
    }
}

/// The pairs of `s` satisfying `keep`, in order.
pub open spec fn keep_pairs<K, V>(s: Seq<(K, V)>, keep: spec_fn((K, V)) -> bool) -> Seq<(K, V)>
    decreases s.len(),
{
    if s.len() == 0 {
        s
    } else {
        let rest = keep_pairs(s.drop_last(), keep);
        if keep(s.last()) {
            rest.push(s.last())
        } else {
            rest
        }
    }
}

/// Keeping exactly the pairs satisfying `keep` restricts the map to the
/// listed keys whose bindings satisfy it, preserving their values.
pub proof fn lemma_assoc_filter<K, V>(s: Seq<(K, V)>, keep: spec_fn((K, V)) -> bool)
    requires
        unique_keys(s),
    ensures
        unique_keys(keep_pairs(s, keep)),
        forall|k: K|
            #[trigger] assoc_map(keep_pairs(s, keep)).contains_key(k) <==> (assoc_map(
                s,
            ).contains_key(k) && keep((k, assoc_map(s)[k]))),
        forall|k: K|
            #[trigger] assoc_map(keep_pairs(s, keep)).contains_key(k) ==> assoc_map(keep_pairs(s, keep))[k]
                == assoc_map(s)[k],
    decreases s.len(),
{
    if s.len() == 0 {
        assert(keep_pairs(s, keep) =~= s);
    } else {
        let s1 = s.drop_last();
        let p = s.last();
        lemma_assoc_filter(s1, keep);
        lemma_assoc_contains(s1, p.0);
        assert(!assoc_map(s1).contains_key(p.0));
        let f = keep_pairs(s, keep);
        let f1 = keep_pairs(s1, keep);
        assert(f == (if keep(p) {
            f1.push(p)
        } else {
            f1
        }));
        assert(assoc_map(s) == assoc_map(s1).insert(p.0, p.1));
        if keep(p) {
            lemma_assoc_contains(f1, p.0);
            assert(!assoc_map(f1).contains_key(p.0));
            assert forall|j: int| 0 <= j < f1.len() implies (#[trigger] f1[j]).0 != p.0 by {
                lemma_assoc_get(f1, j);
            }
            assert(unique_keys(f));
            lemma_assoc_push(f1, p.0, p.1);
            assert(assoc_map(f) == assoc_map(f1).insert(p.0, p.1));
            assert forall|k: K|
                #[trigger] assoc_map(f).contains_key(k) <==> (assoc_map(s).contains_key(k)
                    && keep((k, assoc_map(s)[k]))) by {
                if k == p.0 {
                    assert(assoc_map(f).contains_key(k));
                    assert(assoc_map(s).contains_key(k));
                    assert(assoc_map(s)[k] == p.1);
                } else {
                    assert(assoc_map(f).contains_key(k) == assoc_map(f1).contains_key(k));
                    assert(assoc_map(s).contains_key(k) == assoc_map(s1).contains_key(k));
                    if assoc_map(s).contains_key(k) {
                        assert(assoc_map(s)[k] == assoc_map(s1)[k]);
                    }
                }
            }
            assert forall|k: K| #[trigger]
                assoc_map(f).contains_key(k) implies assoc_map(f)[k] == assoc_map(s)[k] by {
                if k != p.0 {
                    assert(assoc_map(f1).contains_key(k));
                    assert(assoc_map(s1).contains_key(k));
                    assert(assoc_map(f)[k] == assoc_map(f1)[k]);
                    assert(assoc_map(f1)[k] == assoc_map(s1)[k]);
                    assert(assoc_map(s)[k] == assoc_map(s1)[k]);
                }
            }
        } else {
            assert(f == f1);
            assert forall|k: K|
                #[trigger] assoc_map(f).contains_key(k) <==> (assoc_map(s).contains_key(k)
                    && keep((k, assoc_map(s)[k]))) by {
                if k == p.0 {
                    assert(assoc_map(s)[k] == p.1);
                    assert(!keep((k, assoc_map(s)[k])));
                    assert(!assoc_map(f1).contains_key(k));
                } else {
                    assert(assoc_map(s).contains_key(k) == assoc_map(s1).contains_key(k));
                    if assoc_map(s).contains_key(k) {
                        assert(assoc_map(s)[k] == assoc_map(s1)[k]);
                    }
                }
            }
            assert forall|k: K| #[trigger]
                assoc_map(f).contains_key(k) implies assoc_map(f)[k] == assoc_map(s)[k] by {
                assert(assoc_map(s1).contains_key(k));
                assert(k != p.0);
                assert(assoc_map(s)[k] == assoc_map(s1)[k]);
            }
        }
    }
}

/// The pairs whose value differs from `entity`.
pub open spec fn keep_value_not<K>(entity: usize) -> spec_fn((K, usize)) -> bool {
    |e: (K, usize)| e.1 != entity
}

/// The pairs whose key does not start with `prefix`.
pub open spec fn keep_key_not_prefixed(prefix: Seq<char>) -> spec_fn(
    (Seq<char>, usize),
) -> bool {
    |e: (Seq<char>, usize)| !prefix.is_prefix_of(e.0)
}

} // verus!
