//! The template registry: the single source of truth for what a canonical
//! path currently means. Externally it exposes lookup only; insertion and
//! removal are crate-private and driven exclusively by the lifecycle
//! handlers, which keeps the single-writer discipline.

use crate::assoc::assoc_map;
use crate::assoc::lemma_assoc_contains;
use crate::assoc::keep_key_not_prefixed;
use crate::assoc::keep_pairs;
use crate::assoc::keep_value_not;
use crate::assoc::lemma_assoc_filter;
use crate::assoc::lemma_assoc_get;
use crate::assoc::lemma_assoc_push;
use crate::assoc::lemma_assoc_update;
use crate::assoc::unique_keys;
use vstd::prelude::*;
use vstd::seq_lib::*;

verus! {

/// Every object handle the registry maps to is a valid handle of a graph
/// with `n` objects.
pub open spec fn registry_targets_valid(r: Map<Seq<char>, usize>, n: int) -> bool {
    forall|k: Seq<char>| #[trigger] r.contains_key(k) ==> 0 <= r[k] < n
}

/// The registry after every binding to `entity` is dropped.
pub open spec fn registry_remove_value(
    r: Map<Seq<char>, usize>,
    entity: usize,
) -> Map<Seq<char>, usize> {
    Map::new(|k: Seq<char>| r.contains_key(k) && r[k] != entity, |k: Seq<char>| r[k])
}

/// The registry after every binding whose path starts with `prefix` is
/// dropped.
pub open spec fn registry_evict_prefix(
    r: Map<Seq<char>, usize>,
    prefix: Seq<char>,
) -> Map<Seq<char>, usize> {
    Map::new(|k: Seq<char>| r.contains_key(k) && !prefix.is_prefix_of(k), |k: Seq<char>| r[k])
}

/// The stored pairs with their keys read as character sequences.
pub(crate) open spec fn entries_view(s: Seq<(String, usize)>) -> Seq<(Seq<char>, usize)> {
    s.map_values(|e: (String, usize)| (e.0@, e.1))
}

/// The path -> object index. At most one live binding per path at any
/// instant; a later insertion under an equal path supersedes the earlier one.
pub struct PrefabRegistery {
    entries: Vec<(String, usize)>,
}

impl View for PrefabRegistery {
    type V = Map<Seq<char>, usize>;

    closed spec fn view(&self) -> Map<Seq<char>, usize> {
        assoc_map(entries_view(self.entries@))
    }
}

impl PrefabRegistery {
    /// Representation invariant: stored paths are pairwise distinct.
    pub closed spec fn inv(&self) -> bool {
        unique_keys(entries_view(self.entries@))
    }

    /// An empty registry.
    pub fn new() -> (r: PrefabRegistery)
        ensures
            r.inv(),
            r@ == Map::<Seq<char>, usize>::empty(),
    {
        let r = PrefabRegistery { entries: Vec::new() };
        proof {
            assert(entries_view(r.entries@) =~= Seq::<(Seq<char>, usize)>::empty());
        }
        r
    }

    /// The position of the entry stored under `path`, if any.
    fn find_index(&self, path: &str) -> (r: Option<usize>)
        requires
            self.inv(),
        ensures
            match r {
                Some(i) => i < self.entries@.len() && self.entries@[i as int].0@ == path@,
                None => forall|j: int|
                    0 <= j < self.entries@.len() ==> self.entries@[j].0@ != path@,
            },
    {
        let p: String = path.to_owned();
        let n = self.entries.len();
        let mut i: usize = 0;
        while i < n
            invariant
                n == self.entries@.len(),
                p@ == path@,
                i <= n,
                forall|j: int| 0 <= j < i ==> self.entries@[j].0@ != path@,
            decreases n - i,
        {
            if self.entries[i].0 == p {
                return Some(i);
            }
            i += 1;
        }
        None
    }

    /// Looks a path up; the only externally visible operation.
    pub fn get(&self, path: &str) -> (r: Option<usize>)
        requires
            self.inv(),
        ensures
            r == if self@.contains_key(path@) {
                Some(self@[path@])
            } else {
                None::<usize>
            },
    {
        let ghost s = entries_view(self.entries@);
        match self.find_index(path) {
            Some(i) => {
                proof {
                    lemma_assoc_get(s, i as int);
                }
                Some(self.entries[i].1)
            },
            None => {
                proof {
                    lemma_assoc_contains(s, path@);
                }
                None
            },
        }
    }

    /// Binds `path` to `entity`, superseding any earlier binding of an equal
    /// path.
    pub(crate) fn insert(&mut self, path: String, entity: usize)
        requires
            old(self).inv(),
        ensures
            final(self).inv(),
            final(self)@ == old(self)@.insert(path@, entity),
    {
        let ghost s = entries_view(self.entries@);
        match self.find_index(path.as_str()) {
            Some(i) => {
                self.entries[i] = (path, entity);
                proof {
                    assert(entries_view(self.entries@) =~= s.update(
                        i as int,
                        (s[i as int].0, entity),
                    ));
                    lemma_assoc_update(s, i as int, entity);
                    assert(self@ =~= old(self)@.insert(path@, entity));
                }
            },
            None => {
                self.entries.push((path, entity));
                proof {
                    assert(entries_view(self.entries@) =~= s.push((path@, entity)));
                    assert(unique_keys(entries_view(self.entries@)));
                    lemma_assoc_push(s, path@, entity);
                }
            },
        }
    }

    /// Unbinds every path currently mapped to `entity`; a no-op when none
    /// is.
    #[verifier::rlimit(60)]
    pub(crate) fn remove_value(&mut self, entity: usize)
        requires
            old(self).inv(),
        ensures
            final(self).inv(),
            final(self)@ == registry_remove_value(old(self)@, entity),
            forall|k: Seq<char>|
                final(self)@.contains_key(k) <==> (#[trigger] old(self)@.contains_key(k)
                    && old(self)@[k] != entity),
            forall|k: Seq<char>|
                #[trigger] final(self)@.contains_key(k) ==> final(self)@[k] == old(self)@[k],
    {
        let ghost s = entries_view(self.entries@);
        let ghost keep = keep_value_not::<Seq<char>>(entity);
        let n = self.entries.len();
        let mut kept: Vec<(String, usize)> = Vec::new();
        let mut i: usize = 0;
        while i < n
            invariant
                old(self).inv(),
                s == entries_view(self.entries@),
                keep == keep_value_not::<Seq<char>>(entity),
                n == s.len(),
                i <= n,
                entries_view(kept@) == keep_pairs(s.take(i as int), keep),
            decreases n - i,
        {
            let ghost kv = entries_view(kept@);
            let keep_it = self.entries[i].1 != entity;
            if keep_it {
                let e = (self.entries[i].0.clone(), self.entries[i].1);
                proof {
                    assert((e.0@, e.1) == s[i as int]);
                }
                kept.push(e);
                proof {
                    assert(entries_view(kept@) =~= kv.push(s[i as int]));
                }
            }
            proof {
                assert(s.take(i + 1).drop_last() =~= s.take(i as int));
                assert(s.take(i + 1).last() == s[i as int]);
                assert(keep(s[i as int]) == keep_it);
                assert(entries_view(kept@) == keep_pairs(s.take(i + 1), keep));
            }
            i += 1;
        }
        self.entries = kept;
        proof {
            assert(s.take(n as int) =~= s);
            lemma_assoc_filter(s, keep);
            let rv = registry_remove_value(old(self)@, entity);
            assert forall|k: Seq<char>| #![auto] self@.contains_key(k)
                == rv.contains_key(k) by {
                assert(keep((k, assoc_map(s)[k])) == (assoc_map(s)[k] != entity));
            }
            assert forall|k: Seq<char>| #[trigger] self@.contains_key(k) implies self@[k]
                == rv[k] by {}
            assert(self@ =~= rv);
        }
    }

    /// Unbinds every path that starts with `prefix`; everything else stays.
    #[verifier::rlimit(60)]
    pub(crate) fn evict_prefix(&mut self, prefix: &str)
        requires
            old(self).inv(),
        ensures
            final(self).inv(),
            final(self)@ == registry_evict_prefix(old(self)@, prefix@),
            forall|k: Seq<char>|
                final(self)@.contains_key(k) <==> (#[trigger] old(self)@.contains_key(k)
                    && !prefix@.is_prefix_of(k)),
            forall|k: Seq<char>|
                #[trigger] final(self)@.contains_key(k) ==> final(self)@[k] == old(self)@[k],
    {
        let ghost s = entries_view(self.entries@);
        let ghost keep = keep_key_not_prefixed(prefix@);
        let n = self.entries.len();
        let mut kept: Vec<(String, usize)> = Vec::new();
        let mut i: usize = 0;
        while i < n
            invariant
                old(self).inv(),
                s == entries_view(self.entries@),
                keep == keep_key_not_prefixed(prefix@),
                n == s.len(),
                i <= n,
                entries_view(kept@) == keep_pairs(s.take(i as int), keep),
            decreases n - i,
        {
            let ghost kv = entries_view(kept@);
            let keep_it = !str_starts_with(self.entries[i].0.as_str(), prefix);
            if keep_it {
                let e = (self.entries[i].0.clone(), self.entries[i].1);
                proof {
                    assert((e.0@, e.1) == s[i as int]);
                }
                kept.push(e);
                proof {
                    assert(entries_view(kept@) =~= kv.push(s[i as int]));
                }
            }
            proof {
                assert(s.take(i + 1).drop_last() =~= s.take(i as int));
                assert(s.take(i + 1).last() == s[i as int]);
                assert(keep(s[i as int]) == keep_it);
                assert(entries_view(kept@) == keep_pairs(s.take(i + 1), keep));
            }
            i += 1;
        }
        self.entries = kept;
        proof {
            assert(s.take(n as int) =~= s);
            lemma_assoc_filter(s, keep);
            let rv = registry_evict_prefix(old(self)@, prefix@);
            assert forall|k: Seq<char>| #![auto] self@.contains_key(k)
                == rv.contains_key(k) by {
                assert(keep((k, assoc_map(s)[k])) == !prefix@.is_prefix_of(k));
            }
            assert forall|k: Seq<char>| #[trigger] self@.contains_key(k) implies self@[k]
                == rv[k] by {}
            assert(self@ =~= rv);
        }
    }
}

impl Default for PrefabRegistery {
    /// An empty registry.
    fn default() -> (r: Self)
        ensures
            r.inv(),
            r@ == Map::<Seq<char>, usize>::empty(),
    {
        PrefabRegistery::new()
    }
}

/// Law: when two registrations bind the same path, the path stays bound to
/// exactly one object — the later-registered one — and no other path is
/// disturbed.
pub proof fn lemma_collision_last_write_wins(
    r: Map<Seq<char>, usize>,
    p: Seq<char>,
    e1: usize,
    e2: usize,
)
    ensures
        r.insert(p, e1).insert(p, e2).contains_key(p),
        r.insert(p, e1).insert(p, e2)[p] == e2,
        forall|k: Seq<char>|
            k != p ==> #[trigger] r.insert(p, e1).insert(p, e2).contains_key(k)
                == r.contains_key(k),
        forall|k: Seq<char>|
            k != p && r.contains_key(k) ==> #[trigger] r.insert(p, e1).insert(p, e2)[k] == r[k],
{
}

/// Whether `s` starts with `prefix`, compared character by character.
pub fn str_starts_with(s: &str, prefix: &str) -> (r: bool)
    ensures
        r == prefix@.is_prefix_of(s@),
{
    let n = prefix.unicode_len();
    let m = s.unicode_len();
    if n > m {
        return false;
    }
    let mut i: usize = 0;
    while i < n
        invariant
            n == prefix@.len(),
            m == s@.len(),
            n <= m,
            i <= n,
            forall|j: int| 0 <= j < i ==> s@[j] == prefix@[j],
        decreases n - i,
    {
        if s.get_char(i) != prefix.get_char(i) {
            proof {
                assert(s@.subrange(0, n as int)[i as int] != prefix@[i as int]);
            }
            return false;
        }
        i += 1;
    }
    proof {
        assert(s@.subrange(0, n as int) =~= prefix@);
    }
    true
}

} // verus!
