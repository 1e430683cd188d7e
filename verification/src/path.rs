//! Path derivation: an object's canonical path is the `/`-joined sequence of
//! the names of its Domain-marked ancestors (outermost first) followed by the
//! object's own name. Paths are computed fresh on demand and never cached, so
//! they are correct under arbitrary renaming and reparenting.

use crate::error::PrefabError;
use crate::world::graph_wf;
use crate::world::ObjectModel;
use crate::world::World;
use vstd::prelude::*;

verus! {

/// The concatenation `name1/name2/.../namek/` of the names of the
/// Domain-marked ancestors of object `i`, outermost first, each followed by a
/// separator; `None` when a Domain-marked ancestor is unnamed.
pub open spec fn domain_prefix(w: Seq<ObjectModel>, i: int) -> Option<Seq<char>>
    decreases i,
{
    match w[i].parent {
        None => Some(Seq::empty()),
        Some(p) => if 0 <= p < i {
            match domain_prefix(w, p) {
                None => None,
                Some(pre) => if w[p].domain {
                    match w[p].name {
                        None => None,
                        Some(n) => Some(pre + n + seq!['/']),
                    }
                } else {
                    Some(pre)
                },
            }
        } else {
            None
        },
    }
}

/// The canonical path of object `i`: its ancestor-domain prefix followed by
/// its own name; `None` when the object or a Domain-marked ancestor is
/// unnamed.
pub open spec fn resolve_spec(w: Seq<ObjectModel>, i: int) -> Option<Seq<char>> {
    match w[i].name {
        None => None,
        Some(n) => match domain_prefix(w, i) {
            None => None,
            Some(pre) => Some(pre + n),
        },
    }
}

/// The names of the Domain-marked ancestors of object `i`, outermost first;
/// `None` when such an ancestor is unnamed.
pub open spec fn domain_names(w: Seq<ObjectModel>, i: int) -> Option<Seq<Seq<char>>>
    decreases i,
{
    match w[i].parent {
        None => Some(Seq::empty()),
        Some(p) => if 0 <= p < i {
            match domain_names(w, p) {
                None => None,
                Some(ds) => if w[p].domain {
                    match w[p].name {
                        None => None,
                        Some(n) => Some(ds.push(n)),
                    }
                } else {
                    Some(ds)
                },
            }
        } else {
            None
        },
    }
}

/// The `/`-joined concatenation of a list of names.
pub open spec fn join_path(names: Seq<Seq<char>>) -> Seq<char>
    decreases names.len(),
{
    if names.len() == 0 {
        Seq::empty()
    } else if names.len() == 1 {
        names[0]
    } else {
        join_path(names.drop_last()) + seq!['/'] + names.last()
    }
}

/// Each name followed by a separator, concatenated.
spec fn prefix_join(ds: Seq<Seq<char>>) -> Seq<char>
    decreases ds.len(),
{
    if ds.len() == 0 {
        Seq::empty()
    } else {
        prefix_join(ds.drop_last()) + ds.last() + seq!['/']
    }
}

/// A nonempty join splits at its last element.
proof fn lemma_join_last(s: Seq<Seq<char>>)
    requires
        s.len() > 0,
    ensures
        join_path(s) == prefix_join(s.drop_last()) + s.last(),
    decreases s.len(),
{
    if s.len() == 1 {
        assert(join_path(s) =~= prefix_join(s.drop_last()) + s.last());
    } else {
        lemma_join_last(s.drop_last());
        assert(join_path(s) =~= prefix_join(s.drop_last()) + s.last());
    }
}

/// The domain prefix is the prefix-joined list of domain names, and one is
/// defined exactly when the other is.
proof fn lemma_prefix_is_joined_names(w: Seq<ObjectModel>, i: int)
    ensures
        match domain_names(w, i) {
            Some(ds) => domain_prefix(w, i) == Some(prefix_join(ds)),
            None => domain_prefix(w, i) is None,
        },
    decreases i,
{
    match w[i].parent {
        None => {
            assert(prefix_join(Seq::<Seq<char>>::empty()) =~= Seq::<char>::empty());
        },
        Some(p) => {
            if 0 <= p < i {
                lemma_prefix_is_joined_names(w, p);
                match domain_names(w, p) {
                    Some(ds) => {
                        if w[p].domain {
                            match w[p].name {
                                Some(n) => {
                                    assert(ds.push(n).drop_last() =~= ds);
                                    assert(prefix_join(ds.push(n)) =~= prefix_join(ds) + n
                                        + seq!['/']);
                                },
                                None => {},
                            }
                        }
                    },
                    None => {},
                }
            }
        },
    }
}

/// Law: a resolvable object's canonical path is the `/`-joined sequence of
/// the names of its Domain-marked ancestors, outermost first, followed by the
/// object's own name.
pub proof fn lemma_resolve_is_joined_path(
    w: Seq<ObjectModel>,
    i: int,
    ds: Seq<Seq<char>>,
    n: Seq<char>,
)
    requires
        0 <= i < w.len(),
        w[i].name == Some(n),
        domain_names(w, i) == Some(ds),
    ensures
        resolve_spec(w, i) == Some(join_path(ds.push(n))),
{
    lemma_prefix_is_joined_names(w, i);
    lemma_join_last(ds.push(n));
    assert(ds.push(n).drop_last() =~= ds);
    assert(resolve_spec(w, i) == Some(prefix_join(ds) + n));
}

/// Two name lists that differ in exactly one position join to different
/// paths: every other part of the joined string has the same length, so the
/// changed name would have to reappear unchanged.
pub proof fn lemma_join_rename_differs(x: Seq<Seq<char>>, y: Seq<Seq<char>>, j: int)
    requires
        x.len() == y.len(),
        0 <= j < x.len(),
        x[j] != y[j],
        forall|k: int| 0 <= k < x.len() && k != j ==> x[k] == y[k],
    ensures
        join_path(x) != join_path(y),
    decreases x.len(),
{
    if x.len() == 1 {
        assert(join_path(x) == x[0]);
        assert(join_path(y) == y[0]);
    } else {
        let xl = x.drop_last();
        let yl = y.drop_last();
        assert(join_path(x) == join_path(xl) + seq!['/'] + x.last());
        assert(join_path(y) == join_path(yl) + seq!['/'] + y.last());
        if j == x.len() - 1 {
            assert(xl =~= yl);
            if join_path(x) == join_path(y) {
                let m = join_path(xl).len() as int;
                assert(x.last() =~= join_path(x).subrange(m + 1, join_path(x).len() as int));
                assert(y.last() =~= join_path(y).subrange(m + 1, join_path(y).len() as int));
                assert(false);
            }
        } else {
            assert(xl[j] != yl[j]);
            assert forall|k: int| 0 <= k < xl.len() && k != j implies xl[k] == yl[k] by {
                assert(x[k] == y[k]);
            }
            lemma_join_rename_differs(xl, yl, j);
            assert(x.last() == y.last());
            if join_path(x) == join_path(y) {
                let m = join_path(xl).len() as int;
                assert(join_path(x).len() == join_path(y).len());
                assert(join_path(xl).len() == join_path(yl).len());
                assert(join_path(xl) =~= join_path(x).subrange(0, m));
                assert(join_path(yl) =~= join_path(y).subrange(0, m));
                assert(false);
            }
        }
    }
}

/// Law: renaming exactly one link of a resolvable object's name chain — one
/// Domain-marked ancestor, or the object itself — to a different name
/// changes the resolved path.
pub proof fn lemma_rename_changes_resolution(
    w: Seq<ObjectModel>,
    ds: Seq<Seq<char>>,
    n: Seq<char>,
    w2: Seq<ObjectModel>,
    ds2: Seq<Seq<char>>,
    n2: Seq<char>,
    i: int,
    j: int,
)
    requires
        0 <= i < w.len(),
        0 <= i < w2.len(),
        w[i].name == Some(n),
        domain_names(w, i) == Some(ds),
        w2[i].name == Some(n2),
        domain_names(w2, i) == Some(ds2),
        ds.push(n).len() == ds2.push(n2).len(),
        0 <= j < ds.push(n).len(),
        ds.push(n)[j] != ds2.push(n2)[j],
        forall|k: int|
            0 <= k < ds.push(n).len() && k != j ==> ds.push(n)[k] == ds2.push(n2)[k],
    ensures
        resolve_spec(w, i) != resolve_spec(w2, i),
{
    lemma_resolve_is_joined_path(w, i, ds, n);
    lemma_resolve_is_joined_path(w2, i, ds2, n2);
    lemma_join_rename_differs(ds.push(n), ds2.push(n2), j);
}

/// Law: path computation fails exactly when the object itself, or one of its
/// Domain-marked ancestors, is unnamed.
pub proof fn lemma_resolve_none(w: Seq<ObjectModel>, i: int)
    ensures
        resolve_spec(w, i) is None <==> (w[i].name is None || domain_names(w, i) is None),
{
    lemma_prefix_is_joined_names(w, i);
}

/// The read-only path resolver over the host graph.
pub struct PrefabPaths<'w> {
    /// The graph whose ancestor chains and names are read.
    pub world: &'w World,
}

impl<'w> PrefabPaths<'w> {
    /// A resolver reading the given graph.
    pub fn new(world: &'w World) -> (r: PrefabPaths<'w>)
        ensures
            r.world == world,
    {
        PrefabPaths { world }
    }

    /// The `/`-terminated prefix contributed by the Domain-marked ancestors
    /// of `entity`, outermost first.
    fn domain_prefix_of(&self, entity: usize) -> (r: Result<String, PrefabError>)
        requires
            graph_wf(self.world@),
            entity < self.world@.len(),
        ensures
            match r {
                Ok(s) => domain_prefix(self.world@, entity as int) == Some(s@),
                Err(e) => domain_prefix(self.world@, entity as int) is None
                    && e is NameMissing,
            },
        decreases entity,
    {
        match self.world.objects[entity].parent {
            None => {
                Ok(String::new())
            },
            Some(p) => {
                let mut pre = match self.domain_prefix_of(p) {
                    Ok(s) => s,
                    Err(e) => {
                        return Err(e);
                    },
                };
                if self.world.objects[p].domain {
                    match &self.world.objects[p].name {
                        None => {
                            return Err(PrefabError::NameMissing);
                        },
                        Some(n) => {
                            pre.append(n.as_str());
                            pre.append("/");
                            proof {
                                reveal_strlit("/");
                                assert("/"@ =~= seq!['/']);
                            }
                            Ok(pre)
                        },
                    }
                } else {
                    Ok(pre)
                }
            },
        }
    }

    /// Computes the canonical path of `entity`, reading the graph as it
    /// stands now; fails with `NameMissing` when the object or one of its
    /// Domain-marked ancestors is unnamed.
    pub fn get_path(&self, entity: usize) -> (r: Result<String, PrefabError>)
        requires
            graph_wf(self.world@),
            entity < self.world@.len(),
        ensures
            match r {
                Ok(p) => resolve_spec(self.world@, entity as int) == Some(p@),
                Err(e) => resolve_spec(self.world@, entity as int) is None
                    && e is NameMissing,
            },
    {
        let mut pre = match self.domain_prefix_of(entity) {
            Ok(s) => s,
            Err(e) => {
                return Err(e);
            },
        };
        match &self.world.objects[entity].name {
            None => Err(PrefabError::NameMissing),
            Some(n) => {
                pre.append(n.as_str());
                Ok(pre)
            },
        }
    }
}

} // verus!
