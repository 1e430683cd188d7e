//! A model of the host object graph at the interface this system reads and
//! writes: objects with an optional name, at most one parent, the two marker
//! flags, and a set of plain data components keyed by kind.
//!
//! Parent handles always point at earlier-spawned objects, so the parent
//! relation is a forest and ancestor walks terminate.

use crate::assoc::assoc_map;
use crate::assoc::lemma_assoc_contains;
use crate::assoc::lemma_assoc_get;
use crate::assoc::lemma_assoc_push;
use crate::assoc::lemma_assoc_update;
use crate::assoc::unique_keys;
use vstd::prelude::*;

verus! {

/// The mathematical model of one object of the host graph.
#[verifier::ext_equal]
pub ghost struct ObjectModel {
    /// The object's human-readable name, if it has one.
    pub name: Option<Seq<char>>,
    /// The handle of the object's parent, if it has one.
    pub parent: Option<int>,
    /// Whether the object carries the Domain marker.
    pub domain: bool,
    /// Whether the object carries the prefab (template) marker.
    pub prefab: bool,
    /// The object's data components: kind -> value.
    pub components: Map<u64, u64>,
}

/// Every parent handle is a strictly smaller, valid handle, so the graph is
/// a forest and every ancestor chain is finite.
pub open spec fn graph_wf(w: Seq<ObjectModel>) -> bool {
    forall|i: int| 0 <= i < w.len() ==> match (#[trigger] w[i]).parent {
        Some(p) => 0 <= p < i,
        None => true,
    }
}

pub open spec fn opt_name_view(n: Option<String>) -> Option<Seq<char>> {
    match n {
        Some(s) => Some(s@),
        None => None,
    }
}

pub open spec fn opt_parent_view(p: Option<usize>) -> Option<int> {
    match p {
        Some(q) => Some(q as int),
        None => None,
    }
}

/// One object as stored: name, parent handle, marker flags, and the data
/// components as an association list with pairwise-distinct kinds.
pub struct ObjectData {
    pub(crate) name: Option<String>,
    pub(crate) parent: Option<usize>,
    pub(crate) domain: bool,
    pub(crate) prefab: bool,
    pub(crate) components: Vec<(u64, u64)>,
}

impl View for ObjectData {
    type V = ObjectModel;

    open(crate) spec fn view(&self) -> ObjectModel {
        ObjectModel {
            name: opt_name_view(self.name),
            parent: opt_parent_view(self.parent),
            domain: self.domain,
            prefab: self.prefab,
            components: assoc_map(self.components@),
        }
    }
}

/// The host graph: objects addressed by the handle they were spawned under.
pub struct World {
    pub(crate) objects: Vec<ObjectData>,
}

impl View for World {
    type V = Seq<ObjectModel>;

    open(crate) spec fn view(&self) -> Seq<ObjectModel> {
        self.objects@.map_values(|o: ObjectData| o@)
    }
}

impl World {
    /// Representation invariant: each object's component list has
    /// pairwise-distinct kinds.
    pub closed spec fn inv(&self) -> bool {
        forall|i: int|
            0 <= i < self.objects@.len() ==> unique_keys(
                (#[trigger] self.objects@[i]).components@,
            )
    }

    /// An empty graph.
    pub fn new() -> (w: World)
        ensures
            w.inv(),
            w@ == Seq::<ObjectModel>::empty(),
            graph_wf(w@),
    {
        let w = World { objects: Vec::new() };
        proof {
            assert(w@ =~= Seq::<ObjectModel>::empty());
        }
        w
    }

    /// The number of objects spawned so far.
    pub fn len(&self) -> (n: usize)
        ensures
            n == self@.len(),
    {
        self.objects.len()
    }

    /// Spawns a new object with the given name and parent and returns its
    /// handle. The object starts unmarked and without components.
    pub fn spawn(&mut self, name: Option<String>, parent: Option<usize>) -> (id: usize)
        requires
            old(self).inv(),
            graph_wf(old(self)@),
            match parent {
                Some(p) => p < old(self)@.len(),
                None => true,
            },
        ensures
            final(self).inv(),
            graph_wf(final(self)@),
            id == old(self)@.len(),
            final(self)@ == old(self)@.push(
                ObjectModel {
                    name: opt_name_view(name),
                    parent: opt_parent_view(parent),
                    domain: false,
                    prefab: false,
                    components: Map::empty(),
                },
            ),
    {
        let id = self.objects.len();
        let ghost m = ObjectModel {
            name: opt_name_view(name),
            parent: opt_parent_view(parent),
            domain: false,
            prefab: false,
            components: Map::empty(),
        };
        self.objects.push(
            ObjectData { name, parent, domain: false, prefab: false, components: Vec::new() },
        );
        proof {
            assert(self.objects@.last()@.components =~= Map::<u64, u64>::empty());
            assert(self@ =~~= old(self)@.push(m));
        }
        id
    }

    /// Renames (or unnames) an object; everything else about it is kept.
    pub fn set_name(&mut self, entity: usize, name: Option<String>)
        requires
            old(self).inv(),
            entity < old(self)@.len(),
        ensures
            final(self).inv(),
            final(self)@ == old(self)@.update(
                entity as int,
                ObjectModel { name: opt_name_view(name), ..old(self)@[entity as int] },
            ),
            graph_wf(old(self)@) ==> graph_wf(final(self)@),
    {
        let o = &mut self.objects[entity];
        o.name = name;
        proof {
            assert(self@ =~~= old(self)@.update(
                entity as int,
                ObjectModel { name: opt_name_view(name), ..old(self)@[entity as int] },
            ));
        }
    }

    /// Moves an object under a new parent (or to the root). The new parent
    /// must be an earlier-spawned object, which keeps the graph a forest.
    pub fn set_parent(&mut self, entity: usize, parent: Option<usize>)
        requires
            old(self).inv(),
            entity < old(self)@.len(),
            match parent {
                Some(p) => p < entity,
                None => true,
            },
        ensures
            final(self).inv(),
            final(self)@ == old(self)@.update(
                entity as int,
                ObjectModel { parent: opt_parent_view(parent), ..old(self)@[entity as int] },
            ),
            graph_wf(old(self)@) ==> graph_wf(final(self)@),
    {
        let o = &mut self.objects[entity];
        o.parent = parent;
        proof {
            assert(self@ =~~= old(self)@.update(
                entity as int,
                ObjectModel { parent: opt_parent_view(parent), ..old(self)@[entity as int] },
            ));
        }
    }

    /// Whether an object currently carries the Domain marker.
    pub fn is_domain(&self, entity: usize) -> (r: bool)
        requires
            entity < self@.len(),
        ensures
            r == self@[entity as int].domain,
    {
        self.objects[entity].domain
    }

    /// Whether an object currently carries the prefab marker.
    pub fn is_prefab(&self, entity: usize) -> (r: bool)
        requires
            entity < self@.len(),
        ensures
            r == self@[entity as int].prefab,
    {
        self.objects[entity].prefab
    }

    /// Sets or clears an object's Domain marker flag.
    pub(crate) fn set_domain_flag(&mut self, entity: usize, on: bool)
        requires
            old(self).inv(),
            entity < old(self)@.len(),
        ensures
            final(self).inv(),
            final(self)@ == old(self)@.update(
                entity as int,
                ObjectModel { domain: on, ..old(self)@[entity as int] },
            ),
            graph_wf(old(self)@) ==> graph_wf(final(self)@),
    {
        let o = &mut self.objects[entity];
        o.domain = on;
        proof {
            assert(self@ =~~= old(self)@.update(
                entity as int,
                ObjectModel { domain: on, ..old(self)@[entity as int] },
            ));
        }
    }

    /// Sets or clears an object's prefab marker flag.
    pub(crate) fn set_prefab_flag(&mut self, entity: usize, on: bool)
        requires
            old(self).inv(),
            entity < old(self)@.len(),
        ensures
            final(self).inv(),
            final(self)@ == old(self)@.update(
                entity as int,
                ObjectModel { prefab: on, ..old(self)@[entity as int] },
            ),
            graph_wf(old(self)@) ==> graph_wf(final(self)@),
    {
        let o = &mut self.objects[entity];
        o.prefab = on;
        proof {
            assert(self@ =~~= old(self)@.update(
                entity as int,
                ObjectModel { prefab: on, ..old(self)@[entity as int] },
            ));
        }
    }

    /// The position of an object's component of the given kind in its
    /// component list, if any.
    fn find_component_index(&self, entity: usize, kind: u64) -> (r: Option<usize>)
        requires
            entity < self@.len(),
        ensures
            match r {
                Some(i) => i < self.objects@[entity as int].components@.len()
                    && self.objects@[entity as int].components@[i as int].0 == kind,
                None => forall|j: int|
                    0 <= j < self.objects@[entity as int].components@.len()
                        ==> self.objects@[entity as int].components@[j].0 != kind,
            },
    {
        let ghost s = self.objects@[entity as int].components@;
        let n = self.objects[entity].components.len();
        let mut i: usize = 0;
        while i < n
            invariant
                entity < self.objects@.len(),
                s == self.objects@[entity as int].components@,
                n == s.len(),
                i <= n,
                forall|j: int| 0 <= j < i ==> s[j].0 != kind,
            decreases n - i,
        {
            if self.objects[entity].components[i].0 == kind {
                return Some(i);
            }
            i += 1;
        }
        None
    }

    /// Reads an object's data component of the given kind, if present.
    pub fn get_component(&self, entity: usize, kind: u64) -> (r: Option<u64>)
        requires
            self.inv(),
            entity < self@.len(),
        ensures
            r == if self@[entity as int].components.contains_key(kind) {
                Some(self@[entity as int].components[kind])
            } else {
                None::<u64>
            },
    {
        let ghost s = self.objects@[entity as int].components@;
        match self.find_component_index(entity, kind) {
            Some(i) => {
                proof {
                    lemma_assoc_get(s, i as int);
                }
                Some(self.objects[entity].components[i].1)
            },
            None => {
                proof {
                    lemma_assoc_contains(s, kind);
                }
                None
            },
        }
    }

    /// Writes an object's data component of the given kind, overwriting any
    /// same-kind component already present.
    pub fn insert_component(&mut self, entity: usize, kind: u64, value: u64)
        requires
            old(self).inv(),
            entity < old(self)@.len(),
        ensures
            final(self).inv(),
            final(self)@ == old(self)@.update(
                entity as int,
                ObjectModel {
                    components: old(self)@[entity as int].components.insert(kind, value),
                    ..old(self)@[entity as int]
                },
            ),
            graph_wf(old(self)@) ==> graph_wf(final(self)@),
    {
        let ghost target = ObjectModel {
            components: old(self)@[entity as int].components.insert(kind, value),
            ..old(self)@[entity as int]
        };
        let ghost s = self.objects@[entity as int].components@;
        match self.find_component_index(entity, kind) {
            Some(i) => {
                let o = &mut self.objects[entity];
                o.components[i] = (kind, value);
                proof {
                    assert(self.objects@[entity as int].components@ =~= s.update(
                        i as int,
                        (s[i as int].0, value),
                    ));
                    lemma_assoc_update(s, i as int, value);
                    assert(self.objects@[entity as int]@ =~~= target);
                    assert(self@ =~~= old(self)@.update(entity as int, target));
                }
            },
            None => {
                let o = &mut self.objects[entity];
                o.components.push((kind, value));
                proof {
                    assert(unique_keys(self.objects@[entity as int].components@));
                    lemma_assoc_push(s, kind, value);
                    assert(self.objects@[entity as int]@ =~~= target);
                    assert(self@ =~~= old(self)@.update(entity as int, target));
                }
            },
        }
    }

    /// Copies every data component of `src` onto `dst`, overwriting
    /// same-kind components already present and keeping the rest; `dst`'s
    /// name, parent and markers are untouched.
    pub(crate) fn clone_components(&mut self, src: usize, dst: usize)
        requires
            old(self).inv(),
            src < old(self)@.len(),
            dst < old(self)@.len(),
        ensures
            final(self).inv(),
            final(self)@ == old(self)@.update(
                dst as int,
                ObjectModel {
                    components: old(self)@[dst as int].components.union_prefer_right(
                        old(self)@[src as int].components,
                    ),
                    ..old(self)@[dst as int]
                },
            ),
            graph_wf(old(self)@) ==> graph_wf(final(self)@),
    {
        let ghost sc = self.objects@[src as int].components@;
        let ghost dst_m = old(self)@[dst as int].components;
        let mut tmpl: Vec<(u64, u64)> = Vec::new();
        let n = self.objects[src].components.len();
        let mut i: usize = 0;
        while i < n
            invariant
                *self == *old(self),
                src < self@.len(),
                sc == self.objects@[src as int].components@,
                n == sc.len(),
                i <= n,
                tmpl@ == sc.take(i as int),
            decreases n - i,
        {
            let e = self.objects[src].components[i];
            tmpl.push(e);
            proof {
                assert(tmpl@ =~= sc.take(i + 1));
            }
            i += 1;
        }
        proof {
            assert(tmpl@ =~= sc);
            assert(old(self)@[src as int].components == assoc_map(sc));
            assert(dst_m.union_prefer_right(assoc_map(sc.take(0))) =~= dst_m);
            assert(self@ =~~= old(self)@.update(
                dst as int,
                ObjectModel {
                    components: dst_m.union_prefer_right(assoc_map(sc.take(0))),
                    ..old(self)@[dst as int]
                },
            ));
        }
        let m = tmpl.len();
        let mut j: usize = 0;
        while j < m
            invariant
                self.inv(),
                dst < self@.len(),
                self@.len() == old(self)@.len(),
                m == tmpl@.len(),
                j <= m,
                tmpl@ == sc,
                self@ == old(self)@.update(
                    dst as int,
                    ObjectModel {
                        components: dst_m.union_prefer_right(assoc_map(sc.take(j as int))),
                        ..old(self)@[dst as int]
                    },
                ),
                graph_wf(old(self)@) ==> graph_wf(self@),
            decreases m - j,
        {
            let e = tmpl[j];
            self.insert_component(dst, e.0, e.1);
            proof {
                assert(sc.take(j + 1).drop_last() =~= sc.take(j as int));
                assert(sc.take(j + 1).last() == sc[j as int]);
                assert(assoc_map(sc.take(j + 1)) == assoc_map(sc.take(j as int)).insert(
                    e.0,
                    e.1,
                ));
                assert(dst_m.union_prefer_right(assoc_map(sc.take(j as int))).insert(e.0, e.1)
                    =~= dst_m.union_prefer_right(assoc_map(sc.take(j + 1))));
                assert(self@ =~~= old(self)@.update(
                    dst as int,
                    ObjectModel {
                        components: dst_m.union_prefer_right(assoc_map(sc.take(j + 1))),
                        ..old(self)@[dst as int]
                    },
                ));
            }
            j += 1;
        }
        proof {
            assert(sc.take(m as int) =~= sc);
            assert(self@ =~~= old(self)@.update(
                dst as int,
                ObjectModel {
                    components: dst_m.union_prefer_right(assoc_map(sc)),
                    ..old(self)@[dst as int]
                },
            ));
        }
    }
}

} // verus!
