//! The deferred-command protocol. Structural mutations — marker changes and
//! the two instantiation requests — are queued during the parallel phase and
//! applied in queue order at a synchronization point, where the graph and
//! the registry are exclusively accessible. A request is consumed by its one
//! processing pass whether it succeeds or fails, and a failure never blocks
//! the commands queued after it.

use crate::error::ErrModel;
use crate::error::PrefabError;
use crate::error::PrefabPathCouldNotBeResolved;
use crate::lifecycle::insert_prefab;
use crate::lifecycle::remove_domain;
use crate::lifecycle::remove_prefab;
use crate::path::resolve_spec;
use crate::registry::registry_evict_prefix;
use crate::registry::registry_remove_value;
use crate::registry::registry_targets_valid;
use crate::registry::PrefabRegistery;
use crate::world::graph_wf;
use crate::world::ObjectModel;
use crate::world::World;
use vstd::prelude::*;

verus! {

/// A request to deep-copy the data components of the template registered
/// under the carried path onto the object the request is attached to.
pub struct CloneFromPrefab(pub String);

impl CloneFromPrefab {
    /// A clone request for the template at `value`.
    pub fn new(value: String) -> (r: Self)
        ensures
            r.0 == value,
    {
        CloneFromPrefab(value)
    }
}

/// A request to attach a relationship component of the carried kind,
/// pointing the object the request is attached to at the template registered
/// under the carried path.
pub struct ReferencePrefab(pub String, pub u64);

impl ReferencePrefab {
    /// A reference request for the template at `path`, to be recorded as a
    /// relationship component of kind `relation`.
    pub fn new(path: String, relation: u64) -> (r: Self)
        ensures
            r.0 == path,
            r.1 == relation,
    {
        ReferencePrefab(path, relation)
    }
}

/// One deferred structural mutation, applied at the next synchronization
/// point.
pub enum PrefabCommand {
    /// The prefab marker is added to the object; its path is then computed
    /// and published.
    AddPrefabMarker(usize),
    /// The prefab marker is removed; every binding to the object is evicted.
    RemovePrefabMarker(usize),
    /// The Domain marker is added; the registry is untouched.
    AddDomainMarker(usize),
    /// The Domain marker is removed; every binding under the domain's path
    /// is evicted.
    RemoveDomainMarker(usize),
    /// A clone request was attached to the object.
    RequestClone(usize, CloneFromPrefab),
    /// A reference request was attached to the object.
    RequestReference(usize, ReferencePrefab),
}

/// The object handles a command names are valid handles of a graph with `n`
/// objects.
pub open spec fn cmd_valid(c: PrefabCommand, n: int) -> bool {
    match c {
        PrefabCommand::AddPrefabMarker(e) => e < n,
        PrefabCommand::RemovePrefabMarker(e) => e < n,
        PrefabCommand::AddDomainMarker(e) => e < n,
        PrefabCommand::RemoveDomainMarker(e) => e < n,
        PrefabCommand::RequestClone(t, _) => t < n,
        PrefabCommand::RequestReference(t, _) => t < n,
    }
}

/// The graph and registry after one deferred command is applied.
pub open spec fn step_state(
    w: Seq<ObjectModel>,
    r: Map<Seq<char>, usize>,
    c: PrefabCommand,
) -> (Seq<ObjectModel>, Map<Seq<char>, usize>) {
    match c {
        PrefabCommand::AddPrefabMarker(e) => {
            let w1 = w.update(e as int, ObjectModel { prefab: true, ..w[e as int] });
            match resolve_spec(w1, e as int) {
                Some(p) => (w1, r.insert(p, e)),
                None => (w1, r),
            }
        },
        PrefabCommand::RemovePrefabMarker(e) => (
            w.update(e as int, ObjectModel { prefab: false, ..w[e as int] }),
            registry_remove_value(r, e),
        ),
        PrefabCommand::AddDomainMarker(e) => (
            w.update(e as int, ObjectModel { domain: true, ..w[e as int] }),
            r,
        ),
        PrefabCommand::RemoveDomainMarker(e) => {
            let w1 = w.update(e as int, ObjectModel { domain: false, ..w[e as int] });
            match resolve_spec(w, e as int) {
                Some(p) => (w1, registry_evict_prefix(r, p)),
                None => (w1, r),
            }
        },
        PrefabCommand::RequestClone(t, req) => {
            if r.contains_key(req.0@) {
                let src = r[req.0@] as int;
                (
                    w.update(
                        t as int,
                        ObjectModel {
                            components: w[t as int].components.union_prefer_right(
                                w[src].components,
                            ),
                            ..w[t as int]
                        },
                    ),
                    r,
                )
            } else {
                (w, r)
            }
        },
        PrefabCommand::RequestReference(t, req) => {
            if r.contains_key(req.0@) {
                (
                    w.update(
                        t as int,
                        ObjectModel {
                            components: w[t as int].components.insert(
                                req.1,
                                r[req.0@] as u64,
                            ),
                            ..w[t as int]
                        },
                    ),
                    r,
                )
            } else {
                (w, r)
            }
        },
    }
}

/// What one deferred command reports: nothing on success, the failure
/// otherwise.
pub open spec fn step_err(
    w: Seq<ObjectModel>,
    r: Map<Seq<char>, usize>,
    c: PrefabCommand,
) -> Option<ErrModel> {
    match c {
        PrefabCommand::AddPrefabMarker(e) => {
            let w1 = w.update(e as int, ObjectModel { prefab: true, ..w[e as int] });
            if resolve_spec(w1, e as int) is None {
                Some(ErrModel::NameMissing)
            } else {
                None
            }
        },
        PrefabCommand::RemovePrefabMarker(_) => None,
        PrefabCommand::AddDomainMarker(_) => None,
        PrefabCommand::RemoveDomainMarker(e) => {
            if resolve_spec(w, e as int) is None {
                Some(ErrModel::NameMissing)
            } else {
                None
            }
        },
        PrefabCommand::RequestClone(_, req) => {
            if r.contains_key(req.0@) {
                None
            } else {
                Some(ErrModel::Unresolved { path: req.0@ })
            }
        },
        PrefabCommand::RequestReference(_, req) => {
            if r.contains_key(req.0@) {
                None
            } else {
                Some(ErrModel::Unresolved { path: req.0@ })
            }
        },
    }
}

/// The graph and registry after a queue of commands runs front to back.
pub open spec fn run_state(
    w: Seq<ObjectModel>,
    r: Map<Seq<char>, usize>,
    cs: Seq<PrefabCommand>,
) -> (Seq<ObjectModel>, Map<Seq<char>, usize>)
    decreases cs.len(),
{
    if cs.len() == 0 {
        (w, r)
    } else {
        let s1 = step_state(w, r, cs[0]);
        run_state(s1.0, s1.1, cs.drop_first())
    }
}

/// The failures a queue of commands reports, in queue order.
pub open spec fn run_errs(
    w: Seq<ObjectModel>,
    r: Map<Seq<char>, usize>,
    cs: Seq<PrefabCommand>,
) -> Seq<ErrModel>
    decreases cs.len(),
{
    if cs.len() == 0 {
        Seq::empty()
    } else {
        let s1 = step_state(w, r, cs[0]);
        let rest = run_errs(s1.0, s1.1, cs.drop_first());
        match step_err(w, r, cs[0]) {
            Some(e) => seq![e] + rest,
            None => rest,
        }
    }
}

/// Running one more command steps the state the queue reached, and appends
/// that step's report, if any.
pub proof fn lemma_run_push(
    w: Seq<ObjectModel>,
    r: Map<Seq<char>, usize>,
    cs: Seq<PrefabCommand>,
    c: PrefabCommand,
)
    ensures
        run_state(w, r, cs.push(c)) == step_state(
            run_state(w, r, cs).0,
            run_state(w, r, cs).1,
            c,
        ),
        run_errs(w, r, cs.push(c)) == run_errs(w, r, cs) + match step_err(
            run_state(w, r, cs).0,
            run_state(w, r, cs).1,
            c,
        ) {
            Some(e) => seq![e],
            None => Seq::<ErrModel>::empty(),
        },
    decreases cs.len(),
{
    if cs.len() == 0 {
        assert(cs.push(c)[0] == c);
        assert(cs.push(c).drop_first() =~= Seq::<PrefabCommand>::empty());
        let s1 = step_state(w, r, c);
        assert(run_state(s1.0, s1.1, cs.push(c).drop_first()) == s1);
        assert(run_errs(s1.0, s1.1, cs.push(c).drop_first()) == Seq::<ErrModel>::empty());
        assert(run_state(w, r, cs) == (w, r));
        assert(run_errs(w, r, cs) == Seq::<ErrModel>::empty());
        assert(run_errs(w, r, cs.push(c)) =~= run_errs(w, r, cs) + match step_err(w, r, c) {
            Some(e) => seq![e],
            None => Seq::<ErrModel>::empty(),
        });
    } else {
        let s1 = step_state(w, r, cs[0]);
        assert(cs.push(c)[0] == cs[0]);
        assert(cs.push(c).drop_first() =~= cs.drop_first().push(c));
        lemma_run_push(s1.0, s1.1, cs.drop_first(), c);
        let tail = run_state(s1.0, s1.1, cs.drop_first());
        assert(run_state(w, r, cs) == tail);
        assert(run_errs(w, r, cs.push(c)) =~= run_errs(w, r, cs) + match step_err(
            tail.0,
            tail.1,
            c,
        ) {
            Some(e) => seq![e],
            None => Seq::<ErrModel>::empty(),
        });
    }
}

/// Law: a clone request queued after the registration of its template
/// resolves within the same synchronization pass — the registration's
/// registry insertion runs first, so the later-queued request finds it. The
/// pass reports no failure and the target ends up with its own components
/// overlaid by the template's.
pub proof fn lemma_register_then_clone(
    w: Seq<ObjectModel>,
    r: Map<Seq<char>, usize>,
    cs: Seq<PrefabCommand>,
    e: usize,
    t: usize,
    p: Seq<char>,
)
    requires
        0 <= e < w.len(),
        0 <= t < w.len(),
        cs.len() == 2,
        cs[0] == PrefabCommand::AddPrefabMarker(e),
        cs[1] matches PrefabCommand::RequestClone(t2, req) && t2 == t && req.0@ == p,
        resolve_spec(w.update(e as int, ObjectModel { prefab: true, ..w[e as int] }), e as int)
            == Some(p),
    ensures
        run_errs(w, r, cs) == Seq::<ErrModel>::empty(),
        run_state(w, r, cs).0[t as int].components == w[t as int].components.union_prefer_right(
            w[e as int].components,
        ),
{
    let w1 = w.update(e as int, ObjectModel { prefab: true, ..w[e as int] });
    let r1 = r.insert(p, e);
    assert(step_state(w, r, cs[0]) == (w1, r1));
    assert(step_err(w, r, cs[0]) is None);
    let tail = cs.drop_first();
    assert(tail[0] == cs[1]);
    assert(tail.drop_first() =~= Seq::<PrefabCommand>::empty());
    assert(r1.contains_key(p) && r1[p] == e);
    let w2 = step_state(w1, r1, cs[1]).0;
    assert(step_err(w1, r1, cs[1]) is None);
    assert(w2[t as int].components == w1[t as int].components.union_prefer_right(
        w1[e as int].components,
    ));
    assert(w1[t as int].components == w[t as int].components);
    assert(w1[e as int].components == w[e as int].components);
    let s2 = step_state(w1, r1, cs[1]);
    assert(run_state(w, r, cs) == run_state(w1, r1, tail));
    assert(run_state(w1, r1, tail) == run_state(s2.0, s2.1, tail.drop_first()));
    assert(run_state(s2.0, s2.1, tail.drop_first()) == s2);
    assert(run_state(w, r, cs).0 == w2);
    assert(run_errs(w, r, cs) == run_errs(w1, r1, tail));
    assert(run_errs(w1, r1, tail) == run_errs(s2.0, s2.1, tail.drop_first()));
    assert(run_errs(s2.0, s2.1, tail.drop_first()) == Seq::<ErrModel>::empty());
}

/// Applies one deferred command against the graph and the registry,
/// reporting its failure, if any. The registry changes only through the
/// lifecycle handlers, and a request is resolved against the registry as it
/// stands when the command runs.
pub fn apply_command(world: &mut World, registry: &mut PrefabRegistery, cmd: &PrefabCommand) -> (r:
    Result<(), PrefabError>)
    requires
        old(world).inv(),
        graph_wf(old(world)@),
        old(registry).inv(),
        registry_targets_valid(old(registry)@, old(world)@.len() as int),
        cmd_valid(*cmd, old(world)@.len() as int),
    ensures
        final(world).inv(),
        graph_wf(final(world)@),
        final(registry).inv(),
        final(world)@.len() == old(world)@.len(),
        registry_targets_valid(final(registry)@, final(world)@.len() as int),
        (final(world)@, final(registry)@) == step_state(old(world)@, old(registry)@, *cmd),
        match r {
            Ok(_) => step_err(old(world)@, old(registry)@, *cmd) is None,
            Err(e) => step_err(old(world)@, old(registry)@, *cmd) == Some(e@),
        },
{
    match cmd {
        PrefabCommand::AddPrefabMarker(e) => {
            world.set_prefab_flag(*e, true);
            let res = insert_prefab(world, registry, *e);
            proof {
                if res is Ok {
                    assert forall|k: Seq<char>| #[trigger]
                        registry@.contains_key(k) implies 0 <= registry@[k]
                        < world@.len() by {}
                }
            }
            res
        },
        PrefabCommand::RemovePrefabMarker(e) => {
            world.set_prefab_flag(*e, false);
            remove_prefab(registry, *e);
            Ok(())
        },
        PrefabCommand::AddDomainMarker(e) => {
            world.set_domain_flag(*e, true);
            Ok(())
        },
        PrefabCommand::RemoveDomainMarker(e) => {
            let res = remove_domain(world, registry, *e);
            world.set_domain_flag(*e, false);
            res
        },
        PrefabCommand::RequestClone(t, req) => {
            match registry.get(req.0.as_str()) {
                Some(src) => {
                    proof {
                        assert(registry@.contains_key(req.0@));
                    }
                    world.clone_components(src, *t);
                    Ok(())
                },
                None => Err(
                    PrefabError::PathCouldNotBeResolved(
                        PrefabPathCouldNotBeResolved(req.0.clone()),
                    ),
                ),
            }
        },
        PrefabCommand::RequestReference(t, req) => {
            match registry.get(req.0.as_str()) {
                Some(src) => {
                    proof {
                        assert(registry@.contains_key(req.0@));
                    }
                    world.insert_component(*t, req.1, src as u64);
                    Ok(())
                },
                None => Err(
                    PrefabError::PathCouldNotBeResolved(
                        PrefabPathCouldNotBeResolved(req.0.clone()),
                    ),
                ),
            }
        },
    }
}

/// Applies a whole queue of deferred commands in the order they were queued,
/// collecting the reported failures in that order; a failed command never
/// blocks the ones after it.
pub fn apply_commands(
    world: &mut World,
    registry: &mut PrefabRegistery,
    queue: &Vec<PrefabCommand>,
) -> (errs: Vec<PrefabError>)
    requires
        old(world).inv(),
        graph_wf(old(world)@),
        old(registry).inv(),
        registry_targets_valid(old(registry)@, old(world)@.len() as int),
        forall|i: int|
            0 <= i < queue@.len() ==> cmd_valid(#[trigger] queue@[i], old(world)@.len() as int),
    ensures
        final(world).inv(),
        graph_wf(final(world)@),
        final(registry).inv(),
        final(world)@.len() == old(world)@.len(),
        registry_targets_valid(final(registry)@, final(world)@.len() as int),
        (final(world)@, final(registry)@) == run_state(old(world)@, old(registry)@, queue@),
        errs@.map_values(|e: PrefabError| e@) == run_errs(old(world)@, old(registry)@, queue@),
{
    let mut errs: Vec<PrefabError> = Vec::new();
    let n = queue.len();
    let mut i: usize = 0;
    proof {
        assert(queue@.take(0) =~= Seq::<PrefabCommand>::empty());
        assert(errs@.map_values(|e: PrefabError| e@) =~= Seq::<ErrModel>::empty());
    }
    while i < n
        invariant
            world.inv(),
            graph_wf(world@),
            registry.inv(),
            world@.len() == old(world)@.len(),
            registry_targets_valid(registry@, world@.len() as int),
            n == queue@.len(),
            i <= n,
            forall|j: int|
                0 <= j < queue@.len() ==> cmd_valid(#[trigger] queue@[j], old(world)@.len() as int),
            (world@, registry@) == run_state(old(world)@, old(registry)@, queue@.take(i as int)),
            errs@.map_values(|e: PrefabError| e@) == run_errs(
                old(world)@,
                old(registry)@,
                queue@.take(i as int),
            ),
        decreases n - i,
    {
        let ghost pre = errs@.map_values(|e: PrefabError| e@);
        let res = apply_command(world, registry, &queue[i]);
        proof {
            lemma_run_push(old(world)@, old(registry)@, queue@.take(i as int), queue@[i as int]);
            assert(queue@.take(i + 1) =~= queue@.take(i as int).push(queue@[i as int]));
        }
        match res {
            Ok(_) => {
                proof {
                    assert(errs@.map_values(|e: PrefabError| e@) =~= run_errs(
                        old(world)@,
                        old(registry)@,
                        queue@.take(i + 1),
                    ));
                }
            },
            Err(e) => {
                errs.push(e);
                proof {
                    assert(errs@.map_values(|e: PrefabError| e@) =~= pre.push(e@));
                    assert(errs@.map_values(|e: PrefabError| e@) =~= run_errs(
                        old(world)@,
                        old(registry)@,
                        queue@.take(i + 1),
                    ));
                }
            },
        }
        i += 1;
    }
    proof {
        assert(queue@.take(n as int) =~= queue@);
    }
    errs
}

} // verus!
