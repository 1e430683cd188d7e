//! The lifecycle handlers: reactions to the three marker events that may
//! touch the registry. Each one computes paths with the resolver and is the
//! only code that writes the registry.

use crate::error::PrefabError;
use crate::path::resolve_spec;
use crate::path::PrefabPaths;
use crate::registry::registry_evict_prefix;
use crate::registry::registry_remove_value;
use crate::registry::PrefabRegistery;
use crate::world::graph_wf;
use crate::world::World;
use vstd::prelude::*;

verus! {

/// Handler for "prefab marker added to `entity`": computes the object's
/// canonical path and publishes the binding, superseding any earlier binding
/// of an equal path; on a naming failure the registry is left unchanged.
pub fn insert_prefab(
    world: &World,
    registry: &mut PrefabRegistery,
    entity: usize,
) -> (r: Result<(), PrefabError>)
    requires
        graph_wf(world@),
        entity < world@.len(),
        old(registry).inv(),
    ensures
        final(registry).inv(),
        match r {
            Ok(_) => resolve_spec(world@, entity as int) is Some
                && final(registry)@
                == old(registry)@.insert(resolve_spec(world@, entity as int)->0, entity),
            Err(e) => e is NameMissing
                && resolve_spec(world@, entity as int) is None
                && final(registry)@ == old(registry)@,
        },
{
    let paths = PrefabPaths::new(world);
    let path = match paths.get_path(entity) {
        Ok(p) => p,
        Err(e) => {
            return Err(e);
        },
    };
    registry.insert(path, entity);
    Ok(())
}

/// Handler for "prefab marker removed from `entity`": evicts every binding
/// currently mapped to the object, whatever path each was registered under;
/// a no-op when none is.
pub fn remove_prefab(registry: &mut PrefabRegistery, entity: usize)
    requires
        old(registry).inv(),
    ensures
        final(registry).inv(),
        final(registry)@ == registry_remove_value(old(registry)@, entity),
        forall|k: Seq<char>|
            final(registry)@.contains_key(k) <==> (#[trigger] old(registry)@.contains_key(k)
                && old(registry)@[k] != entity),
        forall|k: Seq<char>|
            #[trigger] final(registry)@.contains_key(k)
                ==> final(registry)@[k] == old(registry)@[k],
{
    registry.remove_value(entity);
}

/// Handler for "Domain marker removed from `entity`": resolves the domain's
/// path as the graph still shows it and evicts every binding whose path
/// starts with that path; on a naming failure nothing is evicted.
pub fn remove_domain(
    world: &World,
    registry: &mut PrefabRegistery,
    entity: usize,
) -> (r: Result<(), PrefabError>)
    requires
        graph_wf(world@),
        entity < world@.len(),
        old(registry).inv(),
    ensures
        final(registry).inv(),
        match r {
            Ok(_) => resolve_spec(world@, entity as int) is Some
                && final(registry)@
                == registry_evict_prefix(old(registry)@, resolve_spec(world@, entity as int)->0)
                && (forall|k: Seq<char>|
                final(registry)@.contains_key(k) <==> (#[trigger] old(registry)@.contains_key(k)
                    && !resolve_spec(world@, entity as int)->0.is_prefix_of(k)))
                && (forall|k: Seq<char>|
                #[trigger] final(registry)@.contains_key(k)
                    ==> final(registry)@[k] == old(registry)@[k]),
            Err(e) => e is NameMissing
                && resolve_spec(world@, entity as int) is None
                && final(registry)@ == old(registry)@,
        },
{
    let paths = PrefabPaths::new(world);
    let domain_path = match paths.get_path(entity) {
        Ok(p) => p,
        Err(e) => {
            return Err(e);
        },
    };
    registry.evict_prefix(domain_path.as_str());
    Ok(())
}

} // verus!
