//! A prefab (template) registry over a hierarchical object graph.
//!
//! Objects live in a forest; an object marked as a `Domain` contributes its
//! name to the slash-delimited paths of the templates below it, and an object
//! marked as a prefab is published into a path-keyed registry. Instantiation
//! requests (`CloneFromPrefab`, `ReferencePrefab`) are queued as deferred
//! commands and resolved against the registry at a synchronization point, in
//! the order they were queued.

mod assoc;
mod commands;
mod error;
mod lifecycle;
mod path;
mod registry;
mod world;

pub use commands::apply_command;
pub use commands::apply_commands;
pub use commands::cmd_valid;
pub use commands::lemma_register_then_clone;
pub use commands::lemma_run_push;
pub use commands::run_errs;
pub use commands::run_state;
pub use commands::step_err;
pub use commands::step_state;
pub use commands::CloneFromPrefab;
pub use commands::PrefabCommand;
pub use commands::ReferencePrefab;
pub use error::ErrModel;
pub use error::PrefabError;
pub use error::PrefabPathCouldNotBeResolved;
pub use lifecycle::insert_prefab;
pub use lifecycle::remove_domain;
pub use lifecycle::remove_prefab;
pub use path::domain_names;
pub use path::domain_prefix;
pub use path::join_path;
pub use path::lemma_join_rename_differs;
pub use path::lemma_rename_changes_resolution;
pub use path::lemma_resolve_is_joined_path;
pub use path::lemma_resolve_none;
pub use path::resolve_spec;
pub use path::PrefabPaths;
pub use registry::lemma_collision_last_write_wins;
pub use registry::registry_evict_prefix;
pub use registry::registry_remove_value;
pub use registry::registry_targets_valid;
pub use registry::str_starts_with;
pub use registry::PrefabRegistery;
pub use world::graph_wf;
pub use world::ObjectModel;
pub use world::World;
