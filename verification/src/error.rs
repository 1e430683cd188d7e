use vstd::prelude::*;

verus! {

/// The path an instantiation request carried had no registry entry at the
/// moment its deferred step ran. The field holds that path.
#[derive(Debug)]
pub struct PrefabPathCouldNotBeResolved(pub String);

/// The failures a registry-maintenance or instantiation step can report.
#[derive(Debug)]
pub enum PrefabError {
    /// An object, or a Domain ancestor of it, needed for path computation has
    /// no name.
    NameMissing,
    /// The request's path had no registry entry when its deferred step ran.
    PathCouldNotBeResolved(PrefabPathCouldNotBeResolved),
}

/// The mathematical model of a reported failure.
#[verifier::ext_equal]
pub ghost enum ErrModel {
    /// An object or Domain ancestor needed for path computation was unnamed.
    NameMissing,
    /// The carried path had no registry entry; the field is that path.
    Unresolved { path: Seq<char> },
}

impl View for PrefabError {
    type V = ErrModel;

    open spec fn view(&self) -> ErrModel {
        match self {
            PrefabError::NameMissing => ErrModel::NameMissing,
            PrefabError::PathCouldNotBeResolved(p) => ErrModel::Unresolved { path: p.0@ },
        }
    }
}

} // verus!
