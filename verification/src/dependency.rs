//! Dependencies as manifests declare them.

use crate::interning::InternedString;
use vstd::prelude::*;

verus! {

/// What a dependency is declared for.
#[derive(Clone, Copy, Debug, PartialEq, Eq, Hash, Structural)]
pub enum DepKind {
    Normal,
    Development,
    Build,
}

/// A `cfg` expression or target triple that restricts a dependency.
#[derive(Clone, Copy, Debug, PartialEq, Eq, Hash, Structural)]
pub struct Platform {
    pub id: u32,
}

/// A dependency as the manifest of a package declares it.
#[derive(Clone, Copy, Debug, PartialEq, Eq, Hash, Structural)]
pub struct Dependency {
    pub kind: DepKind,
    /// Name under which the manifest lists the dependency.
    pub name_in_toml: InternedString,
    /// Crate name that the manifest gives the dependency by renaming it.
    pub rename: Option<InternedString>,
    /// The platforms for which the dependency is declared; all if absent.
    pub platform: Option<Platform>,
    pub optional: bool,
}

impl Dependency {
    /// Whether this is a build dependency.
    #[verifier::allow_in_spec]
    pub fn is_build(self) -> (yes: bool)
        returns
            self.kind is Build,
    {
        matches!(self.kind, DepKind::Build)
    }

    /// Whether those who depend on the package get the dependency too: all but
    /// dev-dependencies.
    #[verifier::allow_in_spec]
    pub fn is_transitive(self) -> (yes: bool)
        returns
            !(self.kind is Development),
    {
        !matches!(self.kind, DepKind::Development)
    }
}

} // verus!
