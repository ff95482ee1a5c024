//! Why laying out a build ends early.

use crate::interning::InternedString;
use crate::package::PackageId;
use vstd::prelude::*;

verus! {

/// Why a build cannot be laid out.
#[derive(Clone, Copy, Debug, PartialEq, Eq, Structural)]
pub enum DepError {
    /// `from` depends on `to` more than once, under different crate names.
    AmbiguousName { from: PackageId, to: PackageId },
    /// `prev` and `pkg` both link to the native library `links`.
    LinksConflict { links: InternedString, prev: PackageId, pkg: PackageId },
}

/// A broken promise of the caller about the tables that it hands in.
#[derive(Clone, Copy, Debug, PartialEq, Eq, Structural)]
pub enum Misuse {
    /// The package is needed and was not downloaded.
    NotDownloaded(PackageId),
    /// The resolution of the package lists an edge without a dependency.
    EmptyEdge(PackageId),
    /// Units of the standard library were asked for without its resolution.
    NoStdResolve,
    /// No standard library was asked for a kind that is compiled for.
    NoStdRoots,
    /// A unit of the standard library is also a unit of the build.
    StdCollision,
    /// A unit of the package would have to be scraped before itself.
    ScrapesItself(PackageId),
}

/// Why laying out a build stopped early.
#[derive(Clone, Copy, Debug, PartialEq, Eq, Structural)]
pub enum Halt {
    Failed(DepError),
    Stuck(Misuse),
}

} // verus!
