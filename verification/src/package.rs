//! Packages, the set of those that are there, and the workspace.

use crate::interning::InternedString;
use crate::lookup::{first_where, is_first, lemma_found, lemma_not_found};
use crate::target::{Target, TargetView};
use vstd::prelude::*;

verus! {

/// Where the sources of a package come from. Sources are numbered in their
/// order.
#[derive(Clone, Copy, Debug, PartialEq, Eq, Hash, Structural)]
pub struct SourceId {
    pub id: u32,
    /// Whether this is a path on the local file system.
    pub is_path: bool,
}

/// Identity of a package: no two packages share it. Versions are numbered in
/// their order.
#[derive(Clone, Copy, Debug, PartialEq, Eq, Hash, Structural)]
pub struct PackageId {
    pub name: InternedString,
    pub version: u32,
    pub source: SourceId,
}

/// A package and the part of its manifest that decides what is built.
#[derive(Debug)]
pub struct Package {
    pub id: PackageId,
    /// The native library that the package links to.
    pub links: Option<InternedString>,
    pub targets: Vec<Target>,
}

/// The value of a [`Package`].
pub struct PackageView {
    pub id: PackageId,
    pub links: Option<InternedString>,
    pub targets: Seq<TargetView>,
}

/// The values of a list of targets.
pub open spec fn target_values(targets: Seq<Target>) -> Seq<TargetView> {
    Seq::new(targets.len(), |i: int| targets[i]@)
}

impl View for Package {
    type V = PackageView;

    open spec fn view(&self) -> PackageView {
        PackageView { id: self.id, links: self.links, targets: target_values(self.targets@) }
    }
}

pub open spec fn lib_target() -> spec_fn(TargetView) -> bool {
    |t: TargetView| t.is_lib()
}

pub open spec fn linkable_target() -> spec_fn(TargetView) -> bool {
    |t: TargetView| t.is_linkable()
}

pub open spec fn build_script_target() -> spec_fn(TargetView) -> bool {
    |t: TargetView| t.is_custom_build()
}

impl PackageView {
    /// The library of the package.
    pub open spec fn spec_lib(self) -> Option<TargetView> {
        first_where(self.targets, lib_target())
    }

    /// The first target that other crates can link to.
    pub open spec fn spec_linkable(self) -> Option<TargetView> {
        first_where(self.targets, linkable_target())
    }

    /// The build script of the package.
    pub open spec fn spec_build_script(self) -> Option<TargetView> {
        first_where(self.targets, build_script_target())
    }
}

impl Package {
    /// The library of the package, if it has one.
    pub fn lib(&self) -> (found: Option<&Target>)
        ensures
            match found {
                Some(t) => self@.spec_lib() == Some(t@),
                None => self@.spec_lib() is None,
            },
    {
        let ghost values = self@.targets;
        for i in 0..self.targets.len()
            invariant
                values == self@.targets,
                forall|j: int| 0 <= j < i ==> !lib_target()(#[trigger] values[j]),
        {
            assert(values[i as int] == self.targets@[i as int]@);
            if self.targets[i].is_lib() {
                proof {
                    assert(is_first(values, lib_target(), i as int));
                    lemma_found(values, lib_target(), i as int);
                }
                return Some(&self.targets[i]);
            }
        }
        proof {
            lemma_not_found(values, lib_target());
        }
        None
    }

    /// The first target that other crates can link to, if there is one.
    pub fn linkable(&self) -> (found: Option<&Target>)
        ensures
            match found {
                Some(t) => self@.spec_linkable() == Some(t@),
                None => self@.spec_linkable() is None,
            },
    {
        let ghost values = self@.targets;
        for i in 0..self.targets.len()
            invariant
                values == self@.targets,
                forall|j: int| 0 <= j < i ==> !linkable_target()(#[trigger] values[j]),
        {
            assert(values[i as int] == self.targets@[i as int]@);
            if self.targets[i].is_linkable() {
                proof {
                    assert(is_first(values, linkable_target(), i as int));
                    lemma_found(values, linkable_target(), i as int);
                }
                return Some(&self.targets[i]);
            }
        }
        proof {
            lemma_not_found(values, linkable_target());
        }
        None
    }

    /// The build script of the package, if it has one.
    pub fn build_script(&self) -> (found: Option<&Target>)
        ensures
            match found {
                Some(t) => self@.spec_build_script() == Some(t@),
                None => self@.spec_build_script() is None,
            },
    {
        let ghost values = self@.targets;
        for i in 0..self.targets.len()
            invariant
                values == self@.targets,
                forall|j: int| 0 <= j < i ==> !build_script_target()(#[trigger] values[j]),
        {
            assert(values[i as int] == self.targets@[i as int]@);
            if self.targets[i].is_custom_build() {
                proof {
                    assert(is_first(values, build_script_target(), i as int));
                    lemma_found(values, build_script_target(), i as int);
                }
                return Some(&self.targets[i]);
            }
        }
        proof {
            lemma_not_found(values, build_script_target());
        }
        None
    }

    /// Whether both packages have the same value.
    pub fn same(&self, other: &Package) -> (same: bool)
        ensures
            same == (self@ == other@),
    {
        if self.id != other.id || self.links != other.links || self.targets.len()
            != other.targets.len() {
            assert(self@.targets.len() == self.targets@.len());
            assert(other@.targets.len() == other.targets@.len());
            return false;
        }
        for i in 0..self.targets.len()
            invariant
                self.id == other.id,
                self.links == other.links,
                self.targets@.len() == other.targets@.len(),
                forall|j: int| 0 <= j < i ==> #[trigger] self@.targets[j] == other@.targets[j],
        {
            assert(self@.targets[i as int] == self.targets@[i as int]@);
            assert(other@.targets[i as int] == other.targets@[i as int]@);
            if !self.targets[i].same(&other.targets[i]) {
                return false;
            }
        }
        assert(self@.targets =~= other@.targets);
        true
    }

    /// A second copy of this package.
    pub fn duplicate(&self) -> (copy: Package)
        ensures
            copy@ == self@,
    {
        let mut targets: Vec<Target> = Vec::new();
        for i in 0..self.targets.len()
            invariant
                targets@.len() == i,
                forall|j: int| 0 <= j < i ==> (#[trigger] targets@[j])@ == self.targets@[j]@,
        {
            targets.push(self.targets[i].duplicate());
        }
        assert(target_values(targets@) =~= target_values(self.targets@));
        Package { id: self.id, links: self.links, targets }
    }
}

/// The packages that have been downloaded.
#[derive(Debug)]
pub struct PackageSet {
    pub packages: Vec<Package>,
}

pub open spec fn package_with(id: PackageId) -> spec_fn(Package) -> bool {
    |p: Package| p.id == id
}

impl PackageSet {
    /// The downloaded package with the given identity.
    pub open spec fn spec_get_one(self, id: PackageId) -> Option<PackageView> {
        match first_where(self.packages@, package_with(id)) {
            Some(pkg) => Some(pkg@),
            None => None,
        }
    }

    /// The downloaded package with the given identity, if it was downloaded.
    pub fn get_one(&self, id: PackageId) -> (found: Option<&Package>)
        ensures
            match found {
                Some(pkg) => self.spec_get_one(id) == Some(pkg@) && pkg.id == id,
                None => self.spec_get_one(id) is None,
            },
    {
        for i in 0..self.packages.len()
            invariant
                forall|j: int| 0 <= j < i ==> !package_with(id)(#[trigger] self.packages@[j]),
        {
            if self.packages[i].id == id {
                proof {
                    assert(is_first(self.packages@, package_with(id), i as int));
                    lemma_found(self.packages@, package_with(id), i as int);
                }
                return Some(&self.packages[i]);
            }
        }
        proof {
            lemma_not_found(self.packages@, package_with(id));
        }
        None
    }
}

/// The unstable switches that the dependency graph depends on.
#[derive(Clone, Copy, Debug, PartialEq, Eq, Structural)]
pub struct Config {
    /// Build each procedural macro for the host and for the target.
    pub dual_proc_macros: bool,
    /// Let tests take the `panic` setting of the profile they inherit from.
    pub panic_abort_tests: bool,
}

/// The workspace that is being built.
#[derive(Debug)]
pub struct Workspace {
    pub config: Config,
    /// The packages that are members of the workspace.
    pub members: Vec<PackageId>,
}

impl Workspace {
    /// Whether the package is a member of the workspace.
    pub open spec fn spec_is_member(self, pkg: PackageId) -> bool {
        self.members@.contains(pkg)
    }

    /// Whether the package is a member of the workspace.
    pub fn is_member(&self, pkg: PackageId) -> (member: bool)
        ensures
            member == self.spec_is_member(pkg),
    {
        for i in 0..self.members.len()
            invariant
                forall|j: int| 0 <= j < i ==> self.members@[j] != pkg,
        {
            if self.members[i] == pkg {
                return true;
            }
        }
        false
    }
}

/// Packages have the same value exactly if they agree in identity, native library and
/// targets.
pub proof fn law_package_value(a: Package, b: Package)
    ensures
        a@ == b@ <==> {
            &&& a.id == b.id
            &&& a.links == b.links
            &&& a.targets@.len() == b.targets@.len()
            &&& forall|i: int|
                0 <= i < a.targets@.len() ==> (#[trigger] a.targets@[i])@ == b.targets@[i]@
        },
{
    let (x, y) = (a@.targets, b@.targets);
    assert(x.len() == a.targets@.len() && y.len() == b.targets@.len());
    if a@ == b@ {
        assert forall|i: int| 0 <= i < a.targets@.len() implies (#[trigger] a.targets@[i])@
            == b.targets@[i]@ by {
            assert(x[i] == y[i]);
        }
    }
    if a.targets@.len() == b.targets@.len() && forall|i: int|
        0 <= i < a.targets@.len() ==> (#[trigger] a.targets@[i])@ == b.targets@[i]@ {
        assert(x =~= y);
    }
}

} // verus!
