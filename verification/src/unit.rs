//! Units of a build and dependencies on them.

use crate::compile::{CompileKind, CompileMode};
use crate::interning::{copy_names, same_names, InternedString};
use crate::package::{Package, PackageView};
use crate::profiles::{Profile, UnitFor};
use crate::target::{Target, TargetView};
use vstd::prelude::*;

verus! {

/// All that is needed to know what to build: a target of a package, together
/// with how it is compiled. The same target can be compiled several times, for
/// example with and without tests.
#[derive(Debug)]
pub struct Unit {
    /// The package of the target, which need not have been downloaded.
    pub pkg: Package,
    pub target: Target,
    pub profile: Profile,
    pub kind: CompileKind,
    pub mode: CompileMode,
    pub features: Vec<InternedString>,
    /// Whether this is a unit of the standard library.
    pub is_std: bool,
    /// Tells apart units that agree in all else; 0 while the graph is built.
    pub dep_hash: u64,
}

/// The value of a [`Unit`].
pub struct UnitView {
    pub pkg: PackageView,
    pub target: TargetView,
    pub profile: Profile,
    pub kind: CompileKind,
    pub mode: CompileMode,
    pub features: Seq<InternedString>,
    pub is_std: bool,
    pub dep_hash: u64,
}

impl View for Unit {
    type V = UnitView;

    open spec fn view(&self) -> UnitView {
        UnitView {
            pkg: self.pkg@,
            target: self.target@,
            profile: self.profile,
            kind: self.kind,
            mode: self.mode,
            features: self.features@,
            is_std: self.is_std,
            dep_hash: self.dep_hash,
        }
    }
}

/// The values of a list of units.
pub open spec fn unit_values(units: Seq<Unit>) -> Seq<UnitView> {
    Seq::new(units.len(), |i: int| units[i]@)
}

impl Unit {
    /// Whether both are the same unit.
    pub fn same(&self, other: &Unit) -> (same: bool)
        ensures
            same == (self@ == other@),
    {
        self.pkg.same(&other.pkg) && self.profile == other.profile && self.kind == other.kind
            && self.mode == other.mode && self.is_std == other.is_std && self.dep_hash
            == other.dep_hash && self.target.same(&other.target) && same_names(
            &self.features,
            &other.features,
        )
    }

    /// A second copy of this unit.
    pub fn duplicate(&self) -> (copy: Unit)
        ensures
            copy@ == self@,
    {
        Unit {
            pkg: self.pkg.duplicate(),
            target: self.target.duplicate(),
            profile: self.profile,
            kind: self.kind,
            mode: self.mode,
            features: copy_names(&self.features),
            is_std: self.is_std,
            dep_hash: self.dep_hash,
        }
    }
}

/// A unit that another unit depends on.
#[derive(Debug)]
pub struct UnitDep {
    pub unit: Unit,
    /// What the dependency is built for.
    pub unit_for: UnitFor,
    /// Name of the dependency inside of the unit that depends on it.
    pub extern_crate_name: InternedString,
    /// Whether the dependency is part of the public interface.
    pub public: bool,
    /// Whether the name of the dependency is kept out of the prelude.
    pub noprelude: bool,
}

/// The value of a [`UnitDep`].
pub struct UnitDepView {
    pub unit: UnitView,
    pub unit_for: UnitFor,
    pub extern_crate_name: InternedString,
    pub public: bool,
    pub noprelude: bool,
}

impl View for UnitDep {
    type V = UnitDepView;

    open spec fn view(&self) -> UnitDepView {
        UnitDepView {
            unit: self.unit@,
            unit_for: self.unit_for,
            extern_crate_name: self.extern_crate_name,
            public: self.public,
            noprelude: self.noprelude,
        }
    }
}

/// The values of a list of dependencies.
pub open spec fn dep_values(deps: Seq<UnitDep>) -> Seq<UnitDepView> {
    Seq::new(deps.len(), |i: int| deps[i]@)
}

impl UnitDep {
    /// Whether both are the same dependency.
    pub fn same(&self, other: &UnitDep) -> (same: bool)
        ensures
            same == (self@ == other@),
    {
        self.unit_for == other.unit_for && self.extern_crate_name == other.extern_crate_name
            && self.public == other.public && self.noprelude == other.noprelude && self.unit.same(
            &other.unit,
        )
    }

    /// A second copy of this dependency.
    pub fn duplicate(&self) -> (copy: UnitDep)
        ensures
            copy@ == self@,
    {
        UnitDep {
            unit: self.unit.duplicate(),
            unit_for: self.unit_for,
            extern_crate_name: self.extern_crate_name,
            public: self.public,
            noprelude: self.noprelude,
        }
    }
}

/// Units are the same exactly if they agree in every field.
pub proof fn law_unit_value(a: Unit, b: Unit)
    ensures
        a@ == b@ <==> {
            &&& a.pkg@ == b.pkg@
            &&& a.target@ == b.target@
            &&& a.profile == b.profile
            &&& a.kind == b.kind
            &&& a.mode == b.mode
            &&& a.features@ == b.features@
            &&& a.is_std == b.is_std
            &&& a.dep_hash == b.dep_hash
        },
{
}

/// Dependencies are the same exactly if they agree in every field.
pub proof fn law_unit_dep_value(a: UnitDep, b: UnitDep)
    ensures
        a@ == b@ <==> {
            &&& a.unit@ == b.unit@
            &&& a.unit_for == b.unit_for
            &&& a.extern_crate_name == b.extern_crate_name
            &&& a.public == b.public
            &&& a.noprelude == b.noprelude
        },
{
}

} // verus!
