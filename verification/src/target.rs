//! The crates of a package.

use crate::interning::{copy_names, same_names, InternedString};
use vstd::prelude::*;

verus! {

/// What sort of crate a target is.
#[derive(Clone, Copy, Debug, PartialEq, Eq, Hash, Structural)]
pub enum TargetKind {
    /// A library; `linkable` when other crates can link to it.
    Lib { linkable: bool },
    Bin,
    Test,
    Bench,
    Example,
    /// A build script.
    CustomBuild,
}

/// One crate of a package.
#[derive(Debug)]
pub struct Target {
    /// Name of the crate, as `rustc` knows it.
    pub crate_name: InternedString,
    pub kind: TargetKind,
    /// Whether the artifact is loaded or run by the build itself: plugins,
    /// procedural macros and build scripts.
    pub for_host: bool,
    /// Whether this is a procedural macro.
    pub proc_macro: bool,
    /// Features without which the target is not built.
    pub required_features: Option<Vec<InternedString>>,
}

/// The value of a [`Target`].
pub struct TargetView {
    pub crate_name: InternedString,
    pub kind: TargetKind,
    pub for_host: bool,
    pub proc_macro: bool,
    pub required_features: Option<Seq<InternedString>>,
}

impl View for Target {
    type V = TargetView;

    open spec fn view(&self) -> TargetView {
        TargetView {
            crate_name: self.crate_name,
            kind: self.kind,
            for_host: self.for_host,
            proc_macro: self.proc_macro,
            required_features: match self.required_features {
                Some(names) => Some(names@),
                None => None,
            },
        }
    }
}

impl TargetView {
    pub open spec fn is_lib(self) -> bool {
        self.kind is Lib
    }

    pub open spec fn is_linkable(self) -> bool {
        self.kind == TargetKind::Lib { linkable: true }
    }

    pub open spec fn is_bin(self) -> bool {
        self.kind is Bin
    }

    pub open spec fn is_test(self) -> bool {
        self.kind is Test
    }

    pub open spec fn is_bench(self) -> bool {
        self.kind is Bench
    }

    pub open spec fn is_example(self) -> bool {
        self.kind is Example
    }

    pub open spec fn is_custom_build(self) -> bool {
        self.kind is CustomBuild
    }
}

impl Target {
    /// Whether this is the library of its package.
    pub fn is_lib(&self) -> (yes: bool)
        ensures
            yes == self@.is_lib(),
    {
        matches!(self.kind, TargetKind::Lib { .. })
    }

    /// Whether other crates can link to this target.
    pub fn is_linkable(&self) -> (yes: bool)
        ensures
            yes == self@.is_linkable(),
    {
        matches!(self.kind, TargetKind::Lib { linkable: true })
    }

    pub fn is_bin(&self) -> (yes: bool)
        ensures
            yes == self@.is_bin(),
    {
        matches!(self.kind, TargetKind::Bin)
    }

    pub fn is_test(&self) -> (yes: bool)
        ensures
            yes == self@.is_test(),
    {
        matches!(self.kind, TargetKind::Test)
    }

    pub fn is_bench(&self) -> (yes: bool)
        ensures
            yes == self@.is_bench(),
    {
        matches!(self.kind, TargetKind::Bench)
    }

    pub fn is_example(&self) -> (yes: bool)
        ensures
            yes == self@.is_example(),
    {
        matches!(self.kind, TargetKind::Example)
    }

    /// Whether this is a build script.
    pub fn is_custom_build(&self) -> (yes: bool)
        ensures
            yes == self@.is_custom_build(),
    {
        matches!(self.kind, TargetKind::CustomBuild)
    }

    /// Whether both targets have the same value.
    pub fn same(&self, other: &Target) -> (same: bool)
        ensures
            same == (self@ == other@),
    {
        if self.crate_name != other.crate_name || self.kind != other.kind || self.for_host
            != other.for_host || self.proc_macro != other.proc_macro {
            return false;
        }
        match (&self.required_features, &other.required_features) {
            (Some(a), Some(b)) => same_names(a, b),
            (None, None) => true,
            _ => false,
        }
    }

    /// A second copy of this target.
    pub fn duplicate(&self) -> (copy: Target)
        ensures
            copy@ == self@,
    {
        Target {
            crate_name: self.crate_name,
            kind: self.kind,
            for_host: self.for_host,
            proc_macro: self.proc_macro,
            required_features: match &self.required_features {
                Some(names) => Some(copy_names(names)),
                None => None,
            },
        }
    }
}

/// Targets have the same value exactly if they agree in every field.
pub proof fn law_target_value(a: Target, b: Target)
    ensures
        a@ == b@ <==> {
            &&& a.crate_name == b.crate_name
            &&& a.kind == b.kind
            &&& a.for_host == b.for_host
            &&& a.proc_macro == b.proc_macro
            &&& match (a.required_features, b.required_features) {
                (Some(x), Some(y)) => x@ == y@,
                (None, None) => true,
                _ => false,
            }
        },
{
}

} // verus!
