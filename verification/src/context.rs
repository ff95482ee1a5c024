//! The tables that a build is laid out from, taken together.

use crate::compile::CompileMode;
use crate::package::{PackageSet, Workspace};
use crate::profiles::Profiles;
use crate::resolve::{Resolve, ResolvedFeatures};
use crate::target_data::RustcTargetData;
use crate::unit::Unit;
use vstd::prelude::*;

verus! {

/// All that stays the same while the dependencies of a build are laid out.
#[derive(Clone, Copy)]
pub struct Context<'a> {
    pub ws: &'a Workspace,
    pub package_set: &'a PackageSet,
    pub usr_resolve: &'a Resolve,
    pub usr_features: &'a ResolvedFeatures,
    pub std_resolve: Option<&'a (Resolve, ResolvedFeatures)>,
    /// Whether the dependencies of the standard library are laid out.
    pub is_std: bool,
    pub global_mode: CompileMode,
    pub target_data: &'a RustcTargetData,
    pub profiles: &'a Profiles,
    pub scrape_units: &'a [Unit],
}

impl<'a> Context<'a> {
    /// Whether there is a resolution for what is laid out.
    pub open spec fn has_resolve(self) -> bool {
        self.is_std ==> self.std_resolve is Some
    }

    /// The resolution for what is laid out.
    pub open spec fn spec_resolve(self) -> Resolve {
        if self.is_std {
            (self.std_resolve->0).0
        } else {
            *self.usr_resolve
        }
    }

    /// The features for what is laid out.
    pub open spec fn spec_features(self) -> ResolvedFeatures {
        if self.is_std {
            (self.std_resolve->0).1
        } else {
            *self.usr_features
        }
    }

    /// The same context for the standard library or for the user's packages.
    pub open spec fn for_std(self, is_std: bool) -> Context<'a> {
        Context { is_std, ..self }
    }
}

/// The context of a build, for the user's packages.
pub open spec fn context_of<'a>(
    ws: &'a Workspace,
    package_set: &'a PackageSet,
    resolve: &'a Resolve,
    features: &'a ResolvedFeatures,
    std_resolve: Option<&'a (Resolve, ResolvedFeatures)>,
    scrape_units: &'a [Unit],
    global_mode: CompileMode,
    target_data: &'a RustcTargetData,
    profiles: &'a Profiles,
) -> Context<'a> {
    Context {
        ws,
        package_set,
        usr_resolve: resolve,
        usr_features: features,
        std_resolve,
        is_std: false,
        global_mode,
        target_data,
        profiles,
        scrape_units,
    }
}

} // verus!
