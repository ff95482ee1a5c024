//! Profiles, and what units are built for.

use crate::compile::{CompileKind, CompileMode};
use crate::lookup::{first_where, is_first, lemma_found, lemma_not_found};
use crate::package::{Config, PackageId};
use crate::resolve::FeaturesFor;
use crate::target::{Target, TargetView};
use crate::unit::{Unit, UnitView};
use vstd::prelude::*;

verus! {

/// A set of compiler settings. Sets are numbered in their order.
#[derive(Clone, Copy, Debug, PartialEq, Eq, Hash, Structural)]
pub struct Profile {
    pub id: u32,
}

/// How the `panic` setting of a profile is used.
#[derive(Clone, Copy, Debug, PartialEq, Eq, Hash, Structural)]
pub enum PanicSetting {
    /// Always compile with `panic=unwind`, notably for build scripts and
    /// procedural macros.
    AlwaysUnwind,
    /// Use whatever the profile says.
    ReadProfile,
    /// Use what the `dev` or `release` profile says.
    Inherit,
}

/// What a unit is built for, as far as profiles and features depend on it.
#[derive(Clone, Copy, Debug, PartialEq, Eq, Hash, Structural)]
pub struct UnitFor {
    /// A build script, a procedural macro, or a dependency of one: these use
    /// `build-override` profiles.
    pub host: bool,
    /// A build dependency, a procedural macro, or a dependency of one: these
    /// use the features of the host side.
    pub host_features: bool,
    pub panic_setting: PanicSetting,
}

impl UnitFor {
    /// A unit for a normal target.
    #[verifier::allow_in_spec]
    pub fn new_normal() -> (unit_for: UnitFor)
        returns
            (UnitFor {
                host: false,
                host_features: false,
                panic_setting: PanicSetting::ReadProfile,
            }),
    {
        UnitFor { host: false, host_features: false, panic_setting: PanicSetting::ReadProfile }
    }

    /// A unit for a build script, a procedural macro or a dependency of one.
    ///
    /// `host_features` says whether features of the host side are used: `false`
    /// for the build script of a normal dependency, which sees the features of
    /// that dependency.
    #[verifier::allow_in_spec]
    pub fn new_host(host_features: bool) -> (unit_for: UnitFor)
        returns
            (UnitFor { host: true, host_features, panic_setting: PanicSetting::AlwaysUnwind }),
    {
        UnitFor { host: true, host_features, panic_setting: PanicSetting::AlwaysUnwind }
    }

    /// A unit for a compiler plugin or a dependency of one.
    #[verifier::allow_in_spec]
    pub fn new_compiler() -> (unit_for: UnitFor)
        returns
            (UnitFor {
                host: false,
                host_features: false,
                panic_setting: PanicSetting::AlwaysUnwind,
            }),
    {
        UnitFor { host: false, host_features: false, panic_setting: PanicSetting::AlwaysUnwind }
    }

    /// A unit for a test, a benchmark or a dependency of one: `panic` is not
    /// set unless tests may abort.
    #[verifier::allow_in_spec]
    pub fn new_test(config: Config) -> (unit_for: UnitFor)
        returns
            (UnitFor {
                host: false,
                host_features: false,
                panic_setting: if config.panic_abort_tests {
                    PanicSetting::Inherit
                } else {
                    PanicSetting::AlwaysUnwind
                },
            }),
    {
        UnitFor {
            host: false,
            host_features: false,
            panic_setting: if config.panic_abort_tests {
                PanicSetting::Inherit
            } else {
                PanicSetting::AlwaysUnwind
            },
        }
    }

    /// A unit for the test of a procedural macro, which has to be built for the
    /// host since it links with the compiler.
    #[verifier::allow_in_spec]
    pub fn new_host_test(config: Config) -> (unit_for: UnitFor)
        returns
            (UnitFor {
                host: true,
                host_features: true,
                panic_setting: UnitFor::new_test(config).panic_setting,
            }),
    {
        UnitFor {
            host: true,
            host_features: true,
            panic_setting: UnitFor::new_test(config).panic_setting,
        }
    }

    /// What a dependency on `dep_target` is built for, where `parent` is built
    /// for `self`.
    pub open spec fn spec_with_dependency(
        self,
        parent: UnitView,
        dep_target: TargetView,
    ) -> UnitFor {
        UnitFor {
            host: self.host || dep_target.for_host,
            host_features: self.host_features || parent.target.is_custom_build()
                || dep_target.proc_macro,
            panic_setting: if dep_target.for_host {
                PanicSetting::AlwaysUnwind
            } else {
                self.panic_setting
            },
        }
    }

    /// What a dependency on `dep_target` is built for, where `parent` is built
    /// for `self`.
    ///
    /// A target for the host moves the dependency to the host. Once features of
    /// the host side are used, they stay in use; they come into use below a
    /// build script, though not for the script itself, and for a procedural
    /// macro.
    pub fn with_dependency(self, parent: &Unit, dep_target: &Target) -> (unit_for: UnitFor)
        ensures
            unit_for == self.spec_with_dependency(parent@, dep_target@),
    {
        UnitFor {
            host: self.host || dep_target.for_host,
            host_features: self.host_features || parent.target.is_custom_build()
                || dep_target.proc_macro,
            panic_setting: if dep_target.for_host {
                PanicSetting::AlwaysUnwind
            } else {
                self.panic_setting
            },
        }
    }

    /// Whether features of the host side are used.
    #[verifier::allow_in_spec]
    pub fn is_for_host_features(self) -> (yes: bool)
        returns
            self.host_features,
    {
        self.host_features
    }

    /// The side of the build whose features are used.
    #[verifier::allow_in_spec]
    pub fn map_to_features_for(self) -> (features_for: FeaturesFor)
        returns
            (if self.host_features {
                FeaturesFor::HostDep
            } else {
                FeaturesFor::NormalOrDev
            }),
    {
        if self.host_features {
            FeaturesFor::HostDep
        } else {
            FeaturesFor::NormalOrDev
        }
    }
}

/// What comes to the host stays there: dependencies of what is built for the
/// host, with the features of the host side, or so that it unwinds, are built
/// likewise.
pub proof fn law_host_is_kept(unit_for: UnitFor, parent: UnitView, dep_target: TargetView)
    ensures
        ({
            let dep_for = unit_for.spec_with_dependency(parent, dep_target);
            &&& unit_for.host ==> dep_for.host
            &&& unit_for.host_features ==> dep_for.host_features
            &&& unit_for.panic_setting is AlwaysUnwind ==> dep_for.panic_setting is AlwaysUnwind
            &&& dep_target.for_host ==> dep_for.host && dep_for.panic_setting is AlwaysUnwind
            &&& parent.target.is_custom_build() || dep_target.proc_macro ==> dep_for.host_features
        }),
{
}

/// All that the choice of a profile depends on.
#[derive(Clone, Copy, Debug, PartialEq, Eq, Structural)]
pub struct ProfileQuery {
    pub pkg: PackageId,
    /// Whether the package is a member of the workspace.
    pub is_member: bool,
    /// Whether the user can edit the sources of the package.
    pub is_local: bool,
    pub unit_for: UnitFor,
    pub mode: CompileMode,
    pub kind: CompileKind,
}

/// The profile chosen for one query.
#[derive(Clone, Copy, Debug, PartialEq, Eq, Structural)]
pub struct ProfileChoice {
    pub query: ProfileQuery,
    pub profile: Profile,
}

/// The profile with which the build script of a unit is run.
#[derive(Clone, Copy, Debug, PartialEq, Eq, Structural)]
pub struct RunProfile {
    pub for_unit: Profile,
    pub profile: Profile,
}

/// The choice of profiles, as tables: the first row that fits decides, and the
/// default where none does.
#[derive(Debug)]
pub struct Profiles {
    pub choices: Vec<ProfileChoice>,
    pub run_custom_build: Vec<RunProfile>,
    pub default: Profile,
}

pub open spec fn choice_for(query: ProfileQuery) -> spec_fn(ProfileChoice) -> bool {
    |c: ProfileChoice| c.query == query
}

pub open spec fn run_profile_for(profile: Profile) -> spec_fn(RunProfile) -> bool {
    |r: RunProfile| r.for_unit == profile
}

impl Profiles {
    /// The profile for a query.
    pub open spec fn spec_get_profile(self, query: ProfileQuery) -> Profile {
        match first_where(self.choices@, choice_for(query)) {
            Some(choice) => choice.profile,
            None => self.default,
        }
    }

    /// The profile for running the build script of a unit with `profile`.
    pub open spec fn spec_get_profile_run_custom_build(self, profile: Profile) -> Profile {
        match first_where(self.run_custom_build@, run_profile_for(profile)) {
            Some(row) => row.profile,
            None => self.default,
        }
    }

    /// The profile for a query.
    pub fn get_profile(&self, query: ProfileQuery) -> (profile: Profile)
        ensures
            profile == self.spec_get_profile(query),
    {
        for i in 0..self.choices.len()
            invariant
                forall|j: int| 0 <= j < i ==> !choice_for(query)(#[trigger] self.choices@[j]),
        {
            if self.choices[i].query == query {
                proof {
                    assert(is_first(self.choices@, choice_for(query), i as int));
                    lemma_found(self.choices@, choice_for(query), i as int);
                }
                return self.choices[i].profile;
            }
        }
        proof {
            lemma_not_found(self.choices@, choice_for(query));
        }
        self.default
    }

    /// The profile for running the build script of a unit with `profile`.
    pub fn get_profile_run_custom_build(&self, profile: Profile) -> (run: Profile)
        ensures
            run == self.spec_get_profile_run_custom_build(profile),
    {
        let ghost p = run_profile_for(profile);
        for i in 0..self.run_custom_build.len()
            invariant
                p == run_profile_for(profile),
                forall|j: int| 0 <= j < i ==> !p(#[trigger] self.run_custom_build@[j]),
        {
            if self.run_custom_build[i].for_unit == profile {
                proof {
                    assert(is_first(self.run_custom_build@, p, i as int));
                    lemma_found(self.run_custom_build@, p, i as int);
                }
                return self.run_custom_build[i].profile;
            }
        }
        proof {
            lemma_not_found(self.run_custom_build@, p);
        }
        self.default
    }
}

} // verus!
