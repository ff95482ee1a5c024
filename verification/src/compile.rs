//! What units are compiled for, and in which mode.

use crate::interning::InternedString;
use crate::target::{Target, TargetView};
use vstd::prelude::*;

verus! {

/// A platform named on the command line, by its target triple or specification
/// file.
#[derive(Clone, Copy, Debug, PartialEq, Eq, Hash, Structural)]
pub struct CompileTarget {
    pub name: InternedString,
}

/// Where the artifact of a unit is going to run.
#[derive(Clone, Copy, Debug, PartialEq, Eq, Hash, Structural)]
pub enum CompileKind {
    /// On the machine that runs the build.
    Host,
    /// On an explicitly requested platform.
    Target(CompileTarget),
}

impl CompileKind {
    /// Whether this is the machine that runs the build.
    #[verifier::allow_in_spec]
    pub fn is_host(self) -> (host: bool)
        returns
            self == CompileKind::Host,
    {
        matches!(self, CompileKind::Host)
    }

    /// The kind with which `target` is built when a unit of this kind asks for
    /// it.
    pub open spec fn spec_for_target(self, target: TargetView) -> CompileKind {
        if target.for_host {
            CompileKind::Host
        } else {
            self
        }
    }

    /// The kind with which `target` is built when a unit of this kind asks for
    /// it: once compiling for the host we keep doing so, and a target that has
    /// to run on the host lifts us up to it.
    pub fn for_target(self, target: &Target) -> (kind: CompileKind)
        ensures
            kind == self.spec_for_target(target@),
    {
        match self {
            CompileKind::Host => CompileKind::Host,
            CompileKind::Target(t) => if target.for_host {
                CompileKind::Host
            } else {
                CompileKind::Target(t)
            },
        }
    }
}

/// What is done with a unit.
#[derive(Clone, Copy, Debug, PartialEq, Eq, Hash, Structural)]
pub enum CompileMode {
    /// A target being built for a test.
    Test,
    /// Building a target with `rustc` (lib or bin).
    Build,
    /// Building a target with `rustc` to emit `rmeta` metadata only. If `test`
    /// is true, then it is also compiled with `--test`.
    Check { test: bool },
    /// A target being built for a benchmark.
    Bench,
    /// A target that will be documented with `rustdoc`. If `deps` is true, then
    /// its dependencies are documented too.
    Doc { deps: bool },
    /// A target that will be tested with `rustdoc`.
    Doctest,
    /// An example or library that will be scraped for function calls by
    /// `rustdoc`.
    Docscrape,
    /// The execution of a build script.
    RunCustomBuild,
}

impl CompileMode {
    /// Whether the unit is being checked only.
    #[verifier::allow_in_spec]
    pub fn is_check(self) -> (yes: bool)
        returns
            self matches CompileMode::Check { .. },
    {
        matches!(self, CompileMode::Check { .. })
    }

    /// Whether the unit generates documentation. Doc tests do not.
    #[verifier::allow_in_spec]
    pub fn is_doc(self) -> (yes: bool)
        returns
            self matches CompileMode::Doc { .. },
    {
        matches!(self, CompileMode::Doc { .. })
    }

    /// Whether the unit is scraped for examples.
    #[verifier::allow_in_spec]
    pub fn is_doc_scrape(self) -> (yes: bool)
        returns
            self matches CompileMode::Docscrape,
    {
        matches!(self, CompileMode::Docscrape)
    }

    /// Whether the unit is any type of test: test, benchmark, doc test or check
    /// test.
    #[verifier::allow_in_spec]
    pub fn is_any_test(self) -> (yes: bool)
        returns
            (self matches CompileMode::Test) || (self matches CompileMode::Bench)
                || (self matches CompileMode::Doctest) || self == (CompileMode::Check { test: true }),
    {
        matches!(self,
            CompileMode::Test | CompileMode::Bench | CompileMode::Doctest
            | CompileMode::Check { test: true })
    }

    /// Whether `--test` is passed to `rustc`.
    #[verifier::allow_in_spec]
    pub fn is_rustc_test(self) -> (yes: bool)
        returns
            (self matches CompileMode::Test) || (self matches CompileMode::Bench)
                || self == (CompileMode::Check { test: true }),
    {
        matches!(self, CompileMode::Test | CompileMode::Bench | CompileMode::Check { test: true })
    }

    /// Whether the unit is the execution of a build script.
    #[verifier::allow_in_spec]
    pub fn is_run_custom_build(self) -> (yes: bool)
        returns
            self matches CompileMode::RunCustomBuild,
    {
        matches!(self, CompileMode::RunCustomBuild)
    }
}

} // verus!
