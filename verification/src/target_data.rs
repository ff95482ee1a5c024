//! What is known of the platforms that are compiled for.

use crate::compile::CompileKind;
use crate::dependency::{Dependency, Platform};
use crate::interning::InternedString;
use vstd::prelude::*;

verus! {

/// A build script whose output the configuration gives.
#[derive(Clone, Copy, Debug, PartialEq, Eq, Structural)]
pub struct ScriptOverride {
    /// The native library that the package of the script links to.
    pub links: InternedString,
    pub kind: CompileKind,
}

/// A platform restriction that a kind meets.
#[derive(Clone, Copy, Debug, PartialEq, Eq, Structural)]
pub struct PlatformMatch {
    pub platform: Platform,
    pub kind: CompileKind,
}

/// What is known of the platforms that are compiled for.
#[derive(Debug)]
pub struct RustcTargetData {
    pub overrides: Vec<ScriptOverride>,
    pub platforms: Vec<PlatformMatch>,
}

impl RustcTargetData {
    /// Whether the configuration gives the output of the build script.
    pub open spec fn spec_script_override(self, links: InternedString, kind: CompileKind) -> bool {
        self.overrides@.contains(ScriptOverride { links, kind })
    }

    /// Whether a dependency is declared for the platform of `kind`.
    pub open spec fn spec_dep_platform_activated(self, dep: Dependency, kind: CompileKind) -> bool {
        match dep.platform {
            Some(platform) => self.platforms@.contains(PlatformMatch { platform, kind }),
            None => true,
        }
    }

    /// Whether the configuration gives the output of the build script of the
    /// package that links to `links`.
    pub fn script_override(&self, links: InternedString, kind: CompileKind) -> (overridden: bool)
        ensures
            overridden == self.spec_script_override(links, kind),
    {
        let wanted: ScriptOverride = ScriptOverride { links, kind };
        for i in 0..self.overrides.len()
            invariant
                forall|j: int| 0 <= j < i ==> self.overrides@[j] != wanted,
                wanted == (ScriptOverride { links, kind }),
        {
            if self.overrides[i] == wanted {
                return true;
            }
        }
        false
    }

    /// Whether a dependency is declared for the platform of `kind`.
    pub fn dep_platform_activated(&self, dep: &Dependency, kind: CompileKind) -> (active: bool)
        ensures
            active == self.spec_dep_platform_activated(*dep, kind),
    {
        let platform: Platform = match dep.platform {
            Some(platform) => platform,
            None => {
                return true;
            },
        };
        let wanted: PlatformMatch = PlatformMatch { platform, kind };
        for i in 0..self.platforms.len()
            invariant
                forall|j: int| 0 <= j < i ==> self.platforms@[j] != wanted,
                wanted == (PlatformMatch { platform, kind }),
                dep.platform == Some(platform),
        {
            if self.platforms[i] == wanted {
                return true;
            }
        }
        false
    }
}

} // verus!
