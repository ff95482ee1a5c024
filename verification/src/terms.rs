//! What the inputs of a build say, in terms of their rows and fields.

use crate::compile::{CompileKind, CompileMode};
use crate::context::Context;
use crate::dependency::{DepKind, Dependency};
use crate::interning::InternedString;
use crate::package::{PackageId, PackageSet, PackageView};
use crate::profiles::{PanicSetting, Profile, ProfileChoice, Profiles, UnitFor};
use crate::resolve::{FeaturesFor, Resolve, ResolveEdge, ResolvedFeatures};
use crate::target::{TargetKind, TargetView};
use crate::target_data::{PlatformMatch, ScriptOverride};
use crate::unit::{UnitDepView, UnitView};
use vstd::prelude::*;

verus! {

/// The resolution of the user's packages, or that of the standard library.
pub open spec fn resolution_of(cx: Context, is_std: bool) -> Resolve {
    if is_std {
        (cx.std_resolve->0).0
    } else {
        *cx.usr_resolve
    }
}

/// The features of the user's packages, or those of the standard library.
pub open spec fn features_of(cx: Context, is_std: bool) -> ResolvedFeatures {
    if is_std {
        (cx.std_resolve->0).1
    } else {
        *cx.usr_features
    }
}

/// Whether row `n` of a resolution is the one for a package.
pub open spec fn node_at(resolve: Resolve, from: PackageId, n: int) -> bool {
    &&& 0 <= n < resolve.nodes@.len()
    &&& resolve.nodes@[n].id == from
    &&& forall|m: int| 0 <= m < n ==> (#[trigger] resolve.nodes@[m]).id != from
}

/// Whether a resolution has an edge that starts at a package.
pub open spec fn leads(resolve: Resolve, from: PackageId, edge: ResolveEdge) -> bool {
    exists|n: int| #[trigger] node_at(resolve, from, n) && resolve.nodes@[n].edges@.contains(edge)
}

/// Whether position `i` of the edges is the one that leads to a package.
pub open spec fn edge_at(edges: Seq<ResolveEdge>, to: PackageId, i: int) -> bool {
    &&& 0 <= i < edges.len()
    &&& edges[i].to == to
    &&& forall|j: int| 0 <= j < i ==> (#[trigger] edges[j]).to != to
}

/// Whether an edge is the one that joins two packages.
pub open spec fn joins(resolve: Resolve, from: PackageId, to: PackageId, edge: ResolveEdge) -> bool {
    exists|n: int, i: int|
        #[trigger] node_at(resolve, from, n) && #[trigger] edge_at(
            resolve.nodes@[n].edges@,
            to,
            i,
        ) && resolve.nodes@[n].edges@[i] == edge
}

/// Whether an edge is there for dev-dependencies alone.
pub open spec fn all_development(edge: ResolveEdge) -> bool {
    forall|i: int| 0 <= i < edge.deps@.len() ==> (#[trigger] edge.deps@[i]).kind is Development
}

/// Whether row `n` tells what is activated in a package, for the host side or for
/// the other one.
pub open spec fn activation_at(
    features: ResolvedFeatures,
    pkg: PackageId,
    host: bool,
    n: int,
) -> bool {
    let side = if host {
        FeaturesFor::HostDep
    } else {
        FeaturesFor::NormalOrDev
    };
    let rows = features.activations@;
    &&& 0 <= n < rows.len()
    &&& rows[n].pkg == pkg && rows[n].features_for == side
    &&& forall|m: int|
        0 <= m < n ==> !((#[trigger] rows[m]).pkg == pkg && rows[m].features_for == side)
}

/// Whether these are the features activated in a package: those of its row, and
/// none where there is no row.
pub open spec fn features_are(
    features: ResolvedFeatures,
    pkg: PackageId,
    host: bool,
    names: Seq<InternedString>,
) -> bool {
    &&& forall|n: int| #[trigger]
        activation_at(features, pkg, host, n) ==> names == features.activations@[n].features@
    &&& (forall|n: int| !#[trigger] activation_at(features, pkg, host, n)) ==> names.len() == 0
}

/// Whether an optional dependency of a package is activated.
pub open spec fn turned_on(
    features: ResolvedFeatures,
    pkg: PackageId,
    host: bool,
    name: InternedString,
) -> bool {
    exists|n: int| #[trigger]
        activation_at(features, pkg, host, n) && features.activations@[n].deps@.contains(name)
}

/// Whether a name is among those by which targets of a package are restricted.
pub open spec fn name_selected(
    features: ResolvedFeatures,
    pkg: PackageId,
    name: InternedString,
) -> bool {
    exists|n: int|
        {
            &&& 0 <= n < features.all@.len()
            &&& (#[trigger] features.all@[n]).pkg == pkg
            &&& features.all@[n].names@.contains(name)
            &&& forall|m: int| 0 <= m < n ==> (#[trigger] features.all@[m]).pkg != pkg
        }
}

/// Whether a unit is tested, benchmarked or checked as a test.
pub open spec fn tested(mode: CompileMode) -> bool {
    ||| mode == CompileMode::Test
    ||| mode == CompileMode::Bench
    ||| mode == CompileMode::Doctest
    ||| mode == (CompileMode::Check { test: true })
}

/// Whether a unit asks for a dependency of its package. Documentation asks for
/// normal dependencies and a build script for build dependencies. All else asks
/// for normal dependencies, and tests and examples for dev-dependencies too.
pub open spec fn asks_for(u: UnitView, dep: Dependency) -> bool {
    match u.mode {
        CompileMode::RunCustomBuild => false,
        CompileMode::Doc { .. } => dep.kind == DepKind::Normal,
        _ => match dep.kind {
            DepKind::Build => u.target.kind == TargetKind::CustomBuild,
            DepKind::Normal => u.target.kind != TargetKind::CustomBuild,
            DepKind::Development => u.target.kind != TargetKind::CustomBuild && (tested(u.mode)
                || u.mode == CompileMode::Docscrape || u.target.kind == TargetKind::Test
                || u.target.kind == TargetKind::Example),
        },
    }
}

/// Whether a dependency is declared for the platform of a kind.
pub open spec fn on_platform(cx: Context, dep: Dependency, kind: CompileKind) -> bool {
    dep.platform matches Some(platform) ==> cx.target_data.platforms@.contains(
        PlatformMatch { platform, kind },
    )
}

/// Whether a unit gets a dependency that its package declares.
pub open spec fn gets(cx: Context, is_std: bool, u: UnitView, host: bool, dep: Dependency) -> bool {
    &&& asks_for(u, dep)
    &&& on_platform(cx, dep, u.kind)
    &&& dep.optional ==> turned_on(features_of(cx, is_std), u.pkg.id, host, dep.name_in_toml)
}

/// Whether a unit gets one of the dependencies of an edge.
pub open spec fn gets_edge(
    cx: Context,
    is_std: bool,
    u: UnitView,
    host: bool,
    edge: ResolveEdge,
) -> bool {
    exists|i: int|
        0 <= i < edge.deps@.len() && gets(cx, is_std, u, host, #[trigger] edge.deps@[i])
}

/// Whether position `n` of the downloaded packages is that of a package.
pub open spec fn package_at(set: PackageSet, id: PackageId, n: int) -> bool {
    &&& 0 <= n < set.packages@.len()
    &&& set.packages@[n].id == id
    &&& forall|m: int| 0 <= m < n ==> (#[trigger] set.packages@[m]).id != id
}

/// Whether a package has been downloaded with these contents.
pub open spec fn holds_package(set: PackageSet, pkg: PackageView) -> bool {
    exists|n: int| #[trigger] package_at(set, pkg.id, n) && set.packages@[n]@ == pkg
}

/// Whether a target is the library of a package: the first one that is a library.
pub open spec fn is_lib_of(pkg: PackageView, lib: TargetView) -> bool {
    exists|k: int|
        {
            &&& 0 <= k < pkg.targets.len()
            &&& (#[trigger] pkg.targets[k]) == lib
            &&& lib.kind is Lib
            &&& forall|j: int| 0 <= j < k ==> !((#[trigger] pkg.targets[j]).kind is Lib)
        }
}

/// Whether a target is the first one of a package that crates can link to.
pub open spec fn is_linkable_of(pkg: PackageView, lib: TargetView) -> bool {
    exists|k: int|
        {
            &&& 0 <= k < pkg.targets.len()
            &&& (#[trigger] pkg.targets[k]) == lib
            &&& lib.kind == TargetKind::Lib { linkable: true }
            &&& forall|j: int|
                0 <= j < k ==> (#[trigger] pkg.targets[j]).kind != TargetKind::Lib {
                    linkable: true,
                }
        }
}

/// Whether a target is the build script of a package.
pub open spec fn is_script_of(pkg: PackageView, script: TargetView) -> bool {
    exists|k: int|
        {
            &&& 0 <= k < pkg.targets.len()
            &&& (#[trigger] pkg.targets[k]) == script
            &&& script.kind == TargetKind::CustomBuild
            &&& forall|j: int|
                0 <= j < k ==> (#[trigger] pkg.targets[j]).kind != TargetKind::CustomBuild
        }
}

/// Whether a dependency has the name that the dependencies of its edge give it:
/// what they rename it to, else its own.
pub open spec fn rightly_named(resolve: Resolve, from: PackageId, d: UnitDepView) -> bool {
    let own = d.unit.target.crate_name;
    let to = d.unit.pkg.id;
    &&& from == to ==> d.extern_crate_name == own
    &&& forall|edge: ResolveEdge, i: int|
        from != to && joins(resolve, from, to, edge) && 0 <= i < edge.deps@.len()
            ==> d.extern_crate_name == match (#[trigger] edge.deps@[i]).rename {
            Some(name) => name,
            None => own,
        }
    &&& (forall|edge: ResolveEdge| #[trigger]
        joins(resolve, from, to, edge) ==> edge.deps@.len() == 0) ==> d.extern_crate_name == own
}

/// Whether two packages are joined by an edge that is part of the public
/// interface.
pub open spec fn publicly(resolve: Resolve, from: PackageId, to: PackageId) -> bool {
    exists|edge: ResolveEdge| #[trigger] joins(resolve, from, to, edge) && edge.public
}

/// Whether a row of the profiles is for what a dependency is.
pub open spec fn row_fits(cx: Context, is_std: bool, row: ProfileChoice, d: UnitDepView) -> bool {
    let id = d.unit.pkg.id;
    &&& row.query.pkg == id
    &&& row.query.is_member == cx.ws.members@.contains(id)
    &&& row.query.is_local == (id.source.is_path && !is_std)
    &&& row.query.unit_for == d.unit_for
    &&& row.query.mode == d.unit.mode
    &&& row.query.kind == d.unit.kind
}

/// Whether a dependency has the profile of the first row that fits it, and the
/// default where none does.
pub open spec fn profile_fits(cx: Context, is_std: bool, d: UnitDepView) -> bool {
    let rows = cx.profiles.choices@;
    &&& forall|n: int|
        0 <= n < rows.len() && row_fits(cx, is_std, #[trigger] rows[n], d) && (forall|m: int|
            0 <= m < n ==> !row_fits(cx, is_std, #[trigger] rows[m], d)) ==> d.unit.profile
            == rows[n].profile
    &&& (forall|n: int| 0 <= n < rows.len() ==> !row_fits(cx, is_std, #[trigger] rows[n], d))
        ==> d.unit.profile == cx.profiles.default
}

/// Whether a profile is the one to run a build script with that belongs to a unit
/// with another one.
pub open spec fn run_profile_fits(profiles: Profiles, of: Profile, profile: Profile) -> bool {
    let rows = profiles.run_custom_build@;
    &&& forall|n: int|
        0 <= n < rows.len() && (#[trigger] rows[n]).for_unit == of && (forall|m: int|
            0 <= m < n ==> (#[trigger] rows[m]).for_unit != of) ==> profile == rows[n].profile
    &&& (forall|n: int| 0 <= n < rows.len() ==> (#[trigger] rows[n]).for_unit != of) ==> profile
        == profiles.default
}

/// What holds of every dependency that follows from the tables, where `from` is
/// the package that names it.
pub open spec fn rightly_made(cx: Context, is_std: bool, from: PackageId, d: UnitDepView) -> bool {
    &&& d.unit.is_std == is_std
    &&& d.unit.dep_hash == 0
    &&& !d.noprelude
    &&& features_are(
        features_of(cx, is_std),
        d.unit.pkg.id,
        d.unit_for.host_features,
        d.unit.features,
    )
    &&& rightly_named(resolution_of(cx, is_std), from, d)
    &&& d.public <==> publicly(resolution_of(cx, is_std), from, d.unit.pkg.id)
}

/// Whether `dep_for` is what a dependency on a target is built for, where the unit
/// that depends on it is built for `unit_for`.
pub open spec fn handed_down(
    u: UnitView,
    unit_for: UnitFor,
    target: TargetView,
    dep_for: UnitFor,
) -> bool {
    &&& dep_for.host <==> unit_for.host || target.for_host
    &&& dep_for.host_features <==> unit_for.host_features || target.proc_macro || u.target.kind
        == TargetKind::CustomBuild
    &&& dep_for.panic_setting == if target.for_host {
        PanicSetting::AlwaysUnwind
    } else {
        unit_for.panic_setting
    }
}

/// Whether something is built for the host and unwinds, with the features of the
/// host side or of the other one.
pub open spec fn for_host_side(host_features: bool, unit_for: UnitFor) -> bool {
    &&& unit_for.host
    &&& unit_for.host_features == host_features
    &&& unit_for.panic_setting == PanicSetting::AlwaysUnwind
}

/// Whether `kind` is that of a dependency on a target: the host for what the build
/// itself runs, else that of the unit.
pub open spec fn kind_follows(u: UnitView, target: TargetView, kind: CompileKind) -> bool {
    kind == if target.for_host {
        CompileKind::Host
    } else {
        u.kind
    }
}

/// Whether a library is built in the mode that a unit needs: in full, unless the
/// unit is merely checked, documented or scraped and the library does not run on
/// the host.
pub open spec fn mode_follows(u: UnitView, target: TargetView, mode: CompileMode) -> bool {
    let light = u.mode is Check || u.mode is Doc || u.mode == CompileMode::Docscrape;
    mode == if light && !target.for_host {
        CompileMode::Check { test: false }
    } else {
        CompileMode::Build
    }
}

/// Whether a procedural macro is built twice: for the host and for the platform.
pub open spec fn built_twice(cx: Context, u: UnitView, target: TargetView) -> bool {
    cx.ws.config.dual_proc_macros && target.proc_macro && u.kind != CompileKind::Host
        && !(u.mode is Doc)
}

/// Whether a dependency is on the library of another package that the package of
/// the unit depends on.
pub open spec fn is_lib_dep(
    cx: Context,
    is_std: bool,
    u: UnitView,
    unit_for: UnitFor,
    d: UnitDepView,
) -> bool {
    &&& exists|edge: ResolveEdge|
        {
            &&& #[trigger] leads(resolution_of(cx, is_std), u.pkg.id, edge)
            &&& gets_edge(cx, is_std, u, unit_for.host_features, edge)
            &&& d.unit.pkg.id == edge.to
        }
    &&& holds_package(*cx.package_set, d.unit.pkg)
    &&& is_lib_of(d.unit.pkg, d.unit.target)
    &&& handed_down(u, unit_for, d.unit.target, d.unit_for)
    &&& if built_twice(cx, u, d.unit.target) {
        d.unit.kind == u.kind || d.unit.kind == CompileKind::Host
    } else {
        kind_follows(u, d.unit.target, d.unit.kind)
    }
    &&& mode_follows(u, d.unit.target, d.unit.mode) || u.mode == (CompileMode::Doc { deps: true })
        && d.unit.mode == u.mode
    &&& profile_fits(cx, is_std, d)
    &&& rightly_made(cx, is_std, u.pkg.id, d)
}

/// Whether a dependency is on running the build script of the package of a unit.
pub open spec fn is_run_dep(
    cx: Context,
    is_std: bool,
    u: UnitView,
    unit_for: UnitFor,
    d: UnitDepView,
) -> bool {
    &&& u.mode is Doc || u.mode != CompileMode::RunCustomBuild && u.target.kind
        != TargetKind::CustomBuild
    &&& d.unit.pkg == u.pkg
    &&& is_script_of(u.pkg, d.unit.target)
    &&& d.unit.mode == CompileMode::RunCustomBuild
    &&& d.unit.kind == u.kind
    &&& for_host_side(unit_for.host_features, d.unit_for)
    &&& run_profile_fits(*cx.profiles, u.profile, d.unit.profile)
    &&& rightly_made(cx, is_std, u.pkg.id, d)
}

/// Whether a unit needs the library of its own package.
pub open spec fn relies_on_lib(u: UnitView) -> bool {
    match u.mode {
        CompileMode::RunCustomBuild => false,
        CompileMode::Doc { .. } => u.target.kind == TargetKind::Bin || u.target.kind
            == TargetKind::Example,
        CompileMode::Doctest => u.target.kind != TargetKind::CustomBuild,
        _ => u.target.kind != TargetKind::CustomBuild && !(u.target.kind is Lib),
    }
}

/// Whether a dependency is on the library of the package of a unit.
pub open spec fn is_own_lib_dep(
    cx: Context,
    is_std: bool,
    u: UnitView,
    unit_for: UnitFor,
    d: UnitDepView,
) -> bool {
    &&& relies_on_lib(u)
    &&& d.unit.pkg == u.pkg
    &&& is_linkable_of(u.pkg, d.unit.target)
    &&& handed_down(u, unit_for, d.unit.target, d.unit_for)
    &&& kind_follows(u, d.unit.target, d.unit.kind)
    &&& mode_follows(u, d.unit.target, d.unit.mode) || u.mode is Doc && d.unit.mode == u.mode
    &&& profile_fits(cx, is_std, d)
    &&& rightly_made(cx, is_std, u.pkg.id, d)
}

/// Whether a unit runs the binaries of its package: it is an integration test or a
/// benchmark, and not merely checked.
pub open spec fn runs_bins(u: UnitView) -> bool {
    &&& u.mode == CompileMode::Test || u.mode == CompileMode::Bench || u.mode
        == CompileMode::Doctest
    &&& u.target.kind == TargetKind::Test || u.target.kind == TargetKind::Bench
}

/// Whether all features are selected that a target requires.
pub open spec fn is_selected(
    features: ResolvedFeatures,
    pkg: PackageId,
    target: TargetView,
) -> bool {
    target.required_features matches Some(required) ==> forall|i: int|
        0 <= i < required.len() ==> name_selected(features, pkg, #[trigger] required[i])
}

/// Whether a dependency is on a binary of the package of a unit.
pub open spec fn is_bin_dep(cx: Context, is_std: bool, u: UnitView, d: UnitDepView) -> bool {
    &&& runs_bins(u)
    &&& d.unit.pkg == u.pkg
    &&& u.pkg.targets.contains(d.unit.target)
    &&& d.unit.target.kind == TargetKind::Bin
    &&& is_selected(features_of(cx, is_std), u.pkg.id, d.unit.target)
    &&& !d.unit_for.host && !d.unit_for.host_features && d.unit_for.panic_setting
        == PanicSetting::ReadProfile
    &&& kind_follows(u, d.unit.target, d.unit.kind)
    &&& d.unit.mode == CompileMode::Build
    &&& profile_fits(cx, is_std, d)
    &&& rightly_made(cx, is_std, u.pkg.id, d)
}

/// Whether the output of the build script that a unit runs is given.
pub open spec fn output_given(cx: Context, u: UnitView) -> bool {
    &&& u.mode == CompileMode::RunCustomBuild
    &&& u.pkg.links matches Some(links) && cx.target_data.overrides@.contains(
        ScriptOverride { links, kind: u.kind },
    )
}

/// Whether a dependency is on compiling the build script that a unit runs.
pub open spec fn is_script_dep(
    cx: Context,
    is_std: bool,
    u: UnitView,
    unit_for: UnitFor,
    d: UnitDepView,
) -> bool {
    &&& u.mode == CompileMode::RunCustomBuild
    &&& !output_given(cx, u)
    &&& d.unit.pkg == u.pkg
    &&& d.unit.target == u.target
    &&& d.unit.kind == CompileKind::Host
    &&& d.unit.mode == CompileMode::Build
    &&& for_host_side(unit_for.host_features, d.unit_for)
    &&& profile_fits(cx, is_std, d)
    &&& rightly_made(cx, is_std, u.pkg.id, d)
}

/// Whether a unit is documented and belongs to the workspace, so that examples are
/// scraped for it.
pub open spec fn shows_examples(cx: Context, u: UnitView) -> bool {
    u.mode is Doc && cx.ws.members@.contains(u.pkg.id)
}

/// Whether a dependency is on scraping `scraped` for examples.
pub open spec fn is_scrape_dep(
    cx: Context,
    is_std: bool,
    u: UnitView,
    scraped: UnitView,
    d: UnitDepView,
) -> bool {
    &&& shows_examples(cx, u)
    &&& d.unit.pkg == scraped.pkg
    &&& d.unit.target == scraped.target
    &&& d.unit.kind == scraped.kind
    &&& d.unit.mode == scraped.mode
    &&& for_host_side(scraped.target.proc_macro, d.unit_for)
    &&& profile_fits(cx, is_std, d)
    &&& rightly_made(cx, is_std, scraped.pkg.id, d)
}

/// Whether a dependency follows from what manifests and tables say, for a unit that
/// is built for `unit_for`.
pub open spec fn follows(
    cx: Context,
    is_std: bool,
    u: UnitView,
    unit_for: UnitFor,
    d: UnitDepView,
) -> bool {
    ||| is_lib_dep(cx, is_std, u, unit_for, d)
    ||| is_run_dep(cx, is_std, u, unit_for, d)
    ||| is_own_lib_dep(cx, is_std, u, unit_for, d)
    ||| is_bin_dep(cx, is_std, u, d)
    ||| is_script_dep(cx, is_std, u, unit_for, d)
    ||| exists|i: int|
        0 <= i < cx.scrape_units@.len() && is_scrape_dep(
            cx,
            is_std,
            u,
            (#[trigger] cx.scrape_units@[i])@,
            d,
        )
}

} // verus!
