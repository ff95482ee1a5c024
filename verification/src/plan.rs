//! What a single unit depends on.

use crate::compile::{CompileKind, CompileMode};
use crate::context::Context;
use crate::dependency::{DepKind, Dependency};
use crate::errors::Misuse;
use crate::interning::all_among;
use crate::lookup::{is_subsequence, lemma_filter_subsequence, lemma_filter_within, stands_at};
use crate::package::{PackageId, PackageView};
use crate::profiles::{Profile, ProfileQuery, UnitFor};
use crate::resolve::{lemma_deps_apart, ResolveEdge};
use crate::run::{append, single, Run};
use crate::target::TargetView;
use crate::unit::{UnitDepView, UnitView};
use vstd::prelude::*;

verus! {

/// Which of the declared dependencies a unit asks for.
#[derive(Clone, Copy, Debug, PartialEq, Eq, Structural)]
pub enum DepFilter {
    /// Those needed to compile the unit.
    Compile,
    /// Those needed to document the unit.
    Document,
}

/// The mode in which a dependency is built whose dependent is built in `mode`.
pub open spec fn spec_check_or_build_mode(mode: CompileMode, target: TargetView) -> CompileMode {
    if mode.is_check() || mode.is_doc() || mode.is_doc_scrape() {
        if target.for_host {
            CompileMode::Build
        } else {
            CompileMode::Check { test: false }
        }
    } else {
        CompileMode::Build
    }
}

/// Dependencies are never built as tests, and a target that runs on the host is
/// built in full. The mode does not change on the way down.
pub proof fn law_dependency_mode(mode: CompileMode, target: TargetView, next: TargetView)
    ensures
        ({
            let dep_mode = spec_check_or_build_mode(mode, target);
            &&& !dep_mode.is_any_test()
            &&& dep_mode == CompileMode::Build || dep_mode == (CompileMode::Check { test: false })
            &&& target.for_host ==> dep_mode == CompileMode::Build
            &&& !target.for_host ==> spec_check_or_build_mode(dep_mode, next)
                == spec_check_or_build_mode(mode, next)
        }),
{
}

/// The dependency of `parent` on a target of `pkg` that is built with `profile`.
pub open spec fn spec_new_unit_dep_with_profile(
    cx: Context,
    parent: UnitView,
    pkg: PackageView,
    target: TargetView,
    unit_for: UnitFor,
    kind: CompileKind,
    mode: CompileMode,
    profile: Profile,
) -> Run<UnitDepView> {
    match cx.spec_resolve().spec_extern_crate_name(parent.pkg.id, pkg.id, target) {
        Ok(name) => Run::Done(
            UnitDepView {
                unit: UnitView {
                    pkg,
                    target,
                    profile,
                    kind,
                    mode,
                    features: cx.spec_features().spec_activated_features(
                        pkg.id,
                        unit_for.map_to_features_for(),
                    ),
                    is_std: cx.is_std,
                    dep_hash: 0,
                },
                unit_for,
                extern_crate_name: name,
                public: cx.spec_resolve().spec_is_public_dep(parent.pkg.id, pkg.id),
                noprelude: false,
            },
        ),
        Err(e) => Run::Failed(e),
    }
}

/// What the profile of a unit is chosen by.
pub open spec fn profile_query(
    cx: Context,
    pkg: PackageView,
    unit_for: UnitFor,
    mode: CompileMode,
    kind: CompileKind,
) -> ProfileQuery {
    ProfileQuery {
        pkg: pkg.id,
        is_member: cx.ws.spec_is_member(pkg.id),
        is_local: pkg.id.source.is_path && !cx.is_std,
        unit_for,
        mode,
        kind,
    }
}

/// The dependency of `parent` on a target of `pkg`.
pub open spec fn spec_new_unit_dep(
    cx: Context,
    parent: UnitView,
    pkg: PackageView,
    target: TargetView,
    unit_for: UnitFor,
    kind: CompileKind,
    mode: CompileMode,
) -> Run<UnitDepView> {
    spec_new_unit_dep_with_profile(
        cx,
        parent,
        pkg,
        target,
        unit_for,
        kind,
        mode,
        cx.profiles.spec_get_profile(profile_query(cx, pkg, unit_for, mode, kind)),
    )
}

/// Whether a unit asks for a declared dependency.
///
/// A build script asks for build dependencies and everything else for all but
/// those. Dev-dependencies are for tests and examples. Documentation takes
/// normal dependencies.
pub open spec fn dep_wanted(unit: UnitView, filter: DepFilter, dep: Dependency) -> bool {
    match filter {
        DepFilter::Compile => {
            &&& unit.target.is_custom_build() == dep.is_build()
            &&& dep.is_transitive() || unit.target.is_test() || unit.target.is_example()
                || unit.mode.is_doc_scrape() || unit.mode.is_any_test()
        },
        DepFilter::Document => dep.kind == DepKind::Normal,
    }
}

/// Whether a declared dependency can be had: the platform is right and, if it is
/// optional, it is activated.
pub open spec fn dep_available(
    cx: Context,
    unit: UnitView,
    unit_for: UnitFor,
    dep: Dependency,
) -> bool {
    &&& cx.target_data.spec_dep_platform_activated(dep, unit.kind)
    &&& dep.optional ==> cx.spec_features().spec_is_dep_activated(
        unit.pkg.id,
        unit_for.map_to_features_for(),
        dep.name_in_toml,
    )
}

/// Whether a unit depends on what a declared dependency names: it asks for it,
/// and it can be had.
pub open spec fn dep_active(
    cx: Context,
    unit: UnitView,
    unit_for: UnitFor,
    filter: DepFilter,
    dep: Dependency,
) -> bool {
    dep_wanted(unit, filter, dep) && dep_available(cx, unit, unit_for, dep)
}

/// Whether an edge has a dependency that is wanted and can be had.
pub open spec fn edge_chosen(
    cx: Context,
    unit: UnitView,
    unit_for: UnitFor,
    wanted: spec_fn(Dependency) -> bool,
) -> spec_fn(ResolveEdge) -> bool {
    |edge: ResolveEdge|
        exists|i: int|
            0 <= i < edge.deps@.len() && wanted(#[trigger] edge.deps@[i]) && dep_available(
                cx,
                unit,
                unit_for,
                edge.deps@[i],
            )
}

/// The edges of the package of a unit that have a dependency that is wanted and
/// can be had.
pub open spec fn chosen_edges(
    cx: Context,
    unit: UnitView,
    unit_for: UnitFor,
    wanted: spec_fn(Dependency) -> bool,
) -> Seq<ResolveEdge> {
    cx.spec_resolve().spec_deps(unit.pkg.id).filter(edge_chosen(cx, unit, unit_for, wanted))
}

/// What a unit asks for.
pub open spec fn wanted_by(unit: UnitView, filter: DepFilter) -> spec_fn(Dependency) -> bool {
    |dep: Dependency| dep_wanted(unit, filter, dep)
}

/// Whether a unit depends on the package at the end of an edge.
pub open spec fn edge_active(
    cx: Context,
    unit: UnitView,
    unit_for: UnitFor,
    filter: DepFilter,
) -> spec_fn(ResolveEdge) -> bool {
    edge_chosen(cx, unit, unit_for, wanted_by(unit, filter))
}

/// Whether every edge of the package of a unit lists a dependency.
pub open spec fn edges_listed(cx: Context, unit: UnitView) -> bool {
    let edges = cx.spec_resolve().spec_deps(unit.pkg.id);
    forall|i: int| 0 <= i < edges.len() ==> (#[trigger] edges[i]).deps@.len() > 0
}

/// The edges to the packages that a unit depends on.
pub open spec fn active_edges(
    cx: Context,
    unit: UnitView,
    unit_for: UnitFor,
    filter: DepFilter,
) -> Seq<ResolveEdge> {
    chosen_edges(cx, unit, unit_for, wanted_by(unit, filter))
}

/// The dependencies of a unit on the library of another package.
pub open spec fn lib_deps(
    cx: Context,
    unit: UnitView,
    unit_for: UnitFor,
    filter: DepFilter,
    pkg: PackageView,
    lib: TargetView,
) -> Run<Seq<UnitDepView>> {
    let mode = spec_check_or_build_mode(unit.mode, lib);
    let dep_for = unit_for.spec_with_dependency(unit, lib);
    let kind = unit.kind.spec_for_target(lib);
    match filter {
        DepFilter::Compile => if cx.ws.config.dual_proc_macros && lib.proc_macro
            && !unit.kind.is_host() {
            append(
                single(spec_new_unit_dep(cx, unit, pkg, lib, dep_for, unit.kind, mode)),
                single(spec_new_unit_dep(cx, unit, pkg, lib, dep_for, CompileKind::Host, mode)),
            )
        } else {
            single(spec_new_unit_dep(cx, unit, pkg, lib, dep_for, kind, mode))
        },
        DepFilter::Document => {
            let built = single(spec_new_unit_dep(cx, unit, pkg, lib, dep_for, kind, mode));
            if unit.mode == (CompileMode::Doc { deps: true }) {
                append(
                    built,
                    single(spec_new_unit_dep(cx, unit, pkg, lib, dep_for, kind, unit.mode)),
                )
            } else {
                built
            }
        },
    }
}

/// The dependencies of a unit that one edge brings: none on a package without
/// a library.
pub open spec fn edge_deps(
    cx: Context,
    unit: UnitView,
    unit_for: UnitFor,
    filter: DepFilter,
    edge: ResolveEdge,
) -> Run<Seq<UnitDepView>> {
    match cx.package_set.spec_get_one(edge.to) {
        Some(pkg) => match pkg.spec_lib() {
            Some(lib) => lib_deps(cx, unit, unit_for, filter, pkg, lib),
            None => Run::Done(Seq::empty()),
        },
        None => Run::Stuck(Misuse::NotDownloaded(edge.to)),
    }
}

/// The dependencies of a unit that its first `n` active edges bring.
pub open spec fn package_deps(
    cx: Context,
    unit: UnitView,
    unit_for: UnitFor,
    filter: DepFilter,
    n: nat,
) -> Run<Seq<UnitDepView>>
    decreases n,
{
    if n == 0 {
        Run::Done(Seq::empty())
    } else {
        let edges = active_edges(cx, unit, unit_for, filter);
        append(
            package_deps(cx, unit, unit_for, filter, (n - 1) as nat),
            edge_deps(cx, unit, unit_for, filter, edges[n - 1]),
        )
    }
}

/// The dependencies of a unit on the libraries of other packages.
pub open spec fn all_package_deps(
    cx: Context,
    unit: UnitView,
    unit_for: UnitFor,
    filter: DepFilter,
) -> Run<Seq<UnitDepView>> {
    if edges_listed(cx, unit) {
        package_deps(cx, unit, unit_for, filter, active_edges(cx, unit, unit_for, filter).len())
    } else {
        Run::Stuck(Misuse::EmptyEdge(unit.pkg.id))
    }
}

/// Whether every dependency of an edge is a dev-dependency.
pub open spec fn only_dev(edge: ResolveEdge) -> bool {
    forall|i: int| 0 <= i < edge.deps@.len() ==> !(#[trigger] edge.deps@[i]).is_transitive()
}

/// Whether one of the dependencies is on `unit`.
pub open spec fn has_dep_on(deps: Seq<UnitDepView>, unit: UnitView) -> bool {
    exists|j: int| 0 <= j < deps.len() && (#[trigger] deps[j]).unit == unit
}

/// Whether an edge brings a dependency of `unit` on `dep`, purely through
/// dev-dependencies.
pub open spec fn edge_brings_dev(
    cx: Context,
    unit: UnitView,
    unit_for: UnitFor,
    edge: ResolveEdge,
    dep: UnitView,
) -> bool {
    &&& only_dev(edge)
    &&& match edge_deps(cx, unit, unit_for, DepFilter::Compile, edge) {
        Run::Done(deps) => has_dep_on(deps, dep),
        _ => false,
    }
}

/// Whether one of the first `n` active edges brings a dependency of `unit` on
/// `dep`, purely through dev-dependencies.
pub open spec fn brought_by_dev(
    cx: Context,
    unit: UnitView,
    unit_for: UnitFor,
    n: nat,
    dep: UnitView,
) -> bool {
    let edges = active_edges(cx, unit, unit_for, DepFilter::Compile);
    exists|k: int| 0 <= k < n && edge_brings_dev(cx, unit, unit_for, #[trigger] edges[k], dep)
}

/// The edges of the graph that the first `n` active edges of a unit add purely
/// through dev-dependencies.
pub open spec fn dev_edges_of(cx: Context, unit: UnitView, unit_for: UnitFor, n: nat) -> Set<
    (UnitView, UnitView),
> {
    Set::new(
        |edge: (UnitView, UnitView)|
            edge.0 == unit && brought_by_dev(cx, unit, unit_for, n, edge.1),
    )
}

/// The edges of the graph that a unit adds purely through dev-dependencies.
pub open spec fn dev_edges(cx: Context, unit: UnitView, unit_for: UnitFor) -> Set<
    (UnitView, UnitView),
> {
    dev_edges_of(
        cx,
        unit,
        unit_for,
        active_edges(cx, unit, unit_for, DepFilter::Compile).len(),
    )
}

/// The dependency of a unit on the execution of the build script of its
/// package, if there is one.
pub open spec fn build_script_dep(cx: Context, unit: UnitView, unit_for: UnitFor) -> Run<
    Seq<UnitDepView>,
> {
    match unit.pkg.spec_build_script() {
        Some(script) => single(
            spec_new_unit_dep_with_profile(
                cx,
                unit,
                unit.pkg,
                script,
                UnitFor::new_host(unit_for.is_for_host_features()),
                unit.kind,
                CompileMode::RunCustomBuild,
                cx.profiles.spec_get_profile_run_custom_build(unit.profile),
            ),
        ),
        None => Run::Done(Seq::empty()),
    }
}

/// The dependency of a unit on the linkable library of its own package, if
/// there is one.
pub open spec fn own_lib_dep(
    cx: Context,
    unit: UnitView,
    unit_for: UnitFor,
    force_mode: Option<CompileMode>,
) -> Run<Seq<UnitDepView>> {
    match unit.pkg.spec_linkable() {
        Some(lib) => single(
            spec_new_unit_dep(
                cx,
                unit,
                unit.pkg,
                lib,
                unit_for.spec_with_dependency(unit, lib),
                unit.kind.spec_for_target(lib),
                match force_mode {
                    Some(mode) => mode,
                    None => spec_check_or_build_mode(unit.mode, lib),
                },
            ),
        ),
        None => Run::Done(Seq::empty()),
    }
}

/// Whether a target is a binary none of whose required features is missing.
pub open spec fn enabled_bin(cx: Context, pkg: PackageId, target: TargetView) -> bool {
    &&& target.is_bin()
    &&& match target.required_features {
        Some(required) => all_among(required, cx.spec_features().spec_all_features(pkg)),
        None => true,
    }
}

/// The dependency of a unit on one target of its package, if that is a binary
/// to build.
pub open spec fn bin_dep(cx: Context, unit: UnitView, target: TargetView) -> Run<Seq<UnitDepView>> {
    if enabled_bin(cx, unit.pkg.id, target) {
        single(
            spec_new_unit_dep(
                cx,
                unit,
                unit.pkg,
                target,
                UnitFor::new_normal(),
                unit.kind.spec_for_target(target),
                CompileMode::Build,
            ),
        )
    } else {
        Run::Done(Seq::empty())
    }
}

/// The dependencies of a unit on the binaries among the first `n` targets of
/// its package.
pub open spec fn bin_deps(cx: Context, unit: UnitView, n: nat) -> Run<Seq<UnitDepView>>
    decreases n,
{
    if n == 0 {
        Run::Done(Seq::empty())
    } else {
        append(bin_deps(cx, unit, (n - 1) as nat), bin_dep(cx, unit, unit.pkg.targets[n - 1]))
    }
}

/// The dependencies of a unit on the binaries of its package.
pub open spec fn own_bin_deps(cx: Context, unit: UnitView) -> Run<Seq<UnitDepView>> {
    bin_deps(cx, unit, unit.pkg.targets.len())
}

/// Whether a unit runs the binaries of its package: integration tests and
/// benchmarks that are not merely checked.
pub open spec fn needs_bins(unit: UnitView) -> bool {
    !unit.mode.is_check() && unit.mode.is_any_test() && (unit.target.is_test()
        || unit.target.is_bench())
}

/// The dependencies of a unit that is compiled.
pub open spec fn compile_deps(cx: Context, unit: UnitView, unit_for: UnitFor) -> Run<
    Seq<UnitDepView>,
> {
    let packages = all_package_deps(cx, unit, unit_for, DepFilter::Compile);
    let script = append(packages, build_script_dep(cx, unit, unit_for));
    let lib = append(script, own_lib_dep(cx, unit, unit_for, None));
    if unit.target.is_custom_build() {
        packages
    } else if unit.target.is_lib() && unit.mode != CompileMode::Doctest {
        script
    } else if needs_bins(unit) {
        append(lib, own_bin_deps(cx, unit))
    } else {
        lib
    }
}

/// Whether the output of the build script of a package is given by the
/// configuration.
pub open spec fn script_overridden(cx: Context, pkg: PackageView, kind: CompileKind) -> bool {
    match pkg.links {
        Some(links) => cx.target_data.spec_script_override(links, kind),
        None => false,
    }
}

/// Whether a unit is the execution of a build script whose output is given by the
/// configuration.
pub open spec fn run_overridden(cx: Context, unit: UnitView) -> bool {
    &&& unit.mode.is_run_custom_build()
    &&& script_overridden(cx, unit.pkg, unit.kind)
}

/// The dependencies of the execution of a build script: compiling it for the
/// host, unless its output is given.
pub open spec fn run_script_deps(cx: Context, unit: UnitView, unit_for: UnitFor) -> Run<
    Seq<UnitDepView>,
> {
    if script_overridden(cx, unit.pkg, unit.kind) {
        Run::Done(Seq::empty())
    } else if !cx.has_resolve() {
        Run::Stuck(Misuse::NoStdResolve)
    } else {
        single(
            spec_new_unit_dep(
                cx,
                unit,
                unit.pkg,
                unit.target,
                UnitFor::new_host(unit_for.is_for_host_features()),
                CompileKind::Host,
                CompileMode::Build,
            ),
        )
    }
}

/// The dependencies of a unit that is documented, without the units that are
/// scraped for examples.
pub open spec fn doc_deps(cx: Context, unit: UnitView, unit_for: UnitFor) -> Run<
    Seq<UnitDepView>,
> {
    let packages = all_package_deps(cx, unit, unit_for, DepFilter::Document);
    let script = append(packages, build_script_dep(cx, unit, unit_for));
    if unit.target.is_bin() || unit.target.is_example() {
        append(
            append(script, own_lib_dep(cx, unit, unit_for, None)),
            own_lib_dep(cx, unit, unit_for, Some(unit.mode)),
        )
    } else {
        script
    }
}

/// What a unit that is scraped for examples is built for.
pub open spec fn scrape_unit_for(unit: UnitView) -> UnitFor {
    UnitFor::new_host(unit.target.proc_macro)
}

/// The dependency on a unit that is scraped for examples.
pub open spec fn scrape_dep(cx: Context, unit: UnitView) -> Run<UnitDepView> {
    spec_new_unit_dep(
        cx,
        unit,
        unit.pkg,
        unit.target,
        scrape_unit_for(unit),
        unit.kind,
        unit.mode,
    )
}

/// What a root of the build is built for.
///
/// The global mode is looked at so that under `cargo test` no dependency has
/// `panic` set, which avoids building the library once more.
pub open spec fn root_unit_for(cx: Context, unit: UnitView) -> UnitFor {
    if unit.mode.is_any_test() || cx.global_mode.is_rustc_test() {
        if unit.target.proc_macro {
            UnitFor::new_host_test(cx.ws.config)
        } else {
            UnitFor::new_test(cx.ws.config)
        }
    } else if unit.target.is_custom_build() {
        UnitFor::new_host(false)
    } else if unit.target.proc_macro {
        UnitFor::new_host(true)
    } else if unit.target.for_host {
        UnitFor::new_compiler()
    } else {
        UnitFor::new_normal()
    }
}

/// Dependencies of tests and benchmarks do not have `panic` set, unless tests may
/// abort.
pub proof fn law_tests_unwind(cx: Context, unit: UnitView)
    requires
        unit.mode.is_any_test() || cx.global_mode.is_rustc_test(),
        !cx.ws.config.panic_abort_tests,
    ensures
        root_unit_for(cx, unit).panic_setting is AlwaysUnwind,
{
}

/// A stricter filter keeps some of the edges that a laxer one keeps, in the same
/// order, and one that wants nothing keeps none.
pub proof fn law_stricter_filter(
    cx: Context,
    unit: UnitView,
    unit_for: UnitFor,
    strict: spec_fn(Dependency) -> bool,
    lax: spec_fn(Dependency) -> bool,
)
    requires
        forall|dep: Dependency| #[trigger] strict(dep) ==> lax(dep),
    ensures
        is_subsequence(
            chosen_edges(cx, unit, unit_for, strict),
            chosen_edges(cx, unit, unit_for, lax),
        ),
        chosen_edges(cx, unit, unit_for, |dep: Dependency| false) == Seq::<ResolveEdge>::empty(),
{
    let all = cx.spec_resolve().spec_deps(unit.pkg.id);
    let p = edge_chosen(cx, unit, unit_for, strict);
    let q = edge_chosen(cx, unit, unit_for, lax);
    assert forall|edge: ResolveEdge| #[trigger] p(edge) implies q(edge) by {
        let i = choose|i: int|
            0 <= i < edge.deps@.len() && strict(#[trigger] edge.deps@[i]) && dep_available(
                cx,
                unit,
                unit_for,
                edge.deps@[i],
            );
        assert(lax(edge.deps@[i]));
    }
    lemma_filter_subsequence(all, p, q);
    let nothing = |dep: Dependency| false;
    let none = edge_chosen(cx, unit, unit_for, nothing);
    if all.filter(none).len() > 0 {
        all.lemma_filter_pred(none, 0);
    }
}

/// In a resolution that lists nothing twice, the edges that a filter keeps lead to
/// different packages: each package is looked at once.
pub proof fn law_edges_apart(
    cx: Context,
    unit: UnitView,
    unit_for: UnitFor,
    wanted: spec_fn(Dependency) -> bool,
)
    requires
        cx.spec_resolve().wf(),
    ensures
        forall|i: int, j: int|
            0 <= i < j < chosen_edges(cx, unit, unit_for, wanted).len() ==> (
            #[trigger] chosen_edges(cx, unit, unit_for, wanted)[i]).to != (
            #[trigger] chosen_edges(cx, unit, unit_for, wanted)[j]).to,
{
    let all = cx.spec_resolve().spec_deps(unit.pkg.id);
    let p = edge_chosen(cx, unit, unit_for, wanted);
    let kept = chosen_edges(cx, unit, unit_for, wanted);
    lemma_deps_apart(cx.spec_resolve(), unit.pkg.id);
    lemma_filter_within(all, p);
    let at = choose|at: Seq<int>| stands_at(kept, all, at);
    assert forall|i: int, j: int| 0 <= i < j < kept.len() implies (#[trigger] kept[i]).to != (
    #[trigger] kept[j]).to by {
        assert(at[i] < at[j]);
        assert(all[at[i]].to != all[at[j]].to);
    }
}

} // verus!
