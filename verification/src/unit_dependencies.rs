//! Constructs the dependency graph for compilation.
//!
//! Code is organized as a set of packages, and a resolution says how packages
//! depend on each other. That is not what a compiler needs. A package contains
//! several targets, which depend on each other too: the library is compiled
//! before the binary, and the build script before either of those. Here the
//! dependencies between packages are lowered to dependencies between units,
//! where a unit is a target together with how it is compiled: the same target
//! may be compiled several times, for example with and without tests.

use crate::compile::{CompileKind, CompileMode};
use crate::context::{context_of, Context};
use crate::dep_order::{dep_le, sort_deps};
use crate::dependency::{DepKind, Dependency};
use crate::dev_edges::DevEdges;
use crate::errors::{DepError, Halt, Misuse};
use crate::interning::InternedString;
use crate::layout::{
    additions, attached, connected, disjoint, finished, is_unit_graph, linked_sibling,
    lists_additions, planned, runs_script, script_run, sibling_script, some_want_std, sorted_graph,
    std_covers, std_dep, std_deps, std_deps_for, std_roots_of, std_units, visited_std, wants_std,
    with_std_roots, StdRoots,
};
use crate::leftover::{
    deps_left, expand_left, lemma_deps_left, lemma_expand_left_done, lemma_roots_left_done,
    lemma_scraped_left, lemma_visit_left, lemma_visit_left_done, lemma_visited_deps_stop,
    lemma_visited_roots_stop, lemma_visited_scraped_stop, lemma_visited_std_stop, roots_left,
    std_left, visit_left,
};
use crate::links::validate_links;
use crate::lookup::{is_first, lemma_found, lemma_not_found};
use crate::package::{Package, PackageId, PackageSet, Workspace};
use crate::plan::{
    active_edges, all_package_deps, bin_dep, bin_deps, brought_by_dev, build_script_dep, dep_active,
    dep_wanted, dev_edges, dev_edges_of, doc_deps, edge_active, edge_brings_dev, edge_deps,
    edges_listed, enabled_bin, has_dep_on, lib_deps, own_bin_deps, own_lib_dep, package_deps,
    profile_query, root_unit_for, run_overridden, run_script_deps, script_overridden,
    spec_check_or_build_mode, spec_new_unit_dep, spec_new_unit_dep_with_profile, DepFilter,
};
use crate::profiles::{Profile, ProfileQuery, Profiles, UnitFor};
use crate::reach::{lemma_found_no_docs, scrapes_no_docs};
use crate::resolve::{FeaturesFor, Resolve, ResolveEdge, ResolvedFeatures};
use crate::run::{append, dep_run, deps_run, halted, optional_dep_run, run_of, Run};
use crate::search::{
    adds_no_docs, expanded, keeps, lemma_expanded, lemma_visited, lemma_visited_deps,
    lemma_visited_scraped, marked, scrapes, visited, visited_deps, visited_roots, visited_scraped,
    Search,
};
use crate::target::Target;
use crate::target_data::RustcTargetData;
use crate::unit::{dep_values, unit_values, Unit, UnitDep, UnitDepView, UnitView};
use crate::unit_graph::{
    entry_map, entry_units, lemma_entry, lemma_position, Graph, UnitEntry, UnitGraph,
};
use crate::walk::is_compiled;
use vstd::prelude::*;
use vstd::relations::sorted_by;

verus! {

/// Collection of stuff used while creating the graph.
pub struct State<'a> {
    pub cx: Context<'a>,
    pub unit_dependencies: UnitGraph,
    /// The edges of `unit_dependencies` that were added purely because of a
    /// dev-dependency. Used when build scripts are connected.
    pub dev_dependency_edges: DevEdges,
}

impl<'a> View for State<'a> {
    type V = Search;

    open spec fn view(&self) -> Search {
        Search { graph: self.unit_dependencies@, dev: self.dev_dependency_edges@ }
    }
}

impl<'a> State<'a> {
    /// No unit is listed twice.
    pub open spec fn wf(self) -> bool {
        self.unit_dependencies.wf()
    }

    /// The resolution for what is laid out.
    pub fn resolve(&self) -> (resolve: &'a Resolve)
        requires
            self.cx.has_resolve(),
        ensures
            *resolve == self.cx.spec_resolve(),
    {
        if self.cx.is_std {
            &self.cx.std_resolve.unwrap().0
        } else {
            self.cx.usr_resolve
        }
    }

    /// The features for what is laid out.
    pub fn features(&self) -> (features: &'a ResolvedFeatures)
        requires
            self.cx.has_resolve(),
        ensures
            *features == self.cx.spec_features(),
    {
        if self.cx.is_std {
            &self.cx.std_resolve.unwrap().1
        } else {
            self.cx.usr_features
        }
    }

    /// The features activated in a package.
    pub fn activated_features(&self, pkg_id: PackageId, features_for: FeaturesFor) -> (features:
        Vec<InternedString>)
        requires
            self.cx.has_resolve(),
        ensures
            features@ == self.cx.spec_features().spec_activated_features(pkg_id, features_for),
    {
        self.features().activated_features(pkg_id, features_for)
    }

    /// Whether an optional dependency of a package is activated.
    pub fn is_dep_activated(
        &self,
        pkg_id: PackageId,
        features_for: FeaturesFor,
        dep_name: InternedString,
    ) -> (active: bool)
        requires
            self.cx.has_resolve(),
        ensures
            active == self.cx.spec_features().spec_is_dep_activated(pkg_id, features_for, dep_name),
    {
        self.features().is_dep_activated(pkg_id, features_for, dep_name)
    }

    /// The downloaded package with the given identity.
    pub fn get(&self, id: PackageId) -> (found: Result<&'a Package, Halt>)
        ensures
            match found {
                Ok(pkg) => self.cx.package_set.spec_get_one(id) == Some(pkg@) && pkg.id == id,
                Err(halt) => self.cx.package_set.spec_get_one(id) is None && halt == Halt::Stuck(
                    Misuse::NotDownloaded(id),
                ),
            },
    {
        match self.cx.package_set.get_one(id) {
            Some(pkg) => Ok(pkg),
            None => Err(Halt::Stuck(Misuse::NotDownloaded(id))),
        }
    }

    /// Whether a unit depends on what a declared dependency names.
    fn dep_is_active(
        &self,
        unit: &Unit,
        unit_for: UnitFor,
        filter: DepFilter,
        dep: &Dependency,
    ) -> (active: bool)
        requires
            self.cx.has_resolve(),
        ensures
            active == dep_active(self.cx, unit@, unit_for, filter, *dep),
    {
        if !wants(unit, filter, dep) {
            return false;
        }
        // If this dependency is only available for certain platforms, make
        // sure we're only enabling it for that platform.

        if !self.cx.target_data.dep_platform_activated(dep, unit.kind) {
            return false;
        }
        // If this is an optional dependency, and feature resolution did not
        // enable it, leave it out.

        if dep.optional {
            let features_for: FeaturesFor = unit_for.map_to_features_for();
            if !self.is_dep_activated(unit.pkg.id, features_for, dep.name_in_toml) {
                return false;
            }
        }
        true
    }

    /// The edges to the packages that a unit depends on.
    pub fn deps(&self, unit: &Unit, unit_for: UnitFor, filter: DepFilter) -> (found: Result<
        Vec<&'a ResolveEdge>,
        Halt,
    >)
        requires
            self.cx.has_resolve(),
        ensures
            match found {
                Ok(edges) => {
                    let active = active_edges(self.cx, unit@, unit_for, filter);
                    &&& edges_listed(self.cx, unit@)
                    &&& edges@.len() == active.len()
                    &&& forall|i: int| 0 <= i < active.len() ==> *#[trigger] edges@[i] == active[i]
                },
                Err(halt) => !edges_listed(self.cx, unit@) && halt == Halt::Stuck(
                    Misuse::EmptyEdge(unit.pkg.id),
                ),
            },
    {
        let ghost p = edge_active(self.cx, unit@, unit_for, filter);
        let ghost all = self.cx.spec_resolve().spec_deps(unit.pkg.id);
        let mut found: Vec<&'a ResolveEdge> = Vec::new();
        let resolve: &'a Resolve = self.resolve();
        let edges: &'a Vec<ResolveEdge> = match resolve.deps(unit.pkg.id) {
            Some(edges) => edges,
            None => {
                proof {
                    reveal(Seq::filter);
                    assert(all.filter(p) =~= Seq::empty());
                }
                return Ok(found);
            },
        };
        for i in 0..edges.len()
            invariant
                self.cx.has_resolve(),
                edges@ == all,
                all == self.cx.spec_resolve().spec_deps(unit.pkg.id),
                p == edge_active(self.cx, unit@, unit_for, filter),
                forall|j: int| 0 <= j < i ==> (#[trigger] all[j]).deps@.len() > 0,
                found@.len() == all.take(i as int).filter(p).len(),
                forall|j: int|
                    0 <= j < found@.len() ==> *#[trigger] found@[j] == all.take(i as int).filter(p)[j],
        {
            let edge: &'a ResolveEdge = &edges[i];
            if edge.deps.len() == 0 {
                assert(all[i as int].deps@.len() == 0);
                assert(unit@.pkg.id == unit.pkg.id);
                assert(!edges_listed(self.cx, unit@));
                return Err(Halt::Stuck(Misuse::EmptyEdge(unit.pkg.id)));
            }
            let mut active: bool = false;
            for k in 0..edge.deps.len()
                invariant
                    self.cx.has_resolve(),
                    active == exists|j: int|
                        0 <= j < k && dep_active(
                            self.cx,
                            unit@,
                            unit_for,
                            filter,
                            #[trigger] edge.deps@[j],
                        ),
            {
                let this: bool = self.dep_is_active(unit, unit_for, filter, &edge.deps[k]);
                active = active || this;
            }
            proof {
                reveal(Seq::filter);
                assert(all.take(i + 1).drop_last() =~= all.take(i as int));
                assert(all.take(i + 1).last() == all[i as int]);
                assert(active == p(all[i as int]));
            }
            if active {
                found.push(edge);
            }
        }
        assert(all.take(all.len() as int) =~= all);
        Ok(found)
    }
}

/// Whether a unit asks for a declared dependency.
fn wants(unit: &Unit, filter: DepFilter, dep: &Dependency) -> (wanted: bool)
    ensures
        wanted == dep_wanted(unit@, filter, *dep),
{
    match filter {
        DepFilter::Compile => {
            // If this target is a build command, then we only want build
            // dependencies, otherwise we want everything *other than* build
            // dependencies.
            if unit.target.is_custom_build() != dep.is_build() {
                return false;
            }
            // If this dependency is **not** a transitive dependency, then it
            // only applies to test/example targets.

            if !dep.is_transitive() && !unit.target.is_test() && !unit.target.is_example()
                && !unit.mode.is_doc_scrape() && !unit.mode.is_any_test() {
                return false;
            }
            true
        },
        DepFilter::Document => dep.kind == DepKind::Normal,
    }
}

/// Choose the correct mode for dependencies.
pub fn check_or_build_mode(mode: CompileMode, target: &Target) -> (dep_mode: CompileMode)
    ensures
        dep_mode == spec_check_or_build_mode(mode, target@),
{
    match mode {
        CompileMode::Check { .. } | CompileMode::Doc { .. } | CompileMode::Docscrape => {
            if target.for_host {
                // Plugin and proc macro targets should be compiled like
                // normal.
                CompileMode::Build
            } else {
                // Regular dependencies should not be checked with --test.
                // Regular dependencies of doc targets should emit rmeta only.
                CompileMode::Check { test: false }
            }
        },
        _ => CompileMode::Build,
    }
}

/// Create a new unit for a dependency from `parent` to `pkg` and `target`.
pub fn new_unit_dep(
    state: &State<'_>,
    parent: &Unit,
    pkg: &Package,
    target: &Target,
    unit_for: UnitFor,
    kind: CompileKind,
    mode: CompileMode,
) -> (res: Result<UnitDep, Halt>)
    requires
        state.cx.has_resolve(),
    ensures
        dep_run(res) == spec_new_unit_dep(
            state.cx,
            parent@,
            pkg@,
            target@,
            unit_for,
            kind,
            mode,
        ),
{
    let is_local: bool = pkg.id.source.is_path && !state.cx.is_std;
    let query: ProfileQuery = ProfileQuery {
        pkg: pkg.id,
        is_member: state.cx.ws.is_member(pkg.id),
        is_local,
        unit_for,
        mode,
        kind,
    };
    let profile: Profile = state.cx.profiles.get_profile(query);
    assert(query == profile_query(state.cx, pkg@, unit_for, mode, kind));
    new_unit_dep_with_profile(state, parent, pkg, target, unit_for, kind, mode, profile)
}

/// Create a new unit for a dependency from `parent` to `pkg` and `target` that
/// is built with `profile`.
pub fn new_unit_dep_with_profile(
    state: &State<'_>,
    parent: &Unit,
    pkg: &Package,
    target: &Target,
    unit_for: UnitFor,
    kind: CompileKind,
    mode: CompileMode,
    profile: Profile,
) -> (res: Result<UnitDep, Halt>)
    requires
        state.cx.has_resolve(),
    ensures
        dep_run(res) == spec_new_unit_dep_with_profile(
            state.cx,
            parent@,
            pkg@,
            target@,
            unit_for,
            kind,
            mode,
            profile,
        ),
{
    let extern_crate_name: InternedString = match state.resolve().extern_crate_name(
        parent.pkg.id,
        pkg.id,
        target,
    ) {
        Ok(name) => name,
        Err(e) => {
            return Err(Halt::Failed(e));
        },
    };
    let public: bool = state.resolve().is_public_dep(parent.pkg.id, pkg.id);
    let features_for: FeaturesFor = unit_for.map_to_features_for();
    let features: Vec<InternedString> = state.activated_features(pkg.id, features_for);
    let unit: Unit = Unit {
        pkg: pkg.duplicate(),
        target: target.duplicate(),
        profile,
        kind,
        mode,
        features,
        is_std: state.cx.is_std,
        dep_hash: 0,
    };
    Ok(UnitDep { unit, unit_for, extern_crate_name, public, noprelude: false })
}

/// If a build script is scheduled to be run for the package of `unit`, returns
/// the unit that runs it.
///
/// Overriding a build script simply means that running it has no dependencies,
/// so even then a unit of work is returned. `None` is only returned if the
/// package has no build script.
pub fn dep_build_script(unit: &Unit, unit_for: UnitFor, state: &State<'_>) -> (res: Result<
    Option<UnitDep>,
    Halt,
>)
    requires
        unit@.pkg.spec_build_script() is Some ==> state.cx.has_resolve(),
    ensures
        optional_dep_run(res) == build_script_dep(state.cx, unit@, unit_for),
{
    let pkg: &Package = &unit.pkg;
    match pkg.build_script() {
        Some(t) => {
            // The profile stored in the unit is the profile for the thing the
            // build script is running for.
            let profile: Profile = state.cx.profiles.get_profile_run_custom_build(unit.profile);
            // All build dependencies get build-override profiles, including
            // the script itself.
            //
            // If the unit uses features of the host side, then it is a build
            // dependency or a proc-macro, and its script sees those features.
            // Otherwise it is a normal dependency, and its script sees the
            // features of that. The script is compiled and run with the same
            // features, so where the two sides differ it is compiled twice.
            let script_unit_for: UnitFor = UnitFor::new_host(unit_for.is_for_host_features());
            match new_unit_dep_with_profile(
                state,
                unit,
                pkg,
                t,
                script_unit_for,
                unit.kind,
                CompileMode::RunCustomBuild,
                profile,
            ) {
                Ok(dep) => Ok(Some(dep)),
                Err(halt) => Err(halt),
            }
        },
        None => Ok(None),
    }
}

/// The dependency of a unit on the linkable library of its own package.
pub fn maybe_lib(
    unit: &Unit,
    state: &State<'_>,
    unit_for: UnitFor,
    force_mode: Option<CompileMode>,
) -> (res: Result<Option<UnitDep>, Halt>)
    requires
        unit@.pkg.spec_linkable() is Some ==> state.cx.has_resolve(),
    ensures
        optional_dep_run(res) == own_lib_dep(state.cx, unit@, unit_for, force_mode),
{
    let pkg: &Package = &unit.pkg;
    match pkg.linkable() {
        Some(t) => {
            let mode: CompileMode = match force_mode {
                Some(mode) => mode,
                None => check_or_build_mode(unit.mode, t),
            };
            let dep_unit_for: UnitFor = unit_for.with_dependency(unit, t);
            match new_unit_dep(state, unit, pkg, t, dep_unit_for, unit.kind.for_target(t), mode) {
                Ok(dep) => Ok(Some(dep)),
                Err(halt) => Err(halt),
            }
        },
        None => Ok(None),
    }
}

/// The dependencies of a unit on the library `lib` of `pkg`.
fn deps_on_lib(
    state: &State<'_>,
    unit: &Unit,
    unit_for: UnitFor,
    filter: DepFilter,
    pkg: &Package,
    lib: &Target,
) -> (res: Result<Vec<UnitDep>, Halt>)
    requires
        state.cx.has_resolve(),
    ensures
        deps_run(res) == lib_deps(state.cx, unit@, unit_for, filter, pkg@, lib@),
{
    let mode: CompileMode = check_or_build_mode(unit.mode, lib);
    let dep_unit_for: UnitFor = unit_for.with_dependency(unit, lib);
    let mut ret: Vec<UnitDep> = Vec::new();
    let dual: bool = match filter {
        DepFilter::Compile => state.cx.ws.config.dual_proc_macros && lib.proc_macro
            && !unit.kind.is_host(),
        DepFilter::Document => false,
    };
    let kind: CompileKind = if dual {
        unit.kind
    } else {
        unit.kind.for_target(lib)
    };
    match new_unit_dep(state, unit, pkg, lib, dep_unit_for, kind, mode) {
        Ok(dep) => {
            ret.push(dep);
        },
        Err(halt) => {
            return Err(halt);
        },
    }
    let ghost first = ret@[0]@;
    assert(dep_values(ret@) =~= seq![first]);
    let also_documented: bool = match filter {
        DepFilter::Compile => false,
        DepFilter::Document => matches!(unit.mode, CompileMode::Doc { deps: true }),
    };
    if dual || also_documented {
        // Either a second build for the host, or the documentation as well.
        let (second_kind, second_mode): (CompileKind, CompileMode) = if dual {
            (CompileKind::Host, mode)
        } else {
            (kind, unit.mode)
        };
        match new_unit_dep(state, unit, pkg, lib, dep_unit_for, second_kind, second_mode) {
            Ok(dep) => {
                ret.push(dep);
                assert(dep_values(ret@) =~= seq![first] + seq![ret@[1]@]);
            },
            Err(halt) => {
                return Err(halt);
            },
        }
    }
    Ok(ret)
}

/// The dependencies of a unit that one edge of the resolution brings.
fn deps_on_edge(
    state: &State<'_>,
    unit: &Unit,
    unit_for: UnitFor,
    filter: DepFilter,
    edge: &ResolveEdge,
) -> (res: Result<Vec<UnitDep>, Halt>)
    requires
        state.cx.has_resolve(),
    ensures
        deps_run(res) == edge_deps(state.cx, unit@, unit_for, filter, *edge),
{
    let pkg: &Package = match state.get(edge.to) {
        Ok(pkg) => pkg,
        Err(halt) => {
            return Err(halt);
        },
    };
    match pkg.lib() {
        Some(lib) => deps_on_lib(state, unit, unit_for, filter, pkg, lib),
        None => {
            let none: Vec<UnitDep> = Vec::new();
            assert(dep_values(none@) =~= Seq::<UnitDepView>::empty());
            Ok(none)
        },
    }
}

/// The dependencies of a unit on the binaries of its package, but for those
/// with required features that have not been selected.
fn deps_on_bins(state: &State<'_>, unit: &Unit) -> (res: Result<Vec<UnitDep>, Halt>)
    requires
        state.cx.has_resolve(),
    ensures
        deps_run(res) == own_bin_deps(state.cx, unit@),
{
    let pkg: &Package = &unit.pkg;
    let mut ret: Vec<UnitDep> = Vec::new();
    assert(dep_values(ret@) =~= Seq::<UnitDepView>::empty());
    for i in 0..pkg.targets.len()
        invariant
            state.cx.has_resolve(),
            *pkg == unit.pkg,
            bin_deps(state.cx, unit@, i as nat) == Run::Done(dep_values(ret@)),
    {
        let t: &Target = &pkg.targets[i];
        assert(unit@.pkg.targets[i as int] == t@);
        let selected: bool = if t.is_bin() {
            match &t.required_features {
                Some(required) => state.features().covers(unit.pkg.id, required),
                None => true,
            }
        } else {
            false
        };
        assert(selected == enabled_bin(state.cx, unit.pkg.id, t@));
        let ghost before = dep_values(ret@);
        if selected {
            match new_unit_dep(
                state,
                unit,
                pkg,
                t,
                UnitFor::new_normal(),
                unit.kind.for_target(t),
                CompileMode::Build,
            ) {
                Ok(dep) => {
                    let ghost d = dep@;
                    ret.push(dep);
                    assert(dep_values(ret@) =~= before + seq![d]);
                },
                Err(halt) => {
                    proof {
                        assert(bin_dep(state.cx, unit@, t@) == halted::<Seq<UnitDepView>>(
                            halt,
                        ));
                        lemma_bin_deps_stop(
                            state.cx,
                            unit@,
                            (i + 1) as nat,
                            pkg.targets@.len(),
                        );
                    }
                    return Err(halt);
                },
            }
        } else {
            assert(before + Seq::<UnitDepView>::empty() =~= before);
        }
    }
    Ok(ret)
}

/// Adds a dependency to a list, if there is one.
fn add_optional(deps: &mut Vec<UnitDep>, dep: Option<UnitDep>)
    ensures
        dep_values(final(deps)@) == dep_values(old(deps)@) + (match dep {
            Some(dep) => seq![dep@],
            None => Seq::empty(),
        }),
{
    match dep {
        Some(dep) => {
            let ghost d = dep@;
            deps.push(dep);
            assert(dep_values(deps@) =~= dep_values(old(deps)@) + seq![d]);
        },
        None => {
            assert(dep_values(deps@) =~= dep_values(old(deps)@) + Seq::<UnitDepView>::empty());
        },
    }
}

/// Adds the dependencies of one list to another.
fn add_all(deps: &mut Vec<UnitDep>, mut more: Vec<UnitDep>)
    ensures
        dep_values(final(deps)@) == dep_values(old(deps)@) + dep_values(more@),
{
    let ghost m = more@;
    deps.append(&mut more);
    assert(dep_values(deps@) =~= dep_values(old(deps)@) + dep_values(m));
}

/// Once a binary cannot be depended on, the rest is not looked at.
proof fn lemma_bin_deps_stop(cx: Context, unit: UnitView, n: nat, m: nat)
    requires
        n <= m,
        !(bin_deps(cx, unit, n) is Done),
    ensures
        bin_deps(cx, unit, m) == bin_deps(cx, unit, n),
    decreases m,
{
    if n < m {
        lemma_bin_deps_stop(cx, unit, n, (m - 1) as nat);
    }
}

/// Returns the dependencies needed to run a build script.
///
/// `unit` must represent an execution of a build script, and the returned units
/// must all be run before `unit` is run.
pub fn compute_deps_custom_build(unit: &Unit, unit_for: UnitFor, state: &State<'_>) -> (res: Result<
    Vec<UnitDep>,
    Halt,
>)
    ensures
        deps_run(res) == run_script_deps(state.cx, unit@, unit_for),
{
    let pkg: &Package = &unit.pkg;
    let mut ret: Vec<UnitDep> = Vec::new();
    assert(dep_values(ret@) =~= Seq::<UnitDepView>::empty());
    let overridden: bool = match pkg.links {
        Some(links) => state.cx.target_data.script_override(links, unit.kind),
        None => false,
    };
    assert(overridden == script_overridden(state.cx, pkg@, unit.kind));
    if overridden {
        // Overridden build scripts don't have any dependencies.
        return Ok(ret);
    }
    if state.cx.is_std && state.cx.std_resolve.is_none() {
        return Err(Halt::Stuck(Misuse::NoStdResolve));
    }
    // All dependencies of this unit should use profiles for custom builds. If
    // this is a build script of a proc macro, make sure it uses host features.

    let script_unit_for: UnitFor = UnitFor::new_host(unit_for.is_for_host_features());
    // When not overridden, then the dependencies to run a build script are:
    //
    // 1. Compiling the build script itself.
    // 2. For each immediate dependency of our package which has a `links` key,
    //    the execution of that build script.
    //
    // The second is added when the graph of all units has been constructed.
    match new_unit_dep(
        state,
        unit,
        pkg,
        &unit.target,
        script_unit_for,
        // Build scripts are always compiled for the host.
        CompileKind::Host,
        CompileMode::Build,
    ) {
        Ok(dep) => {
            let ghost d = dep@;
            ret.push(dep);
            assert(dep_values(ret@) =~= seq![d]);
            Ok(ret)
        },
        Err(halt) => Err(halt),
    }
}

/// Once an edge cannot be lowered, the rest is not looked at.
proof fn lemma_package_deps_stop(
    cx: Context,
    unit: UnitView,
    unit_for: UnitFor,
    filter: DepFilter,
    n: nat,
    m: nat,
)
    requires
        n <= m,
        !(package_deps(cx, unit, unit_for, filter, n) is Done),
    ensures
        package_deps(cx, unit, unit_for, filter, m) == package_deps(cx, unit, unit_for, filter, n),
    decreases m,
{
    if n < m {
        lemma_package_deps_stop(cx, unit, unit_for, filter, n, (m - 1) as nat);
    }
}

/// One more edge adds what it brings itself.
proof fn lemma_brought_by_dev(
    cx: Context,
    unit: UnitView,
    unit_for: UnitFor,
    n: nat,
    dep: UnitView,
)
    ensures
        brought_by_dev(cx, unit, unit_for, n + 1, dep) == (brought_by_dev(
            cx,
            unit,
            unit_for,
            n,
            dep,
        ) || edge_brings_dev(
            cx,
            unit,
            unit_for,
            active_edges(cx, unit, unit_for, DepFilter::Compile)[n as int],
            dep,
        )),
{
}

/// The dependencies that are needed to compile a unit on the libraries of other
/// packages, and which edges among them are purely due to dev-dependencies.
fn compile_deps_on_packages(state: &State<'_>, unit: &Unit, unit_for: UnitFor) -> (res: Result<
    (Vec<UnitDep>, DevEdges),
    Halt,
>)
    requires
        state.cx.has_resolve(),
    ensures
        match res {
            Ok((deps, dev)) => {
                &&& all_package_deps(state.cx, unit@, unit_for, DepFilter::Compile) == Run::Done(
                    dep_values(deps@),
                )
                &&& dev@ == dev_edges(state.cx, unit@, unit_for)
            },
            Err(halt) => all_package_deps(state.cx, unit@, unit_for, DepFilter::Compile) == halted::<
                Seq<UnitDepView>,
            >(halt),
        },
{
    let filter: DepFilter = DepFilter::Compile;
    let edges: Vec<&ResolveEdge> = match state.deps(unit, unit_for, filter) {
        Ok(edges) => edges,
        Err(halt) => {
            return Err(halt);
        },
    };
    let ghost active = active_edges(state.cx, unit@, unit_for, filter);
    let mut ret: Vec<UnitDep> = Vec::new();
    let mut dev: DevEdges = DevEdges::new();
    assert(dep_values(ret@) =~= Seq::<UnitDepView>::empty());
    assert(dev@ =~= dev_edges_of(state.cx, unit@, unit_for, 0));
    for i in 0..edges.len()
        invariant
            state.cx.has_resolve(),
            edges_listed(state.cx, unit@),
            filter == DepFilter::Compile,
            active == active_edges(state.cx, unit@, unit_for, filter),
            edges@.len() == active.len(),
            forall|j: int| 0 <= j < active.len() ==> *#[trigger] edges@[j] == active[j],
            package_deps(state.cx, unit@, unit_for, filter, i as nat) == Run::Done(dep_values(ret@)),
            dev@ == dev_edges_of(state.cx, unit@, unit_for, i as nat),
    {
        let edge: &ResolveEdge = edges[i];
        assert(*edge == active[i as int]);
        let more: Vec<UnitDep> = match deps_on_edge(state, unit, unit_for, filter, edge) {
            Ok(more) => more,
            Err(halt) => {
                proof {
                    lemma_package_deps_stop(
                        state.cx,
                        unit@,
                        unit_for,
                        filter,
                        (i + 1) as nat,
                        active.len(),
                    );
                }
                return Err(halt);
            },
        };
        // If the units were added by a dev-dependency, then record that. This
        // is used when build scripts are connected.
        let mut dev_only: bool = true;
        for k in 0..edge.deps.len()
            invariant
                dev_only == forall|j: int|
                    0 <= j < k ==> !(#[trigger] edge.deps@[j]).is_transitive(),
        {
            if edge.deps[k].is_transitive() {
                dev_only = false;
                assert(edge.deps@[k as int].is_transitive());
            }
        }
        let ghost found = dep_values(more@);
        if dev_only {
            for k in 0..more.len()
                invariant
                    found == dep_values(more@),
                    forall|e: (UnitView, UnitView)| #[trigger]
                        dev@.contains(e) <==> e.0 == unit@ && (brought_by_dev(
                            state.cx,
                            unit@,
                            unit_for,
                            i as nat,
                            e.1,
                        ) || exists|j: int| 0 <= j < k && (#[trigger] found[j]).unit == e.1),
            {
                assert(found[k as int] == more@[k as int]@);
                dev.insert(unit.duplicate(), more[k].unit.duplicate());
            }
        }
        proof {
            assert forall|e: (UnitView, UnitView)| #[trigger]
                dev@.contains(e) <==> dev_edges_of(
                    state.cx,
                    unit@,
                    unit_for,
                    (i + 1) as nat,
                ).contains(e) by {
                lemma_brought_by_dev(state.cx, unit@, unit_for, i as nat, e.1);
            }
            assert(dev@ =~= dev_edges_of(state.cx, unit@, unit_for, (i + 1) as nat));
        }
        add_all(&mut ret, more);
    }
    Ok((ret, dev))
}

/// The dependencies that are needed to document a unit on the libraries of
/// other packages.
fn doc_deps_on_packages(state: &State<'_>, unit: &Unit, unit_for: UnitFor) -> (res: Result<
    Vec<UnitDep>,
    Halt,
>)
    requires
        state.cx.has_resolve(),
    ensures
        deps_run(res) == all_package_deps(state.cx, unit@, unit_for, DepFilter::Document),
{
    let filter: DepFilter = DepFilter::Document;
    let edges: Vec<&ResolveEdge> = match state.deps(unit, unit_for, filter) {
        Ok(edges) => edges,
        Err(halt) => {
            return Err(halt);
        },
    };
    let ghost active = active_edges(state.cx, unit@, unit_for, filter);
    let mut ret: Vec<UnitDep> = Vec::new();
    assert(dep_values(ret@) =~= Seq::<UnitDepView>::empty());
    for i in 0..edges.len()
        invariant
            state.cx.has_resolve(),
            edges_listed(state.cx, unit@),
            filter == DepFilter::Document,
            active == active_edges(state.cx, unit@, unit_for, filter),
            edges@.len() == active.len(),
            forall|j: int| 0 <= j < active.len() ==> *#[trigger] edges@[j] == active[j],
            package_deps(state.cx, unit@, unit_for, filter, i as nat) == Run::Done(dep_values(ret@)),
    {
        let edge: &ResolveEdge = edges[i];
        assert(*edge == active[i as int]);
        match deps_on_edge(state, unit, unit_for, filter, edge) {
            Ok(more) => {
                add_all(&mut ret, more);
            },
            Err(halt) => {
                proof {
                    lemma_package_deps_stop(
                        state.cx,
                        unit@,
                        unit_for,
                        filter,
                        (i + 1) as nat,
                        active.len(),
                    );
                }
                return Err(halt);
            },
        }
    }
    Ok(ret)
}

/// Whether the units `a` come first among the units `b`, in the same order.
pub open spec fn grows_to(a: Seq<UnitView>, b: Seq<UnitView>) -> bool {
    &&& a.len() <= b.len()
    &&& forall|i: int| 0 <= i < a.len() ==> #[trigger] b[i] == a[i]
}

/// How many units can still be added, as far as memory can count.
pub open spec fn room(state: State) -> int {
    usize::MAX - state.unit_dependencies.entries@.len()
}

/// A list that grew and holds something new is longer.
proof fn lemma_grown(a: Seq<UnitView>, b: Seq<UnitView>, unit: UnitView)
    requires
        grows_to(a, b),
        !a.contains(unit),
        b.contains(unit),
    ensures
        a.len() < b.len(),
{
    if a.len() == b.len() {
        assert(a =~= b);
    }
}

/// Compute the dependencies of a single unit, and of those, and so on.
pub fn deps_of(unit: &Unit, state: &mut State<'_>, unit_for: UnitFor) -> (res: Result<(), Halt>)
    requires
        old(state).wf(),
    ensures
        final(state).wf(),
        final(state).cx == old(state).cx,
        grows_to(
            old(state).unit_dependencies.spec_units(),
            final(state).unit_dependencies.spec_units(),
        ),
        visited(old(state).cx, old(state)@, unit@, unit_for) == run_of(res, final(state)@),
        final(state)@ == visit_left(old(state).cx, old(state)@, unit@, unit_for),
        // Whatever the outcome, nothing that was recorded is changed.
        keeps(old(state)@, final(state)@),
        !unit@.mode.is_doc() ==> adds_no_docs(old(state)@, final(state)@),
        res is Err ==> !old(state)@.graph.contains_key(unit@),
        // A unit whose own dependencies cannot be found is not recorded.
        !old(state)@.graph.contains_key(unit@) && !(expanded(
            old(state).cx,
            old(state)@,
            unit@,
            unit_for,
        ) is Done) && (!scrapes(old(state).cx, unit@) || scrapes_no_docs(old(state).cx))
            ==> !final(state)@.graph.contains_key(unit@),
    decreases
            room(*old(state)),
            (if scrapes(old(state).cx, unit@) {
                1int
            } else {
                0int
            }),
            3int,
{
    let ghost cx = state.cx;
    let ghost start = state@;
    let ghost before = state.unit_dependencies.spec_units();
    proof {
        lemma_visited(cx, start, unit@, unit_for);
    }
    // The graph does not tell apart what a unit is built for. This is safe:
    // where a unit is asked for again with other settings, those are the ones
    // that cannot affect it.
    if !state.unit_dependencies.contains_key(unit) {
        let unit_deps: Vec<UnitDep> = match compute_deps(unit, state, unit_for) {
            Ok(unit_deps) => unit_deps,
            Err(halt) => {
                proof {
                    lemma_visit_left(cx, start, unit@, unit_for);
                }
                return Err(halt);
            },
        };
        let ghost deps = dep_values(unit_deps@);
        proof {
            if !unit@.mode.is_doc() {
                lemma_found_no_docs(cx, start, unit@, unit_for);
            }
        }
        state.unit_dependencies.insert(unit.duplicate(), copy_deps(&unit_deps));
        let ghost entered = state@;
        proof {
            let after = state.unit_dependencies.spec_units();
            assert(state.unit_dependencies@.contains_key(unit@));
            assert(after.contains(unit@));
            assert(!before.contains(unit@));
            assert(grows_to(before, after));
            lemma_grown(before, after, unit@);
            lemma_visited_deps(cx, entered, deps, 0);
            if !(visited(cx, start, unit@, unit_for) is Unfinished) {
                lemma_visit_left(cx, start, unit@, unit_for);
            }
        }
        for i in 0..unit_deps.len()
            invariant
                cx == state.cx,
                cx == old(state).cx,
                start == old(state)@,
                state.wf(),
                deps == dep_values(unit_deps@),
                before == old(state).unit_dependencies.spec_units(),
                before.len() < state.unit_dependencies.spec_units().len(),
                grows_to(before, state.unit_dependencies.spec_units()),
                visited(cx, start, unit@, unit_for) == visited_deps(cx, entered, deps, deps.len()),
                visited_deps(cx, entered, deps, i as nat) == Run::Done(state@),
                !start.graph.contains_key(unit@),
                expanded(cx, start, unit@, unit_for) is Done,
                visited(cx, start, unit@, unit_for) is Unfinished || visit_left(
                    cx,
                    start,
                    unit@,
                    unit_for,
                ) == deps_left(cx, entered, deps, deps.len()),
                keeps(start, state@),
                !unit@.mode.is_doc() ==> adds_no_docs(start, state@) && forall|k: int|
                    0 <= k < deps.len() ==> !(#[trigger] deps[k]).unit.mode.is_doc(),
        {
            let listed: usize = state.unit_dependencies.len();
            assert(room(*state) == usize::MAX - listed);
            assert(deps[i as int] == unit_deps@[i as int]@);
            proof {
                lemma_visited_deps(cx, entered, deps, (i + 1) as nat);
            }
            match deps_of(&unit_deps[i].unit, state, unit_deps[i].unit_for) {
                Ok(()) => {},
                Err(halt) => {
                    proof {
                        lemma_deps_left(cx, entered, deps, (i + 1) as nat);
                        lemma_visited_deps_stop(cx, entered, deps, (i + 1) as nat, deps.len());
                        lemma_visit_left(cx, start, unit@, unit_for);
                    }
                    return Err(halt);
                },
            }
        }
    }
    proof {
        lemma_visit_left_done(cx, start, unit@, unit_for);
    }
    Ok(())
}

/// A second copy of a list of dependencies.
fn copy_deps(deps: &Vec<UnitDep>) -> (copy: Vec<UnitDep>)
    ensures
        dep_values(copy@) == dep_values(deps@),
{
    let mut copy: Vec<UnitDep> = Vec::new();
    for i in 0..deps.len()
        invariant
            copy@.len() == i,
            forall|j: int| 0 <= j < i ==> (#[trigger] copy@[j])@ == deps@[j]@,
    {
        copy.push(deps[i].duplicate());
    }
    assert(dep_values(copy@) =~= dep_values(deps@));
    copy
}

/// Returns the dependencies of a unit, each with what it is built for.
pub fn compute_deps(unit: &Unit, state: &mut State<'_>, unit_for: UnitFor) -> (res: Result<
    Vec<UnitDep>,
    Halt,
>)
    requires
        old(state).wf(),
    ensures
        final(state).wf(),
        final(state).cx == old(state).cx,
        grows_to(
            old(state).unit_dependencies.spec_units(),
            final(state).unit_dependencies.spec_units(),
        ),
        expanded(old(state).cx, old(state)@, unit@, unit_for) == (match res {
            Ok(deps) => Run::Done((final(state)@, dep_values(deps@))),
            Err(halt) => halted(halt),
        }),
        final(state)@ == expand_left(old(state).cx, old(state)@, unit@, unit_for),
        // Whatever the outcome, nothing that was recorded is changed.
        keeps(old(state)@, final(state)@),
        scrapes_no_docs(old(state).cx) ==> adds_no_docs(old(state)@, final(state)@),
        !scrapes(old(state).cx, unit@) || old(state).cx.scrape_units@.len() == 0
            ==> final(state).unit_dependencies == old(state).unit_dependencies,
        !is_compiled(unit@) && (!scrapes(old(state).cx, unit@) || old(
            state,
        ).cx.scrape_units@.len() == 0) ==> *final(state) == *old(state),
        is_compiled(unit@) ==> final(state)@.dev == marked(
            old(state).cx,
            old(state)@.dev,
            unit@,
            unit_for,
        ),
    decreases
            room(*old(state)),
            (if scrapes(old(state).cx, unit@) {
                1int
            } else {
                0int
            }),
            2int,
{
    proof {
        lemma_expanded(state.cx, state@, unit@, unit_for);
    }
    if unit.mode.is_run_custom_build() {
        return compute_deps_custom_build(unit, unit_for, state);
    }
    if state.cx.is_std && state.cx.std_resolve.is_none() {
        return Err(Halt::Stuck(Misuse::NoStdResolve));
    }
    if unit.mode.is_doc() {
        // Note: this does not hold for doc tests.
        return compute_deps_doc(unit, state, unit_for);
    }
    let (mut ret, dev_deps): (Vec<UnitDep>, DevEdges) = match compile_deps_on_packages(
        state,
        unit,
        unit_for,
    ) {
        Ok(found) => found,
        Err(halt) => {
            return Err(halt);
        },
    };
    state.dev_dependency_edges.extend(dev_deps);
    // If this target is a build script, then what we've collected so far is
    // all we need. If this isn't a build script, then it depends on the build
    // script if there is one.

    if unit.target.is_custom_build() {
        return Ok(ret);
    }
    match dep_build_script(unit, unit_for, state) {
        Ok(dep) => {
            add_optional(&mut ret, dep);
        },
        Err(halt) => {
            return Err(halt);
        },
    }
    // If this target is a binary, test, example, etc, then it depends on the
    // library of the same package. The resolution does not list that, so it is
    // added here.

    if unit.target.is_lib() && unit.mode != CompileMode::Doctest {
        return Ok(ret);
    }
    match maybe_lib(unit, state, unit_for, None) {
        Ok(dep) => {
            add_optional(&mut ret, dep);
        },
        Err(halt) => {
            return Err(halt);
        },
    }
    // If any integration tests/benches are being run, make sure that binaries
    // are built as well.

    if !unit.mode.is_check() && unit.mode.is_any_test() && (unit.target.is_test()
        || unit.target.is_bench()) {
        match deps_on_bins(state, unit) {
            Ok(more) => {
                add_all(&mut ret, more);
            },
            Err(halt) => {
                return Err(halt);
            },
        }
    }
    Ok(ret)
}

/// The dependencies of a unit that is documented, without the units that are
/// scraped for examples.
fn deps_to_document(state: &State<'_>, unit: &Unit, unit_for: UnitFor) -> (res: Result<
    Vec<UnitDep>,
    Halt,
>)
    requires
        state.cx.has_resolve(),
    ensures
        deps_run(res) == doc_deps(state.cx, unit@, unit_for),
{
    // To document a library, we depend on dependencies actually being built. If
    // we're documenting *all* libraries, then we also depend on the
    // documentation of the library being built.
    let mut ret: Vec<UnitDep> = match doc_deps_on_packages(state, unit, unit_for) {
        Ok(ret) => ret,
        Err(halt) => {
            return Err(halt);
        },
    };
    // Be sure to build/run the build script for documented libraries.
    match dep_build_script(unit, unit_for, state) {
        Ok(dep) => {
            add_optional(&mut ret, dep);
        },
        Err(halt) => {
            return Err(halt);
        },
    }
    // If we document a binary/example, we need the library available.

    if unit.target.is_bin() || unit.target.is_example() {
        // build the lib
        match maybe_lib(unit, state, unit_for, None) {
            Ok(dep) => {
                add_optional(&mut ret, dep);
            },
            Err(halt) => {
                return Err(halt);
            },
        }
        // and also the lib docs for intra-doc links
        match maybe_lib(unit, state, unit_for, Some(unit.mode)) {
            Ok(dep) => {
                add_optional(&mut ret, dep);
            },
            Err(halt) => {
                return Err(halt);
            },
        }
    }
    Ok(ret)
}

/// Returns the dependencies necessary to document a package.
pub fn compute_deps_doc(unit: &Unit, state: &mut State<'_>, unit_for: UnitFor) -> (res: Result<
    Vec<UnitDep>,
    Halt,
>)
    requires
        old(state).wf(),
        old(state).cx.has_resolve(),
        unit@.mode.is_doc(),
    ensures
        final(state).wf(),
        final(state).cx == old(state).cx,
        grows_to(
            old(state).unit_dependencies.spec_units(),
            final(state).unit_dependencies.spec_units(),
        ),
        expanded(old(state).cx, old(state)@, unit@, unit_for) == (match res {
            Ok(deps) => Run::Done((final(state)@, dep_values(deps@))),
            Err(halt) => halted(halt),
        }),
        final(state)@ == expand_left(old(state).cx, old(state)@, unit@, unit_for),
        // Whatever the outcome, nothing that was recorded is changed.
        keeps(old(state)@, final(state)@),
        scrapes_no_docs(old(state).cx) ==> adds_no_docs(old(state)@, final(state)@),
        !scrapes(old(state).cx, unit@) || old(state).cx.scrape_units@.len() == 0 ==> *final(state)
            == *old(state),
    decreases
            room(*old(state)),
            (if scrapes(old(state).cx, unit@) {
                1int
            } else {
                0int
            }),
            1int,
{
    let ghost cx = state.cx;
    let ghost start = state@;
    let ghost before = state.unit_dependencies.spec_units();
    proof {
        lemma_expanded(cx, start, unit@, unit_for);
    }
    let mut ret: Vec<UnitDep> = match deps_to_document(state, unit, unit_for) {
        Ok(ret) => ret,
        Err(halt) => {
            return Err(halt);
        },
    };
    // Add all units being scraped for examples as a dependency of Doc units.

    if state.cx.ws.is_member(unit.pkg.id) {
        let ghost head = dep_values(ret@);
        let mut scraped: Vec<UnitDep> = Vec::new();
        let scrape_units: &[Unit] = state.cx.scrape_units;
        proof {
            assert(dep_values(scraped@) =~= Seq::<UnitDepView>::empty());
            lemma_visited_scraped(cx, start, 0);
        }
        for i in 0..scrape_units.len()
            invariant
                cx == state.cx,
                cx == old(state).cx,
                start == old(state)@,
                cx.has_resolve(),
                scrapes(cx, unit@),
                scrape_units@ == cx.scrape_units@,
                state.wf(),
                before == old(state).unit_dependencies.spec_units(),
                grows_to(before, state.unit_dependencies.spec_units()),
                doc_deps(cx, unit@, unit_for) == Run::Done(head),
                expanded(cx, start, unit@, unit_for) == (match visited_scraped(
                    cx,
                    start,
                    cx.scrape_units@.len(),
                ) {
                    Run::Done((found, scraped)) => Run::Done((found, head + scraped)),
                    run => run,
                }),
                visited_scraped(cx, start, i as nat) == Run::Done((state@, dep_values(scraped@))),
                keeps(start, state@),
                scrapes_no_docs(cx) ==> adds_no_docs(start, state@),
                scrape_units@.len() == 0 ==> *state == *old(state),
        {
            let listed: usize = state.unit_dependencies.len();
            assert(room(*state) == usize::MAX - listed);
            let scrape_unit: &Unit = &scrape_units[i];
            let ghost so_far = dep_values(scraped@);
            proof {
                lemma_visited_scraped(cx, start, (i + 1) as nat);
                assert(scrape_unit@ == cx.scrape_units@[i as int]@);
            }
            // This needs to match the features for which the roots to scrape
            // are generated.
            let scrape_for: UnitFor = UnitFor::new_host(scrape_unit.target.proc_macro);
            let known: bool = state.unit_dependencies.contains_key(scrape_unit);
            let visit: Result<(), Halt> = if known {
                proof {
                    lemma_visited(cx, state@, scrape_unit@, scrape_for);
                    lemma_visit_left_done(cx, state@, scrape_unit@, scrape_for);
                }
                Ok(())
            } else if scrape_unit.mode.is_doc() && state.cx.ws.is_member(scrape_unit.pkg.id) {
                // It would have to be scraped before itself.
                match deps_to_document(state, scrape_unit, scrape_for) {
                    Ok(_) => Err(Halt::Stuck(Misuse::ScrapesItself(scrape_unit.pkg.id))),
                    Err(halt) => Err(halt),
                }
            } else {
                deps_of(scrape_unit, state, scrape_for)
            };
            match visit {
                Ok(()) => {},
                Err(halt) => {
                    proof {
                        lemma_scraped_left(cx, start, (i + 1) as nat);
                        lemma_visited_scraped_stop(
                            cx,
                            start,
                            (i + 1) as nat,
                            cx.scrape_units@.len(),
                        );
                    }
                    return Err(halt);
                },
            }
            let made: Result<UnitDep, Halt> = new_unit_dep(
                state,
                scrape_unit,
                &scrape_unit.pkg,
                &scrape_unit.target,
                scrape_for,
                scrape_unit.kind,
                scrape_unit.mode,
            );
            match made {
                Ok(dep) => {
                    let ghost d = dep@;
                    scraped.push(dep);
                    assert(dep_values(scraped@) =~= so_far.push(d));
                },
                Err(halt) => {
                    proof {
                        lemma_scraped_left(cx, start, (i + 1) as nat);
                        lemma_visited_scraped_stop(
                            cx,
                            start,
                            (i + 1) as nat,
                            cx.scrape_units@.len(),
                        );
                    }
                    return Err(halt);
                },
            }
        }
        add_all(&mut ret, scraped);
    }
    proof {
        lemma_expand_left_done(cx, start, unit@, unit_for);
    }
    Ok(ret)
}

/// Compute all the dependencies of the given root units.
pub fn deps_of_roots(roots: &[Unit], state: &mut State<'_>) -> (res: Result<(), Halt>)
    requires
        old(state).wf(),
    ensures
        final(state).wf(),
        final(state).cx == old(state).cx,
        visited_roots(old(state).cx, old(state)@, unit_values(roots@), roots@.len()) == run_of(
            res,
            final(state)@,
        ),
        final(state)@ == roots_left(
            old(state).cx,
            old(state)@,
            unit_values(roots@),
            roots@.len(),
        ),
        // Whatever the outcome, nothing that was recorded is changed.
        keeps(old(state)@, final(state)@),
        grows_to(
            old(state).unit_dependencies.spec_units(),
            final(state).unit_dependencies.spec_units(),
        ),
{
    let ghost cx = state.cx;
    let ghost start = state@;
    let ghost units = unit_values(roots@);
    let ghost before = state.unit_dependencies.spec_units();
    for i in 0..roots.len()
        invariant
            cx == state.cx,
            cx == old(state).cx,
            start == old(state)@,
            state.wf(),
            units == unit_values(roots@),
            visited_roots(cx, start, units, i as nat) == Run::Done(state@),
            keeps(start, state@),
            before == old(state).unit_dependencies.spec_units(),
            grows_to(before, state.unit_dependencies.spec_units()),
    {
        let unit: &Unit = &roots[i];
        assert(units[i as int] == unit@);
        // Dependencies of tests/benches should not have `panic` set. We check
        // the global test mode to see if we are running in `cargo test` in
        // which case we ensure all dependencies have `panic` cleared, and avoid
        // building the lib thrice (once with `panic`, once without, once for
        // `--test`). In particular, the lib included for doc tests and examples
        // are `Build` mode here.
        let unit_for: UnitFor = if unit.mode.is_any_test() || state.cx.global_mode.is_rustc_test() {
            if unit.target.proc_macro {
                // Special-case for proc-macros, which are forced to for-host
                // since they need to link with the proc_macro crate.
                UnitFor::new_host_test(state.cx.ws.config)
            } else {
                UnitFor::new_test(state.cx.ws.config)
            }
        } else if unit.target.is_custom_build() {
            // This normally doesn't happen, except `clean` aggressively
            // generates all units.
            UnitFor::new_host(false)
        } else if unit.target.proc_macro {
            UnitFor::new_host(true)
        } else if unit.target.for_host {
            // Plugin should never have panic set.
            UnitFor::new_compiler()
        } else {
            UnitFor::new_normal()
        };
        assert(unit_for == root_unit_for(cx, unit@));
        match deps_of(unit, state, unit_for) {
            Ok(()) => {},
            Err(halt) => {
                proof {
                    lemma_visited_roots_stop(cx, start, units, (i + 1) as nat, units.len());
                }
                return Err(halt);
            },
        }
    }
    proof {
        lemma_roots_left_done(cx, start, units, units.len());
    }
    Ok(())
}

/// Compute all the dependencies for the standard library.
///
/// They are handed back, apart from the graph of the user's packages.
pub fn calc_deps_of_std(state: &mut State<'_>, std_roots: &[StdRoots]) -> (res: Result<
    Option<UnitGraph>,
    Halt,
>)
    requires
        old(state).wf(),
    ensures
        final(state).wf(),
        match res {
            Ok(None) => std_roots@.len() == 0 && *final(state) == *old(state),
            Ok(Some(graph)) => {
                &&& std_roots@.len() > 0
                &&& final(state).cx == old(state).cx.for_std(false)
                &&& graph.wf()
                &&& final(state)@.graph == Graph::empty()
                &&& visited_std(
                    old(state).cx.for_std(true),
                    old(state)@,
                    std_roots@,
                    std_roots@.len(),
                ) == Run::Done(Search { graph: graph@, dev: final(state)@.dev })
                &&& keeps(old(state)@, (Search { graph: graph@, dev: final(state)@.dev }))
            },
            Err(halt) => {
                &&& std_roots@.len() > 0
                &&& final(state).cx == old(state).cx.for_std(true)
                &&& visited_std(
                    old(state).cx.for_std(true),
                    old(state)@,
                    std_roots@,
                    std_roots@.len(),
                ) == halted::<Search>(halt)
                &&& final(state)@ == std_left(
                    old(state).cx.for_std(true),
                    old(state)@,
                    std_roots@,
                    std_roots@.len(),
                )
                &&& keeps(old(state)@, final(state)@)
            },
        },
{
    if std_roots.len() == 0 {
        return Ok(None);
    }
    // Compute dependencies for the standard library.

    state.cx.is_std = true;
    let ghost cx = state.cx;
    let ghost start = state@;
    assert(cx == old(state).cx.for_std(true));
    for i in 0..std_roots.len()
        invariant
            cx == state.cx,
            cx == old(state).cx.for_std(true),
            start == old(state)@,
            state.wf(),
            std_roots@.len() > 0,
            visited_std(cx, start, std_roots@, i as nat) == Run::Done(state@),
            keeps(start, state@),
    {
        match deps_of_roots(std_roots[i].units.as_slice(), state) {
            Ok(()) => {},
            Err(halt) => {
                proof {
                    lemma_visited_std_stop(
                        cx,
                        start,
                        std_roots@,
                        (i + 1) as nat,
                        std_roots@.len(),
                    );
                }
                return Err(halt);
            },
        }
    }
    state.cx.is_std = false;
    let mut graph: UnitGraph = UnitGraph::new();
    std::mem::swap(&mut graph, &mut state.unit_dependencies);
    Ok(Some(graph))
}

/// The crates of the standard library for a kind, as dependencies.
fn std_deps_of_kind(std_roots: &[StdRoots], kind: CompileKind) -> (found: Option<Vec<UnitDep>>)
    ensures
        match found {
            Some(deps) => std_units(std_roots@, kind) is Some && dep_values(deps@) == std_deps(
                std_units(std_roots@, kind)->0,
            ),
            None => std_units(std_roots@, kind) is None,
        },
{
    for i in 0..std_roots.len()
        invariant
            forall|j: int| 0 <= j < i ==> !std_roots_of(kind)(#[trigger] std_roots@[j]),
    {
        if std_roots[i].kind == kind {
            proof {
                assert(is_first(std_roots@, std_roots_of(kind), i as int));
                lemma_found(std_roots@, std_roots_of(kind), i as int);
            }
            let units: &Vec<Unit> = &std_roots[i].units;
            let mut deps: Vec<UnitDep> = Vec::new();
            for k in 0..units.len()
                invariant
                    deps@.len() == k,
                    forall|j: int| 0 <= j < k ==> (#[trigger] deps@[j])@ == std_dep(units@[j]@),
            {
                deps.push(
                    UnitDep {
                        unit: units[k].duplicate(),
                        unit_for: UnitFor::new_normal(),
                        extern_crate_name: units[k].pkg.id.name,
                        public: true,
                        noprelude: true,
                    },
                );
            }
            assert(dep_values(deps@) =~= std_deps(unit_values(units@)));
            return Some(deps);
        }
    }
    proof {
        lemma_not_found(std_roots@, std_roots_of(kind));
    }
    None
}

/// Add the standard library units to the graph.
pub fn attach_std_deps(state: &mut State<'_>, std_roots: &[StdRoots], std_unit_deps: UnitGraph) -> (
res: Result<(), Halt>)
    requires
        old(state).wf(),
        std_unit_deps.wf(),
    ensures
        final(state).wf(),
        final(state).cx == old(state).cx,
        final(state)@.dev == old(state)@.dev,
        attached(old(state)@.graph, std_roots@, std_unit_deps@) == run_of(res, final(state)@.graph),
{
    // Attach the standard library as a dependency of every target unit.
    let ghost start = state.unit_dependencies;
    let ghost before = start.entries@;
    let ghost std_graph = std_unit_deps@;
    let mut found: bool = false;
    let n: usize = state.unit_dependencies.len();
    for i in 0..n
        invariant
            n == before.len(),
            start == old(state).unit_dependencies,
            start.wf(),
            before == start.entries@,
            state.cx == old(state).cx,
            state@.dev == old(state)@.dev,
            state.unit_dependencies.spec_units() == start.spec_units(),
            state.unit_dependencies.entries@.len() == before.len(),
            forall|j: int|
                i <= j < before.len() ==> (#[trigger] state.unit_dependencies.entries@[j])
                    == before[j],
            forall|j: int|
                0 <= j < i ==> dep_values((#[trigger] state.unit_dependencies.entries@[j]).deps@)
                    == dep_values(before[j].deps@) + std_deps_for(
                    std_roots@,
                    before[j].unit@,
                ),
            forall|j: int|
                0 <= j < i && wants_std((#[trigger] before[j]).unit@) ==> std_units(
                    std_roots@,
                    before[j].unit@.kind,
                ) is Some,
            found == exists|j: int| 0 <= j < i && wants_std((#[trigger] before[j]).unit@),
    {
        assert(state.unit_dependencies.entries@[i as int] == before[i as int]);
        let ghost u = before[i as int].unit@;
        let kind: CompileKind = state.unit_dependencies.entries[i].unit.kind;
        let mode: CompileMode = state.unit_dependencies.entries[i].unit.mode;
        if !kind.is_host() && !mode.is_run_custom_build() {
            match std_deps_of_kind(std_roots, kind) {
                Some(deps) => {
                    add_all(&mut state.unit_dependencies.entries[i].deps, deps);
                },
                None => {
                    proof {
                        lemma_entry(before, i as int);
                        assert(!std_covers(start@, std_roots@));
                    }
                    return Err(Halt::Stuck(Misuse::NoStdRoots));
                },
            }
            found = true;
        } else {
            assert(std_deps_for(std_roots@, u) =~= Seq::<UnitDepView>::empty());
            assert(dep_values(before[i as int].deps@) + std_deps_for(std_roots@, u) =~= dep_values(
                before[i as int].deps@,
            ));
        }
        assert(state.unit_dependencies.spec_units() =~= start.spec_units());
    }
    proof {
        let after = state.unit_dependencies.entries@;
        assert forall|u: UnitView| #[trigger] start@.contains_key(u) && wants_std(u) implies found
            && std_units(std_roots@, u.kind) is Some by {
            let k = lemma_position(before, u);
            assert(wants_std(before[k].unit@));
        }
        assert(std_covers(start@, std_roots@));
        if found {
            let k = choose|j: int| 0 <= j < before.len() && wants_std((#[trigger] before[j]).unit@);
            lemma_entry(before, k);
        }
        assert(found == some_want_std(start@));
        let roots = with_std_roots(start@, std_roots@);
        assert forall|u: UnitView| entry_map(after).contains_key(u) implies #[trigger] entry_map(
            after,
        )[u] == roots[u] by {
            let k = lemma_position(after, u);
            assert(entry_units(after)[k] == entry_units(before)[k]);
            lemma_entry(before, k);
            assert(before[k].unit@ == u);
        }
        assert(state.unit_dependencies@ =~= roots);
        if !found {
            assert forall|u: UnitView| start@.contains_key(u) implies #[trigger] roots[u]
                == start@[u] by {
                assert(!wants_std(u));
                assert(start@[u] + Seq::<UnitDepView>::empty() =~= start@[u]);
            }
            assert(roots =~= start@);
        }
    }
    // And also take in the dependencies of the standard library itself. Don't
    // do so if no units actually needed the standard library.

    if found {
        let mut rest: Vec<UnitEntry> = std_unit_deps.entries;
        let ghost all = rest@;
        let ghost roots = state.unit_dependencies@;
        assert(all == std_unit_deps.entries@);
        while rest.len() > 0
            invariant
                state.wf(),
                state.cx == old(state).cx,
                state@.dev == old(state)@.dev,
                std_covers(old(state)@.graph, std_roots@),
                some_want_std(old(state)@.graph),
                entry_units(all).no_duplicates(),
                std_graph == entry_map(all),
                std_graph == std_unit_deps@,
                rest@.len() <= all.len(),
                rest@ == all.take(rest@.len() as int),
                roots == with_std_roots(old(state)@.graph, std_roots@),
                forall|j: int|
                    rest@.len() <= j < all.len() ==> !roots.contains_key(
                        (#[trigger] all[j]).unit@,
                    ),
                forall|u: UnitView| #[trigger]
                    state.unit_dependencies@.contains_key(u) <==> roots.contains_key(u) || exists|
                        j: int,
                    |
                        rest@.len() <= j < all.len() && (#[trigger] all[j]).unit@ == u,
                forall|u: UnitView|
                    roots.contains_key(u) ==> #[trigger] state.unit_dependencies@[u] == roots[u],
                forall|j: int|
                    rest@.len() <= j < all.len() ==> state.unit_dependencies@[(
                    #[trigger] all[j]).unit@] == dep_values(all[j].deps@),
            decreases rest@.len(),
        {
            let ghost n = rest@.len() - 1;
            let ghost held = state.unit_dependencies@;
            let entry: UnitEntry = rest.pop().unwrap();
            let ghost u = entry.unit@;
            proof {
                assert(entry == all[n]);
                assert(rest@ =~= all.take(n));
                lemma_entry(all, n);
                assert forall|j: int| n < j < all.len() implies (#[trigger] all[j]).unit@ != u by {
                    assert(entry_units(all)[j] == all[j].unit@);
                    assert(entry_units(all)[n] == u);
                }
            }
            let replaced: bool = state.unit_dependencies.insert(entry.unit, entry.deps);
            if replaced {
                proof {
                    assert(roots.contains_key(u));
                    assert(old(state)@.graph.contains_key(u) && std_graph.contains_key(u));
                    assert(!disjoint(old(state)@.graph, std_graph));
                }
                return Err(Halt::Stuck(Misuse::StdCollision));
            }
            assert(state.unit_dependencies@ == held.insert(u, dep_values(all[n].deps@)));
            assert(!roots.contains_key(all[n].unit@));
        }
        proof {
            let old_graph = old(state)@.graph;
            let union = roots.union_prefer_right(std_graph);
            assert(disjoint(old_graph, std_graph)) by {
                assert forall|v: UnitView|
                    !(#[trigger] old_graph.contains_key(v) && #[trigger] std_graph.contains_key(
                        v,
                    )) by {
                    if std_graph.contains_key(v) {
                        let k = lemma_position(all, v);
                        assert(!roots.contains_key(all[k].unit@));
                    }
                }
            }
            assert forall|v: UnitView|
                #![trigger state.unit_dependencies@.contains_key(v)]
                state.unit_dependencies@.contains_key(v) <==> union.contains_key(v) by {
                if std_graph.contains_key(v) {
                    let k = lemma_position(all, v);
                    assert(all[k].unit@ == v);
                }
                if state.unit_dependencies@.contains_key(v) && !roots.contains_key(v) {
                    let k = choose|j: int| 0 <= j < all.len() && (#[trigger] all[j]).unit@ == v;
                    lemma_entry(all, k);
                }
            }
            assert forall|v: UnitView| union.contains_key(v) implies
                #[trigger] state.unit_dependencies@[v] == union[v] by {
                if std_graph.contains_key(v) {
                    let k = lemma_position(all, v);
                    assert(all[k].unit@ == v);
                }
            }
            assert(state.unit_dependencies@ =~= union);
        }
    }
    Ok(())
}

/// Whether one of the dependencies is on `unit`.
fn depends_on(deps: &Vec<UnitDep>, unit: &Unit) -> (found: bool)
    ensures
        found == has_dep_on(dep_values(deps@), unit@),
{
    for i in 0..deps.len()
        invariant
            forall|j: int| 0 <= j < i ==> (#[trigger] dep_values(deps@)[j]).unit != unit@,
    {
        assert(dep_values(deps@)[i as int] == deps@[i as int]@);
        if deps[i].unit.same(unit) {
            return true;
        }
    }
    false
}

/// Whether a dependency is listed.
fn lists_dep(deps: &Vec<UnitDep>, dep: &UnitDep) -> (found: bool)
    ensures
        found == dep_values(deps@).contains(dep@),
{
    for i in 0..deps.len()
        invariant
            forall|j: int| 0 <= j < i ==> #[trigger] dep_values(deps@)[j] != dep@,
    {
        assert(dep_values(deps@)[i as int] == deps@[i as int]@);
        if deps[i].same(dep) {
            return true;
        }
    }
    false
}

/// The first dependency that is the execution of a build script.
fn first_script_run(deps: &Vec<UnitDep>) -> (found: Option<&UnitDep>)
    ensures
        match found {
            Some(dep) => script_run(dep_values(deps@)) == Some(dep@),
            None => script_run(dep_values(deps@)) is None,
        },
{
    let ghost values = dep_values(deps@);
    for i in 0..deps.len()
        invariant
            values == dep_values(deps@),
            forall|j: int| 0 <= j < i ==> !runs_script()(#[trigger] values[j]),
    {
        assert(values[i as int] == deps@[i as int]@);
        if deps[i].unit.mode.is_run_custom_build() {
            proof {
                assert(is_first(values, runs_script(), i as int));
                lemma_found(values, runs_script(), i as int);
            }
            return Some(&deps[i]);
        }
    }
    proof {
        lemma_not_found(values, runs_script());
    }
    None
}

/// Whether `dep` is the execution of the build script of the linked sibling
/// that stands at position `k` of the dependencies of the `p`th unit.
spec fn sibling_at(
    graph: UnitGraph,
    dev: Set<(UnitView, UnitView)>,
    unit: UnitView,
    p: int,
    k: int,
    dep: UnitDepView,
) -> bool {
    let other = graph.entries@[p].deps@[k]@;
    &&& linked_sibling(graph@, dev, unit, graph.entries@[p].unit@, other)
    &&& graph@.contains_key(other.unit)
    &&& script_run(graph@[other.unit]) == Some(dep)
}

/// Whether there is such a sibling before position `i` of the dependencies of
/// the `p`th unit.
spec fn sibling_before(
    graph: UnitGraph,
    dev: Set<(UnitView, UnitView)>,
    unit: UnitView,
    p: int,
    i: int,
    dep: UnitDepView,
) -> bool {
    exists|q: int, k: int|
        0 <= k < graph.entries@[q].deps@.len() && (0 <= q < p || (q == p && k < i))
            && #[trigger] sibling_at(graph, dev, unit, q, k, dep)
}

/// One position further there is one more sibling at most.
proof fn lemma_sibling_before(
    graph: UnitGraph,
    dev: Set<(UnitView, UnitView)>,
    unit: UnitView,
    p: int,
    i: int,
    dep: UnitDepView,
)
    requires
        0 <= p < graph.entries@.len(),
        0 <= i < graph.entries@[p].deps@.len(),
    ensures
        sibling_before(graph, dev, unit, p, i + 1, dep) <==> sibling_before(graph,
            dev,
            unit,
            p,
            i,
            dep,
        ) || sibling_at(graph, dev, unit, p, i, dep),
{
    if sibling_before(graph, dev, unit, p, i + 1, dep) && !sibling_at(graph,
        dev,
        unit,
        p,
        i,
        dep,
    ) {
        let (q, k) = choose|q: int, k: int|
            0 <= k < graph.entries@[q].deps@.len() && (0 <= q < p || (q == p && k < i + 1))
                && #[trigger] sibling_at(graph, dev, unit, q, k, dep);
        assert(q < p || k < i);
    }
}

/// Whether `unit` is the execution of a build script whose output is given.
fn is_overridden(state: &State<'_>, unit: &Unit) -> (overridden: bool)
    ensures
        overridden == run_overridden(state.cx, unit@),
{
    if !unit.mode.is_run_custom_build() {
        return false;
    }
    match unit.pkg.links {
        Some(links) => state.cx.target_data.script_override(links, unit.kind),
        None => false,
    }
}

/// What the execution `unit` of a build script depends on in addition.
fn sibling_scripts(state: &State<'_>, unit: &Unit) -> (extra: Vec<UnitDep>)
    requires
        state.wf(),
        unit@.mode.is_run_custom_build(),
        !run_overridden(state.cx, unit@),
    ensures
        lists_additions(state.cx, state@.graph, state@.dev, unit@, dep_values(extra@)),
{
    let ghost cx = state.cx;
    let ghost dev = state@.dev;
    let ghost g = state@.graph;
    let ghost graph = state.unit_dependencies;
    let ghost entries = graph.entries@;
    let mut extra: Vec<UnitDep> = Vec::new();
    for p in 0..state.unit_dependencies.entries.len()
        invariant
            state.wf(),
            cx == state.cx,
            dev == state@.dev,
            g == state@.graph,
            graph == state.unit_dependencies,
            entries == graph.entries@,
            dep_values(extra@).no_duplicates(),
            forall|d: UnitDepView| #[trigger]
                dep_values(extra@).contains(d) <==> sibling_before(graph,
                    dev,
                    unit@,
                    p as int,
                    0,
                    d,
                ),
    {
        let parent: &Unit = &state.unit_dependencies.entries[p].unit;
        let deps: &Vec<UnitDep> = &state.unit_dependencies.entries[p].deps;
        proof {
            lemma_entry(entries, p as int);
            assert(g[parent@] == dep_values(deps@));
        }
        // Only those that depend on `unit`, and all their other dependencies.
        let depends: bool = depends_on(deps, unit);
        for i in 0..deps.len()
            invariant
                state.wf(),
                cx == state.cx,
                dev == state@.dev,
                g == state@.graph,
                graph == state.unit_dependencies,
                entries == graph.entries@,
                0 <= p < entries.len(),
                *parent == entries[p as int].unit,
                *deps == entries[p as int].deps,
                g.contains_key(parent@),
                g[parent@] == dep_values(deps@),
                depends == has_dep_on(g[parent@], unit@),
                dep_values(extra@).no_duplicates(),
                forall|d: UnitDepView| #[trigger]
                    dep_values(extra@).contains(d) <==> sibling_before(graph,
                        dev,
                        unit@,
                        p as int,
                        i as int,
                        d,
                    ),
        {
            let other: &UnitDep = &deps[i];
            let ghost so_far = dep_values(extra@);
            proof {
                assert(dep_values(deps@)[i as int] == other@);
                assert(g[parent@].contains(other@));
            }
            // Only deps with `links`, not scraped, and not induced purely via
            // dev-dependencies.
            let linked: bool = depends && other.unit.pkg.id != unit.pkg.id
                && other.unit.target.is_linkable() && other.unit.pkg.links.is_some()
                && !other.unit.mode.is_doc_scrape() && !state.dev_dependency_edges.contains(parent, &other.unit);
            assert(linked == linked_sibling(g, dev, unit@, parent@, other@));
            if linked {
                // Get the execution of the build script of the other library.
                if let Some(other_deps) = state.unit_dependencies.get(&other.unit) {
                    if let Some(run) = first_script_run(other_deps) {
                        let ghost r = run@;
                        assert(sibling_at(graph, dev, unit@, p as int, i as int, r));
                        let known: bool = lists_dep(&extra, run);
                        if !known {
                            extra.push(run.duplicate());
                            assert(dep_values(extra@) =~= so_far.push(r));
                        }
                        proof {
                            assert forall|d: UnitDepView|
                                dep_values(extra@).contains(d) <==> so_far.contains(d) || d == r by {
                                if so_far.contains(d) {
                                    let m = so_far.index_of(d);
                                    assert(dep_values(extra@)[m] == d);
                                }
                                if d == r && !known {
                                    assert(dep_values(extra@)[so_far.len() as int] == d);
                                }
                                if dep_values(extra@).contains(d) && d != r {
                                    let m = dep_values(extra@).index_of(d);
                                    assert(so_far[m] == d);
                                }
                            }
                        }
                    }
                }
            }
            proof {
                assert forall|d: UnitDepView| #[trigger]
                    dep_values(extra@).contains(d) <==> sibling_before(graph,
                        dev,
                        unit@,
                        p as int,
                        i + 1,
                        d,
                    ) by {
                    lemma_sibling_before(graph, dev, unit@, p as int, i as int, d);
                    assert(so_far.contains(d) <==> sibling_before(graph,
                        dev,
                        unit@,
                        p as int,
                        i as int,
                        d,
                    ));
                }
            }
        }
        proof {
            assert forall|d: UnitDepView| #[trigger]
                dep_values(extra@).contains(d) <==> sibling_before(graph,
                    dev,
                    unit@,
                    p + 1,
                    0,
                    d,
                ) by {
                if sibling_before(graph, dev, unit@, p + 1, 0, d) {
                    let (q, k) = choose|q: int, k: int|
                        0 <= k < entries[q].deps@.len() && (0 <= q < p + 1 || (q == p + 1 && k < 0))
                            && #[trigger] sibling_at(graph, dev, unit@, q, k, d);
                    assert(q < p || k < deps@.len());
                }
            }
        }
    }
    proof {
        let values = dep_values(extra@);
        assert forall|d: UnitDepView| #[trigger] values.contains(d) <==> additions(
            cx,
            g,
            dev,
            unit@,
        ).contains(d) by {
            if values.contains(d) {
                let (q, k) = choose|q: int, k: int|
                    0 <= k < entries[q].deps@.len() && (0 <= q < entries.len() || (q
                        == entries.len() && k < 0)) && #[trigger] sibling_at(graph,
                        dev,
                        unit@,
                        q,
                        k,
                        d,
                    );
                assert(linked_sibling(
                    g,
                    dev,
                    unit@,
                    entries[q].unit@,
                    entries[q].deps@[k]@,
                ));
            }
            if sibling_script(g, dev, unit@, d) {
                let (parent, other) = choose|parent: UnitView, other: UnitDepView|
                    #![trigger linked_sibling(g, dev, unit@, parent, other)]
                    linked_sibling(g, dev, unit@, parent, other) && g.contains_key(other.unit)
                        && script_run(g[other.unit]) == Some(d);
                let q = lemma_position(entries, parent);
                let k = dep_values(entries[q].deps@).index_of(other);
                assert(dep_values(entries[q].deps@)[k] == other);
                assert(entries[q].deps@[k]@ == other);
                assert(sibling_at(graph, dev, unit@, q, k, d));
            }
        }
    }
    extra
}

/// Fill in missing dependencies for executions of build scripts.
///
/// Each of these has two kinds of dependencies. The first is compiling the
/// build script itself, which has been added. The second is, of all packages
/// with a `links` key that the package depends on, the execution of their build
/// scripts. Here those are added. An overridden build script has neither.
pub fn connect_run_custom_build_deps(state: &mut State<'_>)
    requires
        old(state).wf(),
    ensures
        final(state).wf(),
        final(state).cx == old(state).cx,
        final(state)@.dev == old(state)@.dev,
        final(state).unit_dependencies.spec_units() == old(
            state,
        ).unit_dependencies.spec_units(),
        connected(old(state).cx, old(state)@.graph, old(state)@.dev, final(state)@.graph),
{
    let ghost cx = state.cx;
    let ghost g = state@.graph;
    let ghost dev = state@.dev;
    let ghost start = state.unit_dependencies;
    let ghost before = start.entries@;
    let n: usize = state.unit_dependencies.len();
    let mut new_deps: Vec<Vec<UnitDep>> = Vec::new();
    for i in 0..n
        invariant
            state.wf(),
            n == before.len(),
            *state == *old(state),
            cx == state.cx,
            g == state@.graph,
            dev == state@.dev,
            before == state.unit_dependencies.entries@,
            new_deps@.len() == i,
            forall|j: int|
                0 <= j < i ==> lists_additions(
                    cx,
                    g,
                    dev,
                    before[j].unit@,
                    dep_values((#[trigger] new_deps@[j])@),
                ),
    {
        let unit: &Unit = &state.unit_dependencies.entries[i].unit;
        // Overridden build scripts don't have any dependencies.
        if unit.mode.is_run_custom_build() && !is_overridden(state, unit) {
            new_deps.push(sibling_scripts(state, unit));
        } else {
            let none: Vec<UnitDep> = Vec::new();
            assert(dep_values(none@) =~= Seq::<UnitDepView>::empty());
            assert(lists_additions(cx, g, dev, unit@, dep_values(none@)));
            new_deps.push(none);
        }
    }
    // And finally, add in all the missing dependencies!
    let ghost extras = new_deps@;
    while new_deps.len() > 0
        invariant
            n == before.len(),
            start == old(state).unit_dependencies,
            before == start.entries@,
            start.wf(),
            state.cx == old(state).cx,
            state@.dev == old(state)@.dev,
            state.unit_dependencies.spec_units() == start.spec_units(),
            state.unit_dependencies.entries@.len() == n,
            extras.len() == n,
            new_deps@.len() <= n,
            new_deps@ == extras.take(new_deps@.len() as int),
            forall|j: int|
                0 <= j < new_deps@.len() ==> (#[trigger] state.unit_dependencies.entries@[j])
                    == before[j],
            forall|j: int|
                new_deps@.len() <= j < n ==> dep_values(
                    (#[trigger] state.unit_dependencies.entries@[j]).deps@,
                ) == dep_values(before[j].deps@) + dep_values(extras[j]@),
        decreases new_deps@.len(),
    {
        let more: Vec<UnitDep> = new_deps.pop().unwrap();
        let i: usize = new_deps.len();
        assert(more == extras[i as int]);
        assert(new_deps@ =~= extras.take(i as int));
        assert(state.unit_dependencies.entries@[i as int] == before[i as int]);
        add_all(&mut state.unit_dependencies.entries[i].deps, more);
        assert(state.unit_dependencies.spec_units() =~= start.spec_units());
    }
    proof {
        let after = state.unit_dependencies.entries@;
        let result = state@.graph;
        assert(result.dom() =~= g.dom());
        assert forall|u: UnitView| #[trigger] result.contains_key(u) implies exists|
            extra: Seq<UnitDepView>,
        | #[trigger] lists_additions(cx, g, dev, u, extra) && result[u] == g[u] + extra by {
            let k = lemma_position(after, u);
            assert(entry_units(after)[k] == entry_units(before)[k]);
            assert(before[k].unit@ == u);
            lemma_entry(before, k);
            assert(lists_additions(cx, g, dev, u, dep_values(extras[k]@)));
        }
    }
}

/// Sorts the dependencies of each unit.
///
/// Dependencies are used in tons of places, many of which affect the
/// determinism of the build itself, so their lists are always sorted.
pub fn sort_dependencies(graph: &mut UnitGraph)
    requires
        old(graph).wf(),
    ensures
        final(graph).wf(),
        final(graph).spec_units() == old(graph).spec_units(),
        sorted_graph(old(graph)@, final(graph)@),
{
    let ghost before = graph.entries@;
    let n: usize = graph.len();
    for i in 0..n
        invariant
            n == before.len(),
            before == old(graph).entries@,
            old(graph).wf(),
            graph.spec_units() == old(graph).spec_units(),
            graph.entries@.len() == n,
            forall|j: int| i <= j < n ==> (#[trigger] graph.entries@[j]) == before[j],
            forall|j: int|
                0 <= j < i ==> sorted_by(
                    dep_values((#[trigger] graph.entries@[j]).deps@),
                    dep_le(),
                ) && dep_values(graph.entries@[j].deps@).to_multiset() == dep_values(
                    before[j].deps@,
                ).to_multiset(),
    {
        assert(graph.entries@[i as int] == before[i as int]);
        let deps: Vec<UnitDep> = graph.take_deps(i);
        graph.entries[i].deps = sort_deps(deps);
        assert(graph.spec_units() =~= old(graph).spec_units());
    }
    proof {
        let after = graph.entries@;
        assert(graph@.dom() =~= old(graph)@.dom());
        assert forall|u: UnitView| #[trigger] graph@.contains_key(u) implies sorted_by(
            graph@[u],
            dep_le(),
        ) && graph@[u].to_multiset() == old(graph)@[u].to_multiset() by {
            let k = lemma_position(after, u);
            assert(entry_units(after)[k] == entry_units(before)[k]);
            assert(before[k].unit@ == u);
            lemma_entry(before, k);
        }
    }
}

/// Lays out the dependency graph of a build, and tells where the tables that
/// were handed in do not fit together.
///
/// - `roots`: the units that are asked for; without any the graph is empty.
/// - `scrape_units`: the units whose examples go into documentation.
/// - `std_resolve`, `std_roots`: the resolution of the standard library and the
///   crates of it to build, where it is built too.
/// - `global_mode`: the mode of the command as a whole.
pub fn try_build_unit_dependencies<'a>(
    ws: &'a Workspace,
    package_set: &'a PackageSet,
    resolve: &'a Resolve,
    features: &'a ResolvedFeatures,
    std_resolve: Option<&'a (Resolve, ResolvedFeatures)>,
    roots: &[Unit],
    scrape_units: &'a [Unit],
    std_roots: &[StdRoots],
    global_mode: CompileMode,
    target_data: &'a RustcTargetData,
    profiles: &'a Profiles,
) -> (res: Result<UnitGraph, Halt>)
    ensures
        ({
            let cx = context_of(
                ws,
                package_set,
                resolve,
                features,
                std_resolve,
                scrape_units,
                global_mode,
                target_data,
                profiles,
            );
            match res {
                Ok(graph) => graph.wf() && is_unit_graph(
                    cx,
                    unit_values(roots@),
                    std_roots@,
                    graph@,
                ),
                Err(halt) => roots@.len() > 0 && planned(
                    cx,
                    unit_values(roots@),
                    std_roots@,
                ) == halted::<Search>(halt),
            }
        }),
        // Laying out a build always ends.
        roots@.len() > 0 ==> !(planned(
            context_of(
                ws,
                package_set,
                resolve,
                features,
                std_resolve,
                scrape_units,
                global_mode,
                target_data,
                profiles,
            ),
            unit_values(roots@),
            std_roots@,
        ) is Unfinished),
{
    if roots.len() == 0 {
        // Don't attach units of the standard library if there is nothing to
        // build. Otherwise there would be units in the graph without a root.
        return Ok(UnitGraph::new());
    }
    let mut state: State<'a> = State {
        cx: Context {
            ws,
            package_set,
            usr_resolve: resolve,
            usr_features: features,
            std_resolve,
            is_std: false,
            global_mode,
            target_data,
            profiles,
            scrape_units,
        },
        unit_dependencies: UnitGraph::new(),
        dev_dependency_edges: DevEdges::new(),
    };
    let ghost cx = state.cx;
    assert(cx.for_std(false) == cx);
    assert(state@ == Search::empty());
    let std_unit_deps: Option<UnitGraph> = match calc_deps_of_std(&mut state, std_roots) {
        Ok(std_unit_deps) => std_unit_deps,
        Err(halt) => {
            return Err(halt);
        },
    };
    match deps_of_roots(roots, &mut state) {
        Ok(()) => {},
        Err(halt) => {
            return Err(halt);
        },
    }
    match validate_links(&state.unit_dependencies) {
        Ok(()) => {},
        Err(e) => {
            return Err(Halt::Failed(e));
        },
    }
    // The native libraries of the standard library itself are not looked at.

    if let Some(std_unit_deps) = std_unit_deps {
        match attach_std_deps(&mut state, std_roots, std_unit_deps) {
            Ok(()) => {},
            Err(halt) => {
                return Err(halt);
            },
        }
    }
    let ghost found = state@;
    assert(planned(cx, unit_values(roots@), std_roots@) == Run::Done(found));
    connect_run_custom_build_deps(&mut state);
    let mut graph: UnitGraph = state.unit_dependencies;
    let ghost middle = graph@;
    assert(connected(cx, found.graph, found.dev, middle));
    sort_dependencies(&mut graph);
    assert(finished(cx, found, graph@)) by {
        assert(sorted_graph(middle, graph@));
    }
    Ok(graph)
}

/// Lays out the dependency graph of a build.
///
/// The tables must fit together: what is looked up in them is there. See
/// [`try_build_unit_dependencies`], which has the same parameters, where that is
/// not known.
pub fn build_unit_dependencies<'a>(
    ws: &'a Workspace,
    package_set: &'a PackageSet,
    resolve: &'a Resolve,
    features: &'a ResolvedFeatures,
    std_resolve: Option<&'a (Resolve, ResolvedFeatures)>,
    roots: &[Unit],
    scrape_units: &'a [Unit],
    std_roots: &[StdRoots],
    global_mode: CompileMode,
    target_data: &'a RustcTargetData,
    profiles: &'a Profiles,
) -> (res: Result<UnitGraph, DepError>)
    requires
        roots@.len() > 0 ==> !(planned(
            context_of(
                ws,
                package_set,
                resolve,
                features,
                std_resolve,
                scrape_units,
                global_mode,
                target_data,
                profiles,
            ),
            unit_values(roots@),
            std_roots@,
        ) is Stuck),
    ensures
        ({
            let cx = context_of(
                ws,
                package_set,
                resolve,
                features,
                std_resolve,
                scrape_units,
                global_mode,
                target_data,
                profiles,
            );
            match res {
                Ok(graph) => graph.wf() && is_unit_graph(
                    cx,
                    unit_values(roots@),
                    std_roots@,
                    graph@,
                ),
                Err(e) => roots@.len() > 0 && planned(cx, unit_values(roots@), std_roots@)
                    == Run::<Search>::Failed(e),
            }
        }),
{
    match try_build_unit_dependencies(
        ws,
        package_set,
        resolve,
        features,
        std_resolve,
        roots,
        scrape_units,
        std_roots,
        global_mode,
        target_data,
        profiles,
    ) {
        Ok(graph) => Ok(graph),
        Err(Halt::Failed(e)) => Err(e),
        Err(Halt::Stuck(_)) => {
            // The tables fit together.
            assert(false);
            Ok(UnitGraph::new())
        },
    }
}

} // verus!
