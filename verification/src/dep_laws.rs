//! What each dependency of a graph is, in terms of the inputs of the build.

use crate::compile::{CompileKind, CompileMode};
use crate::context::Context;
use crate::dependency::{DepKind, Dependency};
use crate::graph_laws::{is_std_dep, lemma_follows, std_listed_at};
use crate::laws::{context_at, law_std_attached, lemma_own_in_graph};
use crate::layout::{is_unit_graph, std_dep, std_roots_of, std_units, StdRoots};
use crate::lookup::{is_first, lemma_first_where, lemma_found};
use crate::members::{lemma_active_edge, lemma_holds_package, lemma_targets};
use crate::order_laws::{
    filter_of, lemma_edge_within, lemma_listed, lemma_parts, lemma_within_joined, within,
};
use crate::package::PackageView;
use crate::plan::{active_edges, all_package_deps, edge_deps, lib_deps};
use crate::profiles::{PanicSetting, UnitFor};
use crate::resolve::ResolveEdge;
use crate::run::Run;
use crate::target::{TargetKind, TargetView};
use crate::target_data::PlatformMatch;
use crate::terms::{
    asks_for, features_are, features_of, follows, gets, gets_edge, holds_package, is_lib_dep,
    is_lib_of, joins, leads, mode_follows, on_platform, profile_fits, publicly, resolution_of,
    rightly_named, run_profile_fits, tested, turned_on,
};
use crate::unit::{UnitDepView, UnitView};
use crate::unit_graph::Graph;
use crate::walk::own_deps;
use vstd::prelude::*;

verus! {

/// Whether all that is scraped for examples is built to be scraped.
pub open spec fn scraped_only(cx: Context) -> bool {
    forall|i: int|
        0 <= i < cx.scrape_units@.len() ==> (#[trigger] cx.scrape_units@[i])@.mode
            == CompileMode::Docscrape
}

/// A dependency that is not built to be scraped is not scraped.
proof fn lemma_not_scraped(
    cx: Context,
    is_std: bool,
    u: UnitView,
    unit_for: UnitFor,
    d: UnitDepView,
)
    requires
        scraped_only(cx),
        follows(cx, is_std, u, unit_for, d),
        d.unit.mode != CompileMode::Docscrape,
    ensures
        forall|i: int|
            0 <= i < cx.scrape_units@.len() ==> (#[trigger] cx.scrape_units@[i])@.mode
                != d.unit.mode,
{
    assert forall|i: int| 0 <= i < cx.scrape_units@.len() implies (
    #[trigger] cx.scrape_units@[i])@.mode != d.unit.mode by {
        assert(cx.scrape_units@[i]@.mode == CompileMode::Docscrape);
    }
}

/// Every dependency has the profile that the tables give it: that of the first row
/// for its package, for whether that is a member of the workspace and local, and
/// for exactly its mode, its kind and what it is built for; and the default where
/// there is no such row. That is so but for executions of build scripts and for
/// what is attached from the standard library.
pub proof fn law_profiles(
    cx: Context,
    roots: Seq<UnitView>,
    std_roots: Seq<StdRoots>,
    graph: Graph,
    u: UnitView,
    d: UnitDepView,
)
    requires
        is_unit_graph(cx, roots, std_roots, graph),
        graph.contains_key(u),
        graph[u].contains(d),
        d.unit.mode != CompileMode::RunCustomBuild,
        !d.noprelude,
    ensures
        profile_fits(cx, context_at(cx, roots, std_roots, u).is_std, d),
{
    let is_std = context_at(cx, roots, std_roots, u).is_std;
    let unit_for = lemma_follows(cx, roots, std_roots, graph, u);
    assert(follows(cx, is_std, u, unit_for, d));
}

/// A build script is run with the profile that the tables give for that of the unit
/// that it is run for.
pub proof fn law_run_profiles(
    cx: Context,
    roots: Seq<UnitView>,
    std_roots: Seq<StdRoots>,
    graph: Graph,
    u: UnitView,
    d: UnitDepView,
)
    requires
        is_unit_graph(cx, roots, std_roots, graph),
        scraped_only(cx),
        graph.contains_key(u),
        u.mode != CompileMode::RunCustomBuild,
        graph[u].contains(d),
        d.unit.mode == CompileMode::RunCustomBuild,
        !d.noprelude,
    ensures
        run_profile_fits(*cx.profiles, u.profile, d.unit.profile),
{
    let is_std = context_at(cx, roots, std_roots, u).is_std;
    let unit_for = lemma_follows(cx, roots, std_roots, graph, u);
    assert(follows(cx, is_std, u, unit_for, d));
    lemma_not_scraped(cx, is_std, u, unit_for, d);
}

/// Every dependency has the features that are activated in its package on the side
/// of the build that it is for, and belongs to the part of the graph of the unit.
/// That is so but for what is attached from the standard library.
pub proof fn law_features(
    cx: Context,
    roots: Seq<UnitView>,
    std_roots: Seq<StdRoots>,
    graph: Graph,
    u: UnitView,
    d: UnitDepView,
)
    requires
        is_unit_graph(cx, roots, std_roots, graph),
        graph.contains_key(u),
        graph[u].contains(d),
        u.mode != CompileMode::RunCustomBuild || d.unit.mode != CompileMode::RunCustomBuild,
        !d.noprelude,
    ensures
        features_are(
            features_of(cx, context_at(cx, roots, std_roots, u).is_std),
            d.unit.pkg.id,
            d.unit_for.host_features,
            d.unit.features,
        ),
        d.unit.is_std == context_at(cx, roots, std_roots, u).is_std,
        d.unit.dep_hash == 0,
{
    let is_std = context_at(cx, roots, std_roots, u).is_std;
    let unit_for = lemma_follows(cx, roots, std_roots, graph, u);
    assert(follows(cx, is_std, u, unit_for, d));
}

/// Every dependency is known to a unit by the name that the manifest gives it:
/// what the dependencies between the two packages rename it to, else its own. It is
/// public exactly if the resolution says so. Scraping and what is attached from the
/// standard library aside.
pub proof fn law_names(
    cx: Context,
    roots: Seq<UnitView>,
    std_roots: Seq<StdRoots>,
    graph: Graph,
    u: UnitView,
    d: UnitDepView,
)
    requires
        is_unit_graph(cx, roots, std_roots, graph),
        scraped_only(cx),
        graph.contains_key(u),
        graph[u].contains(d),
        u.mode != CompileMode::RunCustomBuild || d.unit.mode != CompileMode::RunCustomBuild,
        d.unit.mode != CompileMode::Docscrape,
        !d.noprelude,
    ensures
        rightly_named(
            resolution_of(cx, context_at(cx, roots, std_roots, u).is_std),
            u.pkg.id,
            d,
        ),
        d.public <==> publicly(
            resolution_of(cx, context_at(cx, roots, std_roots, u).is_std),
            u.pkg.id,
            d.unit.pkg.id,
        ),
{
    let is_std = context_at(cx, roots, std_roots, u).is_std;
    let unit_for = lemma_follows(cx, roots, std_roots, graph, u);
    assert(follows(cx, is_std, u, unit_for, d));
    lemma_not_scraped(cx, is_std, u, unit_for, d);
}

/// What is not made to run on the host is built for the same platform as the unit
/// that depends on it, whether that is compiled or documented, and what is made to
/// run on the host is built for the host. Procedural macros that a compiled unit
/// depends on can be built for both. Scraping and what is attached from the standard
/// library aside.
pub proof fn law_kinds(
    cx: Context,
    roots: Seq<UnitView>,
    std_roots: Seq<StdRoots>,
    graph: Graph,
    u: UnitView,
    d: UnitDepView,
)
    requires
        is_unit_graph(cx, roots, std_roots, graph),
        scraped_only(cx),
        graph.contains_key(u),
        u.mode != CompileMode::RunCustomBuild,
        graph[u].contains(d),
        d.unit.mode != CompileMode::Docscrape,
        d.unit.mode != CompileMode::RunCustomBuild,
        !d.noprelude,
    ensures
        !d.unit.target.for_host && !d.unit.target.proc_macro ==> d.unit.kind == u.kind,
        !d.unit.target.for_host && !cx.ws.config.dual_proc_macros ==> d.unit.kind == u.kind,
        !d.unit.target.for_host && u.mode is Doc ==> d.unit.kind == u.kind,
        d.unit.target.for_host && !d.unit.target.proc_macro ==> d.unit.kind == CompileKind::Host,
        d.unit.target.for_host && !cx.ws.config.dual_proc_macros ==> d.unit.kind
            == CompileKind::Host,
        d.unit.target.for_host && u.mode is Doc ==> d.unit.kind == CompileKind::Host,
        u.kind == CompileKind::Host ==> d.unit.kind == CompileKind::Host,
        d.unit.kind == CompileKind::Host || d.unit.kind == u.kind,
{
    let is_std = context_at(cx, roots, std_roots, u).is_std;
    let unit_for = lemma_follows(cx, roots, std_roots, graph, u);
    assert(follows(cx, is_std, u, unit_for, d));
    lemma_not_scraped(cx, is_std, u, unit_for, d);
}

/// A build script is run for the platform of the unit that waits for it, and is
/// compiled for the host.
pub proof fn law_script_kinds(
    cx: Context,
    roots: Seq<UnitView>,
    std_roots: Seq<StdRoots>,
    graph: Graph,
    u: UnitView,
    d: UnitDepView,
)
    requires
        is_unit_graph(cx, roots, std_roots, graph),
        scraped_only(cx),
        graph.contains_key(u),
        graph[u].contains(d),
        !d.noprelude,
    ensures
        u.mode != CompileMode::RunCustomBuild && d.unit.mode == CompileMode::RunCustomBuild
            ==> d.unit.kind == u.kind && d.unit.pkg == u.pkg && d.unit.target.kind
            == TargetKind::CustomBuild,
        u.mode == CompileMode::RunCustomBuild && d.unit.mode != CompileMode::RunCustomBuild
            ==> d.unit.kind == CompileKind::Host && d.unit.pkg == u.pkg && d.unit.target == u.target
            && d.unit.mode == CompileMode::Build,
{
    let is_std = context_at(cx, roots, std_roots, u).is_std;
    let unit_for = lemma_follows(cx, roots, std_roots, graph, u);
    if u.mode != CompileMode::RunCustomBuild || d.unit.mode != CompileMode::RunCustomBuild {
        assert(follows(cx, is_std, u, unit_for, d));
        if d.unit.mode != CompileMode::Docscrape {
            lemma_not_scraped(cx, is_std, u, unit_for, d);
        }
        if u.mode == CompileMode::RunCustomBuild {
            lemma_runs_no_libs(cx, is_std, u, unit_for, d);
        }
    }
}

/// Running a build script does not ask for libraries of other packages.
pub proof fn lemma_runs_no_libs(
    cx: Context,
    is_std: bool,
    u: UnitView,
    unit_for: UnitFor,
    d: UnitDepView,
)
    requires
        u.mode == CompileMode::RunCustomBuild,
    ensures
        !is_lib_dep(cx, is_std, u, unit_for, d),
{
    if is_lib_dep(cx, is_std, u, unit_for, d) {
        let edge = choose|edge: ResolveEdge|
            {
                &&& #[trigger] leads(resolution_of(cx, is_std), u.pkg.id, edge)
                &&& gets_edge(cx, is_std, u, unit_for.host_features, edge)
                &&& d.unit.pkg.id == edge.to
            };
        let i = choose|i: int|
            0 <= i < edge.deps@.len() && gets(
                cx,
                is_std,
                u,
                unit_for.host_features,
                #[trigger] edge.deps@[i],
            );
        assert(!asks_for(u, edge.deps@[i]));
    }
}

/// Whether a unit depends on the library of a package, built as it needs it, and on
/// its documentation where dependencies are documented.
pub open spec fn has_lib(graph: Graph, u: UnitView, pkg: PackageView, lib: TargetView) -> bool {
    &&& exists|d: UnitDepView|
        {
            &&& #[trigger] graph[u].contains(d)
            &&& d.unit.pkg == pkg
            &&& d.unit.target == lib
            &&& d.unit.mode == if u.mode is Check || u.mode is Doc || u.mode
                == CompileMode::Docscrape {
                if lib.for_host {
                    CompileMode::Build
                } else {
                    CompileMode::Check { test: false }
                }
            } else {
                CompileMode::Build
            }
        }
    &&& u.mode == (CompileMode::Doc { deps: true }) ==> exists|d: UnitDepView|
        #[trigger] graph[u].contains(d) && d.unit.pkg == pkg && d.unit.target == lib && d.unit.mode
            == u.mode
}

/// What an edge brings that a unit gets is among its dependencies.
proof fn lemma_edge_brought(
    cx: Context,
    is_std: bool,
    u: UnitView,
    unit_for: UnitFor,
    edge: ResolveEdge,
)
    requires
        !u.mode.is_run_custom_build(),
        leads(resolution_of(cx, is_std), u.pkg.id, edge),
        gets_edge(cx, is_std, u, unit_for.host_features, edge),
    ensures
        within(
            edge_deps(cx.for_std(is_std), u, unit_for, filter_of(u), edge),
            own_deps(cx.for_std(is_std), u, unit_for),
        ),
{
    let here = cx.for_std(is_std);
    let filter = filter_of(u);
    let edges = active_edges(here, u, unit_for, filter);
    lemma_active_edge(cx, is_std, u, unit_for, edge);
    let k = edges.index_of(edge);
    assert(edges[k] == edge);
    lemma_parts(here, u, unit_for);
    lemma_edge_within(here, u, unit_for, filter, edges.len(), k);
    lemma_within_joined(
        edge_deps(here, u, unit_for, filter, edge),
        all_package_deps(here, u, unit_for, filter),
        own_deps(here, u, unit_for),
    );
}

/// An edge to a package that has a library brings a dependency on it.
proof fn lemma_edge_brings(
    cx: Context,
    u: UnitView,
    unit_for: UnitFor,
    edge: ResolveEdge,
    pkg: PackageView,
    lib: TargetView,
)
    requires
        !u.mode.is_run_custom_build(),
        edge_deps(cx, u, unit_for, filter_of(u), edge) is Done,
        cx.package_set.spec_get_one(edge.to) == Some(pkg),
        pkg.spec_lib() == Some(lib),
    ensures
        ({
            let part = edge_deps(cx, u, unit_for, filter_of(u), edge)->Done_0;
            &&& part.len() > 0
            &&& part[0].unit.pkg == pkg
            &&& part[0].unit.target == lib
            &&& mode_follows(u, lib, part[0].unit.mode)
            &&& u.mode == (CompileMode::Doc { deps: true }) ==> part.len() > 1 && part[1].unit.pkg
                == pkg && part[1].unit.target == lib && part[1].unit.mode == u.mode
        }),
{
    let filter = filter_of(u);
    let run = edge_deps(cx, u, unit_for, filter, edge);
    assert(run == lib_deps(cx, u, unit_for, filter, pkg, lib));
}

/// What an edge brings is in the graph.
proof fn lemma_brought_lib(
    cx: Context,
    graph: Graph,
    u: UnitView,
    unit_for: UnitFor,
    edge: ResolveEdge,
    pkg: PackageView,
    lib: TargetView,
)
    requires
        !u.mode.is_run_custom_build(),
        own_deps(cx, u, unit_for) matches Run::Done(deps) && forall|i: int|
            0 <= i < deps.len() ==> graph[u].contains(#[trigger] deps[i]),
        within(
            edge_deps(cx, u, unit_for, filter_of(u), edge),
            own_deps(cx, u, unit_for),
        ),
        cx.package_set.spec_get_one(edge.to) == Some(pkg),
        pkg.spec_lib() == Some(lib),
    ensures
        has_lib(graph, u, pkg, lib),
{
    let whole = own_deps(cx, u, unit_for)->Done_0;
    let part = edge_deps(cx, u, unit_for, filter_of(u), edge)->Done_0;
    lemma_edge_brings(cx, u, unit_for, edge, pkg, lib);
    lemma_listed(graph, u, whole, part[0]);
    assert(graph[u].contains(part[0]));
    if u.mode == (CompileMode::Doc { deps: true }) {
        lemma_listed(graph, u, whole, part[1]);
        assert(graph[u].contains(part[1]));
    }
}

/// A unit depends on the library of a package that its own declares as a
/// dependency, where it asks for the dependency and that is there.
proof fn lemma_has_lib(
    cx: Context,
    roots: Seq<UnitView>,
    std_roots: Seq<StdRoots>,
    graph: Graph,
    u: UnitView,
    edge: ResolveEdge,
    i: int,
    pkg: PackageView,
    lib: TargetView,
)
    requires
        is_unit_graph(cx, roots, std_roots, graph),
        graph.contains_key(u),
        leads(
            resolution_of(cx, context_at(cx, roots, std_roots, u).is_std),
            u.pkg.id,
            edge,
        ),
        0 <= i < edge.deps@.len(),
        asks_for(u, edge.deps@[i]),
        on_platform(cx, edge.deps@[i], u.kind),
        edge.deps@[i].optional ==> forall|host: bool| #[trigger]
            turned_on(
                features_of(cx, context_at(cx, roots, std_roots, u).is_std),
                u.pkg.id,
                host,
                edge.deps@[i].name_in_toml,
            ),
        pkg.id == edge.to,
        holds_package(*cx.package_set, pkg),
        is_lib_of(pkg, lib),
    ensures
        has_lib(graph, u, pkg, lib),
{
    let here = context_at(cx, roots, std_roots, u);
    let is_std = here.is_std;
    let unit_for = lemma_own_in_graph(cx, roots, std_roots, graph, u);
    assert(gets(cx, is_std, u, unit_for.host_features, edge.deps@[i])) by {
        if edge.deps@[i].optional {
            assert(turned_on(
                features_of(cx, is_std),
                u.pkg.id,
                unit_for.host_features,
                edge.deps@[i].name_in_toml,
            ));
        }
    }
    assert(gets_edge(cx, is_std, u, unit_for.host_features, edge));
    lemma_edge_brought(cx, is_std, u, unit_for, edge);
    lemma_holds_package(*cx.package_set, edge.to, pkg);
    lemma_targets(pkg, lib);
    lemma_brought_lib(here, graph, u, unit_for, edge, pkg, lib);
}

/// A unit that is documented, or is compiled and not a build script, depends on the
/// library of the package behind every normal dependency that its package declares,
/// whatever target it is. The dependency has to be for all platforms or for that of the
/// unit, and not optional or activated on both sides of the build.
pub proof fn law_normal_dependencies(
    cx: Context,
    roots: Seq<UnitView>,
    std_roots: Seq<StdRoots>,
    graph: Graph,
    u: UnitView,
    edge: ResolveEdge,
    i: int,
    pkg: PackageView,
    lib: TargetView,
)
    requires
        is_unit_graph(cx, roots, std_roots, graph),
        graph.contains_key(u),
        u.mode is Doc || u.mode != CompileMode::RunCustomBuild && u.target.kind
            != TargetKind::CustomBuild,
        leads(
            resolution_of(cx, context_at(cx, roots, std_roots, u).is_std),
            u.pkg.id,
            edge,
        ),
        0 <= i < edge.deps@.len(),
        edge.deps@[i].kind == DepKind::Normal,
        on_platform(cx, edge.deps@[i], u.kind),
        edge.deps@[i].optional ==> forall|host: bool| #[trigger]
            turned_on(
                features_of(cx, context_at(cx, roots, std_roots, u).is_std),
                u.pkg.id,
                host,
                edge.deps@[i].name_in_toml,
            ),
        pkg.id == edge.to,
        holds_package(*cx.package_set, pkg),
        is_lib_of(pkg, lib),
    ensures
        has_lib(graph, u, pkg, lib),
{
    lemma_has_lib(cx, roots, std_roots, graph, u, edge, i, pkg, lib);
}

/// Compiling a build script depends on the library of the package behind every build
/// dependency, likewise.
pub proof fn law_build_dependencies(
    cx: Context,
    roots: Seq<UnitView>,
    std_roots: Seq<StdRoots>,
    graph: Graph,
    u: UnitView,
    edge: ResolveEdge,
    i: int,
    pkg: PackageView,
    lib: TargetView,
)
    requires
        is_unit_graph(cx, roots, std_roots, graph),
        graph.contains_key(u),
        u.target.kind == TargetKind::CustomBuild,
        u.mode != CompileMode::RunCustomBuild,
        !(u.mode is Doc),
        leads(
            resolution_of(cx, context_at(cx, roots, std_roots, u).is_std),
            u.pkg.id,
            edge,
        ),
        0 <= i < edge.deps@.len(),
        edge.deps@[i].kind == DepKind::Build,
        on_platform(cx, edge.deps@[i], u.kind),
        edge.deps@[i].optional ==> forall|host: bool| #[trigger]
            turned_on(
                features_of(cx, context_at(cx, roots, std_roots, u).is_std),
                u.pkg.id,
                host,
                edge.deps@[i].name_in_toml,
            ),
        pkg.id == edge.to,
        holds_package(*cx.package_set, pkg),
        is_lib_of(pkg, lib),
    ensures
        has_lib(graph, u, pkg, lib),
{
    lemma_has_lib(cx, roots, std_roots, graph, u, edge, i, pkg, lib);
}

/// Tests and examples, and what is compiled to be tested or scraped, depend on the
/// library of the package behind every dev-dependency, likewise.
pub proof fn law_dev_dependencies(
    cx: Context,
    roots: Seq<UnitView>,
    std_roots: Seq<StdRoots>,
    graph: Graph,
    u: UnitView,
    edge: ResolveEdge,
    i: int,
    pkg: PackageView,
    lib: TargetView,
)
    requires
        is_unit_graph(cx, roots, std_roots, graph),
        graph.contains_key(u),
        u.target.kind != TargetKind::CustomBuild,
        u.mode != CompileMode::RunCustomBuild,
        !(u.mode is Doc),
        tested(u.mode) || u.mode == CompileMode::Docscrape || u.target.kind == TargetKind::Test
            || u.target.kind == TargetKind::Example,
        leads(
            resolution_of(cx, context_at(cx, roots, std_roots, u).is_std),
            u.pkg.id,
            edge,
        ),
        0 <= i < edge.deps@.len(),
        edge.deps@[i].kind == DepKind::Development,
        on_platform(cx, edge.deps@[i], u.kind),
        edge.deps@[i].optional ==> forall|host: bool| #[trigger]
            turned_on(
                features_of(cx, context_at(cx, roots, std_roots, u).is_std),
                u.pkg.id,
                host,
                edge.deps@[i].name_in_toml,
            ),
        pkg.id == edge.to,
        holds_package(*cx.package_set, pkg),
        is_lib_of(pkg, lib),
    ensures
        has_lib(graph, u, pkg, lib),
{
    lemma_has_lib(cx, roots, std_roots, graph, u, edge, i, pkg, lib);
}

/// Whether a dependency is declared for what a unit is, and for its platform.
pub open spec fn is_declared(cx: Context, u: UnitView, dep: Dependency) -> bool {
    &&& match dep.kind {
        DepKind::Normal => u.mode is Doc || u.target.kind != TargetKind::CustomBuild,
        DepKind::Build => !(u.mode is Doc) && u.target.kind == TargetKind::CustomBuild,
        DepKind::Development => !(u.mode is Doc) && u.target.kind != TargetKind::CustomBuild && (
        tested(u.mode) || u.mode == CompileMode::Docscrape || u.target.kind == TargetKind::Test
            || u.target.kind == TargetKind::Example),
    }
    &&& dep.platform matches Some(platform) ==> cx.target_data.platforms@.contains(
        PlatformMatch { platform, kind: u.kind },
    )
}

/// A unit depends on another package only for a reason. Its own package declares a
/// dependency on it, for what the unit is and for its platform, that is activated
/// if it is optional; and it is the library of that package, as downloaded, that
/// the unit depends on. Scraping and what is attached from the standard library
/// aside.
pub proof fn law_other_packages(
    cx: Context,
    roots: Seq<UnitView>,
    std_roots: Seq<StdRoots>,
    graph: Graph,
    u: UnitView,
    d: UnitDepView,
) -> (found: (ResolveEdge, int))
    requires
        is_unit_graph(cx, roots, std_roots, graph),
        scraped_only(cx),
        graph.contains_key(u),
        u.mode != CompileMode::RunCustomBuild,
        graph[u].contains(d),
        d.unit.pkg.id != u.pkg.id,
        d.unit.mode != CompileMode::Docscrape,
        !d.noprelude,
    ensures
        ({
            let (edge, i) = found;
            let is_std = context_at(cx, roots, std_roots, u).is_std;
            &&& leads(resolution_of(cx, is_std), u.pkg.id, edge)
            &&& edge.to == d.unit.pkg.id
            &&& 0 <= i < edge.deps@.len()
            &&& is_declared(cx, u, edge.deps@[i])
            &&& edge.deps@[i].optional ==> exists|host: bool| #[trigger]
                turned_on(features_of(cx, is_std), u.pkg.id, host, edge.deps@[i].name_in_toml)
        }),
        holds_package(*cx.package_set, d.unit.pkg),
        is_lib_of(d.unit.pkg, d.unit.target),
        d.unit.mode == CompileMode::Build || d.unit.mode == (CompileMode::Check { test: false })
            || u.mode == (CompileMode::Doc { deps: true }) && d.unit.mode == u.mode,
{
    let is_std = context_at(cx, roots, std_roots, u).is_std;
    let unit_for = lemma_follows(cx, roots, std_roots, graph, u);
    assert(follows(cx, is_std, u, unit_for, d));
    lemma_not_scraped(cx, is_std, u, unit_for, d);
    assert(is_lib_dep(cx, is_std, u, unit_for, d));
    let edge = choose|edge: ResolveEdge|
        {
            &&& #[trigger] leads(resolution_of(cx, is_std), u.pkg.id, edge)
            &&& gets_edge(cx, is_std, u, unit_for.host_features, edge)
            &&& d.unit.pkg.id == edge.to
        };
    let i = choose|i: int|
        0 <= i < edge.deps@.len() && gets(
            cx,
            is_std,
            u,
            unit_for.host_features,
            #[trigger] edge.deps@[i],
        );
    (edge, i)
}

/// Where procedural macros are built twice, a unit that is compiled for another
/// platform depends on both: a dependency on one comes with one that differs in
/// nothing but what follows from the kind.
pub proof fn law_built_twice(
    cx: Context,
    roots: Seq<UnitView>,
    std_roots: Seq<StdRoots>,
    graph: Graph,
    u: UnitView,
    d: UnitDepView,
    twin: UnitDepView,
)
    requires
        is_unit_graph(cx, roots, std_roots, graph),
        scraped_only(cx),
        graph.contains_key(u),
        cx.ws.config.dual_proc_macros,
        u.kind != CompileKind::Host,
        !(u.mode is Doc),
        u.mode != CompileMode::RunCustomBuild,
        graph[u].contains(d),
        d.unit.pkg.id != u.pkg.id,
        d.unit.target.proc_macro,
        d.unit.mode != CompileMode::Docscrape,
        !d.noprelude,
        twin.unit.kind == CompileKind::Host || twin.unit.kind == u.kind,
        twin == (UnitDepView {
            unit: UnitView { kind: twin.unit.kind, profile: twin.unit.profile, ..d.unit },
            ..d
        }),
        profile_fits(cx, context_at(cx, roots, std_roots, u).is_std, twin),
    ensures
        graph[u].contains(twin),
{
    let is_std = context_at(cx, roots, std_roots, u).is_std;
    let unit_for = lemma_follows(cx, roots, std_roots, graph, u);
    assert(follows(cx, is_std, u, unit_for, d));
    lemma_not_scraped(cx, is_std, u, unit_for, d);
    assert(is_lib_dep(cx, is_std, u, unit_for, d));
    assert(rightly_named(resolution_of(cx, is_std), u.pkg.id, twin)) by {
        assert forall|edge: ResolveEdge, i: int|
            u.pkg.id != twin.unit.pkg.id && joins(
                resolution_of(cx, is_std),
                u.pkg.id,
                twin.unit.pkg.id,
                edge,
            ) && 0 <= i < edge.deps@.len() implies twin.extern_crate_name == match (
        #[trigger] edge.deps@[i]).rename {
            Some(name) => name,
            None => twin.unit.target.crate_name,
        } by {}
    }
    assert(is_lib_dep(cx, is_std, u, unit_for, twin));
    assert(follows(cx, is_std, u, unit_for, twin));
}

/// With the standard library to be built, every unit of the user's part of the graph
/// that is for a requested platform and does not run a build script depends on each
/// crate that is listed for its platform, whatever else is done with it. These
/// crates are units of the graph.
pub proof fn law_std_for_platforms(
    cx: Context,
    roots: Seq<UnitView>,
    std_roots: Seq<StdRoots>,
    graph: Graph,
    u: UnitView,
)
    requires
        is_unit_graph(cx, roots, std_roots, graph),
        std_roots.len() > 0,
        graph.contains_key(u),
        !context_at(cx, roots, std_roots, u).is_std,
        u.kind is Target,
        u.mode != CompileMode::RunCustomBuild,
    ensures
        exists|k: int| #[trigger]
            std_listed_at(std_roots, u.kind, k) && forall|i: int|
                0 <= i < std_roots[k].units@.len() ==> {
                    let unit = (#[trigger] std_roots[k].units@[i])@;
                    &&& graph.contains_key(unit)
                    &&& graph[u].contains(
                        (UnitDepView {
                            unit,
                            unit_for: UnitFor {
                                host: false,
                                host_features: false,
                                panic_setting: PanicSetting::ReadProfile,
                            },
                            extern_crate_name: unit.pkg.id.name,
                            public: true,
                            noprelude: true,
                        }),
                    )
                },
{
    let unit_for = lemma_follows(cx, roots, std_roots, graph, u);
    law_std_attached(cx, roots, std_roots, graph, u);
    let p = std_roots_of(u.kind);
    lemma_first_where(std_roots, p);
    let k = choose|k: int| is_first(std_roots, p, k);
    assert(is_first(std_roots, p, k));
    lemma_found(std_roots, p, k);
    assert(std_listed_at(std_roots, u.kind, k)) by {
        assert forall|j: int| 0 <= j < k implies (#[trigger] std_roots[j]).kind != u.kind by {
            assert(!p(std_roots[j]));
        }
    }
    let units = std_units(std_roots, u.kind)->0;
    assert forall|i: int| 0 <= i < std_roots[k].units@.len() implies {
        let unit = (#[trigger] std_roots[k].units@[i])@;
        &&& graph.contains_key(unit)
        &&& graph[u].contains(
            (UnitDepView {
                unit,
                unit_for: UnitFor {
                    host: false,
                    host_features: false,
                    panic_setting: PanicSetting::ReadProfile,
                },
                extern_crate_name: unit.pkg.id.name,
                public: true,
                noprelude: true,
            }),
        )
    } by {
        assert(units[i] == std_roots[k].units@[i]@);
        assert(graph[u].contains(std_dep(units[i])));
    }
}

/// Nothing else is attached: a dependency that is kept out of the prelude is one of a
/// unit of the user's part, for a requested platform, on a crate of the standard
/// library that is listed for it. Units for the host, executions of build scripts
/// and the standard library itself have none.
pub proof fn law_std_nowhere_else(
    cx: Context,
    roots: Seq<UnitView>,
    std_roots: Seq<StdRoots>,
    graph: Graph,
    u: UnitView,
    d: UnitDepView,
)
    requires
        is_unit_graph(cx, roots, std_roots, graph),
        graph.contains_key(u),
        graph[u].contains(d),
        u.mode != CompileMode::RunCustomBuild || d.unit.mode != CompileMode::RunCustomBuild,
        d.noprelude,
    ensures
        !context_at(cx, roots, std_roots, u).is_std,
        is_std_dep(std_roots, u, d),
{
    let is_std = context_at(cx, roots, std_roots, u).is_std;
    let unit_for = lemma_follows(cx, roots, std_roots, graph, u);
    assert(!follows(cx, is_std, u, unit_for, d));
}

} // verus!
