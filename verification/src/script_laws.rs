//! What executions of build scripts wait for: never for each other in circles.

use crate::compile::CompileKind;
use crate::context::Context;
use crate::facts::{is_scraped, lemma_get_one, lemma_scrape_deps_facts};
use crate::laws::{
    attached_to, context_at, is_attached, law_connections, lemma_built_for, lemma_finished_dep,
    lemma_finished_dom, lemma_no_std, lemma_planned_dep, lemma_planned_list,
};
use crate::layout::{
    finished, is_unit_graph, linked_sibling, planned, runs_script, script_run, std_units, StdRoots,
};
use crate::lookup::lemma_first_where;
use crate::order_laws::filter_of;
use crate::package::PackageId;
use crate::plan::{
    active_edges, all_package_deps, bin_deps, build_script_dep, dep_active, dev_edges, edge_active,
    edge_brings_dev, edge_deps, has_dep_on, only_dev, own_bin_deps, own_lib_dep, package_deps,
    run_overridden, run_script_deps, DepFilter,
};
use crate::profiles::UnitFor;
use crate::resolve::ResolveEdge;
use crate::run::{append, Run};
use crate::search::Search;
use crate::unit::{UnitDepView, UnitView};
use crate::unit_graph::Graph;
use crate::walk::{head_deps, is_compiled, own_deps, scrape_deps};
use vstd::prelude::*;

verus! {

/// Whether an edge brings a dependency.
spec fn brings(
    cx: Context,
    u: UnitView,
    unit_for: UnitFor,
    filter: DepFilter,
    edge: ResolveEdge,
    d: UnitDepView,
) -> bool {
    match edge_deps(cx, u, unit_for, filter, edge) {
        Run::Done(part) => part.contains(d) && d.unit.pkg.id == edge.to,
        _ => false,
    }
}

/// Whether a dependency is on the same package, or an active edge brings it.
spec fn has_source(cx: Context, u: UnitView, unit_for: UnitFor, d: UnitDepView) -> bool {
    let edges = active_edges(cx, u, unit_for, filter_of(u));
    d.unit.pkg.id == u.pkg.id || exists|k: int|
        0 <= k < edges.len() && brings(cx, u, unit_for, filter_of(u), #[trigger] edges[k], d)
}

spec fn all_have_source(
    cx: Context,
    u: UnitView,
    unit_for: UnitFor,
    run: Run<Seq<UnitDepView>>,
) -> bool {
    run matches Run::Done(deps) ==> forall|i: int|
        0 <= i < deps.len() ==> has_source(cx, u, unit_for, #[trigger] deps[i])
}

proof fn lemma_append_source(
    cx: Context,
    u: UnitView,
    unit_for: UnitFor,
    a: Run<Seq<UnitDepView>>,
    b: Run<Seq<UnitDepView>>,
)
    requires
        all_have_source(cx, u, unit_for, a),
        all_have_source(cx, u, unit_for, b),
    ensures
        all_have_source(cx, u, unit_for, append(a, b)),
{
}

proof fn lemma_packages_source(cx: Context, u: UnitView, unit_for: UnitFor, n: nat)
    requires
        n <= active_edges(cx, u, unit_for, filter_of(u)).len(),
    ensures
        all_have_source(cx, u, unit_for, package_deps(cx, u, unit_for, filter_of(u), n)),
    decreases n,
{
    if n > 0 {
        let filter = filter_of(u);
        let edges = active_edges(cx, u, unit_for, filter);
        let edge = edges[n - 1];
        let last = edge_deps(cx, u, unit_for, filter, edge);
        lemma_packages_source(cx, u, unit_for, (n - 1) as nat);
        lemma_get_one(cx, edge.to);
        if let Run::Done(part) = last {
            assert forall|i: int| 0 <= i < part.len() implies has_source(
                cx,
                u,
                unit_for,
                #[trigger] part[i],
            ) by {
                assert(part.contains(part[i]));
                assert(brings(cx, u, unit_for, filter, edges[n - 1], part[i]));
            }
        }
        lemma_append_source(
            cx,
            u,
            unit_for,
            package_deps(cx, u, unit_for, filter, (n - 1) as nat),
            last,
        );
    }
}

proof fn lemma_bins_source(cx: Context, u: UnitView, unit_for: UnitFor, n: nat)
    ensures
        all_have_source(cx, u, unit_for, bin_deps(cx, u, n)),
    decreases n,
{
    if n > 0 {
        lemma_bins_source(cx, u, unit_for, (n - 1) as nat);
    }
}

proof fn lemma_head_source(cx: Context, u: UnitView, unit_for: UnitFor)
    ensures
        all_have_source(cx, u, unit_for, head_deps(cx, u, unit_for)),
{
    let packages = all_package_deps(cx, u, unit_for, filter_of(u));
    let script = build_script_dep(cx, u, unit_for);
    let lib = own_lib_dep(cx, u, unit_for, None);
    let doc = own_lib_dep(cx, u, unit_for, Some(u.mode));
    let bins = own_bin_deps(cx, u);
    lemma_packages_source(cx, u, unit_for, active_edges(cx, u, unit_for, filter_of(u)).len());
    assert(all_have_source(cx, u, unit_for, packages));
    assert(all_have_source(cx, u, unit_for, script));
    assert(all_have_source(cx, u, unit_for, lib));
    assert(all_have_source(cx, u, unit_for, doc));
    lemma_bins_source(cx, u, unit_for, u.pkg.targets.len());
    assert(all_have_source(cx, u, unit_for, bins));
    let two = append(packages, script);
    lemma_append_source(cx, u, unit_for, packages, script);
    lemma_append_source(cx, u, unit_for, two, lib);
    lemma_append_source(cx, u, unit_for, append(two, lib), doc);
    lemma_append_source(cx, u, unit_for, append(two, lib), bins);
    assert(all_have_source(cx, u, unit_for, run_script_deps(cx, u, unit_for)));
}

/// Whether dependencies of a resolution lead to packages of lower rank, but for
/// pure dev-dependencies: those can be cyclic.
pub open spec fn ranked(cx: Context, rank: spec_fn(PackageId) -> nat) -> bool {
    forall|pkg: PackageId, i: int|
        0 <= i < cx.spec_resolve().spec_deps(pkg).len() && !only_dev(
            #[trigger] cx.spec_resolve().spec_deps(pkg)[i],
        ) ==> rank(cx.spec_resolve().spec_deps(pkg)[i].to) < rank(pkg)
}

/// A dependency of another package that is not purely a dev-dependency leads to
/// a lower rank.
proof fn lemma_lower_rank(
    cx: Context,
    rank: spec_fn(PackageId) -> nat,
    dev: Set<(UnitView, UnitView)>,
    u: UnitView,
    unit_for: UnitFor,
    d: UnitDepView,
)
    requires
        ranked(cx, rank),
        has_source(cx, u, unit_for, d),
        d.unit.pkg.id != u.pkg.id,
        !u.mode.is_run_custom_build(),
        is_compiled(u) ==> dev_edges(cx, u, unit_for).subset_of(dev),
        !dev.contains((u, d.unit)),
    ensures
        rank(d.unit.pkg.id) < rank(u.pkg.id),
{
    let filter = filter_of(u);
    let all = cx.spec_resolve().spec_deps(u.pkg.id);
    let p = edge_active(cx, u, unit_for, filter);
    let edges = active_edges(cx, u, unit_for, filter);
    let k = choose|k: int|
        0 <= k < edges.len() && brings(cx, u, unit_for, filter, #[trigger] edges[k], d);
    let edge = edges[k];
    all.lemma_filter_pred(p, k);
    assert(edges.contains(edge));
    all.lemma_filter_contains_rev(p, edge);
    let i = all.index_of(edge);
    assert(all[i] == edge);
    assert(!only_dev(edge)) by {
        let j = choose|j: int|
            0 <= j < edge.deps@.len() && dep_active(
                cx,
                u,
                unit_for,
                filter,
                #[trigger] edge.deps@[j],
            );
        if only_dev(edge) {
            assert(!edge.deps@[j].is_transitive());
            if is_compiled(u) {
                let part = edge_deps(cx, u, unit_for, filter, edge)->Done_0;
                let at = part.index_of(d);
                assert(part[at].unit == d.unit);
                assert(has_dep_on(part, d.unit));
                assert(edge_brings_dev(cx, u, unit_for, edges[k], d.unit));
                assert(dev_edges(cx, u, unit_for).contains((u, d.unit)));
            }
        }
    }
}

/// Whether what is scraped for examples is built to be scraped, and the crates
/// of the standard library are not executions of build scripts.
pub open spec fn scripts_apart(cx: Context, std_roots: Seq<StdRoots>) -> bool {
    &&& forall|i: int|
        0 <= i < cx.scrape_units@.len() ==> (#[trigger] cx.scrape_units@[i])@.mode.is_doc_scrape()
    &&& forall|kind: CompileKind, i: int|
        std_units(std_roots, kind) is Some && 0 <= i < (std_units(std_roots, kind)->0).len()
            ==> !(#[trigger] (std_units(std_roots, kind)->0)[i]).mode.is_run_custom_build()
}

/// Whether the standard library has a lower rank than what it is attached to.
pub open spec fn std_ranked(
    cx: Context,
    roots: Seq<UnitView>,
    std_roots: Seq<StdRoots>,
    graph: Graph,
    rank: spec_fn(PackageId) -> nat,
) -> bool {
    forall|u: UnitView, i: int|
        #![trigger attached_to(cx, roots, std_roots, u)[i]]
        graph.contains_key(u) && 0 <= i < attached_to(cx, roots, std_roots, u).len() ==> rank(
            attached_to(cx, roots, std_roots, u)[i].unit.pkg.id,
        ) < rank(u.pkg.id)
}

/// A planned dependency that runs a build script runs that of the same package.
pub proof fn lemma_same_package(
    cx: Context,
    roots: Seq<UnitView>,
    std_roots: Seq<StdRoots>,
    found: Search,
    u: UnitView,
    d: UnitDepView,
)
    requires
        planned(cx, roots, std_roots) == Run::Done(found),
        found.graph.contains_key(u),
        found.graph[u].contains(d),
        d.unit.mode.is_run_custom_build(),
        scripts_apart(cx, std_roots),
    ensures
        d.unit.pkg == u.pkg,
        !u.mode.is_run_custom_build(),
{
    let here = context_at(cx, roots, std_roots, u);
    let unit_for = lemma_built_for(cx, roots, std_roots, found, u);
    lemma_planned_dep(cx, roots, std_roots, found, u, unit_for, d);
    if is_attached(std_roots, u, d) {
        let units = std_units(std_roots, u.kind)->0;
        let i = units.index_of(d.unit);
        assert(!units[i].mode.is_run_custom_build());
    }
    if is_scraped(here, u, d) {
        let i = choose|i: int|
            0 <= i < here.scrape_units@.len() && d.unit.kind == (
            #[trigger] here.scrape_units@[i])@.kind && d.unit.mode == here.scrape_units@[i]@.mode;
        assert(cx.scrape_units@[i]@.mode.is_doc_scrape());
    }
    if u.mode.is_run_custom_build() {
        let own = own_deps(here, u, unit_for)->Done_0;
        lemma_no_std(std_roots, u);
        let i = found.graph[u].index_of(d);
        assert(own[i] == d);
    }
}

/// A planned dependency on another package that is not scraped, nor purely a
/// dev-dependency, leads to a lower rank.
proof fn lemma_planned_rank(
    cx: Context,
    roots: Seq<UnitView>,
    std_roots: Seq<StdRoots>,
    found: Search,
    rank: spec_fn(PackageId) -> nat,
    u: UnitView,
    d: UnitDepView,
)
    requires
        planned(cx, roots, std_roots) == Run::Done(found),
        found.graph.contains_key(u),
        found.graph[u].contains(d),
        !u.mode.is_run_custom_build(),
        d.unit.pkg.id != u.pkg.id,
        !d.unit.mode.is_doc_scrape(),
        !found.dev.contains((u, d.unit)),
        scripts_apart(cx, std_roots),
        ranked(context_at(cx, roots, std_roots, u), rank),
        std_ranked(cx, roots, std_roots, found.graph, rank),
    ensures
        rank(d.unit.pkg.id) < rank(u.pkg.id),
{
    let here = context_at(cx, roots, std_roots, u);
    let unit_for = lemma_built_for(cx, roots, std_roots, found, u);
    let own = own_deps(here, u, unit_for)->Done_0;
    let i = found.graph[u].index_of(d);
    assert(found.graph[u][i] == d);
    if i < own.len() {
        assert(own[i] == d);
        lemma_head_source(here, u, unit_for);
        let head = head_deps(here, u, unit_for)->Done_0;
        if i < head.len() {
            assert(head[i] == d);
            lemma_lower_rank(here, rank, found.dev, u, unit_for, d);
        } else {
            lemma_scrape_deps_facts(here, here.scrape_units@.len());
            let tail = scrape_deps(here, here.scrape_units@.len())->Done_0;
            assert(tail[i - head.len()] == d);
            assert(cx.scrape_units@[i - head.len()]@.mode.is_doc_scrape());
        }
    } else {
        assert(attached_to(cx, roots, std_roots, u)[i - own.len()] == d);
    }
}

/// Running a build script whose output is given has no dependencies. It is a unit
/// of the graph all the same.
pub proof fn law_overridden_script(
    cx: Context,
    roots: Seq<UnitView>,
    std_roots: Seq<StdRoots>,
    graph: Graph,
    u: UnitView,
)
    requires
        is_unit_graph(cx, roots, std_roots, graph),
        graph.contains_key(u),
        run_overridden(cx, u),
    ensures
        graph[u].len() == 0,
{
    let found = planned(cx, roots, std_roots)->Done_0;
    lemma_finished_dom(cx, found, graph);
    let unit_for = lemma_built_for(cx, roots, std_roots, found, u);
    lemma_no_std(std_roots, u);
    assert(found.graph[u].len() == 0);
    if graph[u].len() > 0 {
        let d = graph[u][0];
        assert(graph[u].contains(d));
        lemma_finished_dep(cx, found, graph, u, d);
    }
}

/// Executions of build scripts do not wait for each other in circles: wherever
/// one depends on another, the package of the other is lower in any order in
/// which packages come before those that depend on them. Dependencies that are
/// purely dev-dependencies do not matter for that order.
pub proof fn law_scripts_acyclic(
    cx: Context,
    roots: Seq<UnitView>,
    std_roots: Seq<StdRoots>,
    found: Search,
    graph: Graph,
    rank: spec_fn(PackageId) -> nat,
    u: UnitView,
    d: UnitDepView,
)
    requires
        planned(cx, roots, std_roots) == Run::Done(found),
        finished(cx, found, graph),
        scripts_apart(cx, std_roots),
        ranked(cx.for_std(false), rank),
        std_roots.len() > 0 ==> ranked(cx.for_std(true), rank),
        std_ranked(cx, roots, std_roots, found.graph, rank),
        graph.contains_key(u),
        u.mode.is_run_custom_build(),
        graph[u].contains(d),
        d.unit.mode.is_run_custom_build(),
    ensures
        rank(d.unit.pkg.id) < rank(u.pkg.id),
{
    if run_overridden(cx, u) {
        lemma_finished_dom(cx, found, graph);
        lemma_finished_dep(cx, found, graph, u, d);
        let unit_for = lemma_built_for(cx, roots, std_roots, found, u);
        lemma_no_std(std_roots, u);
        assert(found.graph[u].len() == 0);
    }
    law_connections(cx, roots, std_roots, found, graph, u, d);
    let (parent, other) = choose|parent: UnitView, other: UnitDepView|
        #![trigger linked_sibling(found.graph, found.dev, u, parent, other)]
        linked_sibling(found.graph, found.dev, u, parent, other) && found.graph.contains_key(
            other.unit,
        ) && script_run(found.graph[other.unit]) == Some(d);
    let j = choose|j: int|
        0 <= j < found.graph[parent].len() && (#[trigger] found.graph[parent][j]).unit == u;
    lemma_same_package(cx, roots, std_roots, found, parent, found.graph[parent][j]);
    lemma_first_where(found.graph[other.unit], runs_script());
    lemma_same_package(cx, roots, std_roots, found, other.unit, d);
    lemma_planned_list(cx, roots, std_roots, found, parent);
    lemma_planned_rank(cx, roots, std_roots, found, rank, parent, other);
}

} // verus!
