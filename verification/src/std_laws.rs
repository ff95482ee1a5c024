//! Without crates of the standard library to build, its resolution does not
//! matter.

use crate::context::Context;
use crate::layout::{
    additions, connected, finished, is_unit_graph, lists_additions, planned, sorted_graph, StdRoots,
};
use crate::plan::{
    active_edges, all_package_deps, bin_dep, bin_deps, brought_by_dev, build_script_dep,
    compile_deps, dev_edges, doc_deps, edge_active, edge_brings_dev, edge_deps, edges_listed,
    own_bin_deps, own_lib_dep, package_deps, root_unit_for, run_overridden, run_script_deps,
    scrape_dep, scrape_unit_for, DepFilter,
};
use crate::profiles::UnitFor;
use crate::resolve::ResolveEdge;
use crate::run::Run;
use crate::search::{
    expand, scrapes, self_scrape, visit, visit_deps, visit_scraped, visit_within, visited_roots,
    Search,
};
use crate::unit::{UnitDepView, UnitView};
use crate::unit_graph::Graph;
use vstd::prelude::*;

verus! {

/// Whether two contexts are for the user's packages and differ in the resolution
/// of the standard library at most.
pub open spec fn agree(a: Context, b: Context) -> bool {
    &&& !a.is_std
    &&& !b.is_std
    &&& a.ws == b.ws
    &&& a.package_set == b.package_set
    &&& a.usr_resolve == b.usr_resolve
    &&& a.usr_features == b.usr_features
    &&& a.global_mode == b.global_mode
    &&& a.target_data == b.target_data
    &&& a.profiles == b.profiles
    &&& a.scrape_units@ == b.scrape_units@
}

proof fn lemma_active_edges_agree(
    a: Context,
    b: Context,
    u: UnitView,
    unit_for: UnitFor,
    filter: DepFilter,
)
    requires
        agree(a, b),
    ensures
        active_edges(a, u, unit_for, filter) == active_edges(b, u, unit_for, filter),
{
    let p = edge_active(a, u, unit_for, filter);
    let q = edge_active(b, u, unit_for, filter);
    assert forall|edge: ResolveEdge| #[trigger] p(edge) == q(edge) by {}
    assert(p =~= q);
}

proof fn lemma_edge_deps_agree(
    a: Context,
    b: Context,
    u: UnitView,
    unit_for: UnitFor,
    filter: DepFilter,
    edge: ResolveEdge,
)
    requires
        agree(a, b),
    ensures
        edge_deps(a, u, unit_for, filter, edge) == edge_deps(b, u, unit_for, filter, edge),
{
}

proof fn lemma_package_deps_agree(
    a: Context,
    b: Context,
    u: UnitView,
    unit_for: UnitFor,
    filter: DepFilter,
    n: nat,
)
    requires
        agree(a, b),
    ensures
        package_deps(a, u, unit_for, filter, n) == package_deps(b, u, unit_for, filter, n),
    decreases n,
{
    if n > 0 {
        lemma_package_deps_agree(a, b, u, unit_for, filter, (n - 1) as nat);
        lemma_active_edges_agree(a, b, u, unit_for, filter);
        lemma_edge_deps_agree(
            a,
            b,
            u,
            unit_for,
            filter,
            active_edges(a, u, unit_for, filter)[n - 1],
        );
    }
}

proof fn lemma_bin_deps_agree(a: Context, b: Context, u: UnitView, n: nat)
    requires
        agree(a, b),
    ensures
        bin_deps(a, u, n) == bin_deps(b, u, n),
    decreases n,
{
    if n > 0 {
        lemma_bin_deps_agree(a, b, u, (n - 1) as nat);
        assert(bin_dep(a, u, u.pkg.targets[n - 1]) == bin_dep(b, u, u.pkg.targets[n - 1]));
    }
}

proof fn lemma_all_package_deps_agree(
    a: Context,
    b: Context,
    u: UnitView,
    unit_for: UnitFor,
    filter: DepFilter,
)
    requires
        agree(a, b),
    ensures
        all_package_deps(a, u, unit_for, filter) == all_package_deps(b, u, unit_for, filter),
{
    lemma_active_edges_agree(a, b, u, unit_for, filter);
    lemma_package_deps_agree(
        a,
        b,
        u,
        unit_for,
        filter,
        active_edges(a, u, unit_for, filter).len(),
    );
    assert(edges_listed(a, u) == edges_listed(b, u));
}

proof fn lemma_pieces_agree(a: Context, b: Context, u: UnitView, unit_for: UnitFor)
    requires
        agree(a, b),
    ensures
        build_script_dep(a, u, unit_for) == build_script_dep(b, u, unit_for),
        own_lib_dep(a, u, unit_for, None) == own_lib_dep(b, u, unit_for, None),
        own_lib_dep(a, u, unit_for, Some(u.mode)) == own_lib_dep(b, u, unit_for, Some(u.mode)),
        own_bin_deps(a, u) == own_bin_deps(b, u),
        run_script_deps(a, u, unit_for) == run_script_deps(b, u, unit_for),
        scrape_dep(a, u) == scrape_dep(b, u),
{
    lemma_bin_deps_agree(a, b, u, u.pkg.targets.len());
}

proof fn lemma_deps_agree(a: Context, b: Context, u: UnitView, unit_for: UnitFor)
    requires
        agree(a, b),
    ensures
        compile_deps(a, u, unit_for) == compile_deps(b, u, unit_for),
        doc_deps(a, u, unit_for) == doc_deps(b, u, unit_for),
{
    lemma_all_package_deps_agree(a, b, u, unit_for, DepFilter::Compile);
    lemma_all_package_deps_agree(a, b, u, unit_for, DepFilter::Document);
    lemma_pieces_agree(a, b, u, unit_for);
}

proof fn lemma_dev_edges_agree(a: Context, b: Context, u: UnitView, unit_for: UnitFor)
    requires
        agree(a, b),
    ensures
        dev_edges(a, u, unit_for) == dev_edges(b, u, unit_for),
{
    let filter = DepFilter::Compile;
    let edges = active_edges(a, u, unit_for, filter);
    lemma_active_edges_agree(a, b, u, unit_for, filter);
    assert forall|dep: UnitView, k: int| 0 <= k < edges.len() implies edge_brings_dev(
        a,
        u,
        unit_for,
        #[trigger] edges[k],
        dep,
    ) == #[trigger] edge_brings_dev(b, u, unit_for, edges[k], dep) by {
        lemma_edge_deps_agree(a, b, u, unit_for, filter, edges[k]);
    }
    assert forall|dep: UnitView| #[trigger]
        brought_by_dev(a, u, unit_for, edges.len(), dep) == brought_by_dev(
            b,
            u,
            unit_for,
            edges.len(),
            dep,
        ) by {
        if brought_by_dev(a, u, unit_for, edges.len(), dep) {
            let k = choose|k: int|
                0 <= k < edges.len() && edge_brings_dev(a, u, unit_for, #[trigger] edges[k], dep);
            assert(edge_brings_dev(b, u, unit_for, edges[k], dep));
        }
        if brought_by_dev(b, u, unit_for, edges.len(), dep) {
            let k = choose|k: int|
                0 <= k < edges.len() && edge_brings_dev(b, u, unit_for, #[trigger] edges[k], dep);
            assert(edge_brings_dev(b, u, unit_for, edges[k], dep));
            assert(edge_brings_dev(a, u, unit_for, edges[k], dep));
        }
    }
    assert(dev_edges(a, u, unit_for) =~= dev_edges(b, u, unit_for));
}

proof fn lemma_visit_agree(
    a: Context,
    b: Context,
    s: Search,
    u: UnitView,
    unit_for: UnitFor,
    fuel: nat,
)
    requires
        agree(a, b),
    ensures
        visit(a, s, u, unit_for, fuel) == visit(b, s, u, unit_for, fuel),
    decreases fuel, 0nat, 0nat,
{
    if !s.graph.contains_key(u) && fuel > 0 {
        let n = (fuel - 1) as nat;
        lemma_expand_agree(a, b, s, u, unit_for, n);
        if let Run::Done((found, deps)) = expand(a, s, u, unit_for, n) {
            lemma_visit_deps_agree(a, b, found.insert(u, deps), deps, deps.len(), n);
        }
    }
}

proof fn lemma_visit_deps_agree(
    a: Context,
    b: Context,
    s: Search,
    deps: Seq<UnitDepView>,
    n: nat,
    fuel: nat,
)
    requires
        agree(a, b),
    ensures
        visit_deps(a, s, deps, n, fuel) == visit_deps(b, s, deps, n, fuel),
    decreases fuel, 1nat, n,
{
    if n > 0 {
        lemma_visit_deps_agree(a, b, s, deps, (n - 1) as nat, fuel);
        if let Run::Done(t) = visit_deps(a, s, deps, (n - 1) as nat, fuel) {
            lemma_visit_agree(a, b, t, deps[n - 1].unit, deps[n - 1].unit_for, fuel);
        }
    }
}

proof fn lemma_visit_scraped_agree(a: Context, b: Context, s: Search, n: nat, fuel: nat)
    requires
        agree(a, b),
    ensures
        visit_scraped(a, s, n, fuel) == visit_scraped(b, s, n, fuel),
    decreases fuel, 1nat, n,
{
    if n > 0 {
        lemma_visit_scraped_agree(a, b, s, (n - 1) as nat, fuel);
        if let Run::Done((t, deps)) = visit_scraped(a, s, (n - 1) as nat, fuel) {
            let u = a.scrape_units@[n - 1]@;
            lemma_visit_agree(a, b, t, u, scrape_unit_for(u), fuel);
            lemma_deps_agree(a, b, u, scrape_unit_for(u));
            lemma_pieces_agree(a, b, u, scrape_unit_for(u));
            assert(self_scrape(a, u) == self_scrape(b, u));
        }
    }
}

proof fn lemma_expand_agree(
    a: Context,
    b: Context,
    s: Search,
    u: UnitView,
    unit_for: UnitFor,
    fuel: nat,
)
    requires
        agree(a, b),
    ensures
        expand(a, s, u, unit_for, fuel) == expand(b, s, u, unit_for, fuel),
    decreases fuel, 2nat, 0nat,
{
    lemma_pieces_agree(a, b, u, unit_for);
    lemma_deps_agree(a, b, u, unit_for);
    lemma_dev_edges_agree(a, b, u, unit_for);
    if scrapes(a, u) {
        lemma_visit_scraped_agree(a, b, s, a.scrape_units@.len(), fuel);
    }
}

proof fn lemma_visited_roots_agree(
    a: Context,
    b: Context,
    s: Search,
    roots: Seq<UnitView>,
    n: nat,
)
    requires
        agree(a, b),
    ensures
        visited_roots(a, s, roots, n) == visited_roots(b, s, roots, n),
    decreases n,
{
    if n > 0 {
        lemma_visited_roots_agree(a, b, s, roots, (n - 1) as nat);
        if let Run::Done(t) = visited_roots(a, s, roots, (n - 1) as nat) {
            let u = roots[n - 1];
            let unit_for = root_unit_for(a, u);
            assert(unit_for == root_unit_for(b, u));
            let p = visit_within(a, t, u, unit_for);
            let q = visit_within(b, t, u, unit_for);
            assert forall|fuel: nat| #[trigger] p(fuel) == q(fuel) by {
                lemma_visit_agree(a, b, t, u, unit_for, fuel);
            }
            assert(p =~= q);
        }
    }
}

proof fn lemma_additions_agree(
    a: Context,
    b: Context,
    graph: Graph,
    dev: Set<(UnitView, UnitView)>,
    u: UnitView,
)
    requires
        agree(a, b),
    ensures
        additions(a, graph, dev, u) == additions(b, graph, dev, u),
{
    assert(run_overridden(a, u) == run_overridden(b, u));
    assert(additions(a, graph, dev, u) =~= additions(b, graph, dev, u));
}

proof fn lemma_finished_agree(a: Context, b: Context, found: Search, graph: Graph)
    requires
        agree(a, b),
        finished(a, found, graph),
    ensures
        finished(b, found, graph),
{
    let middle = choose|middle: Graph|
        connected(a, found.graph, found.dev, middle) && #[trigger] sorted_graph(middle, graph);
    assert forall|u: UnitView| #[trigger] middle.contains_key(u) implies exists|
        extra: Seq<UnitDepView>,
    | #[trigger]
        lists_additions(b, found.graph, found.dev, u, extra) && middle[u] == found.graph[u]
            + extra by {
        lemma_additions_agree(a, b, found.graph, found.dev, u);
        let extra = choose|extra: Seq<UnitDepView>| #[trigger]
            lists_additions(a, found.graph, found.dev, u, extra) && middle[u] == found.graph[u]
                + extra;
        assert(lists_additions(b, found.graph, found.dev, u, extra));
    }
    assert(connected(b, found.graph, found.dev, middle));
}

/// Where no crates of the standard library are to be built, its resolution and its
/// features do not matter: builds that differ in these only come to the same,
/// error or graph.
pub proof fn law_std_resolve_unused(
    a: Context,
    b: Context,
    roots: Seq<UnitView>,
    std_roots: Seq<StdRoots>,
    graph: Graph,
)
    requires
        agree(a, b),
        std_roots.len() == 0,
    ensures
        planned(a, roots, std_roots) == planned(b, roots, std_roots),
        is_unit_graph(a, roots, std_roots, graph) <==> is_unit_graph(b, roots, std_roots, graph),
{
    let start = Search { graph: Graph::empty(), dev: Search::empty().dev };
    lemma_visited_roots_agree(a.for_std(false), b.for_std(false), start, roots, roots.len());
    if let Run::Done(found) = planned(a, roots, std_roots) {
        if finished(a, found, graph) {
            lemma_finished_agree(a, b, found, graph);
        }
        if finished(b, found, graph) {
            lemma_finished_agree(b, a, found, graph);
        }
    }
}

} // verus!
