//! What the single steps of laying out a build do, whatever they start from.

use crate::compile::CompileMode;
use crate::context::Context;
use crate::dep_order::lemma_package_order;
use crate::dependency::{DepKind, Dependency};
use crate::end_laws::given_name;
use crate::errors::DepError;
use crate::graph_laws::{is_std_dep, lemma_joined, lemma_std_deps_members, std_listed_at};
use crate::layout::{
    attached, connected, linked_sibling, lists_additions, runs_script, script_run, sibling_script,
    some_want_std, std_deps_for, std_roots_of, std_units, wants_std, StdRoots,
};
use crate::links::{clash, linked_to, links_error};
use crate::lookup::{is_first, lemma_first_where, lemma_found};
use crate::members::{
    has, lemma_joins, lemma_leads, lemma_made_with, lemma_run_profile_fits, lemma_script_of,
    lemma_single_has, lemma_turned_on, side,
};
use crate::package::PackageId;
use crate::plan::{
    active_edges, build_script_dep, dep_available, edge_active, has_dep_on, run_overridden,
    spec_new_unit_dep_with_profile, wanted_by, DepFilter,
};
use crate::profiles::UnitFor;
use crate::resolve::{dep_crate_name, Resolve, ResolveEdge};
use crate::run::Run;
use crate::target::{TargetKind, TargetView};
use crate::terms::{
    features_of, for_host_side, is_script_of, joins, leads, on_platform, output_given,
    resolution_of, rightly_made, run_profile_fits, tested, turned_on,
};
use crate::unit::{UnitDepView, UnitView};
use crate::unit_graph::Graph;
use vstd::prelude::*;

verus! {

/// Whether a filter lets a dependency through. To document, it has to be a normal one.
/// To compile, build scripts take build dependencies, and all else takes the others:
/// normal ones, and dev-dependencies for tests and examples and for what is compiled to
/// be tested or scraped.
pub open spec fn passes(u: UnitView, filter: DepFilter, dep: Dependency) -> bool {
    match filter {
        DepFilter::Document => dep.kind == DepKind::Normal,
        DepFilter::Compile => match dep.kind {
            DepKind::Normal => u.target.kind != TargetKind::CustomBuild,
            DepKind::Build => u.target.kind == TargetKind::CustomBuild,
            DepKind::Development => u.target.kind != TargetKind::CustomBuild && (tested(u.mode)
                || u.mode == CompileMode::Docscrape || u.target.kind == TargetKind::Test
                || u.target.kind == TargetKind::Example),
        },
    }
}

/// Whether a dependency of the package of a unit is there for it: for its platform and,
/// if it is optional, activated on its side of the build.
pub open spec fn is_there(cx: Context, u: UnitView, host: bool, dep: Dependency) -> bool {
    &&& on_platform(cx, dep, u.kind)
    &&& dep.optional ==> turned_on(features_of(cx, cx.is_std), u.pkg.id, host, dep.name_in_toml)
}

/// The filtered edges of a unit are those edges of its package that list a dependency
/// that the filter lets through and that is there.
pub proof fn law_filtered_edges(
    cx: Context,
    u: UnitView,
    unit_for: UnitFor,
    filter: DepFilter,
    edge: ResolveEdge,
)
    ensures
        active_edges(cx, u, unit_for, filter).contains(edge) <==> {
            &&& leads(resolution_of(cx, cx.is_std), u.pkg.id, edge)
            &&& exists|i: int|
                0 <= i < edge.deps@.len() && passes(u, filter, #[trigger] edge.deps@[i])
                    && is_there(cx, u, unit_for.host_features, edge.deps@[i])
        },
{
    let all = cx.spec_resolve().spec_deps(u.pkg.id);
    let p = edge_active(cx, u, unit_for, filter);
    let wanted = wanted_by(u, filter);
    let host = unit_for.host_features;
    lemma_leads(resolution_of(cx, cx.is_std), u.pkg.id, edge);
    assert forall|i: int| 0 <= i < edge.deps@.len() implies (wanted(#[trigger] edge.deps@[i])
        <==> passes(u, filter, edge.deps@[i])) && (dep_available(cx, u, unit_for, edge.deps@[i])
        <==> is_there(cx, u, host, edge.deps@[i])) by {
        let dep = edge.deps@[i];
        lemma_turned_on(features_of(cx, cx.is_std), u.pkg.id, host, dep.name_in_toml);
        assert(unit_for.map_to_features_for() == side(host));
    }
    let kept = all.filter(p);
    if kept.contains(edge) {
        let k = kept.index_of(edge);
        all.lemma_filter_pred(p, k);
        all.lemma_filter_contains_rev(p, edge);
        let i = choose|i: int|
            0 <= i < edge.deps@.len() && wanted(#[trigger] edge.deps@[i]) && dep_available(
                cx,
                u,
                unit_for,
                edge.deps@[i],
            );
        assert(passes(u, filter, edge.deps@[i]));
    }
    if leads(resolution_of(cx, cx.is_std), u.pkg.id, edge) && exists|i: int|
        0 <= i < edge.deps@.len() && passes(u, filter, #[trigger] edge.deps@[i]) && is_there(
            cx,
            u,
            host,
            edge.deps@[i],
        ) {
        let i = choose|i: int|
            0 <= i < edge.deps@.len() && passes(u, filter, #[trigger] edge.deps@[i]) && is_there(
                cx,
                u,
                host,
                edge.deps@[i],
            );
        assert(wanted(edge.deps@[i]));
        assert(p(edge));
        let k = all.index_of(edge);
        all.lemma_filter_contains(p, k);
    }
}

/// Whether some unit of a graph is for a requested platform and does not run a build
/// script.
pub open spec fn has_platform_unit(graph: Graph) -> bool {
    exists|u: UnitView| #[trigger]
        graph.contains_key(u) && u.kind is Target && u.mode != CompileMode::RunCustomBuild
}

/// Attaching the standard library adds the crates that are listed for the platform of a
/// unit to its dependencies, in addition to those that it has. The standard library's own
/// units come in if there is a unit that gets them, and as they are; nothing else
/// does.
pub proof fn law_attaching(
    graph: Graph,
    std_roots: Seq<StdRoots>,
    std_graph: Graph,
    after: Graph,
    u: UnitView,
    d: UnitDepView,
)
    requires
        attached(graph, std_roots, std_graph) == Run::Done(after),
    ensures
        graph.contains_key(u) ==> after.contains_key(u) && (after[u].contains(d)
            <==> graph[u].contains(d) || is_std_dep(std_roots, u, d)),
        !graph.contains_key(u) ==> (after.contains_key(u) <==> has_platform_unit(graph)
            && std_graph.contains_key(u)),
        !graph.contains_key(u) && after.contains_key(u) ==> after[u] == std_graph[u],
{
    assert(has_platform_unit(graph) <==> some_want_std(graph)) by {
        if has_platform_unit(graph) {
            let v = choose|v: UnitView| #[trigger]
                graph.contains_key(v) && v.kind is Target && v.mode
                    != CompileMode::RunCustomBuild;
            assert(wants_std(v));
        }
        if some_want_std(graph) {
            let v = choose|v: UnitView| #[trigger] graph.contains_key(v) && wants_std(v);
            assert(v.kind is Target);
        }
    }
    if graph.contains_key(u) {
        lemma_std_deps_members(std_roots, u, d);
        lemma_joined(graph[u], std_deps_for(std_roots, u), d);
        if some_want_std(graph) {
            assert(!std_graph.contains_key(u));
            assert(after[u] == graph[u] + std_deps_for(std_roots, u));
        } else {
            assert(!wants_std(u));
        }
    }
}

/// The standard library can be attached exactly if it is listed for all platforms of
/// units that get it, and shares no unit with the graph if there are such units.
pub proof fn law_attachable(graph: Graph, std_roots: Seq<StdRoots>, std_graph: Graph)
    ensures
        attached(graph, std_roots, std_graph) is Done <==> {
            &&& forall|u: UnitView| #[trigger]
                graph.contains_key(u) && u.kind is Target && u.mode != CompileMode::RunCustomBuild
                    ==> exists|k: int| #[trigger] std_listed_at(std_roots, u.kind, k)
            &&& has_platform_unit(graph) ==> forall|u: UnitView|
                !(#[trigger] graph.contains_key(u) && std_graph.contains_key(u))
        },
{
    assert forall|u: UnitView| std_units(std_roots, u.kind) is Some <==> exists|k: int|
        #[trigger] std_listed_at(std_roots, u.kind, k) by {
        let p = std_roots_of(u.kind);
        lemma_first_where(std_roots, p);
        if exists|k: int| is_first(std_roots, p, k) {
            let k = choose|k: int| is_first(std_roots, p, k);
            assert forall|j: int| 0 <= j < k implies (#[trigger] std_roots[j]).kind != u.kind by {
                assert(!p(std_roots[j]));
            }
            assert(std_listed_at(std_roots, u.kind, k));
        }
        if exists|k: int| #[trigger] std_listed_at(std_roots, u.kind, k) {
            let k = choose|k: int| #[trigger] std_listed_at(std_roots, u.kind, k);
            assert(is_first(std_roots, p, k));
            lemma_found(std_roots, p, k);
        }
    }
    assert(has_platform_unit(graph) <==> some_want_std(graph)) by {
        if has_platform_unit(graph) {
            let v = choose|v: UnitView| #[trigger]
                graph.contains_key(v) && v.kind is Target && v.mode
                    != CompileMode::RunCustomBuild;
            assert(wants_std(v));
        }
        if some_want_std(graph) {
            let v = choose|v: UnitView| #[trigger] graph.contains_key(v) && wants_std(v);
            assert(v.kind is Target);
        }
    }
    assert(forall|u: UnitView| wants_std(u) <==> u.kind is Target && u.mode
        != CompileMode::RunCustomBuild);
}

/// Whether position `k` holds the first execution of a build script of a list.
pub open spec fn first_run_at(deps: Seq<UnitDepView>, k: int) -> bool {
    &&& 0 <= k < deps.len()
    &&& deps[k].unit.mode == CompileMode::RunCustomBuild
    &&& forall|j: int|
        0 <= j < k ==> (#[trigger] deps[j]).unit.mode != CompileMode::RunCustomBuild
}

/// Whether `s` is the first execution of a build script that a linked library `d`
/// depends on, where `p` depends on both `r` and `d`, the latter not marked as purely a
/// dev-dependency.
pub open spec fn is_due_to(
    graph: Graph,
    dev: Set<(UnitView, UnitView)>,
    r: UnitView,
    p: UnitView,
    d: UnitDepView,
    s: UnitDepView,
) -> bool {
    &&& graph.contains_key(p)
    &&& exists|i: int| 0 <= i < graph[p].len() && (#[trigger] graph[p][i]).unit == r
    &&& graph[p].contains(d)
    &&& d.unit.pkg.id != r.pkg.id
    &&& d.unit.target.kind == TargetKind::Lib { linkable: true }
    &&& d.unit.pkg.links is Some
    &&& d.unit.mode != CompileMode::Docscrape
    &&& !dev.contains((p, d.unit))
    &&& graph.contains_key(d.unit)
    &&& exists|k: int| #[trigger] first_run_at(graph[d.unit], k) && graph[d.unit][k] == s
}

proof fn lemma_first_run(deps: Seq<UnitDepView>, s: UnitDepView)
    ensures
        script_run(deps) == Some(s) <==> exists|k: int| #[trigger]
            first_run_at(deps, k) && deps[k] == s,
{
    let p = runs_script();
    lemma_first_where(deps, p);
    if script_run(deps) == Some(s) {
        let k = choose|k: int| is_first(deps, p, k);
        assert(is_first(deps, p, k));
        lemma_found(deps, p, k);
        assert forall|j: int| 0 <= j < k implies (#[trigger] deps[j]).unit.mode
            != CompileMode::RunCustomBuild by {
            assert(!p(deps[j]));
        }
        assert(first_run_at(deps, k));
    }
    if exists|k: int| #[trigger] first_run_at(deps, k) && deps[k] == s {
        let k = choose|k: int| #[trigger] first_run_at(deps, k) && deps[k] == s;
        assert(is_first(deps, p, k));
        lemma_found(deps, p, k);
    }
}

/// Connecting build scripts adds to the dependencies of each execution of one, whose
/// output is not given, those executions that linked libraries beside it depend on, and
/// adds nothing else. What is there stays there.
pub proof fn law_connecting(
    cx: Context,
    graph: Graph,
    dev: Set<(UnitView, UnitView)>,
    after: Graph,
    r: UnitView,
    s: UnitDepView,
)
    requires
        connected(cx, graph, dev, after),
    ensures
        after.contains_key(r) <==> graph.contains_key(r),
        graph.contains_key(r) ==> (after[r].contains(s) <==> {
            ||| graph[r].contains(s)
            ||| r.mode == CompileMode::RunCustomBuild && !output_given(cx, r) && exists|
                p: UnitView,
                d: UnitDepView,
            |
                is_due_to(graph, dev, r, p, d, s)
        }),
{
    if graph.contains_key(r) {
        assert(after.contains_key(r));
        assert(run_overridden(cx, r) == output_given(cx, r));
        let extra = choose|extra: Seq<UnitDepView>| #[trigger]
            lists_additions(cx, graph, dev, r, extra) && after[r] == graph[r] + extra;
        lemma_joined(graph[r], extra, s);
        assert(sibling_script(graph, dev, r, s) <==> exists|p: UnitView, d: UnitDepView|
            is_due_to(graph, dev, r, p, d, s)) by {
            if sibling_script(graph, dev, r, s) {
                let (p, d) = choose|p: UnitView, d: UnitDepView|
                    #![trigger linked_sibling(graph, dev, r, p, d)]
                    linked_sibling(graph, dev, r, p, d) && graph.contains_key(d.unit)
                        && script_run(graph[d.unit]) == Some(s);
                lemma_first_run(graph[d.unit], s);
                assert(is_due_to(graph, dev, r, p, d, s));
            }
            if exists|p: UnitView, d: UnitDepView| is_due_to(graph, dev, r, p, d, s) {
                let (p, d) = choose|p: UnitView, d: UnitDepView|
                    is_due_to(graph, dev, r, p, d, s);
                lemma_first_run(graph[d.unit], s);
                assert(has_dep_on(graph[p], r));
                assert(linked_sibling(graph, dev, r, p, d));
            }
        }
    }
}

/// A graph passes exactly if no native library is linked by units of different
/// packages.
pub proof fn law_links_checked(graph: Graph)
    ensures
        links_error(graph) is None <==> forall|a: UnitView, b: UnitView| #[trigger]
            graph.contains_key(a) && #[trigger] graph.contains_key(b) && a.pkg.links is Some
                && a.pkg.links == b.pkg.links ==> a.pkg.id == b.pkg.id,
{
    if links_error(graph) is None {
        assert forall|a: UnitView, b: UnitView| #[trigger]
            graph.contains_key(a) && #[trigger] graph.contains_key(b) && a.pkg.links is Some
                && a.pkg.links == b.pkg.links implies a.pkg.id == b.pkg.id by {
            let links = a.pkg.links->0;
            lemma_package_order(a.pkg.id, b.pkg.id);
            assert(linked_to(graph, a.pkg.id, links));
            assert(linked_to(graph, b.pkg.id, links));
            assert(!clash(graph, links, a.pkg.id, b.pkg.id));
            assert(!clash(graph, links, b.pkg.id, a.pkg.id));
        }
    }
}

/// The step that asks for a build script to be run asks for that of the package of the
/// unit, for the platform of the unit and whatever the unit is. It asks for nothing if
/// there is none.
pub proof fn law_script_asked(
    cx: Context,
    u: UnitView,
    unit_for: UnitFor,
    list: Seq<UnitDepView>,
    d: UnitDepView,
)
    requires
        build_script_dep(cx, u, unit_for) == Run::Done(list),
    ensures
        list.contains(d) <==> {
            &&& d.unit.pkg == u.pkg
            &&& is_script_of(u.pkg, d.unit.target)
            &&& d.unit.mode == CompileMode::RunCustomBuild
            &&& d.unit.kind == u.kind
            &&& for_host_side(unit_for.host_features, d.unit_for)
            &&& run_profile_fits(*cx.profiles, u.profile, d.unit.profile)
            &&& rightly_made(cx, cx.is_std, u.pkg.id, d)
        },
{
    assert(cx.for_std(cx.is_std) == cx);
    lemma_script_of(u.pkg, d.unit.target);
    if let Some(script) = u.pkg.spec_build_script() {
        let dep_for = UnitFor::new_host(unit_for.is_for_host_features());
        let profile = cx.profiles.spec_get_profile_run_custom_build(u.profile);
        let mode = CompileMode::RunCustomBuild;
        let run = spec_new_unit_dep_with_profile(
            cx,
            u,
            u.pkg,
            script,
            dep_for,
            u.kind,
            mode,
            profile,
        );
        lemma_made_with(cx, cx.is_std, u, script, u.pkg, dep_for, u.kind, mode, profile, d);
        lemma_run_profile_fits(*cx.profiles, u.profile, d.unit.profile);
        lemma_single_has(run, d);
        assert(for_host_side(unit_for.host_features, d.unit_for) <==> d.unit_for == dep_for);
        assert(has(build_script_dep(cx, u, unit_for), d) <==> list.contains(d));
    }
}

/// Naming a crate fails exactly if the dependencies between the two packages give it
/// different names. Else the crate has the name that all of them give it, or its own
/// where there are none. Crates of the same package have their own names.
pub proof fn law_naming(resolve: Resolve, from: PackageId, to: PackageId, target: TargetView)
    ensures
        ({
            let own = target.crate_name;
            match resolve.spec_extern_crate_name(from, to, target) {
                Err(e) => {
                    &&& e == DepError::AmbiguousName { from, to }
                    &&& from != to
                    &&& exists|edge: ResolveEdge, i: int, j: int|
                        {
                            &&& joins(resolve, from, to, edge)
                            &&& 0 <= i < edge.deps@.len()
                            &&& 0 <= j < edge.deps@.len()
                            &&& given_name(#[trigger] edge.deps@[i], own) != given_name(
                                #[trigger] edge.deps@[j],
                                own,
                            )
                        }
                },
                Ok(name) => {
                    &&& from != to ==> forall|edge: ResolveEdge, i: int|
                        joins(resolve, from, to, edge) && 0 <= i < edge.deps@.len() ==> name
                            == given_name(#[trigger] edge.deps@[i], own)
                    &&& from == to || (forall|edge: ResolveEdge| #[trigger]
                        joins(resolve, from, to, edge) ==> edge.deps@.len() == 0) ==> name == own
                },
            }
        }),
{
    let own = target.crate_name;
    assert forall|edge: ResolveEdge| #[trigger] joins(resolve, from, to, edge) implies
        resolve.spec_edge(from, to) == Some(edge) by {
        lemma_joins(resolve, from, to, edge);
    }
    if let Some(edge) = resolve.spec_edge(from, to) {
        lemma_joins(resolve, from, to, edge);
        let deps = edge.deps@;
        if from != to && deps.len() > 0 {
            assert(deps == resolve.spec_naming_deps(from, to));
            assert(forall|i: int| given_name(deps[i], own) == dep_crate_name(deps[i], target));
            if resolve.spec_extern_crate_name(from, to, target) is Err {
                let i = choose|i: int|
                    0 <= i < deps.len() && given_name(#[trigger] deps[i], own) != given_name(
                        deps[0],
                        own,
                    );
                assert(given_name(deps[i], own) != given_name(deps[0], own)) by {
                    if forall|i: int|
                        0 <= i < deps.len() ==> given_name(#[trigger] deps[i], own) == given_name(
                            deps[0],
                            own,
                        ) {
                        assert forall|i: int| 0 <= i < deps.len() implies dep_crate_name(
                            #[trigger] deps[i],
                            target,
                        ) == dep_crate_name(deps[0], target) by {
                            assert(given_name(deps[i], own) == given_name(deps[0], own));
                        }
                    }
                }
                assert(joins(resolve, from, to, edge));
            }
        }
    }
}

} // verus!
