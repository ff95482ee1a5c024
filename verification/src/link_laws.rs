//! Which executions of build scripts wait for which, in terms of the graph and of
//! the inputs of the build.

use crate::compile::{CompileKind, CompileMode};
use crate::context::Context;
use crate::dep_laws::scraped_only;
use crate::graph_laws::{is_std_dep, lemma_joined, lemma_std_deps_members, std_listed_at};
use crate::laws::{
    attached_to, context_at, law_connections, lemma_built_for, lemma_finished_dep,
    lemma_finished_dom, lemma_planned, lemma_planned_closed, lemma_std_found, lemma_user_found,
    std_found, user_found,
};
use crate::layout::{
    finished, is_unit_graph, linked_sibling, planned, runs_script, script_run, sibling_script,
    some_want_std, std_roots_of, std_units, wants_std, StdRoots,
};
use crate::lookup::lemma_first_where;
use crate::members::{
    brought, lemma_active_edge, lemma_brought_by, lemma_edge_has, lemma_leads, lemma_one_run,
    lemma_own_members,
};
use crate::order_laws::filter_of;
use crate::package::PackageId;
use crate::plan::{
    active_edges, brought_by_dev, dev_edges, edge_brings_dev, edge_deps, has_dep_on, only_dev,
    run_overridden, DepFilter,
};
use crate::profiles::UnitFor;
use crate::reach::anything;
use crate::resolve::{lemma_deps_apart, Resolve, ResolveEdge};
use crate::run::Run;
use crate::script_laws::{law_overridden_script, lemma_same_package, scripts_apart};
use crate::search::Search;
use crate::target::TargetKind;
use crate::target_data::ScriptOverride;
use crate::terms::{
    all_development, gets, is_lib_dep, is_run_dep, leads, output_given, resolution_of,
};
use crate::unit::{unit_values, UnitDepView, UnitView};
use crate::unit_graph::Graph;
use crate::walk::{dev_edge_explained, explained, is_compiled, own_deps, settled};
use vstd::prelude::*;

verus! {

/// Whether the crates of the standard library are marked as its own, and none of
/// them is the execution of a build script.
pub open spec fn std_marked(std_roots: Seq<StdRoots>) -> bool {
    forall|k: int, i: int|
        0 <= k < std_roots.len() && 0 <= i < std_roots[k].units@.len() ==> {
            &&& (#[trigger] std_roots[k].units@[i])@.is_std
            &&& std_roots[k].units@[i]@.mode != CompileMode::RunCustomBuild
        }
}

/// Whether the resolutions that are in use list nothing twice.
pub open spec fn resolutions_apart(cx: Context, std_roots: Seq<StdRoots>) -> bool {
    &&& cx.usr_resolve.wf()
    &&& std_roots.len() > 0 && cx.std_resolve is Some ==> (cx.std_resolve->0).0.wf()
}

/// Whether a package depends on another one, and not for dev-dependencies alone.
pub open spec fn depends_properly(resolve: Resolve, from: PackageId, to: PackageId) -> bool {
    exists|edge: ResolveEdge| #[trigger]
        leads(resolve, from, edge) && edge.to == to && !all_development(edge)
}

proof fn lemma_scripts_apart(cx: Context, std_roots: Seq<StdRoots>)
    requires
        scraped_only(cx),
        std_marked(std_roots),
    ensures
        scripts_apart(cx, std_roots),
{
    assert forall|i: int| 0 <= i < cx.scrape_units@.len() implies (
    #[trigger] cx.scrape_units@[i])@.mode.is_doc_scrape() by {
        assert(cx.scrape_units@[i]@.mode == CompileMode::Docscrape);
    }
    assert forall|kind: CompileKind, i: int|
        std_units(std_roots, kind) is Some && 0 <= i < (std_units(std_roots, kind)->0).len() implies
        !(#[trigger] (std_units(std_roots, kind)->0)[i]).mode.is_run_custom_build() by {
        lemma_first_where(std_roots, std_roots_of(kind));
        let k = choose|k: int|
            0 <= k < std_roots.len() && #[trigger] unit_values(std_roots[k].units@) == std_units(
                std_roots,
                kind,
            )->0;
        assert(exists|k: int|
            0 <= k < std_roots.len() && #[trigger] unit_values(std_roots[k].units@) == std_units(
                std_roots,
                kind,
            )->0);
        assert(unit_values(std_roots[k].units@)[i] == std_roots[k].units@[i]@);
    }
}

/// A planned dependency on another package that is not scraped is attached from the
/// standard library, or brought by an edge.
proof fn lemma_planned_other(
    cx: Context,
    roots: Seq<UnitView>,
    std_roots: Seq<StdRoots>,
    found: Search,
    p: UnitView,
    unit_for: UnitFor,
    d: UnitDepView,
)
    requires
        scraped_only(cx),
        ({
            let here = context_at(cx, roots, std_roots, p);
            &&& own_deps(here, p, unit_for) matches Run::Done(own)
            &&& found.graph[p] == own + attached_to(cx, roots, std_roots, p)
        }),
        found.graph[p].contains(d),
        d.unit.mode != CompileMode::Docscrape,
        d.unit.pkg.id != p.pkg.id,
    ensures
        ({
            let is_std = context_at(cx, roots, std_roots, p).is_std;
            if d.noprelude {
                !is_std && is_std_dep(std_roots, p, d)
            } else {
                d.unit.is_std == is_std && is_lib_dep(cx, is_std, p, unit_for, d)
            }
        }),
{
    let here = context_at(cx, roots, std_roots, p);
    let is_std = here.is_std;
    let own = own_deps(here, p, unit_for)->Done_0;
    lemma_own_members(cx, is_std, p, unit_for, d);
    lemma_std_deps_members(std_roots, p, d);
    lemma_joined(own, attached_to(cx, roots, std_roots, p), d);
    assert forall|i: int| 0 <= i < cx.scrape_units@.len() implies (
    #[trigger] cx.scrape_units@[i])@.mode != d.unit.mode by {
        assert(cx.scrape_units@[i]@.mode == CompileMode::Docscrape);
    }
}

/// Where all edges to a package are for dev-dependencies, dependencies on it are
/// marked so.
proof fn lemma_marked(
    cx: Context,
    is_std: bool,
    p: UnitView,
    unit_for: UnitFor,
    d: UnitDepView,
)
    requires
        own_deps(cx.for_std(is_std), p, unit_for) is Done,
        p.mode != CompileMode::RunCustomBuild,
        is_lib_dep(cx, is_std, p, unit_for, d),
        !depends_properly(resolution_of(cx, is_std), p.pkg.id, d.unit.pkg.id),
    ensures
        is_compiled(p),
        dev_edges(cx.for_std(is_std), p, unit_for).contains((p, d.unit)),
{
    let here = cx.for_std(is_std);
    let edges = active_edges(here, p, unit_for, filter_of(p));
    let k = lemma_brought_by(cx, is_std, p, unit_for, d);
    let edge = edges[k];
    assert(all_development(edge));
    let i = choose|i: int|
        0 <= i < edge.deps@.len() && gets(
            cx,
            is_std,
            p,
            unit_for.host_features,
            #[trigger] edge.deps@[i],
        );
    assert(edge.deps@[i].kind is Development);
    assert(is_compiled(p));
    assert(only_dev(edge));
    let part = edge_deps(here, p, unit_for, DepFilter::Compile, edge)->Done_0;
    let at = part.index_of(d);
    assert(part[at].unit == d.unit);
    assert(has_dep_on(part, d.unit));
    assert(edge_brings_dev(here, p, unit_for, edges[k], d.unit));
    assert(brought_by_dev(here, p, unit_for, edges.len(), d.unit));
}

/// What is marked is there for dev-dependencies alone.
proof fn lemma_mark_reason(cx: Context, is_std: bool, p: UnitView, unit_for: UnitFor, x: UnitView)
    requires
        is_compiled(p),
        dev_edges(cx.for_std(is_std), p, unit_for).contains((p, x)),
        resolution_of(cx, is_std).wf(),
    ensures
        x.is_std == is_std,
        !depends_properly(resolution_of(cx, is_std), p.pkg.id, x.pkg.id),
{
    let here = cx.for_std(is_std);
    let resolve = resolution_of(cx, is_std);
    let edges = active_edges(here, p, unit_for, DepFilter::Compile);
    let k = choose|k: int|
        0 <= k < edges.len() && edge_brings_dev(here, p, unit_for, #[trigger] edges[k], x);
    let edge = edges[k];
    let part = edge_deps(here, p, unit_for, DepFilter::Compile, edge)->Done_0;
    let j = choose|j: int| 0 <= j < part.len() && (#[trigger] part[j]).unit == x;
    let d = part[j];
    assert(part.contains(d));
    lemma_edge_has(cx, is_std, p, unit_for, edge, d);
    assert(brought(cx, is_std, p, unit_for, edge, d));
    assert(edges.contains(edge));
    lemma_active_edge(cx, is_std, p, unit_for, edge);
    lemma_leads(resolve, p.pkg.id, edge);
    let all = resolve.spec_deps(p.pkg.id);
    lemma_deps_apart(resolve, p.pkg.id);
    assert(all_development(edge)) by {
        assert forall|i: int| 0 <= i < edge.deps@.len() implies (
        #[trigger] edge.deps@[i]).kind is Development by {
            assert(!edge.deps@[i].is_transitive());
        }
    }
    if depends_properly(resolve, p.pkg.id, x.pkg.id) {
        let other = choose|other: ResolveEdge| #[trigger]
            leads(resolve, p.pkg.id, other) && other.to == x.pkg.id && !all_development(other);
        lemma_leads(resolve, p.pkg.id, other);
        let (a, b) = (all.index_of(edge), all.index_of(other));
        assert(all[a] == edge && all[b] == other);
        if a < b {
            assert(all[a].to != all[b].to);
        } else if b < a {
            assert(all[b].to != all[a].to);
        }
    }
}

/// Marks of dev-dependencies, in terms of the resolution.
proof fn lemma_marks(
    cx: Context,
    roots: Seq<UnitView>,
    std_roots: Seq<StdRoots>,
    found: Search,
    p: UnitView,
    d: UnitDepView,
)
    requires
        planned(cx, roots, std_roots) == Run::Done(found),
        scraped_only(cx),
        std_marked(std_roots),
        resolutions_apart(cx, std_roots),
        found.graph.contains_key(p),
        p.mode != CompileMode::RunCustomBuild,
        found.graph[p].contains(d),
        d.unit.mode != CompileMode::Docscrape,
        d.unit.pkg.id != p.pkg.id,
    ensures
        found.dev.contains((p, d.unit)) <==> !d.noprelude && !depends_properly(
            resolution_of(cx, context_at(cx, roots, std_roots, p).is_std),
            p.pkg.id,
            d.unit.pkg.id,
        ),
{
    let here = context_at(cx, roots, std_roots, p);
    let is_std = here.is_std;
    let unit_for = lemma_built_for(cx, roots, std_roots, found, p);
    lemma_planned_other(cx, roots, std_roots, found, p, unit_for, d);
    let edge = (p, d.unit);
    if !d.noprelude && !depends_properly(
        resolution_of(cx, is_std),
        p.pkg.id,
        d.unit.pkg.id,
    ) {
        lemma_marked(cx, is_std, p, unit_for, d);
    }
    if found.dev.contains(edge) {
        let (b, f) = lemma_mark_part(cx, roots, std_roots, found, p, d.unit);
        lemma_mark_reason(cx, b, p, f, d.unit);
        if d.noprelude {
            let (k, i) = choose|k: int, i: int|
                #[trigger] std_listed_at(std_roots, p.kind, k) && 0 <= i
                    < std_roots[k].units@.len() && (#[trigger] std_roots[k].units@[i])@ == d.unit;
            assert(d.unit.is_std);
            lemma_planned(cx, roots, std_roots);
            let user = user_found(cx, roots, std_roots)->Done_0;
            assert(user.graph.contains_key(p) && wants_std(p));
            assert(some_want_std(user.graph));
        }
    }
}

/// Which part of the graph a mark comes from.
proof fn lemma_mark_part(
    cx: Context,
    roots: Seq<UnitView>,
    std_roots: Seq<StdRoots>,
    found: Search,
    p: UnitView,
    x: UnitView,
) -> (from: (bool, UnitFor))
    requires
        planned(cx, roots, std_roots) == Run::Done(found),
        resolutions_apart(cx, std_roots),
        found.dev.contains((p, x)),
    ensures
        is_compiled(p),
        dev_edges(cx.for_std(from.0), p, from.1).contains((p, x)),
        if from.0 {
            (std_found(cx, std_roots)->Done_0).graph.contains_key(p) && std_roots.len() > 0
        } else {
            (user_found(cx, roots, std_roots)->Done_0).graph.contains_key(p)
        },
        resolution_of(cx, from.0).wf(),
{
    lemma_planned(cx, roots, std_roots);
    lemma_user_found(cx, anything(), roots, std_roots);
    lemma_std_found(cx, anything(), std_roots);
    let user = user_found(cx, roots, std_roots)->Done_0;
    let std = std_found(cx, std_roots)->Done_0;
    let e = (p, x);
    let b = std.dev.contains(e);
    if b {
        assert(dev_edge_explained(cx.for_std(true), std, e));
        assert(settled(cx.for_std(true), anything(), std, p));
        let f = choose|f: UnitFor|
            anything()(p, f) && #[trigger] explained(cx.for_std(true), std, p, f);
        assert(cx.for_std(true).has_resolve());
    } else {
        assert(dev_edge_explained(cx.for_std(false), user, e));
    }
    let f = choose|f: UnitFor| #[trigger] dev_edges(cx.for_std(b), p, f).contains(e);
    (b, f)
}

/// Whether `s` is the execution of a build script that `r` has to wait for on
/// account of `p` and `d`: `p` depends on `r` and on `d`, a library of another
/// package that links to a native library, and `d` depends on `s`. Units that are
/// scraped do not count, nor do packages that `p` depends on for dev-dependencies
/// alone.
pub open spec fn links_through(
    cx: Context,
    roots: Seq<UnitView>,
    std_roots: Seq<StdRoots>,
    graph: Graph,
    r: UnitView,
    p: UnitView,
    d: UnitDepView,
    s: UnitDepView,
) -> bool {
    &&& graph.contains_key(p)
    &&& p.mode != CompileMode::RunCustomBuild
    &&& exists|i: int| 0 <= i < graph[p].len() && (#[trigger] graph[p][i]).unit == r
    &&& graph[p].contains(d)
    &&& d.unit.pkg.id != r.pkg.id
    &&& d.unit.target.kind == TargetKind::Lib { linkable: true }
    &&& d.unit.pkg.links is Some
    &&& d.unit.mode != CompileMode::Docscrape
    &&& d.noprelude || depends_properly(
        resolution_of(cx, context_at(cx, roots, std_roots, p).is_std),
        p.pkg.id,
        d.unit.pkg.id,
    )
    &&& graph[d.unit].contains(s)
    &&& s.unit.mode == CompileMode::RunCustomBuild
}

/// Lists of units that do not run build scripts are as they were found.
proof fn lemma_list_kept(
    cx: Context,
    found: Search,
    graph: Graph,
    p: UnitView,
    d: UnitDepView,
)
    requires
        finished(cx, found, graph),
        graph.contains_key(p),
        p.mode != CompileMode::RunCustomBuild,
    ensures
        graph[p].contains(d) <==> found.graph[p].contains(d),
{
    lemma_finished_dep(cx, found, graph, p, d);
}

/// Two executions of build scripts that a unit depends on are the same.
proof fn lemma_same_run(
    cx: Context,
    roots: Seq<UnitView>,
    std_roots: Seq<StdRoots>,
    found: Search,
    v: UnitView,
    a: UnitDepView,
    b: UnitDepView,
)
    requires
        planned(cx, roots, std_roots) == Run::Done(found),
        scraped_only(cx),
        std_marked(std_roots),
        found.graph.contains_key(v),
        v.mode != CompileMode::RunCustomBuild,
        found.graph[v].contains(a),
        found.graph[v].contains(b),
        a.unit.mode == CompileMode::RunCustomBuild,
        b.unit.mode == CompileMode::RunCustomBuild,
    ensures
        a == b,
{
    let unit_for = lemma_built_for(cx, roots, std_roots, found, v);
    let is_std = context_at(cx, roots, std_roots, v).is_std;
    lemma_run_planned(cx, roots, std_roots, found, v, unit_for, a);
    lemma_run_planned(cx, roots, std_roots, found, v, unit_for, b);
    lemma_one_run(cx, is_std, v, unit_for, a, b);
}

/// A planned dependency that runs a build script follows from the manifest.
proof fn lemma_run_planned(
    cx: Context,
    roots: Seq<UnitView>,
    std_roots: Seq<StdRoots>,
    found: Search,
    v: UnitView,
    unit_for: UnitFor,
    d: UnitDepView,
)
    requires
        scraped_only(cx),
        std_marked(std_roots),
        v.mode != CompileMode::RunCustomBuild,
        ({
            let here = context_at(cx, roots, std_roots, v);
            &&& own_deps(here, v, unit_for) matches Run::Done(own)
            &&& found.graph[v] == own + attached_to(cx, roots, std_roots, v)
        }),
        found.graph[v].contains(d),
        d.unit.mode == CompileMode::RunCustomBuild,
    ensures
        is_run_dep(cx, context_at(cx, roots, std_roots, v).is_std, v, unit_for, d),
{
    let here = context_at(cx, roots, std_roots, v);
    let own = own_deps(here, v, unit_for)->Done_0;
    lemma_own_members(cx, here.is_std, v, unit_for, d);
    lemma_std_deps_members(std_roots, v, d);
    lemma_joined(own, attached_to(cx, roots, std_roots, v), d);
    assert forall|i: int| 0 <= i < cx.scrape_units@.len() implies (
    #[trigger] cx.scrape_units@[i])@.mode != d.unit.mode by {
        assert(cx.scrape_units@[i]@.mode == CompileMode::Docscrape);
    }
    if is_std_dep(std_roots, v, d) {
        let (k, i) = choose|k: int, i: int|
            #[trigger] std_listed_at(std_roots, v.kind, k) && 0 <= i < std_roots[k].units@.len()
                && (#[trigger] std_roots[k].units@[i])@ == d.unit;
        assert(std_roots[k].units@[i]@.mode != CompileMode::RunCustomBuild);
    }
}

proof fn lemma_links_to_sibling(
    cx: Context,
    roots: Seq<UnitView>,
    std_roots: Seq<StdRoots>,
    found: Search,
    graph: Graph,
    r: UnitView,
    p: UnitView,
    d: UnitDepView,
    s: UnitDepView,
)
    requires
        planned(cx, roots, std_roots) == Run::Done(found),
        finished(cx, found, graph),
        scraped_only(cx),
        std_marked(std_roots),
        resolutions_apart(cx, std_roots),
        r.mode == CompileMode::RunCustomBuild,
        links_through(cx, roots, std_roots, graph, r, p, d, s),
    ensures
        sibling_script(found.graph, found.dev, r, s),
{
    lemma_finished_dom(cx, found, graph);
    lemma_scripts_apart(cx, std_roots);
    lemma_planned_closed(cx, roots, std_roots);
    let i = choose|i: int| 0 <= i < graph[p].len() && (#[trigger] graph[p][i]).unit == r;
    let x = graph[p][i];
    assert(graph[p].contains(x));
    lemma_list_kept(cx, found, graph, p, x);
    lemma_list_kept(cx, found, graph, p, d);
    lemma_same_package(cx, roots, std_roots, found, p, x);
    let j = found.graph[p].index_of(x);
    assert(found.graph[p][j].unit == r);
    lemma_marks(cx, roots, std_roots, found, p, d);
    assert(linked_sibling(found.graph, found.dev, r, p, d));
    let k = found.graph[p].index_of(d);
    assert(found.graph[p][k] == d);
    assert(found.graph.contains_key(d.unit));
    if d.unit.mode == CompileMode::RunCustomBuild {
        lemma_same_package(cx, roots, std_roots, found, p, d);
    }
    lemma_list_kept(cx, found, graph, d.unit, s);
    let deps = found.graph[d.unit];
    lemma_first_where(deps, runs_script());
    let at = deps.index_of(s);
    assert(deps[at] == s);
    assert(runs_script()(deps[at]));
    let first = script_run(deps)->0;
    lemma_same_run(cx, roots, std_roots, found, d.unit, first, s);
}

proof fn lemma_sibling_to_links(
    cx: Context,
    roots: Seq<UnitView>,
    std_roots: Seq<StdRoots>,
    found: Search,
    graph: Graph,
    r: UnitView,
    s: UnitDepView,
) -> (through: (UnitView, UnitDepView))
    requires
        planned(cx, roots, std_roots) == Run::Done(found),
        finished(cx, found, graph),
        scraped_only(cx),
        std_marked(std_roots),
        resolutions_apart(cx, std_roots),
        r.mode == CompileMode::RunCustomBuild,
        sibling_script(found.graph, found.dev, r, s),
    ensures
        links_through(cx, roots, std_roots, graph, r, through.0, through.1, s),
{
    lemma_finished_dom(cx, found, graph);
    lemma_scripts_apart(cx, std_roots);
    let (p, d) = choose|p: UnitView, d: UnitDepView|
        #![trigger linked_sibling(found.graph, found.dev, r, p, d)]
        linked_sibling(found.graph, found.dev, r, p, d) && found.graph.contains_key(d.unit)
            && script_run(found.graph[d.unit]) == Some(s);
    let j = choose|j: int|
        0 <= j < found.graph[p].len() && (#[trigger] found.graph[p][j]).unit == r;
    let x = found.graph[p][j];
    assert(found.graph[p].contains(x));
    lemma_same_package(cx, roots, std_roots, found, p, x);
    assert(graph.contains_key(p));
    lemma_list_kept(cx, found, graph, p, x);
    lemma_list_kept(cx, found, graph, p, d);
    let i = graph[p].index_of(x);
    assert(graph[p][i].unit == r);
    lemma_marks(cx, roots, std_roots, found, p, d);
    if d.unit.mode == CompileMode::RunCustomBuild {
        lemma_same_package(cx, roots, std_roots, found, p, d);
    }
    lemma_first_where(found.graph[d.unit], runs_script());
    assert(graph.contains_key(d.unit));
    lemma_list_kept(cx, found, graph, d.unit, s);
    (p, d)
}

/// Build scripts run after those of the native libraries that their packages rely
/// on. Where a unit depends on the execution of its package's build script, whose
/// output is not given, and on a library of another package that links to a native
/// library, the first execution waits for that which the library depends on. This is
/// so whatever is done with the units, built, checked or documented. And an execution
/// waits for no others.
pub proof fn law_scripts_wait(
    cx: Context,
    roots: Seq<UnitView>,
    std_roots: Seq<StdRoots>,
    graph: Graph,
    r: UnitView,
    s: UnitDepView,
)
    requires
        is_unit_graph(cx, roots, std_roots, graph),
        scraped_only(cx),
        std_marked(std_roots),
        resolutions_apart(cx, std_roots),
        graph.contains_key(r),
        r.mode == CompileMode::RunCustomBuild,
        !output_given(cx, r),
        s.unit.mode == CompileMode::RunCustomBuild,
    ensures
        graph[r].contains(s) <==> exists|p: UnitView, d: UnitDepView|
            links_through(cx, roots, std_roots, graph, r, p, d, s),
{
    let found = planned(cx, roots, std_roots)->Done_0;
    assert(run_overridden(cx, r) == output_given(cx, r));
    law_connections(cx, roots, std_roots, found, graph, r, s);
    if graph[r].contains(s) {
        let (p, d) = lemma_sibling_to_links(cx, roots, std_roots, found, graph, r, s);
        assert(links_through(cx, roots, std_roots, graph, r, p, d, s));
    }
    if exists|p: UnitView, d: UnitDepView|
        links_through(cx, roots, std_roots, graph, r, p, d, s) {
        let (p, d) = choose|p: UnitView, d: UnitDepView|
            links_through(cx, roots, std_roots, graph, r, p, d, s);
        lemma_links_to_sibling(cx, roots, std_roots, found, graph, r, p, d, s);
    }
}

/// Running a build script whose output is given waits for nothing.
pub proof fn law_given_output(
    cx: Context,
    roots: Seq<UnitView>,
    std_roots: Seq<StdRoots>,
    graph: Graph,
    r: UnitView,
)
    requires
        is_unit_graph(cx, roots, std_roots, graph),
        graph.contains_key(r),
        r.mode == CompileMode::RunCustomBuild,
        exists|i: int|
            {
                &&& 0 <= i < cx.target_data.overrides@.len()
                &&& Some((#[trigger] cx.target_data.overrides@[i]).links) == r.pkg.links
                &&& cx.target_data.overrides@[i].kind == r.kind
            },
    ensures
        graph[r].len() == 0,
{
    let i = choose|i: int|
        {
            &&& 0 <= i < cx.target_data.overrides@.len()
            &&& Some((#[trigger] cx.target_data.overrides@[i]).links) == r.pkg.links
            &&& cx.target_data.overrides@[i].kind == r.kind
        };
    let row = cx.target_data.overrides@[i];
    assert(row == ScriptOverride { links: row.links, kind: r.kind });
    assert(run_overridden(cx, r));
    law_overridden_script(cx, roots, std_roots, graph, r);
}

} // verus!
