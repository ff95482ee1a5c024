//! What has to be built before what.

use crate::compile::{CompileKind, CompileMode};
use crate::context::Context;
use crate::facts::lemma_get_one;
use crate::laws::{context_at, lemma_own_in_graph};
use crate::layout::{is_unit_graph, StdRoots};
use crate::package::PackageId;
use crate::plan::{
    active_edges, all_package_deps, bin_dep, bin_deps, build_script_dep, edge_deps, enabled_bin,
    needs_bins, own_bin_deps, own_lib_dep, package_deps, run_overridden, run_script_deps,
    spec_check_or_build_mode, DepFilter,
};
use crate::profiles::UnitFor;
use crate::resolve::ResolveEdge;
use crate::run::{append, Run};
use crate::target::TargetView;
use crate::unit::{UnitDepView, UnitView};
use crate::unit_graph::Graph;
use crate::walk::{head_deps, is_compiled, own_deps, scrape_deps};
use vstd::prelude::*;

verus! {

/// Whether `all` ends with dependencies among which are those that `part` ends
/// with.
pub open spec fn within(part: Run<Seq<UnitDepView>>, all: Run<Seq<UnitDepView>>) -> bool {
    all matches Run::Done(deps) ==> part is Done && forall|i: int|
        0 <= i < (part->Done_0).len() ==> deps.contains(#[trigger] (part->Done_0)[i])
}

proof fn lemma_within_append(a: Run<Seq<UnitDepView>>, b: Run<Seq<UnitDepView>>)
    ensures
        within(a, append(a, b)),
        within(b, append(a, b)),
{
    if let Run::Done(deps) = append(a, b) {
        let x = a->Done_0;
        let y = b->Done_0;
        assert forall|i: int| 0 <= i < x.len() implies deps.contains(#[trigger] x[i]) by {
            assert(deps[i] == x[i]);
        }
        assert forall|i: int| 0 <= i < y.len() implies deps.contains(#[trigger] y[i]) by {
            assert(deps[x.len() + i] == y[i]);
        }
    }
}

pub proof fn lemma_within_joined(
    a: Run<Seq<UnitDepView>>,
    b: Run<Seq<UnitDepView>>,
    c: Run<Seq<UnitDepView>>,
)
    requires
        within(a, b),
        within(b, c),
    ensures
        within(a, c),
{
    if let Run::Done(deps) = c {
        let x = a->Done_0;
        let y = b->Done_0;
        assert forall|i: int| 0 <= i < x.len() implies deps.contains(#[trigger] x[i]) by {
            let k = y.index_of(x[i]);
            assert(y[k] == x[i]);
        }
    }
}

/// Whether a unit depends on its own library: binaries, tests, examples and the
/// like do, and so does their documentation.
pub open spec fn needs_lib(unit: UnitView) -> bool {
    if unit.mode.is_doc() {
        unit.target.is_bin() || unit.target.is_example()
    } else {
        is_compiled(unit) && !unit.target.is_custom_build() && !(unit.target.is_lib() && unit.mode
            != CompileMode::Doctest)
    }
}

/// Whether a unit depends on the execution of the build script of its package:
/// all do but the script itself.
pub open spec fn needs_script(unit: UnitView) -> bool {
    unit.mode.is_doc() || is_compiled(unit) && !unit.target.is_custom_build()
}

/// Which declared dependencies a unit asks for.
pub open spec fn filter_of(unit: UnitView) -> DepFilter {
    if unit.mode.is_doc() {
        DepFilter::Document
    } else {
        DepFilter::Compile
    }
}

proof fn lemma_head_within(cx: Context, u: UnitView, unit_for: UnitFor)
    ensures
        within(head_deps(cx, u, unit_for), own_deps(cx, u, unit_for)),
{
    lemma_within_append(head_deps(cx, u, unit_for), scrape_deps(cx, cx.scrape_units@.len()));
    lemma_within_append(head_deps(cx, u, unit_for), Run::Done(Seq::empty()));
    if let Run::Done(x) = head_deps(cx, u, unit_for) {
        assert(x + Seq::<UnitDepView>::empty() =~= x);
    }
}

/// What the dependencies of a unit are made of.
pub proof fn lemma_parts(cx: Context, u: UnitView, unit_for: UnitFor)
    ensures
        u.mode.is_doc() || is_compiled(u) ==> within(
            all_package_deps(cx, u, unit_for, filter_of(u)),
            own_deps(cx, u, unit_for),
        ),
        needs_script(u) ==> within(build_script_dep(cx, u, unit_for), own_deps(cx, u, unit_for)),
        needs_lib(u) ==> within(own_lib_dep(cx, u, unit_for, None), own_deps(cx, u, unit_for)),
        needs_lib(u) && u.mode.is_doc() ==> within(
            own_lib_dep(cx, u, unit_for, Some(u.mode)),
            own_deps(cx, u, unit_for),
        ),
        is_compiled(u) && needs_bins(u) ==> within(own_bin_deps(cx, u), own_deps(cx, u, unit_for)),
{
    let whole = own_deps(cx, u, unit_for);
    let head = head_deps(cx, u, unit_for);
    let packages = all_package_deps(cx, u, unit_for, filter_of(u));
    let script = build_script_dep(cx, u, unit_for);
    let lib = own_lib_dep(cx, u, unit_for, None);
    let doc = own_lib_dep(cx, u, unit_for, Some(u.mode));
    let bins = own_bin_deps(cx, u);
    let two = append(packages, script);
    let three = append(two, lib);
    lemma_head_within(cx, u, unit_for);
    lemma_within_append(packages, script);
    lemma_within_append(two, lib);
    lemma_within_joined(packages, two, three);
    lemma_within_joined(script, two, three);
    let four = append(three, if u.mode.is_doc() {
        doc
    } else {
        bins
    });
    lemma_within_append(three, doc);
    lemma_within_append(three, bins);
    lemma_within_joined(packages, three, four);
    lemma_within_joined(script, three, four);
    lemma_within_joined(lib, three, four);
    if head is Done {
        if is_compiled(u) || u.mode.is_doc() {
            assert(within(packages, head));
            lemma_within_joined(packages, head, whole);
            if needs_script(u) {
                assert(within(script, head));
                lemma_within_joined(script, head, whole);
            }
            if needs_lib(u) {
                assert(within(lib, head));
                lemma_within_joined(lib, head, whole);
                if u.mode.is_doc() {
                    assert(within(doc, head));
                    lemma_within_joined(doc, head, whole);
                }
            }
            if is_compiled(u) && needs_bins(u) {
                assert(within(bins, head));
                lemma_within_joined(bins, head, whole);
            }
        }
    }
}

/// Whether a unit of the graph depends on some unit for a target of a package.
pub open spec fn depends_on_target(
    graph: Graph,
    u: UnitView,
    pkg: PackageId,
    target: TargetView,
    mode: CompileMode,
) -> bool {
    exists|d: UnitDepView|
        #[trigger] graph[u].contains(d) && d.unit.pkg.id == pkg && d.unit.target == target
            && d.unit.mode == mode
}

/// The library of a package is built before its binaries, tests and examples:
/// these depend on it, and their documentation depends on its documentation too.
pub proof fn law_library_first(
    cx: Context,
    roots: Seq<UnitView>,
    std_roots: Seq<StdRoots>,
    graph: Graph,
    u: UnitView,
    lib: TargetView,
)
    requires
        is_unit_graph(cx, roots, std_roots, graph),
        graph.contains_key(u),
        needs_lib(u),
        u.pkg.spec_linkable() == Some(lib),
    ensures
        depends_on_target(graph, u, u.pkg.id, lib, spec_check_or_build_mode(u.mode, lib)),
        u.mode.is_doc() ==> depends_on_target(graph, u, u.pkg.id, lib, u.mode),
{
    let unit_for = lemma_own_in_graph(cx, roots, std_roots, graph, u);
    let here = context_at(cx, roots, std_roots, u);
    lemma_parts(here, u, unit_for);
    let part = own_lib_dep(here, u, unit_for, None)->Done_0;
    lemma_listed(graph, u, own_deps(here, u, unit_for)->Done_0, part[0]);
    if u.mode.is_doc() {
        let doc = own_lib_dep(here, u, unit_for, Some(u.mode))->Done_0;
        lemma_listed(graph, u, own_deps(here, u, unit_for)->Done_0, doc[0]);
    }
}

pub proof fn lemma_listed(graph: Graph, u: UnitView, deps: Seq<UnitDepView>, d: UnitDepView)
    requires
        forall|i: int| 0 <= i < deps.len() ==> graph[u].contains(#[trigger] deps[i]),
        deps.contains(d),
    ensures
        graph[u].contains(d),
        depends_on_target(graph, u, d.unit.pkg.id, d.unit.target, d.unit.mode),
{
    let i = deps.index_of(d);
    assert(deps[i] == d);
}

/// A build script is run before anything else of its package is compiled or
/// documented. That holds even if its output is given.
pub proof fn law_build_script_first(
    cx: Context,
    roots: Seq<UnitView>,
    std_roots: Seq<StdRoots>,
    graph: Graph,
    u: UnitView,
    script: TargetView,
)
    requires
        is_unit_graph(cx, roots, std_roots, graph),
        graph.contains_key(u),
        needs_script(u),
        u.pkg.spec_build_script() == Some(script),
    ensures
        depends_on_target(graph, u, u.pkg.id, script, CompileMode::RunCustomBuild),
{
    let unit_for = lemma_own_in_graph(cx, roots, std_roots, graph, u);
    let here = context_at(cx, roots, std_roots, u);
    lemma_parts(here, u, unit_for);
    let part = build_script_dep(here, u, unit_for)->Done_0;
    lemma_listed(graph, u, own_deps(here, u, unit_for)->Done_0, part[0]);
}

/// A build script is compiled, for the host, before it is run, unless its output
/// is given.
pub proof fn law_script_compiled_first(
    cx: Context,
    roots: Seq<UnitView>,
    std_roots: Seq<StdRoots>,
    graph: Graph,
    u: UnitView,
)
    requires
        is_unit_graph(cx, roots, std_roots, graph),
        graph.contains_key(u),
        u.mode.is_run_custom_build(),
        !run_overridden(cx, u),
    ensures
        exists|d: UnitDepView|
            #[trigger] graph[u].contains(d) && d.unit.pkg == u.pkg && d.unit.target == u.target
                && d.unit.mode == CompileMode::Build && d.unit.kind == CompileKind::Host,
{
    let unit_for = lemma_own_in_graph(cx, roots, std_roots, graph, u);
    let here = context_at(cx, roots, std_roots, u);
    let part = run_script_deps(here, u, unit_for)->Done_0;
    assert(own_deps(here, u, unit_for) == run_script_deps(here, u, unit_for));
    assert(graph[u].contains(part[0]));
}

proof fn lemma_bin_within(cx: Context, u: UnitView, n: nat, k: int)
    requires
        0 <= k < n,
    ensures
        within(bin_dep(cx, u, u.pkg.targets[k]), bin_deps(cx, u, n)),
    decreases n,
{
    let before = bin_deps(cx, u, (n - 1) as nat);
    let last = bin_dep(cx, u, u.pkg.targets[n - 1]);
    lemma_within_append(before, last);
    if k < n - 1 {
        lemma_bin_within(cx, u, (n - 1) as nat, k);
        lemma_within_joined(bin_dep(cx, u, u.pkg.targets[k]), before, append(before, last));
    }
}

/// The binaries of a package are built before its integration tests and
/// benchmarks, but for those that require features that are not selected.
pub proof fn law_binaries_first(
    cx: Context,
    roots: Seq<UnitView>,
    std_roots: Seq<StdRoots>,
    graph: Graph,
    u: UnitView,
    k: int,
)
    requires
        is_unit_graph(cx, roots, std_roots, graph),
        graph.contains_key(u),
        needs_bins(u),
        0 <= k < u.pkg.targets.len(),
        enabled_bin(context_at(cx, roots, std_roots, u), u.pkg.id, u.pkg.targets[k]),
    ensures
        depends_on_target(graph, u, u.pkg.id, u.pkg.targets[k], CompileMode::Build),
{
    let unit_for = lemma_own_in_graph(cx, roots, std_roots, graph, u);
    let here = context_at(cx, roots, std_roots, u);
    lemma_parts(here, u, unit_for);
    lemma_bin_within(here, u, u.pkg.targets.len(), k);
    let one = bin_dep(here, u, u.pkg.targets[k]);
    lemma_within_joined(one, own_bin_deps(here, u), own_deps(here, u, unit_for));
    let part = one->Done_0;
    lemma_listed(graph, u, own_deps(here, u, unit_for)->Done_0, part[0]);
}

pub proof fn lemma_edge_within(
    cx: Context,
    u: UnitView,
    unit_for: UnitFor,
    filter: DepFilter,
    n: nat,
    k: int,
)
    requires
        0 <= k < n,
    ensures
        within(
            edge_deps(cx, u, unit_for, filter, active_edges(cx, u, unit_for, filter)[k]),
            package_deps(cx, u, unit_for, filter, n),
        ),
    decreases n,
{
    let edges = active_edges(cx, u, unit_for, filter);
    let before = package_deps(cx, u, unit_for, filter, (n - 1) as nat);
    let last = edge_deps(cx, u, unit_for, filter, edges[n - 1]);
    lemma_within_append(before, last);
    if k < n - 1 {
        lemma_edge_within(cx, u, unit_for, filter, (n - 1) as nat, k);
        lemma_within_joined(
            edge_deps(cx, u, unit_for, filter, edges[k]),
            before,
            append(before, last),
        );
    }
}

/// Whether a unit of the graph depends on the library of the package at the end
/// of an edge, if that has a library. Documentation depends on that of the
/// library too, where dependencies are documented.
pub open spec fn edge_lowered(cx: Context, graph: Graph, u: UnitView, edge: ResolveEdge) -> bool {
    match cx.package_set.spec_get_one(edge.to) {
        Some(pkg) => match pkg.spec_lib() {
            Some(lib) => {
                &&& depends_on_target(
                    graph,
                    u,
                    edge.to,
                    lib,
                    spec_check_or_build_mode(u.mode, lib),
                )
                &&& u.mode == (CompileMode::Doc { deps: true }) ==> depends_on_target(
                    graph,
                    u,
                    edge.to,
                    lib,
                    u.mode,
                )
            },
            None => true,
        },
        None => false,
    }
}

/// Whether all dependencies of a unit between packages are lowered to
/// dependencies on their libraries, where it is built for `unit_for`.
pub open spec fn edges_lowered(cx: Context, graph: Graph, u: UnitView, unit_for: UnitFor) -> bool {
    let edges = active_edges(cx, u, unit_for, filter_of(u));
    forall|k: int| 0 <= k < edges.len() ==> edge_lowered(cx, graph, u, #[trigger] edges[k])
}

/// Dependencies between packages are lowered to dependencies between targets: a
/// unit that is compiled or documented depends on the libraries of the packages
/// that its own package depends on, as far as they are asked for and active for
/// what it is built for.
pub proof fn law_edges_lowered(
    cx: Context,
    roots: Seq<UnitView>,
    std_roots: Seq<StdRoots>,
    graph: Graph,
    u: UnitView,
) -> (unit_for: UnitFor)
    requires
        is_unit_graph(cx, roots, std_roots, graph),
        graph.contains_key(u),
        !u.mode.is_run_custom_build(),
    ensures
        own_deps(context_at(cx, roots, std_roots, u), u, unit_for) is Done,
        edges_lowered(context_at(cx, roots, std_roots, u), graph, u, unit_for),
{
    let unit_for = lemma_own_in_graph(cx, roots, std_roots, graph, u);
    let here = context_at(cx, roots, std_roots, u);
    let filter = filter_of(u);
    let edges = active_edges(here, u, unit_for, filter);
    let whole = own_deps(here, u, unit_for);
    lemma_parts(here, u, unit_for);
    assert forall|k: int| 0 <= k < edges.len() implies edge_lowered(
        here,
        graph,
        u,
        #[trigger] edges[k],
    ) by {
        let edge = edges[k];
        lemma_edge_within(here, u, unit_for, filter, edges.len(), k);
        let one = edge_deps(here, u, unit_for, filter, edge);
        lemma_within_joined(one, all_package_deps(here, u, unit_for, filter), whole);
        lemma_get_one(here, edge.to);
        assert(one is Done);
        if let Some(pkg) = here.package_set.spec_get_one(edge.to) {
            if let Some(lib) = pkg.spec_lib() {
                let part = one->Done_0;
                lemma_listed(graph, u, whole->Done_0, part[0]);
                if u.mode == (CompileMode::Doc { deps: true }) {
                    lemma_listed(graph, u, whole->Done_0, part[1]);
                }
            }
        }
    }
    unit_for
}

} // verus!
