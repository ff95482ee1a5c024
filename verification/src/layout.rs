//! The graph of a build as a whole.

use crate::compile::CompileKind;
use crate::context::Context;
use crate::dep_order::dep_le;
use crate::errors::Misuse;
use crate::links::links_error;
use crate::lookup::{first_where, is_first, lemma_found};
use crate::plan::{has_dep_on, run_overridden};
use crate::profiles::UnitFor;
use crate::run::Run;
use crate::search::{ends, visited_roots, Search};
use crate::unit::{unit_values, Unit, UnitDepView, UnitView};
use crate::unit_graph::Graph;
use vstd::prelude::*;
use vstd::relations::sorted_by;

verus! {

/// The crates of the standard library that are built for one kind.
#[derive(Debug)]
pub struct StdRoots {
    pub kind: CompileKind,
    pub units: Vec<Unit>,
}

/// Whether the standard library is listed once at most for each kind.
pub open spec fn one_per_kind(std_roots: Seq<StdRoots>) -> bool {
    forall|i: int, j: int|
        0 <= i < j < std_roots.len() ==> (#[trigger] std_roots[i]).kind != (
        #[trigger] std_roots[j]).kind
}

/// What visiting the standard library for the first `n` kinds comes to.
pub open spec fn visited_std(cx: Context, s: Search, std_roots: Seq<StdRoots>, n: nat) -> Run<
    Search,
>
    decreases n,
{
    if n == 0 {
        Run::Done(s)
    } else {
        match visited_std(cx, s, std_roots, (n - 1) as nat) {
            Run::Done(t) => visited_roots(
                cx,
                t,
                unit_values(std_roots[n - 1].units@),
                std_roots[n - 1].units@.len(),
            ),
            run => run,
        }
    }
}

/// Whether a unit depends on the standard library: all but those for the host
/// and the executions of build scripts.
pub open spec fn wants_std(unit: UnitView) -> bool {
    !unit.kind.is_host() && !unit.mode.is_run_custom_build()
}

pub open spec fn std_roots_of(kind: CompileKind) -> spec_fn(StdRoots) -> bool {
    |roots: StdRoots| roots.kind == kind
}

/// The crates of the standard library for a kind.
pub open spec fn std_units(std_roots: Seq<StdRoots>, kind: CompileKind) -> Option<Seq<UnitView>> {
    match first_where(std_roots, std_roots_of(kind)) {
        Some(roots) => Some(unit_values(roots.units@)),
        None => None,
    }
}

/// Where the standard library is listed once at most for each kind, every list is
/// the one for its kind.
pub proof fn law_listed_std_is_found(std_roots: Seq<StdRoots>, k: int)
    requires
        one_per_kind(std_roots),
        0 <= k < std_roots.len(),
    ensures
        std_units(std_roots, std_roots[k].kind) == Some(unit_values(std_roots[k].units@)),
{
    assert(is_first(std_roots, std_roots_of(std_roots[k].kind), k));
    lemma_found(std_roots, std_roots_of(std_roots[k].kind), k);
}

/// The dependency of a unit on a crate of the standard library.
pub open spec fn std_dep(unit: UnitView) -> UnitDepView {
    UnitDepView {
        unit,
        unit_for: UnitFor::new_normal(),
        extern_crate_name: unit.pkg.id.name,
        public: true,
        noprelude: true,
    }
}

/// The dependencies of a unit on crates of the standard library.
pub open spec fn std_deps(units: Seq<UnitView>) -> Seq<UnitDepView> {
    Seq::new(units.len(), |i: int| std_dep(units[i]))
}

/// What a unit gets from the standard library.
pub open spec fn std_deps_for(std_roots: Seq<StdRoots>, unit: UnitView) -> Seq<UnitDepView> {
    match std_units(std_roots, unit.kind) {
        Some(units) => if wants_std(unit) {
            std_deps(units)
        } else {
            Seq::empty()
        },
        None => Seq::empty(),
    }
}

/// Every unit of the graph with what it gets from the standard library.
pub open spec fn with_std_roots(graph: Graph, std_roots: Seq<StdRoots>) -> Graph {
    Map::new(
        |unit: UnitView| graph.contains_key(unit),
        |unit: UnitView| graph[unit] + std_deps_for(std_roots, unit),
    )
}

/// Whether some unit of the graph depends on the standard library.
pub open spec fn some_want_std(graph: Graph) -> bool {
    exists|unit: UnitView| #[trigger] graph.contains_key(unit) && wants_std(unit)
}

/// Whether the standard library is there for every unit that depends on it.
pub open spec fn std_covers(graph: Graph, std_roots: Seq<StdRoots>) -> bool {
    forall|unit: UnitView| #[trigger]
        graph.contains_key(unit) && wants_std(unit) ==> std_units(std_roots, unit.kind) is Some
}

/// Whether two graphs have no unit in common.
pub open spec fn disjoint(a: Graph, b: Graph) -> bool {
    forall|unit: UnitView| !(#[trigger] a.contains_key(unit) && #[trigger] b.contains_key(unit))
}

/// The graph with the standard library attached: its crates to every unit that
/// depends on them and, if there is such a unit, its own graph.
pub open spec fn attached(graph: Graph, std_roots: Seq<StdRoots>, std_graph: Graph) -> Run<Graph> {
    if !std_covers(graph, std_roots) {
        Run::Stuck(Misuse::NoStdRoots)
    } else if !some_want_std(graph) {
        Run::Done(graph)
    } else if !disjoint(graph, std_graph) {
        Run::Stuck(Misuse::StdCollision)
    } else {
        Run::Done(with_std_roots(graph, std_roots).union_prefer_right(std_graph))
    }
}

pub open spec fn runs_script() -> spec_fn(UnitDepView) -> bool {
    |dep: UnitDepView| dep.unit.mode.is_run_custom_build()
}

/// The first dependency that is the execution of a build script.
pub open spec fn script_run(deps: Seq<UnitDepView>) -> Option<UnitDepView> {
    first_where(deps, runs_script())
}

/// Whether the execution `unit` of a build script has `other` as a sibling that
/// may have to run its own build script first: both are dependencies of
/// `parent`, and `other` is a library of another package, that links to a
/// native library.
///
/// Units that are scraped for examples do not count, which avoids cycles. Nor
/// do dependencies that are purely dev-dependencies: those can be cyclic.
pub open spec fn linked_sibling(
    graph: Graph,
    dev: Set<(UnitView, UnitView)>,
    unit: UnitView,
    parent: UnitView,
    other: UnitDepView,
) -> bool {
    &&& graph.contains_key(parent)
    &&& has_dep_on(graph[parent], unit)
    &&& graph[parent].contains(other)
    &&& other.unit.pkg.id != unit.pkg.id
    &&& other.unit.target.is_linkable()
    &&& other.unit.pkg.links is Some
    &&& !other.unit.mode.is_doc_scrape()
    &&& !dev.contains((parent, other.unit))
}

/// Whether `dep` is the execution of the build script of a linked sibling.
pub open spec fn sibling_script(
    graph: Graph,
    dev: Set<(UnitView, UnitView)>,
    unit: UnitView,
    dep: UnitDepView,
) -> bool {
    exists|parent: UnitView, other: UnitDepView|
        #![trigger linked_sibling(graph, dev, unit, parent, other)]
        linked_sibling(graph, dev, unit, parent, other) && graph.contains_key(other.unit)
            && script_run(graph[other.unit]) == Some(dep)
}

/// What a unit depends on in addition: the execution of a build script depends
/// on those of its linked siblings, unless its output is given.
pub open spec fn additions(
    cx: Context,
    graph: Graph,
    dev: Set<(UnitView, UnitView)>,
    unit: UnitView,
) -> Set<UnitDepView> {
    if unit.mode.is_run_custom_build() && !run_overridden(cx, unit) {
        Set::new(|dep: UnitDepView| sibling_script(graph, dev, unit, dep))
    } else {
        Set::empty()
    }
}

/// Whether `extra` lists what a unit depends on in addition, each once.
pub open spec fn lists_additions(
    cx: Context,
    graph: Graph,
    dev: Set<(UnitView, UnitView)>,
    unit: UnitView,
    extra: Seq<UnitDepView>,
) -> bool {
    &&& extra.no_duplicates()
    &&& forall|dep: UnitDepView| #[trigger]
        extra.contains(dep) <==> additions(cx, graph, dev, unit).contains(dep)
}

/// Whether `after` is `graph` with the additions to each unit.
pub open spec fn connected(
    cx: Context,
    graph: Graph,
    dev: Set<(UnitView, UnitView)>,
    after: Graph,
) -> bool {
    &&& after.dom() == graph.dom()
    &&& forall|unit: UnitView| #[trigger]
        after.contains_key(unit) ==> exists|extra: Seq<UnitDepView>| #[trigger]
            lists_additions(cx, graph, dev, unit, extra) && after[unit] == graph[unit] + extra
}

/// Whether `after` is `graph` with each list of dependencies sorted.
pub open spec fn sorted_graph(graph: Graph, after: Graph) -> bool {
    &&& after.dom() == graph.dom()
    &&& forall|unit: UnitView| #[trigger]
        after.contains_key(unit) ==> sorted_by(after[unit], dep_le())
            && after[unit].to_multiset() == graph[unit].to_multiset()
}

/// The units that have to be visited for the build as a whole, with their
/// dependencies, and the edges that are purely due to dev-dependencies. Build
/// scripts are not connected yet, and lists are not sorted.
pub open spec fn planned(cx: Context, roots: Seq<UnitView>, std_roots: Seq<StdRoots>) -> Run<
    Search,
> {
    match visited_std(cx.for_std(true), Search::empty(), std_roots, std_roots.len()) {
        Run::Done(std) => {
            let start = Search { graph: Graph::empty(), dev: std.dev };
            match visited_roots(cx.for_std(false), start, roots, roots.len()) {
                Run::Done(found) => match links_error(found.graph) {
                    Some(e) => Run::Failed(e),
                    None => if std_roots.len() == 0 {
                        Run::Done(found)
                    } else {
                        match attached(found.graph, std_roots, std.graph) {
                            Run::Done(graph) => Run::Done(Search { graph, ..found }),
                            run => ends(run),
                        }
                    },
                },
                run => run,
            }
        },
        run => run,
    }
}

/// Whether `graph` is what was found, with build scripts connected and every
/// list sorted.
pub open spec fn finished(cx: Context, found: Search, graph: Graph) -> bool {
    exists|middle: Graph|
        connected(cx, found.graph, found.dev, middle) && #[trigger] sorted_graph(middle, graph)
}

/// Whether `graph` is the dependency graph of a build with these roots: the
/// planned units, with build scripts connected and every list sorted. Without
/// roots there is nothing to build.
pub open spec fn is_unit_graph(
    cx: Context,
    roots: Seq<UnitView>,
    std_roots: Seq<StdRoots>,
    graph: Graph,
) -> bool {
    if roots.len() == 0 {
        graph == Graph::empty()
    } else {
        match planned(cx, roots, std_roots) {
            Run::Done(found) => finished(cx, found, graph),
            _ => false,
        }
    }
}

} // verus!
