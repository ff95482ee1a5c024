//! Whatever is in a graph was asked for, and is built for what it was asked for.

use crate::context::Context;
use crate::plan::{dev_edges, root_unit_for, scrape_unit_for};
use crate::profiles::UnitFor;
use crate::reach::{anything, extends, lemma_scraped_no_docs, scrapes_no_docs};
use crate::run::Run;
use crate::search::{
    expand, scrapes, visit, visit_deps, visit_scraped, visit_within, visited_roots, Search,
};
use crate::unit::{UnitDepView, UnitView};
use crate::unit_graph::Graph;
use crate::walk::{
    explained, is_compiled, lemma_expand_deps, lemma_visit_deps_progress, lemma_visit_progress,
    lemma_visited_progress, Asked,
};
use vstd::prelude::*;

verus! {

/// Whether all that a graph depends on or scrapes is asked for.
pub open spec fn asks_on(cx: Context, graph: Graph, asked: Asked) -> bool {
    &&& forall|u: UnitView, i: int|
        graph.contains_key(u) && 0 <= i < graph[u].len() ==> asked(
            (#[trigger] graph[u][i]).unit,
            graph[u][i].unit_for,
        )
    &&& forall|u: UnitView, i: int|
        #[trigger] graph.contains_key(u) && scrapes(cx, u) && 0 <= i < cx.scrape_units@.len()
            ==> asked(
            (#[trigger] cx.scrape_units@[i])@,
            scrape_unit_for(cx.scrape_units@[i]@),
        )
}

/// Whether a unit has the dependencies that it has when it is built for something
/// that it was asked for.
pub open spec fn is_asked(cx: Context, asked: Asked, t: Search, v: UnitView) -> bool {
    exists|unit_for: UnitFor| asked(v, unit_for) && #[trigger] explained(cx, t, v, unit_for)
}

/// Whether all that is new in `t` was asked for.
pub open spec fn new_asked(cx: Context, asked: Asked, s: Search, t: Search) -> bool {
    forall|v: UnitView| #[trigger]
        t.graph.contains_key(v) && !s.graph.contains_key(v) ==> is_asked(cx, asked, t, v)
}

/// What was asked for stays so when more is recorded.
proof fn lemma_stays_asked(cx: Context, asked: Asked, s: Search, t: Search, v: UnitView)
    requires
        is_asked(cx, asked, s, v),
        t.graph[v] == s.graph[v],
        s.dev.subset_of(t.dev),
    ensures
        is_asked(cx, asked, t, v),
{
    let unit_for = choose|unit_for: UnitFor|
        asked(v, unit_for) && #[trigger] explained(cx, s, v, unit_for);
    assert(explained(cx, t, v, unit_for));
}

proof fn lemma_visit_asked(
    cx: Context,
    graph: Graph,
    asked: Asked,
    s: Search,
    unit: UnitView,
    unit_for: UnitFor,
    fuel: nat,
)
    requires
        scrapes_no_docs(cx),
        asks_on(cx, graph, asked),
        asked(unit, unit_for),
    ensures
        visit(cx, s, unit, unit_for, fuel) matches Run::Done(t) ==> (extends(t.graph, graph)
            ==> new_asked(cx, asked, s, t)),
    decreases fuel, 0nat, 0nat,
{
    if let Run::Done(t) = visit(cx, s, unit, unit_for, fuel) {
        if !s.graph.contains_key(unit) && extends(t.graph, graph) {
            let n = (fuel - 1) as nat;
            if let Run::Done((found, deps)) = expand(cx, s, unit, unit_for, n) {
                let entered = found.insert(unit, deps);
                lemma_visit_deps_progress(cx, anything(), entered, deps, deps.len(), n);
                lemma_expand_deps(cx, s, unit, unit_for, n);
                assert(entered.graph.contains_key(unit));
                assert(t.graph[unit] == deps);
                assert(graph.contains_key(unit) && graph[unit] == deps);
                assert forall|i: int| 0 <= i < deps.len() implies asked(
                    (#[trigger] deps[i]).unit,
                    deps[i].unit_for,
                ) by {
                    assert(graph[unit][i] == deps[i]);
                }
                lemma_visit_deps_asked(cx, graph, asked, entered, deps, deps.len(), n);
                assert(is_compiled(unit) ==> dev_edges(cx, unit, unit_for).subset_of(t.dev)) by {
                    if is_compiled(unit) {
                        assert(dev_edges(cx, unit, unit_for).subset_of(found.dev));
                        assert(found.dev.subset_of(t.dev));
                    }
                }
                assert(explained(cx, t, unit, unit_for));
                assert(is_asked(cx, asked, t, unit));
                if scrapes(cx, unit) {
                    lemma_scraped_no_docs(cx, s, n);
                    assert(!found.graph.contains_key(unit));
                    assert(extends(found.graph, graph)) by {
                        assert forall|v: UnitView| #[trigger]
                            found.graph.contains_key(v) implies graph.contains_key(v) && graph[v]
                            == found.graph[v] by {
                            assert(entered.graph.contains_key(v));
                        }
                    }
                    lemma_visit_scraped_asked(cx, graph, asked, s, cx.scrape_units@.len(), n);
                }
                assert forall|v: UnitView| #[trigger]
                    t.graph.contains_key(v) && !s.graph.contains_key(v) implies is_asked(
                    cx,
                    asked,
                    t,
                    v,
                ) by {
                    if entered.graph.contains_key(v) && v != unit {
                        assert(found.graph.contains_key(v));
                        assert(is_asked(cx, asked, found, v));
                        assert(t.graph[v] == entered.graph[v]);
                        lemma_stays_asked(cx, asked, found, t, v);
                    }
                }
            }
        }
    }
}

proof fn lemma_visit_deps_asked(
    cx: Context,
    graph: Graph,
    asked: Asked,
    s: Search,
    deps: Seq<UnitDepView>,
    n: nat,
    fuel: nat,
)
    requires
        scrapes_no_docs(cx),
        asks_on(cx, graph, asked),
        n <= deps.len(),
        forall|i: int| 0 <= i < n ==> asked((#[trigger] deps[i]).unit, deps[i].unit_for),
    ensures
        visit_deps(cx, s, deps, n, fuel) matches Run::Done(t) ==> (extends(t.graph, graph)
            ==> new_asked(cx, asked, s, t)),
    decreases fuel, 1nat, n,
{
    if n > 0 {
        let k = (n - 1) as nat;
        lemma_visit_deps_asked(cx, graph, asked, s, deps, k, fuel);
        if let Run::Done(t) = visit_deps(cx, s, deps, n, fuel) {
            if let Run::Done(m) = visit_deps(cx, s, deps, k, fuel) {
                let dep = deps[n - 1];
                lemma_visit_progress(cx, anything(), m, dep.unit, dep.unit_for, fuel);
                lemma_visit_asked(cx, graph, asked, m, dep.unit, dep.unit_for, fuel);
                if extends(t.graph, graph) {
                    lemma_both_asked(cx, asked, s, m, t);
                }
            }
        }
    }
}

/// What is new in two steps was asked for where what is new in each was.
pub proof fn lemma_both_asked(cx: Context, asked: Asked, s: Search, m: Search, t: Search)
    requires
        new_asked(cx, asked, s, m),
        new_asked(cx, asked, m, t),
        extends(m.graph, t.graph),
        m.dev.subset_of(t.dev),
    ensures
        new_asked(cx, asked, s, t),
{
    assert forall|v: UnitView| #[trigger]
        t.graph.contains_key(v) && !s.graph.contains_key(v) implies is_asked(cx, asked, t, v) by {
        if m.graph.contains_key(v) {
            lemma_stays_asked(cx, asked, m, t, v);
        }
    }
}

proof fn lemma_visit_scraped_asked(
    cx: Context,
    graph: Graph,
    asked: Asked,
    s: Search,
    n: nat,
    fuel: nat,
)
    requires
        scrapes_no_docs(cx),
        asks_on(cx, graph, asked),
        n <= cx.scrape_units@.len(),
        forall|i: int|
            0 <= i < n ==> asked(
                (#[trigger] cx.scrape_units@[i])@,
                scrape_unit_for(cx.scrape_units@[i]@),
            ),
    ensures
        visit_scraped(cx, s, n, fuel) matches Run::Done((t, deps)) ==> (extends(t.graph, graph)
            ==> new_asked(cx, asked, s, t)),
    decreases fuel, 1nat, n,
{
    if n > 0 {
        let k = (n - 1) as nat;
        lemma_visit_scraped_asked(cx, graph, asked, s, k, fuel);
        if let Run::Done((t, deps)) = visit_scraped(cx, s, n, fuel) {
            if let Run::Done((m, before)) = visit_scraped(cx, s, k, fuel) {
                let unit = cx.scrape_units@[n - 1]@;
                lemma_visit_progress(cx, anything(), m, unit, scrape_unit_for(unit), fuel);
                lemma_visit_asked(cx, graph, asked, m, unit, scrape_unit_for(unit), fuel);
                if extends(t.graph, graph) {
                    lemma_both_asked(cx, asked, s, m, t);
                }
            }
        }
    }
}

/// Visiting roots finds only what was asked for, for what it was asked for.
pub proof fn lemma_visited_roots_asked(
    cx: Context,
    graph: Graph,
    asked: Asked,
    s: Search,
    roots: Seq<UnitView>,
    n: nat,
)
    requires
        scrapes_no_docs(cx),
        asks_on(cx, graph, asked),
        n <= roots.len(),
        forall|i: int| 0 <= i < n ==> asked(#[trigger] roots[i], root_unit_for(cx, roots[i])),
    ensures
        visited_roots(cx, s, roots, n) matches Run::Done(t) ==> (extends(t.graph, graph)
            ==> new_asked(cx, asked, s, t)),
    decreases n,
{
    if n > 0 {
        let k = (n - 1) as nat;
        lemma_visited_roots_asked(cx, graph, asked, s, roots, k);
        if let Run::Done(t) = visited_roots(cx, s, roots, n) {
            if let Run::Done(m) = visited_roots(cx, s, roots, k) {
                let unit = roots[n - 1];
                let unit_for = root_unit_for(cx, unit);
                lemma_visited_progress(cx, anything(), m, unit, unit_for);
                let run = visit_within(cx, m, unit, unit_for);
                let fuel = choose|fuel: nat| !(#[trigger] run(fuel) is Unfinished);
                lemma_visit_asked(cx, graph, asked, m, unit, unit_for, fuel);
                if extends(t.graph, graph) {
                    lemma_both_asked(cx, asked, s, m, t);
                }
            }
        }
    }
}

} // verus!
