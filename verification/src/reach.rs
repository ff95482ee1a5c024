//! A search finds only what can be reached.

use crate::context::Context;
use crate::facts::{is_lowered, lemma_head_deps_facts, sound};
use crate::plan::{root_unit_for, scrape_unit_for};
use crate::profiles::UnitFor;
use crate::run::Run;
use crate::search::{
    expand, expanded, lemma_expanded, scrapes, visit, visit_deps, visit_scraped, visit_within,
    visited_roots, Search,
};
use crate::unit::{UnitDepView, UnitView};
use crate::unit_graph::Graph;
use crate::walk::{
    leads_on, lemma_visit_deps_progress, lemma_visit_progress, lemma_visit_scraped_progress,
    lemma_visited_progress, own_deps, settled, Asked,
};
use vstd::prelude::*;

verus! {

/// Everything is asked for.
pub open spec fn anything() -> Asked {
    |unit: UnitView, unit_for: UnitFor| true
}

/// All that is not documentation is asked for.
pub open spec fn no_docs() -> Asked {
    |unit: UnitView, unit_for: UnitFor| !unit.mode.is_doc()
}

/// What is not documentation does not lead to documentation.
pub proof fn lemma_no_docs(cx: Context)
    ensures
        leads_on(cx, no_docs()),
{
    let asked = no_docs();
    assert forall|unit: UnitView, unit_for: UnitFor, deps: Seq<UnitDepView>, i: int|
        #[trigger] asked(unit, unit_for) && own_deps(cx, unit, unit_for) == Run::Done(deps) && 0
            <= i < deps.len() implies asked((#[trigger] deps[i]).unit, deps[i].unit_for) by {
        lemma_head_deps_facts(cx, unit, unit_for);
        assert(sound(cx, unit, Run::Done(deps)));
        assert(is_lowered(cx, unit, deps[i]));
    }
}

/// The dependencies of what is not documentation are no documentation.
pub proof fn lemma_found_no_docs(cx: Context, s: Search, unit: UnitView, unit_for: UnitFor)
    requires
        !unit.mode.is_doc(),
    ensures
        expanded(cx, s, unit, unit_for) matches Run::Done((found, deps)) ==> forall|i: int|
            0 <= i < deps.len() ==> !(#[trigger] deps[i]).unit.mode.is_doc(),
{
    lemma_expanded(cx, s, unit, unit_for);
    if let Run::Done((found, deps)) = expanded(cx, s, unit, unit_for) {
        assert(own_deps(cx, unit, unit_for) == Run::Done(deps));
        lemma_no_docs(cx);
        assert forall|i: int| 0 <= i < deps.len() implies !(#[trigger] deps[i]).unit.mode.is_doc() by {
            assert(no_docs()(unit, unit_for));
            assert(no_docs()(deps[i].unit, deps[i].unit_for));
        }
    }
}

/// Whether no unit that is scraped for examples is documentation.
pub open spec fn scrapes_no_docs(cx: Context) -> bool {
    forall|i: int|
        0 <= i < cx.scrape_units@.len() ==> !(#[trigger] cx.scrape_units@[i])@.mode.is_doc()
}

/// Whether `graph` holds all that `part` holds.
pub open spec fn extends(part: Graph, graph: Graph) -> bool {
    forall|v: UnitView| #[trigger]
        part.contains_key(v) ==> graph.contains_key(v) && graph[v] == part[v]
}

/// Whether `p` holds of all that the units of the graph of which it holds depend
/// on or scrape.
pub open spec fn holds_on(cx: Context, graph: Graph, p: spec_fn(UnitView) -> bool) -> bool {
    &&& forall|u: UnitView, i: int|
        graph.contains_key(u) && p(u) && 0 <= i < graph[u].len() ==> p(
            (#[trigger] graph[u][i]).unit,
        )
    &&& forall|u: UnitView, i: int|
        #[trigger] graph.contains_key(u) && p(u) && scrapes(cx, u) && 0 <= i
            < cx.scrape_units@.len() ==> p((#[trigger] cx.scrape_units@[i])@)
}

/// Whether `p` holds of all that is new in `t`.
pub open spec fn new_hold(s: Search, t: Search, p: spec_fn(UnitView) -> bool) -> bool {
    forall|v: UnitView| #[trigger]
        t.graph.contains_key(v) && !s.graph.contains_key(v) ==> p(v)
}

proof fn lemma_visit_reach(
    cx: Context,
    graph: Graph,
    p: spec_fn(UnitView) -> bool,
    s: Search,
    unit: UnitView,
    unit_for: UnitFor,
    fuel: nat,
)
    requires
        scrapes_no_docs(cx),
        holds_on(cx, graph, p),
        p(unit),
    ensures
        visit(cx, s, unit, unit_for, fuel) matches Run::Done(t) ==> (extends(t.graph, graph)
            ==> new_hold(s, t, p)),
    decreases fuel, 0nat, 0nat,
{
    if let Run::Done(t) = visit(cx, s, unit, unit_for, fuel) {
        if !s.graph.contains_key(unit) && extends(t.graph, graph) {
            let n = (fuel - 1) as nat;
            if let Run::Done((found, deps)) = expand(cx, s, unit, unit_for, n) {
                let entered = found.insert(unit, deps);
                lemma_visit_deps_progress(cx, anything(), entered, deps, deps.len(), n);
                assert(entered.graph.contains_key(unit));
                assert(graph.contains_key(unit) && graph[unit] == deps);
                assert forall|i: int| 0 <= i < deps.len() implies p((#[trigger] deps[i]).unit) by {
                    assert(graph[unit][i] == deps[i]);
                }
                lemma_visit_deps_reach(cx, graph, p, entered, deps, deps.len(), n);
                if scrapes(cx, unit) {
                    lemma_scraped_no_docs(cx, s, n);
                    assert(!found.graph.contains_key(unit));
                    assert(extends(found.graph, graph)) by {
                        assert forall|v: UnitView| #[trigger]
                            found.graph.contains_key(v) implies graph.contains_key(v) && graph[v]
                            == found.graph[v] by {
                            assert(entered.graph.contains_key(v));
                        }
                    }
                    lemma_visit_scraped_reach(cx, graph, p, s, cx.scrape_units@.len(), n);
                }
                assert forall|v: UnitView| #[trigger]
                    t.graph.contains_key(v) && !s.graph.contains_key(v) implies p(v) by {
                    if entered.graph.contains_key(v) && v != unit {
                        assert(found.graph.contains_key(v));
                    }
                }
            }
        }
    }
}

/// Scraping for examples visits no documentation.
pub proof fn lemma_scraped_no_docs(cx: Context, s: Search, fuel: nat)
    requires
        scrapes_no_docs(cx),
    ensures
        visit_scraped(cx, s, cx.scrape_units@.len(), fuel) matches Run::Done((t, deps)) ==> forall|
            v: UnitView,
        | #[trigger]
            t.graph.contains_key(v) && !s.graph.contains_key(v) ==> !v.mode.is_doc(),
{
    lemma_no_docs(cx);
    lemma_visit_scraped_progress(cx, no_docs(), s, cx.scrape_units@.len(), fuel);
    if let Run::Done((t, deps)) = visit_scraped(cx, s, cx.scrape_units@.len(), fuel) {
        assert forall|v: UnitView| #[trigger]
            t.graph.contains_key(v) && !s.graph.contains_key(v) implies !v.mode.is_doc() by {
            assert(settled(cx, no_docs(), t, v));
        }
    }
}

proof fn lemma_visit_deps_reach(
    cx: Context,
    graph: Graph,
    p: spec_fn(UnitView) -> bool,
    s: Search,
    deps: Seq<UnitDepView>,
    n: nat,
    fuel: nat,
)
    requires
        scrapes_no_docs(cx),
        holds_on(cx, graph, p),
        n <= deps.len(),
        forall|i: int| 0 <= i < n ==> p((#[trigger] deps[i]).unit),
    ensures
        visit_deps(cx, s, deps, n, fuel) matches Run::Done(t) ==> (extends(t.graph, graph)
            ==> new_hold(s, t, p)),
    decreases fuel, 1nat, n,
{
    if n > 0 {
        let k = (n - 1) as nat;
        lemma_visit_deps_reach(cx, graph, p, s, deps, k, fuel);
        if let Run::Done(t) = visit_deps(cx, s, deps, n, fuel) {
            if let Run::Done(m) = visit_deps(cx, s, deps, k, fuel) {
                let dep = deps[n - 1];
                lemma_visit_progress(cx, anything(), m, dep.unit, dep.unit_for, fuel);
                lemma_visit_reach(cx, graph, p, m, dep.unit, dep.unit_for, fuel);
            }
        }
    }
}

proof fn lemma_visit_scraped_reach(
    cx: Context,
    graph: Graph,
    p: spec_fn(UnitView) -> bool,
    s: Search,
    n: nat,
    fuel: nat,
)
    requires
        scrapes_no_docs(cx),
        holds_on(cx, graph, p),
        n <= cx.scrape_units@.len(),
        forall|i: int| 0 <= i < n ==> p((#[trigger] cx.scrape_units@[i])@),
    ensures
        visit_scraped(cx, s, n, fuel) matches Run::Done((t, deps)) ==> (extends(t.graph, graph)
            ==> new_hold(s, t, p)),
    decreases fuel, 1nat, n,
{
    if n > 0 {
        let k = (n - 1) as nat;
        lemma_visit_scraped_reach(cx, graph, p, s, k, fuel);
        if let Run::Done((t, deps)) = visit_scraped(cx, s, n, fuel) {
            if let Run::Done((m, before)) = visit_scraped(cx, s, k, fuel) {
                let unit = cx.scrape_units@[n - 1]@;
                lemma_visit_progress(cx, anything(), m, unit, scrape_unit_for(unit), fuel);
                lemma_visit_reach(cx, graph, p, m, unit, scrape_unit_for(unit), fuel);
            }
        }
    }
}

/// Visiting roots finds only what can be reached from them.
pub proof fn lemma_visited_roots_reach(
    cx: Context,
    graph: Graph,
    p: spec_fn(UnitView) -> bool,
    s: Search,
    roots: Seq<UnitView>,
    n: nat,
)
    requires
        scrapes_no_docs(cx),
        holds_on(cx, graph, p),
        n <= roots.len(),
        forall|i: int| 0 <= i < n ==> p(#[trigger] roots[i]),
    ensures
        visited_roots(cx, s, roots, n) matches Run::Done(t) ==> (extends(t.graph, graph)
            ==> new_hold(s, t, p)),
    decreases n,
{
    if n > 0 {
        let k = (n - 1) as nat;
        lemma_visited_roots_reach(cx, graph, p, s, roots, k);
        if let Run::Done(t) = visited_roots(cx, s, roots, n) {
            if let Run::Done(m) = visited_roots(cx, s, roots, k) {
                let unit = roots[n - 1];
                let unit_for = root_unit_for(cx, unit);
                lemma_visited_progress(cx, anything(), m, unit, unit_for);
                let run = visit_within(cx, m, unit, unit_for);
                let fuel = choose|fuel: nat| !(#[trigger] run(fuel) is Unfinished);
                lemma_visit_reach(cx, graph, p, m, unit, unit_for, fuel);
            }
        }
    }
}

} // verus!
