//! A search leaves nothing undone.

use crate::context::Context;
use crate::errors::Misuse;
use crate::plan::{
    compile_deps, dev_edges, doc_deps, root_unit_for, run_script_deps, scrape_dep, scrape_unit_for,
};
use crate::profiles::UnitFor;
use crate::run::{append, single, Run};
use crate::search::{
    expand, scrapes, visit, visit_deps, visit_scraped, visit_within, visited, visited_roots, Search,
};
use crate::unit::{UnitDepView, UnitView};
use vstd::prelude::*;

verus! {

/// The dependencies of a unit, without units that are scraped for examples.
pub open spec fn head_deps(cx: Context, unit: UnitView, unit_for: UnitFor) -> Run<
    Seq<UnitDepView>,
> {
    if unit.mode.is_run_custom_build() {
        run_script_deps(cx, unit, unit_for)
    } else if !cx.has_resolve() {
        Run::Stuck(Misuse::NoStdResolve)
    } else if unit.mode.is_doc() {
        doc_deps(cx, unit, unit_for)
    } else {
        compile_deps(cx, unit, unit_for)
    }
}

/// The dependencies on the first `n` units that are scraped for examples.
pub open spec fn scrape_deps(cx: Context, n: nat) -> Run<Seq<UnitDepView>>
    decreases n,
{
    if n == 0 {
        Run::Done(Seq::empty())
    } else {
        append(
            scrape_deps(cx, (n - 1) as nat),
            single(scrape_dep(cx, cx.scrape_units@[n - 1]@)),
        )
    }
}

/// The dependencies of a unit that is built for `unit_for`.
pub open spec fn own_deps(cx: Context, unit: UnitView, unit_for: UnitFor) -> Run<
    Seq<UnitDepView>,
> {
    if scrapes(cx, unit) {
        append(head_deps(cx, unit, unit_for), scrape_deps(cx, cx.scrape_units@.len()))
    } else {
        head_deps(cx, unit, unit_for)
    }
}

/// Whether a unit is compiled, as opposed to documented or run.
pub open spec fn is_compiled(unit: UnitView) -> bool {
    !unit.mode.is_run_custom_build() && !unit.mode.is_doc()
}

/// Whether the recorded dependencies of a unit are those that it has when it is
/// built for `unit_for`, dev-dependencies marked.
pub open spec fn explained(cx: Context, s: Search, unit: UnitView, unit_for: UnitFor) -> bool {
    &&& own_deps(cx, unit, unit_for) == Run::Done(s.graph[unit])
    &&& is_compiled(unit) ==> dev_edges(cx, unit, unit_for).subset_of(s.dev)
}

/// Whether all units that are scraped for examples have been visited.
pub open spec fn scraped_visited(cx: Context, s: Search) -> bool {
    forall|i: int|
        0 <= i < cx.scrape_units@.len() ==> s.graph.contains_key(
            (#[trigger] cx.scrape_units@[i])@,
        )
}

/// Whether the units of all these dependencies have been visited.
pub open spec fn deps_visited(s: Search, deps: Seq<UnitDepView>) -> bool {
    forall|i: int| 0 <= i < deps.len() ==> s.graph.contains_key((#[trigger] deps[i]).unit)
}

/// Tells which units are asked for, and for what they are to be built.
pub type Asked = spec_fn(UnitView, UnitFor) -> bool;

/// Whether all that is asked for asks in turn for its dependencies and, where it
/// scrapes examples, for the units that are scraped.
pub open spec fn leads_on(cx: Context, asked: Asked) -> bool {
    &&& forall|unit: UnitView, unit_for: UnitFor, deps: Seq<UnitDepView>, i: int|
        #[trigger] asked(unit, unit_for) && own_deps(cx, unit, unit_for) == Run::Done(deps) && 0
            <= i < deps.len() ==> asked((#[trigger] deps[i]).unit, deps[i].unit_for)
    &&& forall|unit: UnitView, unit_for: UnitFor, i: int|
        #[trigger] asked(unit, unit_for) && scrapes(cx, unit) && 0 <= i < cx.scrape_units@.len()
            ==> asked(
            (#[trigger] cx.scrape_units@[i])@,
            scrape_unit_for(cx.scrape_units@[i]@),
        )
}

/// Whether nothing is left to do for a visited unit: its dependencies are right
/// for what it was asked for, and they have been visited.
pub open spec fn settled(cx: Context, asked: Asked, s: Search, unit: UnitView) -> bool {
    &&& deps_visited(s, s.graph[unit])
    &&& scrapes(cx, unit) ==> scraped_visited(cx, s)
    &&& exists|unit_for: UnitFor|
        asked(unit, unit_for) && #[trigger] explained(cx, s, unit, unit_for)
}

/// Whether an edge is due to dev-dependencies of a unit that has been visited.
pub open spec fn dev_edge_explained(cx: Context, s: Search, edge: (UnitView, UnitView)) -> bool {
    &&& s.graph.contains_key(edge.0)
    &&& is_compiled(edge.0)
    &&& exists|unit_for: UnitFor| #[trigger] dev_edges(cx, edge.0, unit_for).contains(edge)
}

/// Whether a search goes on from `s` to `t` without leaving anything undone:
/// what was recorded stays, and every unit that is new is settled.
pub open spec fn progress(cx: Context, asked: Asked, s: Search, t: Search) -> bool {
    &&& forall|v: UnitView| #[trigger]
        s.graph.contains_key(v) ==> t.graph.contains_key(v) && t.graph[v] == s.graph[v]
    &&& s.dev.subset_of(t.dev)
    &&& forall|v: UnitView| #[trigger]
        t.graph.contains_key(v) && !s.graph.contains_key(v) ==> settled(cx, asked, t, v)
    &&& forall|e: (UnitView, UnitView)| #[trigger]
        t.dev.contains(e) && !s.dev.contains(e) ==> dev_edge_explained(cx, t, e)
}

pub proof fn lemma_progress_none(cx: Context, asked: Asked, s: Search)
    ensures
        progress(cx, asked, s, s),
{
}

/// What is settled stays so when more is recorded.
proof fn lemma_stays_settled(cx: Context, asked: Asked, s: Search, t: Search, v: UnitView)
    requires
        s.graph.contains_key(v),
        settled(cx, asked, s, v),
        t.graph[v] == s.graph[v],
        s.dev.subset_of(t.dev),
        forall|w: UnitView| #[trigger] s.graph.contains_key(w) ==> t.graph.contains_key(w),
    ensures
        settled(cx, asked, t, v),
{
    let unit_for = choose|unit_for: UnitFor|
        asked(v, unit_for) && #[trigger] explained(cx, s, v, unit_for);
    assert(explained(cx, t, v, unit_for));
}

pub proof fn lemma_progress_joined(cx: Context, asked: Asked, s: Search, t: Search, w: Search)
    requires
        progress(cx, asked, s, t),
        progress(cx, asked, t, w),
    ensures
        progress(cx, asked, s, w),
{
    assert forall|v: UnitView| #[trigger]
        w.graph.contains_key(v) && !s.graph.contains_key(v) implies settled(cx, asked, w, v) by {
        if t.graph.contains_key(v) {
            lemma_stays_settled(cx, asked, t, w, v);
        }
    }
    assert forall|e: (UnitView, UnitView)| #[trigger]
        w.dev.contains(e) && !s.dev.contains(e) implies dev_edge_explained(cx, w, e) by {
        if t.dev.contains(e) {
            assert(dev_edge_explained(cx, t, e));
        }
    }
}

/// A visit that ends with a result has visited the unit and left nothing
/// undone.
pub proof fn lemma_visit_progress(
    cx: Context,
    asked: Asked,
    s: Search,
    unit: UnitView,
    unit_for: UnitFor,
    fuel: nat,
)
    requires
        leads_on(cx, asked),
        asked(unit, unit_for),
    ensures
        visit(cx, s, unit, unit_for, fuel) matches Run::Done(t) ==> progress(cx, asked, s, t)
            && t.graph.contains_key(unit),
    decreases fuel, 0nat, 0nat,
{
    if let Run::Done(t) = visit(cx, s, unit, unit_for, fuel) {
        if s.graph.contains_key(unit) {
            lemma_progress_none(cx, asked, s);
        } else {
            let n = (fuel - 1) as nat;
            lemma_expand_progress(cx, asked, s, unit, unit_for, n);
            if let Run::Done((found, deps)) = expand(cx, s, unit, unit_for, n) {
                let entered = found.insert(unit, deps);
                lemma_visit_deps_progress(cx, asked, entered, deps, deps.len(), n);
                assert(entered.graph.contains_key(unit));
                assert(t.graph.contains_key(unit) && t.graph[unit] == deps);
                assert(explained(cx, t, unit, unit_for)) by {
                    assert(found.dev.subset_of(t.dev));
                }
                assert(deps.take(deps.len() as int) =~= deps);
                assert(deps_visited(t, deps));
                assert(scrapes(cx, unit) ==> scraped_visited(cx, t)) by {
                    if scrapes(cx, unit) {
                        assert forall|i: int|
                            0 <= i < cx.scrape_units@.len() implies t.graph.contains_key(
                            (#[trigger] cx.scrape_units@[i])@,
                        ) by {
                            assert(found.graph.contains_key(cx.scrape_units@[i]@));
                            assert(entered.graph.contains_key(cx.scrape_units@[i]@));
                        }
                    }
                }
                assert(settled(cx, asked, t, unit));
                assert forall|v: UnitView| #[trigger] s.graph.contains_key(v) implies
                    t.graph.contains_key(v) && t.graph[v] == s.graph[v] by {
                    assert(entered.graph.contains_key(v));
                }
                assert forall|v: UnitView| #[trigger]
                    t.graph.contains_key(v) && !s.graph.contains_key(v) implies settled(
                    cx,
                    asked,
                    t,
                    v,
                ) by {
                    if v != unit && found.graph.contains_key(v) {
                        assert(entered.graph.contains_key(v));
                        assert forall|w: UnitView| #[trigger]
                            found.graph.contains_key(w) implies t.graph.contains_key(w) by {
                            assert(entered.graph.contains_key(w));
                        }
                        lemma_stays_settled(cx, asked, found, t, v);
                    } else if v != unit {
                        assert(!entered.graph.contains_key(v));
                    }
                }
                assert forall|e: (UnitView, UnitView)| #[trigger]
                    t.dev.contains(e) && !s.dev.contains(e) implies dev_edge_explained(
                    cx,
                    t,
                    e,
                ) by {
                    if found.dev.contains(e) {
                        if e.0 == unit && is_compiled(unit) && dev_edges(
                            cx,
                            unit,
                            unit_for,
                        ).contains(e) {
                            assert(dev_edge_explained(cx, t, e));
                        } else {
                            assert(dev_edge_explained(cx, found, e));
                            assert(entered.graph.contains_key(e.0));
                        }
                    } else {
                        assert(!entered.dev.contains(e));
                    }
                }
            }
        }
    }
}

pub proof fn lemma_visit_deps_progress(
    cx: Context,
    asked: Asked,
    s: Search,
    deps: Seq<UnitDepView>,
    n: nat,
    fuel: nat,
)
    requires
        leads_on(cx, asked),
        n <= deps.len(),
        forall|i: int|
            0 <= i < n ==> asked((#[trigger] deps[i]).unit, deps[i].unit_for),
    ensures
        visit_deps(cx, s, deps, n, fuel) matches Run::Done(t) ==> progress(cx, asked, s, t)
            && deps_visited(t, deps.take(n as int)),
    decreases fuel, 1nat, n,
{
    if n == 0 {
        lemma_progress_none(cx, asked, s);
    } else if let Run::Done(t) = visit_deps(cx, s, deps, n, fuel) {
        let k = (n - 1) as nat;
        lemma_visit_deps_progress(cx, asked, s, deps, k, fuel);
        if let Run::Done(m) = visit_deps(cx, s, deps, k, fuel) {
            lemma_visit_progress(cx, asked, m, deps[n - 1].unit, deps[n - 1].unit_for, fuel);
            lemma_progress_joined(cx, asked, s, m, t);
            assert forall|i: int| 0 <= i < n implies t.graph.contains_key(
                (#[trigger] deps.take(n as int)[i]).unit,
            ) by {
                if i < k {
                    assert(deps.take(k as int)[i] == deps[i]);
                    assert(m.graph.contains_key(deps.take(k as int)[i].unit));
                }
            }
        }
    }
}

pub proof fn lemma_visit_scraped_progress(cx: Context, asked: Asked, s: Search, n: nat, fuel: nat)
    requires
        leads_on(cx, asked),
        n <= cx.scrape_units@.len(),
        forall|i: int|
            0 <= i < n ==> asked(
                (#[trigger] cx.scrape_units@[i])@,
                scrape_unit_for(cx.scrape_units@[i]@),
            ),
    ensures
        visit_scraped(cx, s, n, fuel) matches Run::Done((t, deps)) ==> {
            &&& progress(cx, asked, s, t)
            &&& forall|i: int|
                0 <= i < n ==> t.graph.contains_key((#[trigger] cx.scrape_units@[i])@)
        },
    decreases fuel, 1nat, n,
{
    if n == 0 {
        lemma_progress_none(cx, asked, s);
    } else if let Run::Done((t, deps)) = visit_scraped(cx, s, n, fuel) {
        let k = (n - 1) as nat;
        lemma_visit_scraped_progress(cx, asked, s, k, fuel);
        if let Run::Done((m, before)) = visit_scraped(cx, s, k, fuel) {
            let unit = cx.scrape_units@[n - 1]@;
            assert(asked(unit, scrape_unit_for(unit)));
            lemma_visit_progress(cx, asked, m, unit, scrape_unit_for(unit), fuel);
            lemma_progress_joined(cx, asked, s, m, t);
        }
    }
}

proof fn lemma_visit_scraped_deps(cx: Context, s: Search, n: nat, fuel: nat)
    ensures
        visit_scraped(cx, s, n, fuel) matches Run::Done((t, deps)) ==> scrape_deps(cx, n)
            == Run::Done(deps),
    decreases n,
{
    if n > 0 {
        lemma_visit_scraped_deps(cx, s, (n - 1) as nat, fuel);
        if let Run::Done((t, before)) = visit_scraped(cx, s, (n - 1) as nat, fuel) {
            if let Run::Done(dep) = scrape_dep(cx, cx.scrape_units@[n - 1]@) {
                assert(before.push(dep) =~= before + seq![dep]);
            }
        }
    }
}

/// The dependencies that are found are those of the unit, whatever has been
/// visited before.
pub proof fn lemma_expand_deps(cx: Context, s: Search, unit: UnitView, unit_for: UnitFor, fuel: nat)
    ensures
        expand(cx, s, unit, unit_for, fuel) matches Run::Done((found, deps)) ==> own_deps(
            cx,
            unit,
            unit_for,
        ) == Run::Done(deps),
{
    lemma_visit_scraped_deps(cx, s, cx.scrape_units@.len(), fuel);
}

/// Finding the dependencies of a unit leaves nothing undone but to record and
/// visit them.
proof fn lemma_expand_progress(
    cx: Context,
    asked: Asked,
    s: Search,
    unit: UnitView,
    unit_for: UnitFor,
    fuel: nat,
)
    requires
        leads_on(cx, asked),
        asked(unit, unit_for),
    ensures
        expand(cx, s, unit, unit_for, fuel) matches Run::Done((found, deps)) ==> {
            &&& own_deps(cx, unit, unit_for) == Run::Done(deps)
            &&& forall|v: UnitView| #[trigger]
                s.graph.contains_key(v) ==> found.graph.contains_key(v) && found.graph[v]
                    == s.graph[v]
            &&& s.dev.subset_of(found.dev)
            &&& is_compiled(unit) ==> dev_edges(cx, unit, unit_for).subset_of(found.dev)
            &&& scrapes(cx, unit) ==> scraped_visited(cx, found)
            &&& forall|v: UnitView| #[trigger]
                found.graph.contains_key(v) && !s.graph.contains_key(v) ==> settled(
                    cx,
                    asked,
                    found,
                    v,
                )
            &&& forall|e: (UnitView, UnitView)| #[trigger]
                found.dev.contains(e) && !s.dev.contains(e) ==> {
                    ||| is_compiled(unit) && e.0 == unit && dev_edges(
                        cx,
                        unit,
                        unit_for,
                    ).contains(e)
                    ||| dev_edge_explained(cx, found, e)
                }
        },
    decreases fuel, 2nat, 0nat,
{
    lemma_expand_deps(cx, s, unit, unit_for, fuel);
    if !unit.mode.is_run_custom_build() && cx.has_resolve() && scrapes(cx, unit) {
        lemma_visit_scraped_progress(cx, asked, s, cx.scrape_units@.len(), fuel);
    }
}

/// A visit that comes to a result has visited the unit and left nothing undone.
pub proof fn lemma_visited_progress(
    cx: Context,
    asked: Asked,
    s: Search,
    unit: UnitView,
    unit_for: UnitFor,
)
    requires
        leads_on(cx, asked),
        asked(unit, unit_for),
    ensures
        visited(cx, s, unit, unit_for) matches Run::Done(t) ==> progress(cx, asked, s, t)
            && t.graph.contains_key(unit),
{
    let run = visit_within(cx, s, unit, unit_for);
    if exists|n: nat| !(#[trigger] run(n) is Unfinished) {
        let n = choose|n: nat| !(#[trigger] run(n) is Unfinished);
        lemma_visit_progress(cx, asked, s, unit, unit_for, n);
    }
}

/// Visiting roots that comes to a result has visited all of them and left
/// nothing undone.
pub proof fn lemma_visited_roots_progress(
    cx: Context,
    asked: Asked,
    s: Search,
    roots: Seq<UnitView>,
    n: nat,
)
    requires
        leads_on(cx, asked),
        n <= roots.len(),
        forall|i: int|
            0 <= i < n ==> asked(#[trigger] roots[i], root_unit_for(cx, roots[i])),
    ensures
        visited_roots(cx, s, roots, n) matches Run::Done(t) ==> {
            &&& progress(cx, asked, s, t)
            &&& forall|i: int| 0 <= i < n ==> t.graph.contains_key(#[trigger] roots[i])
        },
    decreases n,
{
    if n == 0 {
        lemma_progress_none(cx, asked, s);
    } else if let Run::Done(t) = visited_roots(cx, s, roots, n) {
        let k = (n - 1) as nat;
        lemma_visited_roots_progress(cx, asked, s, roots, k);
        if let Run::Done(m) = visited_roots(cx, s, roots, k) {
            lemma_visited_progress(cx, asked, m, roots[n - 1], root_unit_for(cx, roots[n - 1]));
            lemma_progress_joined(cx, asked, s, m, t);
        }
    }
}

} // verus!
