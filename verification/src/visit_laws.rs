//! How units are visited, and what they are built for.

use crate::compile::CompileMode;
use crate::context::Context;
use crate::facts::{is_lowered, is_scraped, lemma_own_deps_facts};
use crate::graph_laws::{is_std_dep, lemma_list_follows, lemma_root_built_for, root_built_for};
use crate::laws::{
    asks_roots, attached_to, context_at, lemma_finished_dom, lemma_planned, lemma_planned_list,
    lemma_std_found, lemma_user_found, std_found, user_found,
};
use crate::layout::{is_unit_graph, planned, StdRoots};
use crate::leftover::{comes_to_scrape, deps_leave, scraped_leave, visit_leaves, visit_left};
use crate::members::lemma_own_members;
use crate::plan::{root_unit_for, scrape_unit_for};
use crate::profiles::UnitFor;
use crate::reach::anything;
use crate::run::Run;
use crate::search::{
    expand, expand_within, expanded, keeps, lemma_limit, lemma_steady, scrapes, steady, visit,
    visit_deps, visit_scraped, visit_within, visited, visited_roots, Search,
};
use crate::terms::follows;
use crate::unit::{unit_values, UnitDepView, UnitView};
use crate::unit_graph::Graph;
use crate::walk::{
    explained, is_compiled, leads_on, lemma_expand_deps, lemma_visit_deps_progress,
    lemma_visit_scraped_progress, lemma_visited_progress, own_deps, progress, settled, Asked,
};
use vstd::prelude::*;

verus! {

/// A visit records the dependencies of the unit for what it is asked for.
proof fn lemma_visit_records(
    cx: Context,
    s: Search,
    unit: UnitView,
    unit_for: UnitFor,
)
    ensures
        visited(cx, s, unit, unit_for) matches Run::Done(t) ==> {
            &&& s.graph.contains_key(unit) ==> t == s
            &&& !s.graph.contains_key(unit) ==> t.graph.contains_key(unit) && own_deps(
                cx,
                unit,
                unit_for,
            ) == Run::Done(t.graph[unit])
        },
{
    if let Run::Done(t) = visited(cx, s, unit, unit_for) {
        let run = visit_within(cx, s, unit, unit_for);
        let fuel = choose|fuel: nat| !(#[trigger] run(fuel) is Unfinished);
        assert(visit(cx, s, unit, unit_for, fuel) == Run::Done(t));
        if !s.graph.contains_key(unit) {
            let n = (fuel - 1) as nat;
            if let Run::Done((found, deps)) = expand(cx, s, unit, unit_for, n) {
                let entered = found.insert(unit, deps);
                lemma_visit_deps_progress(cx, anything(), entered, deps, deps.len(), n);
                lemma_expand_deps(cx, s, unit, unit_for, n);
                assert(entered.graph.contains_key(unit));
            }
        }
    }
}

/// Whether a list holds exactly what follows from manifests and tables for a unit that
/// is built for `unit_for`.
pub open spec fn lists_what_follows(
    cx: Context,
    u: UnitView,
    unit_for: UnitFor,
    list: Seq<UnitDepView>,
) -> bool {
    forall|d: UnitDepView| #[trigger]
        list.contains(d) <==> follows(cx, cx.is_std, u, unit_for, d)
}

proof fn lemma_lists_what_follows(
    cx: Context,
    u: UnitView,
    unit_for: UnitFor,
    list: Seq<UnitDepView>,
)
    requires
        own_deps(cx, u, unit_for) == Run::Done(list),
    ensures
        lists_what_follows(cx, u, unit_for, list),
{
    assert(cx.for_std(cx.is_std) == cx);
    assert forall|d: UnitDepView| #[trigger] list.contains(d) <==> follows(
        cx,
        cx.is_std,
        u,
        unit_for,
        d,
    ) by {
        lemma_own_members(cx, cx.is_std, u, unit_for, d);
    }
}

/// A unit is visited once, for what it is first asked for. If it has been visited,
/// nothing changes. Else its dependencies are recorded: those that follow from
/// manifests and tables, where it is built for that. What has been recorded before is
/// kept either way.
pub proof fn law_visited_once(
    cx: Context,
    s: Search,
    t: Search,
    unit: UnitView,
    unit_for: UnitFor,
)
    requires
        visited(cx, s, unit, unit_for) == Run::Done(t),
    ensures
        s.graph.contains_key(unit) ==> t == s,
        !s.graph.contains_key(unit) ==> t.graph.contains_key(unit) && lists_what_follows(
            cx,
            unit,
            unit_for,
            t.graph[unit],
        ),
        forall|v: UnitView| #[trigger]
            s.graph.contains_key(v) ==> t.graph.contains_key(v) && t.graph[v] == s.graph[v],
        forall|v: UnitView, i: int|
            t.graph.contains_key(v) && !s.graph.contains_key(v) && 0 <= i < t.graph[v].len()
                ==> t.graph.contains_key((#[trigger] t.graph[v][i]).unit),
{
    lemma_visited_progress(cx, anything(), s, unit, unit_for);
    lemma_visit_records(cx, s, unit, unit_for);
    if !s.graph.contains_key(unit) {
        lemma_lists_what_follows(cx, unit, unit_for, t.graph[unit]);
    }
    assert forall|v: UnitView, i: int|
        t.graph.contains_key(v) && !s.graph.contains_key(v) && 0 <= i
            < t.graph[v].len() implies t.graph.contains_key((#[trigger] t.graph[v][i]).unit) by {
        assert(settled(cx, anything(), t, v));
    }
}

/// What the first root depends on is found before all else.
proof fn lemma_first_root(
    cx: Context,
    s: Search,
    roots: Seq<UnitView>,
    n: nat,
)
    requires
        1 <= n <= roots.len(),
        s.graph == Graph::empty(),
    ensures
        visited_roots(cx, s, roots, n) matches Run::Done(t) ==> t.graph.contains_key(roots[0])
            && own_deps(cx, roots[0], root_unit_for(cx, roots[0])) == Run::Done(t.graph[roots[0]]),
    decreases n,
{
    if let Run::Done(t) = visited_roots(cx, s, roots, n) {
        let unit = roots[n - 1];
        if n == 1 {
            reveal_with_fuel(visited_roots, 2);
            lemma_visit_records(cx, s, unit, root_unit_for(cx, unit));
        } else {
            let k = (n - 1) as nat;
            lemma_first_root(cx, s, roots, k);
            if let Run::Done(m) = visited_roots(cx, s, roots, k) {
                lemma_visited_progress(cx, anything(), m, unit, root_unit_for(cx, unit));
            }
        }
    }
}

/// The first root is built for what a root is built for, and depends on what then
/// follows from manifests and tables, and on the crates of the standard library for
/// its platform.
pub proof fn law_first_root(
    cx: Context,
    roots: Seq<UnitView>,
    std_roots: Seq<StdRoots>,
    graph: Graph,
    unit_for: UnitFor,
    d: UnitDepView,
)
    requires
        is_unit_graph(cx, roots, std_roots, graph),
        roots.len() > 0,
        root_built_for(cx, roots[0], unit_for),
        roots[0].mode != CompileMode::RunCustomBuild || d.unit.mode != CompileMode::RunCustomBuild,
    ensures
        graph.contains_key(roots[0]),
        graph[roots[0]].contains(d) <==> follows(cx, false, roots[0], unit_for, d) || is_std_dep(
            std_roots,
            roots[0],
            d,
        ),
{
    let u = roots[0];
    let here = cx.for_std(false);
    let found = planned(cx, roots, std_roots)->Done_0;
    lemma_finished_dom(cx, found, graph);
    lemma_planned(cx, roots, std_roots);
    let user = user_found(cx, roots, std_roots)->Done_0;
    let std = std_found(cx, std_roots)->Done_0;
    let start = Search { graph: Graph::empty(), dev: std.dev };
    lemma_first_root(here, start, roots, roots.len());
    lemma_root_built_for(cx, u, unit_for);
    assert(root_unit_for(here, u) == unit_for);
    assert(found.graph.contains_key(u));
    lemma_planned_list(cx, roots, std_roots, found, u);
    assert(found.graph[u] == user.graph[u] + attached_to(cx, roots, std_roots, u));
    lemma_list_follows(cx, roots, std_roots, found, graph, u, unit_for);
}

spec fn of_part(is_std: bool) -> Asked {
    |u: UnitView, unit_for: UnitFor| u.is_std == is_std && (is_std ==> !u.mode.is_doc())
}

proof fn lemma_part_leads_on(cx: Context)
    requires
        !cx.is_std ==> forall|i: int|
            0 <= i < cx.scrape_units@.len() ==> !(#[trigger] cx.scrape_units@[i])@.is_std,
    ensures
        leads_on(cx, of_part(cx.is_std)),
{
    let asked = of_part(cx.is_std);
    assert forall|u: UnitView, unit_for: UnitFor, deps: Seq<UnitDepView>, i: int|
        #[trigger] asked(u, unit_for) && own_deps(cx, u, unit_for) == Run::Done(deps) && 0 <= i
            < deps.len() implies asked((#[trigger] deps[i]).unit, deps[i].unit_for) by {
        lemma_own_deps_facts(cx, u, unit_for);
        assert(is_lowered(cx, u, deps[i]) || is_scraped(cx, u, deps[i]));
    }
}

/// Units tell which part of the graph they belong to: where roots and what is scraped
/// are marked as the user's, and the crates of the standard library as its own, and
/// these are not documentation, the units of the standard library are those that are
/// marked so.
pub proof fn law_parts_marked(
    cx: Context,
    roots: Seq<UnitView>,
    std_roots: Seq<StdRoots>,
    graph: Graph,
    u: UnitView,
)
    requires
        is_unit_graph(cx, roots, std_roots, graph),
        forall|i: int| 0 <= i < roots.len() ==> !(#[trigger] roots[i]).is_std,
        forall|i: int|
            0 <= i < cx.scrape_units@.len() ==> !(#[trigger] cx.scrape_units@[i])@.is_std,
        forall|k: int, i: int|
            0 <= k < std_roots.len() && 0 <= i < std_roots[k].units@.len() ==> (
            #[trigger] std_roots[k].units@[i])@.is_std && !(std_roots[k].units@[i]@.mode is Doc),
        graph.contains_key(u),
    ensures
        context_at(cx, roots, std_roots, u).is_std == u.is_std,
{
    let found = planned(cx, roots, std_roots)->Done_0;
    lemma_finished_dom(cx, found, graph);
    lemma_planned(cx, roots, std_roots);
    lemma_planned_list(cx, roots, std_roots, found, u);
    let (user_cx, std_cx) = (cx.for_std(false), cx.for_std(true));
    lemma_part_leads_on(user_cx);
    lemma_part_leads_on(std_cx);
    assert(asks_roots(user_cx, of_part(false), roots));
    lemma_user_found(cx, of_part(false), roots, std_roots);
    assert forall|k: int| 0 <= k < std_roots.len() implies asks_roots(
        std_cx,
        of_part(true),
        unit_values((#[trigger] std_roots[k]).units@),
    ) by {
        let units = unit_values(std_roots[k].units@);
        assert forall|i: int| 0 <= i < units.len() implies #[trigger] units[i].is_std
            && !units[i].mode.is_doc() by {
            assert(std_roots[k].units@[i]@.is_std);
        }
    }
    lemma_std_found(cx, of_part(true), std_roots);
    let user = user_found(cx, roots, std_roots)->Done_0;
    let std = std_found(cx, std_roots)->Done_0;
    if user.graph.contains_key(u) {
        assert(settled(user_cx, of_part(false), user, u));
    } else {
        assert(settled(std_cx, of_part(true), std, u));
    }
}

/// Whether the recorded dependencies of a unit are those that it has when it is built
/// for something.
spec fn rightly_recorded(cx: Context, t: Search, v: UnitView) -> bool {
    exists|f: UnitFor| #[trigger] own_deps(cx, v, f) == Run::Done(t.graph[v])
}

/// Whether a search leaves nothing wrong behind: what was recorded is kept, and what is
/// new is right.
spec fn leaves_right(cx: Context, s: Search, t: Search) -> bool {
    &&& keeps(s, t)
    &&& forall|v: UnitView| #[trigger]
        t.graph.contains_key(v) && !s.graph.contains_key(v) ==> rightly_recorded(cx, t, v)
}

proof fn lemma_leaves_joined(cx: Context, s: Search, m: Search, t: Search)
    requires
        leaves_right(cx, s, m),
        leaves_right(cx, m, t),
    ensures
        leaves_right(cx, s, t),
{
    assert forall|v: UnitView| #[trigger]
        t.graph.contains_key(v) && !s.graph.contains_key(v) implies rightly_recorded(
        cx,
        t,
        v,
    ) by {
        if m.graph.contains_key(v) {
            let f = choose|f: UnitFor| #[trigger] own_deps(cx, v, f) == Run::Done(m.graph[v]);
            assert(own_deps(cx, v, f) == Run::Done(t.graph[v]));
        }
    }
}

proof fn lemma_progress_leaves(cx: Context, s: Search, t: Search)
    requires
        progress(cx, anything(), s, t),
    ensures
        leaves_right(cx, s, t),
{
    assert forall|v: UnitView| #[trigger]
        t.graph.contains_key(v) && !s.graph.contains_key(v) implies rightly_recorded(
        cx,
        t,
        v,
    ) by {
        assert(settled(cx, anything(), t, v));
        let f = choose|f: UnitFor| anything()(v, f) && #[trigger] explained(cx, t, v, f);
        assert(own_deps(cx, v, f) == Run::Done(t.graph[v]));
    }
}

/// What has been found when a unit is entered is right.
proof fn lemma_entered(
    cx: Context,
    s: Search,
    unit: UnitView,
    unit_for: UnitFor,
    fuel: nat,
)
    requires
        !s.graph.contains_key(unit),
    ensures
        expand(cx, s, unit, unit_for, fuel) matches Run::Done((found, deps)) ==> leaves_right(
            cx,
            s,
            found.insert(unit, deps),
        ),
{
    if let Run::Done((found, deps)) = expand(cx, s, unit, unit_for, fuel) {
        let entered = found.insert(unit, deps);
        lemma_expand_deps(cx, s, unit, unit_for, fuel);
        if scrapes(cx, unit) {
            lemma_visit_scraped_progress(cx, anything(), s, cx.scrape_units@.len(), fuel);
            lemma_progress_leaves(cx, s, found);
        }
        assert forall|v: UnitView| #[trigger]
            entered.graph.contains_key(v) && !s.graph.contains_key(v) implies rightly_recorded(
            cx,
            entered,
            v,
        ) by {
            if v == unit {
                assert(own_deps(cx, v, unit_for) == Run::Done(entered.graph[v]));
            } else {
                assert(found.graph.contains_key(v));
                let f = choose|f: UnitFor| #[trigger]
                    own_deps(cx, v, f) == Run::Done(found.graph[v]);
                assert(own_deps(cx, v, f) == Run::Done(entered.graph[v]));
            }
        }
    }
}

proof fn lemma_visit_leaves_right(
    cx: Context,
    s: Search,
    unit: UnitView,
    unit_for: UnitFor,
    fuel: nat,
)
    ensures
        leaves_right(cx, s, visit_leaves(cx, s, unit, unit_for, fuel)),
    decreases fuel, 0nat, 0nat,
{
    if !s.graph.contains_key(unit) && fuel > 0 {
        let n = (fuel - 1) as nat;
        match expand(cx, s, unit, unit_for, n) {
            Run::Done((found, deps)) => {
                let entered = found.insert(unit, deps);
                lemma_entered(cx, s, unit, unit_for, n);
                lemma_deps_leave_right(cx, entered, deps, deps.len(), n);
                lemma_leaves_joined(
                    cx,
                    s,
                    entered,
                    deps_leave(cx, entered, deps, deps.len(), n),
                );
            },
            _ => {
                if comes_to_scrape(cx, unit, unit_for) && !is_compiled(unit) {
                    lemma_scraped_leave_right(cx, s, cx.scrape_units@.len(), n);
                }
            },
        }
    }
}

proof fn lemma_deps_leave_right(
    cx: Context,
    s: Search,
    deps: Seq<UnitDepView>,
    n: nat,
    fuel: nat,
)
    requires
        n <= deps.len(),
    ensures
        leaves_right(cx, s, deps_leave(cx, s, deps, n, fuel)),
    decreases fuel, 1nat, n,
{
    if n > 0 {
        let k = (n - 1) as nat;
        match visit_deps(cx, s, deps, k, fuel) {
            Run::Done(t) => {
                let dep = deps[n - 1];
                lemma_visit_deps_progress(cx, anything(), s, deps, k, fuel);
                lemma_progress_leaves(cx, s, t);
                lemma_visit_leaves_right(cx, t, dep.unit, dep.unit_for, fuel);
                lemma_leaves_joined(
                    cx,
                    s,
                    t,
                    visit_leaves(cx, t, dep.unit, dep.unit_for, fuel),
                );
            },
            _ => {
                lemma_deps_leave_right(cx, s, deps, k, fuel);
            },
        }
    }
}

proof fn lemma_scraped_leave_right(cx: Context, s: Search, n: nat, fuel: nat)
    requires
        n <= cx.scrape_units@.len(),
    ensures
        leaves_right(cx, s, scraped_leave(cx, s, n, fuel)),
    decreases fuel, 1nat, n,
{
    if n > 0 {
        let k = (n - 1) as nat;
        match visit_scraped(cx, s, k, fuel) {
            Run::Done((t, deps)) => {
                let unit = cx.scrape_units@[n - 1]@;
                let f = scrape_unit_for(unit);
                lemma_visit_scraped_progress(cx, anything(), s, k, fuel);
                lemma_progress_leaves(cx, s, t);
                lemma_visit_leaves_right(cx, t, unit, f, fuel);
                lemma_leaves_joined(cx, s, t, visit_leaves(cx, t, unit, f, fuel));
            },
            _ => {
                lemma_scraped_leave_right(cx, s, k, fuel);
            },
        }
    }
}

/// A search that fails leaves nothing wrong behind. What was recorded is kept, and
/// every unit that is new has the dependencies that follow from manifests and tables.
/// That holds of the unit itself too, for what it was asked for, if its own
/// dependencies were found before the search failed.
pub proof fn law_left_behind(cx: Context, s: Search, unit: UnitView, unit_for: UnitFor, v: UnitView)
    requires
        !(visited(cx, s, unit, unit_for) is Unfinished),
    ensures
        ({
            let left = visit_left(cx, s, unit, unit_for);
            &&& s.graph.contains_key(v) ==> left.graph.contains_key(v) && left.graph[v]
                == s.graph[v]
            &&& s.dev.subset_of(left.dev)
            &&& left.graph.contains_key(v) && !s.graph.contains_key(v) ==> exists|f: UnitFor|
                #[trigger] lists_what_follows(cx, v, f, left.graph[v])
            &&& !s.graph.contains_key(unit) && expanded(cx, s, unit, unit_for) is Done
                ==> left.graph.contains_key(unit) && lists_what_follows(
                cx,
                unit,
                unit_for,
                left.graph[unit],
            )
        }),
{
    let left = visit_left(cx, s, unit, unit_for);
    let run = visit_within(cx, s, unit, unit_for);
    let fuel = choose|fuel: nat| !(#[trigger] run(fuel) is Unfinished);
    assert(left == visit_leaves(cx, s, unit, unit_for, fuel));
    lemma_visit_leaves_right(cx, s, unit, unit_for, fuel);
    if left.graph.contains_key(v) && !s.graph.contains_key(v) {
        let f = choose|f: UnitFor| #[trigger] own_deps(cx, v, f) == Run::Done(left.graph[v]);
        lemma_lists_what_follows(cx, v, f, left.graph[v]);
    }
    if !s.graph.contains_key(unit) && expanded(cx, s, unit, unit_for) is Done {
        let n = (fuel - 1) as nat;
        let part = expand_within(cx, s, unit, unit_for);
        lemma_steady(cx);
        assert(steady(part));
        assert(run(fuel) == visit(cx, s, unit, unit_for, fuel));
        assert(!(part(n) is Unfinished));
        lemma_limit(part, n);
        if let Run::Done((found, deps)) = expand(cx, s, unit, unit_for, n) {
            let entered = found.insert(unit, deps);
            lemma_expand_deps(cx, s, unit, unit_for, n);
            lemma_deps_leave_right(cx, entered, deps, deps.len(), n);
            assert(entered.graph.contains_key(unit));
            assert(left.graph[unit] == deps);
            lemma_lists_what_follows(cx, unit, unit_for, deps);
        }
    }
}

} // verus!
