//! What holds of the graph of every build.

use crate::context::Context;
use crate::dep_order::{dep_le, lemma_dep_order, lemma_package_order};
use crate::facts::{is_lowered, is_scraped, lemma_own_deps_facts};
use crate::layout::{
    additions, connected, disjoint, finished, is_unit_graph, linked_sibling, lists_additions,
    planned, runs_script, script_run, sibling_script, some_want_std, sorted_graph, std_dep,
    std_deps_for, std_roots_of, std_units, visited_std, wants_std, with_std_roots, StdRoots,
};
use crate::links::{clash, links_error};
use crate::lookup::lemma_first_where;
use crate::plan::{dev_edges, root_unit_for, run_overridden};
use crate::profiles::UnitFor;
use crate::reach::{
    anything, extends, holds_on, lemma_visited_roots_reach, new_hold, scrapes_no_docs,
};
use crate::run::Run;
use crate::search::{scrapes, visited_roots, Search};
use crate::unit::{unit_values, UnitDepView, UnitView};
use crate::unit_graph::Graph;
use crate::walk::{
    dev_edge_explained, explained, is_compiled, leads_on, lemma_progress_joined,
    lemma_progress_none, lemma_visited_roots_progress, own_deps, progress, settled, Asked,
};
use vstd::prelude::*;
use vstd::relations::sorted_by;

verus! {

/// What is found for the standard library.
pub open spec fn std_found(cx: Context, std_roots: Seq<StdRoots>) -> Run<Search> {
    visited_std(cx.for_std(true), Search::empty(), std_roots, std_roots.len())
}

/// What is found for the roots, before the standard library is attached.
pub open spec fn user_found(cx: Context, roots: Seq<UnitView>, std_roots: Seq<StdRoots>) -> Run<
    Search,
> {
    match std_found(cx, std_roots) {
        Run::Done(std) => visited_roots(
            cx.for_std(false),
            Search { graph: Graph::empty(), dev: std.dev },
            roots,
            roots.len(),
        ),
        run => run,
    }
}

/// The context of the part of the graph that a unit belongs to: the user's, or
/// that of the standard library.
pub open spec fn context_at<'a>(
    cx: Context<'a>,
    roots: Seq<UnitView>,
    std_roots: Seq<StdRoots>,
    u: UnitView,
) -> Context<'a> {
    cx.for_std(!(user_found(cx, roots, std_roots)->Done_0).graph.contains_key(u))
}

/// Whether every unit that a unit of the graph depends on is a unit of the
/// graph.
pub open spec fn closed(graph: Graph) -> bool {
    forall|u: UnitView, i: int|
        graph.contains_key(u) && 0 <= i < graph[u].len() ==> graph.contains_key(
            (#[trigger] graph[u][i]).unit,
        )
}

/// Whether every crate of the standard library is in the graph.
pub open spec fn holds_std(graph: Graph, std_roots: Seq<StdRoots>, n: int) -> bool {
    forall|k: int, i: int|
        0 <= k < n && 0 <= i < std_roots[k].units@.len() ==> graph.contains_key(
            (#[trigger] std_roots[k].units@[i])@,
        )
}

/// Whether the roots are asked for.
pub open spec fn asks_roots(cx: Context, asked: Asked, roots: Seq<UnitView>) -> bool {
    forall|i: int| 0 <= i < roots.len() ==> asked(#[trigger] roots[i], root_unit_for(cx, roots[i]))
}

/// Whether the crates of the standard library are asked for.
pub open spec fn asks_std_roots(cx: Context, asked: Asked, std_roots: Seq<StdRoots>) -> bool {
    forall|k: int|
        0 <= k < std_roots.len() ==> asks_roots(
            cx,
            asked,
            unit_values((#[trigger] std_roots[k]).units@),
        )
}

proof fn lemma_visited_std_progress(
    cx: Context,
    asked: Asked,
    s: Search,
    std_roots: Seq<StdRoots>,
    n: nat,
)
    requires
        leads_on(cx, asked),
        asks_std_roots(cx, asked, std_roots),
        n <= std_roots.len(),
    ensures
        visited_std(cx, s, std_roots, n) matches Run::Done(t) ==> progress(cx, asked, s, t)
            && holds_std(t.graph, std_roots, n as int),
    decreases n,
{
    if n == 0 {
        lemma_progress_none(cx, asked, s);
    } else if let Run::Done(t) = visited_std(cx, s, std_roots, n) {
        let k = (n - 1) as nat;
        lemma_visited_std_progress(cx, asked, s, std_roots, k);
        if let Run::Done(m) = visited_std(cx, s, std_roots, k) {
            let units = unit_values(std_roots[n - 1].units@);
            assert(asks_roots(cx, asked, units));
            lemma_visited_roots_progress(cx, asked, m, units, units.len());
            lemma_progress_joined(cx, asked, s, m, t);
            assert forall|j: int, i: int|
                0 <= j < n && 0 <= i < std_roots[j].units@.len() implies t.graph.contains_key(
                (#[trigger] std_roots[j].units@[i])@,
            ) by {
                if j < k {
                    assert(m.graph.contains_key(std_roots[j].units@[i]@));
                } else {
                    assert(units[i] == std_roots[j].units@[i]@);
                }
            }
        }
    }
}

/// What a search from nothing comes to is closed.
proof fn lemma_progress_closed(cx: Context, asked: Asked, s: Search, t: Search)
    requires
        progress(cx, asked, s, t),
        s.graph == Graph::empty(),
    ensures
        closed(t.graph),
{
    assert forall|u: UnitView, i: int|
        t.graph.contains_key(u) && 0 <= i < t.graph[u].len() implies t.graph.contains_key(
        (#[trigger] t.graph[u][i]).unit,
    ) by {
        assert(settled(cx, asked, t, u));
    }
}

/// The search for the standard library leaves nothing undone.
pub proof fn lemma_std_found(cx: Context, asked: Asked, std_roots: Seq<StdRoots>)
    requires
        leads_on(cx.for_std(true), asked),
        asks_std_roots(cx.for_std(true), asked, std_roots),
    ensures
        std_found(cx, std_roots) matches Run::Done(std) ==> {
            &&& progress(cx.for_std(true), asked, Search::empty(), std)
            &&& closed(std.graph)
            &&& holds_std(std.graph, std_roots, std_roots.len() as int)
        },
{
    let here = cx.for_std(true);
    lemma_visited_std_progress(here, asked, Search::empty(), std_roots, std_roots.len());
    if let Run::Done(std) = std_found(cx, std_roots) {
        lemma_progress_closed(here, asked, Search::empty(), std);
    }
}

/// The search from the roots leaves nothing undone.
pub proof fn lemma_user_found(
    cx: Context,
    asked: Asked,
    roots: Seq<UnitView>,
    std_roots: Seq<StdRoots>,
)
    requires
        leads_on(cx.for_std(false), asked),
        asks_roots(cx.for_std(false), asked, roots),
    ensures
        user_found(cx, roots, std_roots) matches Run::Done(user) ==> {
            &&& std_found(cx, std_roots) matches Run::Done(std)
            &&& progress(
                cx.for_std(false),
                asked,
                (Search { graph: Graph::empty(), dev: std.dev }),
                user,
            )
            &&& closed(user.graph)
            &&& forall|i: int| 0 <= i < roots.len() ==> user.graph.contains_key(#[trigger] roots[i])
        },
{
    let here = cx.for_std(false);
    if let Run::Done(std) = std_found(cx, std_roots) {
        let start = Search { graph: Graph::empty(), dev: std.dev };
        lemma_visited_roots_progress(here, asked, start, roots, roots.len());
        if let Run::Done(user) = user_found(cx, roots, std_roots) {
            lemma_progress_closed(here, asked, start, user);
        }
    }
}

/// What is planned, taken apart.
pub proof fn lemma_planned(cx: Context, roots: Seq<UnitView>, std_roots: Seq<StdRoots>)
    ensures
        planned(cx, roots, std_roots) matches Run::Done(found) ==> {
            &&& user_found(cx, roots, std_roots) matches Run::Done(user)
            &&& std_found(cx, std_roots) matches Run::Done(std)
            &&& found.dev == user.dev
            &&& links_error(user.graph) is None
            &&& if std_roots.len() == 0 || !some_want_std(user.graph) {
                found.graph == user.graph
            } else {
                &&& disjoint(user.graph, std.graph)
                &&& found.graph == with_std_roots(user.graph, std_roots).union_prefer_right(
                    std.graph,
                )
            }
        },
{
}

/// The crates of the standard library for a kind are in its graph.
pub proof fn lemma_std_units_held(graph: Graph, std_roots: Seq<StdRoots>, unit: UnitView, i: int)
    requires
        holds_std(graph, std_roots, std_roots.len() as int),
        0 <= i < std_deps_for(std_roots, unit).len(),
    ensures
        graph.contains_key(std_deps_for(std_roots, unit)[i].unit),
{
    lemma_first_where(std_roots, std_roots_of(unit.kind));
    let k = choose|k: int|
        0 <= k < std_roots.len() && #[trigger] unit_values(std_roots[k].units@) == std_units(
            std_roots,
            unit.kind,
        )->0;
    assert(exists|k: int|
        0 <= k < std_roots.len() && #[trigger] unit_values(std_roots[k].units@) == std_units(
            std_roots,
            unit.kind,
        )->0);
    assert(unit_values(std_roots[k].units@)[i] == std_roots[k].units@[i]@);
}

/// What is planned is closed and holds the roots.
pub proof fn lemma_planned_closed(cx: Context, roots: Seq<UnitView>, std_roots: Seq<StdRoots>)
    ensures
        planned(cx, roots, std_roots) matches Run::Done(found) ==> closed(found.graph) && forall|
            i: int,
        |
            0 <= i < roots.len() ==> found.graph.contains_key(#[trigger] roots[i]),
{
    lemma_planned(cx, roots, std_roots);
    lemma_std_found(cx, anything(), std_roots);
    lemma_user_found(cx, anything(), roots, std_roots);
    if let Run::Done(found) = planned(cx, roots, std_roots) {
        let user = user_found(cx, roots, std_roots)->Done_0;
        let std = std_found(cx, std_roots)->Done_0;
        if std_roots.len() > 0 && some_want_std(user.graph) {
            assert forall|u: UnitView, i: int|
                found.graph.contains_key(u) && 0 <= i < found.graph[u].len() implies
                found.graph.contains_key((#[trigger] found.graph[u][i]).unit) by {
                if std.graph.contains_key(u) {
                    assert(found.graph[u] == std.graph[u]);
                    assert(std.graph.contains_key(std.graph[u][i].unit));
                } else {
                    let own = user.graph[u];
                    assert(found.graph[u] == own + std_deps_for(std_roots, u));
                    if i < own.len() {
                        assert(user.graph.contains_key(own[i].unit));
                    } else {
                        lemma_std_units_held(std.graph, std_roots, u, i - own.len());
                    }
                }
            }
        }
    }
}

/// What the lists of the finished graph consist of: what was found, and the
/// additions, each once.
pub proof fn lemma_finished(cx: Context, found: Search, graph: Graph, u: UnitView) -> (extra: Seq<
    UnitDepView,
>)
    requires
        finished(cx, found, graph),
        graph.contains_key(u),
    ensures
        graph.dom() == found.graph.dom(),
        lists_additions(cx, found.graph, found.dev, u, extra),
        graph[u].to_multiset() == (found.graph[u] + extra).to_multiset(),
        sorted_by(graph[u], dep_le()),
{
    let middle = choose|middle: Graph|
        connected(cx, found.graph, found.dev, middle) && #[trigger] sorted_graph(middle, graph);
    assert(middle.contains_key(u));
    choose|extra: Seq<UnitDepView>| #[trigger]
        lists_additions(cx, found.graph, found.dev, u, extra) && middle[u] == found.graph[u] + extra
}

/// A dependency of the finished graph was found or is an addition.
pub proof fn lemma_finished_dep(cx: Context, found: Search, graph: Graph, u: UnitView, d: UnitDepView)
    requires
        finished(cx, found, graph),
        graph.contains_key(u),
    ensures
        graph.dom() == found.graph.dom(),
        graph[u].contains(d) <==> found.graph[u].contains(d) || additions(
            cx,
            found.graph,
            found.dev,
            u,
        ).contains(d),
{
    let extra = lemma_finished(cx, found, graph, u);
    let all = found.graph[u] + extra;
    graph[u].to_multiset_ensures();
    all.to_multiset_ensures();
    assert(graph[u].contains(d) <==> graph[u].to_multiset().count(d) > 0);
    assert(all.contains(d) <==> all.to_multiset().count(d) > 0);
    if found.graph[u].contains(d) {
        let i = found.graph[u].index_of(d);
        assert(all[i] == d);
    }
    if extra.contains(d) {
        let i = extra.index_of(d);
        assert(all[found.graph[u].len() + i] == d);
    }
}

/// An addition is the execution of a build script that some unit of the graph
/// depends on.
pub proof fn lemma_addition(
    cx: Context,
    graph: Graph,
    dev: Set<(UnitView, UnitView)>,
    u: UnitView,
    d: UnitDepView,
) -> (other: UnitView)
    requires
        additions(cx, graph, dev, u).contains(d),
    ensures
        u.mode.is_run_custom_build(),
        d.unit.mode.is_run_custom_build(),
        graph.contains_key(other),
        graph[other].contains(d),
        other.pkg.id != u.pkg.id,
{
    let (parent, other) = choose|parent: UnitView, other: UnitDepView|
        #![trigger linked_sibling(graph, dev, u, parent, other)]
        linked_sibling(graph, dev, u, parent, other) && graph.contains_key(
            other.unit,
        ) && script_run(graph[other.unit]) == Some(d);
    lemma_first_where(graph[other.unit], runs_script());
    other.unit
}

/// The graph of a build is closed and holds the roots: whatever a unit depends
/// on, and whatever was asked for, has an entry of its own.
pub proof fn law_graph_closed(
    cx: Context,
    roots: Seq<UnitView>,
    std_roots: Seq<StdRoots>,
    graph: Graph,
)
    requires
        is_unit_graph(cx, roots, std_roots, graph),
    ensures
        closed(graph),
        forall|i: int| 0 <= i < roots.len() ==> graph.contains_key(#[trigger] roots[i]),
{
    if roots.len() > 0 {
        lemma_planned_closed(cx, roots, std_roots);
        let found = planned(cx, roots, std_roots)->Done_0;
        assert forall|u: UnitView, i: int|
            graph.contains_key(u) && 0 <= i < graph[u].len() implies graph.contains_key(
            (#[trigger] graph[u][i]).unit,
        ) by {
            let d = graph[u][i];
            lemma_finished_dep(cx, found, graph, u, d);
            assert(graph[u].contains(d));
            let from = if found.graph[u].contains(d) {
                u
            } else {
                lemma_addition(cx, found.graph, found.dev, u, d)
            };
            let k = found.graph[from].index_of(d);
            assert(found.graph[from][k] == d);
            assert(found.graph.contains_key(d.unit));
        }
        assert forall|i: int| 0 <= i < roots.len() implies graph.contains_key(
            #[trigger] roots[i],
        ) by {
            lemma_finished_dom(cx, found, graph);
        }
    }
}

pub proof fn lemma_finished_dom(cx: Context, found: Search, graph: Graph)
    requires
        finished(cx, found, graph),
    ensures
        graph.dom() == found.graph.dom(),
{
}

/// The result is determined by the input: a build has one graph, down to the
/// order of every list.
pub proof fn law_graph_unique(
    cx: Context,
    roots: Seq<UnitView>,
    std_roots: Seq<StdRoots>,
    a: Graph,
    b: Graph,
)
    requires
        is_unit_graph(cx, roots, std_roots, a),
        is_unit_graph(cx, roots, std_roots, b),
    ensures
        a == b,
{
    if roots.len() > 0 {
        let found = planned(cx, roots, std_roots)->Done_0;
        lemma_finished_dom(cx, found, a);
        lemma_finished_dom(cx, found, b);
        lemma_dep_order();
        assert forall|u: UnitView| #[trigger] a.contains_key(u) implies a[u] == b[u] by {
            assert(b.contains_key(u));
            let x = lemma_finished(cx, found, a, u);
            let y = lemma_finished(cx, found, b, u);
            lemma_same_members(x, y);
            lemma_join(found.graph[u], x);
            lemma_join(found.graph[u], y);
            vstd::seq_lib::lemma_sorted_unique(a[u], b[u], dep_le());
        }
        assert(a =~= b);
    }
}

/// Lists that hold the same, each once, differ in order only.
proof fn lemma_same_members(x: Seq<UnitDepView>, y: Seq<UnitDepView>)
    requires
        x.no_duplicates(),
        y.no_duplicates(),
        forall|d: UnitDepView| #[trigger] x.contains(d) <==> y.contains(d),
    ensures
        x.to_multiset() == y.to_multiset(),
{
    broadcast use vstd::multiset::group_multiset_axioms;

    x.lemma_multiset_has_no_duplicates();
    y.lemma_multiset_has_no_duplicates();
    x.to_multiset_ensures();
    y.to_multiset_ensures();
    assert forall|d: UnitDepView| x.to_multiset().count(d) == y.to_multiset().count(d) by {
        assert(x.contains(d) <==> x.to_multiset().count(d) > 0);
        assert(y.contains(d) <==> y.to_multiset().count(d) > 0);
        if x.contains(d) {
            assert(x.to_multiset().contains(d));
            assert(y.to_multiset().contains(d));
        }
    }
    assert(x.to_multiset() =~= y.to_multiset());
}

proof fn lemma_join(x: Seq<UnitDepView>, y: Seq<UnitDepView>)
    ensures
        (x + y).to_multiset() == x.to_multiset().add(y.to_multiset()),
{
    vstd::seq_lib::lemma_multiset_commutative(x, y);
}

/// A native library is linked once: no two packages that have units in the
/// user's part of the graph link to the same one.
pub proof fn law_links_once(
    cx: Context,
    roots: Seq<UnitView>,
    std_roots: Seq<StdRoots>,
    user: Search,
    a: UnitView,
    b: UnitView,
)
    requires
        planned(cx, roots, std_roots) is Done,
        user_found(cx, roots, std_roots) == Run::Done(user),
        user.graph.contains_key(a),
        user.graph.contains_key(b),
        a.pkg.id != b.pkg.id,
        a.pkg.links is Some,
    ensures
        a.pkg.links != b.pkg.links,
{
    lemma_planned(cx, roots, std_roots);
    lemma_package_order(a.pkg.id, b.pkg.id);
    let links = a.pkg.links->0;
    assert(!clash(user.graph, links, a.pkg.id, b.pkg.id));
    assert(!clash(user.graph, links, b.pkg.id, a.pkg.id));
}

/// Whether `list` holds what `run` ends with and `more`, in any order.
pub open spec fn lists(
    run: Run<Seq<UnitDepView>>,
    more: Seq<UnitDepView>,
    list: Seq<UnitDepView>,
) -> bool {
    match run {
        Run::Done(deps) => list.to_multiset() == (deps + more).to_multiset(),
        _ => false,
    }
}

/// Whether `list` holds the dependencies that a unit has when it is built for
/// something that it is asked for, and `more`, in any order.
pub open spec fn lists_deps(
    cx: Context,
    asked: Asked,
    u: UnitView,
    more: Seq<UnitDepView>,
    list: Seq<UnitDepView>,
) -> bool {
    exists|unit_for: UnitFor|
        asked(u, unit_for) && lists(#[trigger] own_deps(cx, u, unit_for), more, list)
}

/// Nothing is attached where no unit depends on the standard library.
pub proof fn lemma_no_std(std_roots: Seq<StdRoots>, u: UnitView)
    requires
        std_roots.len() == 0 || !wants_std(u),
    ensures
        std_deps_for(std_roots, u) == Seq::<UnitDepView>::empty(),
{
    lemma_first_where(std_roots, std_roots_of(u.kind));
}

/// Each list was found for the roots, with the standard library attached, or for
/// the standard library.
pub proof fn lemma_planned_list(
    cx: Context,
    roots: Seq<UnitView>,
    std_roots: Seq<StdRoots>,
    found: Search,
    u: UnitView,
)
    requires
        planned(cx, roots, std_roots) == Run::Done(found),
        found.graph.contains_key(u),
    ensures
        ({
            let user = user_found(cx, roots, std_roots)->Done_0;
            let std = std_found(cx, std_roots)->Done_0;
            if user.graph.contains_key(u) {
                found.graph[u] == user.graph[u] + std_deps_for(std_roots, u)
            } else {
                std.graph.contains_key(u) && found.graph[u] == std.graph[u] && std_roots.len() > 0
                    && some_want_std(user.graph)
            }
        }),
{
    lemma_planned(cx, roots, std_roots);
    let user = user_found(cx, roots, std_roots)->Done_0;
    let std = std_found(cx, std_roots)->Done_0;
    if std_roots.len() == 0 || !some_want_std(user.graph) {
        lemma_no_std(std_roots, u);
        assert(user.graph[u] + std_deps_for(std_roots, u) =~= user.graph[u]);
    } else if user.graph.contains_key(u) {
        assert(!std.graph.contains_key(u));
    }
}

/// What a list consists of that a search from nothing has found.
proof fn lemma_part_list(
    cx: Context,
    asked: Asked,
    s: Search,
    part: Search,
    u: UnitView,
    more: Seq<UnitDepView>,
    list: Seq<UnitDepView>,
)
    requires
        progress(cx, asked, s, part),
        s.graph == Graph::empty(),
        part.graph.contains_key(u),
        list.to_multiset() == (part.graph[u] + more).to_multiset(),
    ensures
        lists_deps(cx, asked, u, more, list),
{
    assert(settled(cx, asked, part, u));
    let unit_for = choose|unit_for: UnitFor|
        asked(u, unit_for) && #[trigger] explained(cx, part, u, unit_for);
    assert(lists(own_deps(cx, u, unit_for), more, list));
}

/// Every list is accounted for. A unit of the user's part of the graph depends
/// on what it has to when it is built for something that it was asked for, on
/// what it gets from the standard library, and on the build scripts that it is
/// connected to. A unit of the standard library does not get the second.
///
/// What is asked for is whatever follows from the roots, so nothing is in the
/// graph that was not asked for.
pub proof fn law_lists_explained(
    cx: Context,
    roots: Seq<UnitView>,
    std_roots: Seq<StdRoots>,
    found: Search,
    graph: Graph,
    asked: Asked,
    std_asked: Asked,
    u: UnitView,
) -> (extra: Seq<UnitDepView>)
    requires
        planned(cx, roots, std_roots) == Run::Done(found),
        finished(cx, found, graph),
        leads_on(cx.for_std(false), asked),
        asks_roots(cx.for_std(false), asked, roots),
        leads_on(cx.for_std(true), std_asked),
        asks_std_roots(cx.for_std(true), std_asked, std_roots),
        graph.contains_key(u),
    ensures
        lists_additions(cx, found.graph, found.dev, u, extra),
        sorted_by(graph[u], dep_le()),
        if (user_found(cx, roots, std_roots)->Done_0).graph.contains_key(u) {
            lists_deps(
                cx.for_std(false),
                asked,
                u,
                std_deps_for(std_roots, u) + extra,
                graph[u],
            )
        } else {
            lists_deps(cx.for_std(true), std_asked, u, extra, graph[u])
        },
{
    let extra = lemma_finished(cx, found, graph, u);
    lemma_planned(cx, roots, std_roots);
    lemma_planned_list(cx, roots, std_roots, found, u);
    let user = user_found(cx, roots, std_roots)->Done_0;
    let std = std_found(cx, std_roots)->Done_0;
    if user.graph.contains_key(u) {
        let start = Search { graph: Graph::empty(), dev: std.dev };
        let more = std_deps_for(std_roots, u);
        lemma_user_found(cx, asked, roots, std_roots);
        assert(user.graph[u] + more + extra =~= user.graph[u] + (more + extra));
        lemma_part_list(cx.for_std(false), asked, start, user, u, more + extra, graph[u]);
    } else {
        lemma_std_found(cx, std_asked, std_roots);
        lemma_part_list(
            cx.for_std(true),
            std_asked,
            Search::empty(),
            std,
            u,
            extra,
            graph[u],
        );
    }
    extra
}

/// What a unit of the graph gets from the standard library.
pub open spec fn attached_to(
    cx: Context,
    roots: Seq<UnitView>,
    std_roots: Seq<StdRoots>,
    u: UnitView,
) -> Seq<UnitDepView> {
    if context_at(cx, roots, std_roots, u).is_std {
        Seq::empty()
    } else {
        std_deps_for(std_roots, u)
    }
}

/// What a unit is built for: its planned list has the dependencies that it then
/// has, and what it gets from the standard library.
pub proof fn lemma_built_for(
    cx: Context,
    roots: Seq<UnitView>,
    std_roots: Seq<StdRoots>,
    found: Search,
    u: UnitView,
) -> (unit_for: UnitFor)
    requires
        planned(cx, roots, std_roots) == Run::Done(found),
        found.graph.contains_key(u),
    ensures
        ({
            let here = context_at(cx, roots, std_roots, u);
            &&& own_deps(here, u, unit_for) matches Run::Done(own)
            &&& found.graph[u] == own + attached_to(cx, roots, std_roots, u)
            &&& is_compiled(u) ==> dev_edges(here, u, unit_for).subset_of(found.dev)
        }),
{
    lemma_planned(cx, roots, std_roots);
    lemma_planned_list(cx, roots, std_roots, found, u);
    let user = user_found(cx, roots, std_roots)->Done_0;
    let std = std_found(cx, std_roots)->Done_0;
    let here = context_at(cx, roots, std_roots, u);
    let part = if user.graph.contains_key(u) {
        user
    } else {
        std
    };
    lemma_user_found(cx, anything(), roots, std_roots);
    assert(std.dev.subset_of(user.dev));
    if user.graph.contains_key(u) {
        assert(settled(here, anything(), part, u));
    } else {
        lemma_std_found(cx, anything(), std_roots);
        assert(settled(here, anything(), part, u));
        assert(std.graph[u] + Seq::<UnitDepView>::empty() =~= std.graph[u]);
    }
    let unit_for = choose|unit_for: UnitFor|
        anything()(u, unit_for) && #[trigger] explained(here, part, u, unit_for);
    assert(explained(here, part, u, unit_for));
    unit_for
}

/// A unit of the graph depends on all that it has to for what it is built for.
pub proof fn lemma_own_in_graph(
    cx: Context,
    roots: Seq<UnitView>,
    std_roots: Seq<StdRoots>,
    graph: Graph,
    u: UnitView,
) -> (unit_for: UnitFor)
    requires
        is_unit_graph(cx, roots, std_roots, graph),
        graph.contains_key(u),
    ensures
        own_deps(context_at(cx, roots, std_roots, u), u, unit_for) matches Run::Done(deps)
            && forall|i: int| 0 <= i < deps.len() ==> graph[u].contains(#[trigger] deps[i]),
{
    let found = planned(cx, roots, std_roots)->Done_0;
    lemma_finished_dom(cx, found, graph);
    let unit_for = lemma_built_for(cx, roots, std_roots, found, u);
    let deps = own_deps(context_at(cx, roots, std_roots, u), u, unit_for)->Done_0;
    assert forall|i: int| 0 <= i < deps.len() implies graph[u].contains(#[trigger] deps[i]) by {
        assert(found.graph[u][i] == deps[i]);
        lemma_finished_dep(cx, found, graph, u, deps[i]);
    }
    unit_for
}

/// Whether a unit gets a dependency from the standard library.
pub open spec fn is_attached(std_roots: Seq<StdRoots>, u: UnitView, d: UnitDepView) -> bool {
    &&& wants_std(u)
    &&& d == std_dep(d.unit)
    &&& match std_units(std_roots, u.kind) {
        Some(units) => units.contains(d.unit),
        None => false,
    }
}

/// Whether a dependency connects two executions of build scripts: a unit of
/// another package depends on the second one.
pub open spec fn is_connection(graph: Graph, u: UnitView, d: UnitDepView) -> bool {
    &&& u.mode.is_run_custom_build()
    &&& d.unit.mode.is_run_custom_build()
    &&& exists|other: UnitView|
        #[trigger] graph.contains_key(other) && other.pkg.id != u.pkg.id && graph[other].contains(d)
}

/// Every dependency is of one of four sorts. It follows from the manifests, and
/// is then built for the same kind or for the host, never as a test, and as
/// documentation only of documentation. Or it is scraped for examples, or
/// attached from the standard library, or connects build scripts.
pub proof fn law_dependencies_sound(
    cx: Context,
    roots: Seq<UnitView>,
    std_roots: Seq<StdRoots>,
    graph: Graph,
    u: UnitView,
    d: UnitDepView,
)
    requires
        is_unit_graph(cx, roots, std_roots, graph),
        graph.contains_key(u),
        graph[u].contains(d),
    ensures
        ({
            ||| is_lowered(context_at(cx, roots, std_roots, u), u, d)
            ||| is_scraped(context_at(cx, roots, std_roots, u), u, d)
            ||| is_attached(std_roots, u, d) && !context_at(cx, roots, std_roots, u).is_std
            ||| is_connection(graph, u, d)
        }),
{
    let found = planned(cx, roots, std_roots)->Done_0;
    lemma_finished_dep(cx, found, graph, u, d);
    if !found.graph[u].contains(d) {
        let other = lemma_addition(cx, found.graph, found.dev, u, d);
        lemma_finished_dep(cx, found, graph, other, d);
        assert(graph.contains_key(other));
    } else {
        let unit_for = lemma_built_for(cx, roots, std_roots, found, u);
        lemma_planned_dep(cx, roots, std_roots, found, u, unit_for, d);
    }
}

pub proof fn lemma_planned_dep(
    cx: Context,
    roots: Seq<UnitView>,
    std_roots: Seq<StdRoots>,
    found: Search,
    u: UnitView,
    unit_for: UnitFor,
    d: UnitDepView,
)
    requires
        ({
            let here = context_at(cx, roots, std_roots, u);
            &&& own_deps(here, u, unit_for) matches Run::Done(own)
            &&& found.graph[u] == own + attached_to(cx, roots, std_roots, u)
        }),
        found.graph[u].contains(d),
    ensures
        ({
            ||| is_lowered(context_at(cx, roots, std_roots, u), u, d)
            ||| is_scraped(context_at(cx, roots, std_roots, u), u, d)
            ||| is_attached(std_roots, u, d) && !context_at(cx, roots, std_roots, u).is_std
        }),
{
    let here = context_at(cx, roots, std_roots, u);
    let own = own_deps(here, u, unit_for)->Done_0;
    let i = found.graph[u].index_of(d);
    assert(found.graph[u][i] == d);
    if i < own.len() {
        lemma_own_deps_facts(here, u, unit_for);
        assert(own[i] == d);
    } else {
        let units = std_units(std_roots, u.kind)->0;
        assert(units[i - own.len()] == d.unit);
    }
}

/// The standard library is a dependency of every unit that is compiled for an
/// explicitly requested platform.
pub proof fn law_std_attached(
    cx: Context,
    roots: Seq<UnitView>,
    std_roots: Seq<StdRoots>,
    graph: Graph,
    u: UnitView,
)
    requires
        is_unit_graph(cx, roots, std_roots, graph),
        std_roots.len() > 0,
        graph.contains_key(u),
        !context_at(cx, roots, std_roots, u).is_std,
        wants_std(u),
    ensures
        std_units(std_roots, u.kind) matches Some(units) && forall|i: int|
            0 <= i < units.len() ==> graph[u].contains(std_dep(#[trigger] units[i]))
                && graph.contains_key(units[i]),
{
    let found = planned(cx, roots, std_roots)->Done_0;
    lemma_finished_dom(cx, found, graph);
    lemma_planned(cx, roots, std_roots);
    lemma_planned_list(cx, roots, std_roots, found, u);
    let user = user_found(cx, roots, std_roots)->Done_0;
    assert(some_want_std(user.graph));
    let units = std_units(std_roots, u.kind)->0;
    assert(std_units(std_roots, u.kind) is Some);
    assert forall|i: int| 0 <= i < units.len() implies graph[u].contains(
        std_dep(#[trigger] units[i]),
    ) && graph.contains_key(units[i]) by {
        let d = std_dep(units[i]);
        let own = user.graph[u];
        assert(found.graph[u][own.len() + i] == d);
        lemma_finished_dep(cx, found, graph, u, d);
        lemma_std_found(cx, anything(), std_roots);
        lemma_std_units_held(
            (std_found(cx, std_roots)->Done_0).graph,
            std_roots,
            u,
            i,
        );
    }
}

/// The standard library is left out if there is none or no unit depends on it:
/// the graph then has the units that are found for the roots, and no others.
pub proof fn law_std_left_out(
    cx: Context,
    roots: Seq<UnitView>,
    std_roots: Seq<StdRoots>,
    graph: Graph,
    user: Search,
)
    requires
        is_unit_graph(cx, roots, std_roots, graph),
        roots.len() > 0,
        user_found(cx, roots, std_roots) == Run::Done(user),
        std_roots.len() == 0 || !some_want_std(user.graph),
    ensures
        graph.dom() == user.graph.dom(),
{
    lemma_planned(cx, roots, std_roots);
}

/// Build scripts are connected exactly as the `links` of their packages say: the
/// execution of a build script depends on that of another one exactly if a
/// parent depends on the first one and, not purely through dev-dependencies, on
/// a linked library of the other one's package. That is so unless the output of
/// the first one is given.
pub proof fn law_connections(
    cx: Context,
    roots: Seq<UnitView>,
    std_roots: Seq<StdRoots>,
    found: Search,
    graph: Graph,
    u: UnitView,
    d: UnitDepView,
)
    requires
        planned(cx, roots, std_roots) == Run::Done(found),
        finished(cx, found, graph),
        graph.contains_key(u),
        u.mode.is_run_custom_build(),
        !run_overridden(cx, u),
        d.unit.mode.is_run_custom_build(),
    ensures
        graph[u].contains(d) <==> sibling_script(found.graph, found.dev, u, d),
{
    lemma_finished_dep(cx, found, graph, u, d);
    if found.graph[u].contains(d) {
        let unit_for = lemma_built_for(cx, roots, std_roots, found, u);
        let own = own_deps(context_at(cx, roots, std_roots, u), u, unit_for)->Done_0;
        lemma_no_std(std_roots, u);
        let i = found.graph[u].index_of(d);
        assert(own[i] == d);
    }
}

/// Only what can be reached is in the graph: whatever holds of the roots and, if
/// it is attached, of the standard library, and is passed on to dependencies and
/// to units that are scraped, holds of every unit.
///
/// A unit that is documented twice, for itself and as something to be scraped,
/// leaves the dependencies of the first time behind, so units that are scraped
/// must not be documentation.
pub proof fn law_only_reachable(
    cx: Context,
    roots: Seq<UnitView>,
    std_roots: Seq<StdRoots>,
    graph: Graph,
    p: spec_fn(UnitView) -> bool,
)
    requires
        is_unit_graph(cx, roots, std_roots, graph),
        scrapes_no_docs(cx),
        forall|i: int| 0 <= i < roots.len() ==> p(#[trigger] roots[i]),
        some_want_std((user_found(cx, roots, std_roots)->Done_0).graph) ==> forall|k: int, i: int|
            0 <= k < std_roots.len() && 0 <= i < std_roots[k].units@.len() ==> p(
                (#[trigger] std_roots[k].units@[i])@,
            ),
        holds_on(cx, graph, p),
    ensures
        forall|u: UnitView| #[trigger] graph.contains_key(u) ==> p(u),
{
    if roots.len() > 0 {
        let found = planned(cx, roots, std_roots)->Done_0;
        lemma_finished_dom(cx, found, graph);
        lemma_planned(cx, roots, std_roots);
        let user = user_found(cx, roots, std_roots)->Done_0;
        let std = std_found(cx, std_roots)->Done_0;
        let user_cx = cx.for_std(false);
        let start = Search { graph: Graph::empty(), dev: std.dev };
        assert(holds_on(user_cx, user.graph, p)) by {
            lemma_part_holds_on(cx, roots, std_roots, found, graph, user.graph, false, p);
        }
        lemma_visited_roots_reach(user_cx, user.graph, p, start, roots, roots.len());
        assert(new_hold(start, user, p));
        if std_roots.len() > 0 && some_want_std(user.graph) {
            lemma_part_holds_on(cx, roots, std_roots, found, graph, std.graph, true, p);
            lemma_visited_std_reach(
                cx.for_std(true),
                std.graph,
                p,
                Search::empty(),
                std_roots,
                std_roots.len(),
            );
        }
    }
}

/// What is passed on in the whole graph is passed on in its parts.
proof fn lemma_part_holds_on(
    cx: Context,
    roots: Seq<UnitView>,
    std_roots: Seq<StdRoots>,
    found: Search,
    graph: Graph,
    part: Graph,
    is_std: bool,
    p: spec_fn(UnitView) -> bool,
)
    requires
        planned(cx, roots, std_roots) == Run::Done(found),
        finished(cx, found, graph),
        holds_on(cx, graph, p),
        part == (if is_std {
            std_found(cx, std_roots)
        } else {
            user_found(cx, roots, std_roots)
        })->Done_0.graph,
        is_std ==> std_roots.len() > 0 && some_want_std(
            (user_found(cx, roots, std_roots)->Done_0).graph,
        ),
    ensures
        holds_on(cx.for_std(is_std), part, p),
{
    lemma_planned(cx, roots, std_roots);
    let here = cx.for_std(is_std);
    assert forall|u: UnitView, i: int|
        part.contains_key(u) && p(u) && 0 <= i < part[u].len() implies p(
        (#[trigger] part[u][i]).unit,
    ) by {
        let d = part[u][i];
        assert(found.graph.contains_key(u));
        lemma_planned_list(cx, roots, std_roots, found, u);
        assert(found.graph[u][i] == d);
        lemma_finished_dep(cx, found, graph, u, d);
        let k = graph[u].index_of(d);
        assert(graph[u][k] == d);
    }
    assert forall|u: UnitView, i: int|
        #[trigger] part.contains_key(u) && p(u) && scrapes(here, u) && 0 <= i
            < here.scrape_units@.len() implies p((#[trigger] here.scrape_units@[i])@) by {
        lemma_finished_dom(cx, found, graph);
        assert(found.graph.contains_key(u));
        assert(graph.contains_key(u));
        assert(scrapes(cx, u));
    }
}

proof fn lemma_visited_std_reach(
    cx: Context,
    graph: Graph,
    p: spec_fn(UnitView) -> bool,
    s: Search,
    std_roots: Seq<StdRoots>,
    n: nat,
)
    requires
        scrapes_no_docs(cx),
        holds_on(cx, graph, p),
        n <= std_roots.len(),
        forall|k: int, i: int|
            0 <= k < std_roots.len() && 0 <= i < std_roots[k].units@.len() ==> p(
                (#[trigger] std_roots[k].units@[i])@,
            ),
    ensures
        visited_std(cx, s, std_roots, n) matches Run::Done(t) ==> (extends(t.graph, graph)
            ==> new_hold(s, t, p)),
    decreases n,
{
    if n > 0 {
        let k = (n - 1) as nat;
        lemma_visited_std_reach(cx, graph, p, s, std_roots, k);
        if let Run::Done(t) = visited_std(cx, s, std_roots, n) {
            if let Run::Done(m) = visited_std(cx, s, std_roots, k) {
                let units = unit_values(std_roots[n - 1].units@);
                assert forall|i: int| 0 <= i < units.len() implies p(#[trigger] units[i]) by {
                    assert(units[i] == std_roots[n - 1].units@[i]@);
                }
                lemma_visited_roots_progress(cx, anything(), m, units, units.len());
                lemma_visited_roots_reach(cx, graph, p, m, units, units.len());
            }
        }
    }
}

/// Edges are marked as purely due to dev-dependencies exactly where units that
/// were found have such dependencies: every mark has its reason, and a compiled
/// unit has all marks that it should have for what it was built for.
pub proof fn law_dev_edges_marked(
    cx: Context,
    roots: Seq<UnitView>,
    std_roots: Seq<StdRoots>,
    found: Search,
    edge: (UnitView, UnitView),
)
    requires
        planned(cx, roots, std_roots) == Run::Done(found),
    ensures
        found.dev.contains(edge) ==> is_compiled(edge.0) && exists|is_std: bool, unit_for: UnitFor|
            #[trigger] dev_edges(cx.for_std(is_std), edge.0, unit_for).contains(edge),
        found.graph.contains_key(edge.0) && is_compiled(edge.0) ==> exists|unit_for: UnitFor|
            {
                &&& #[trigger] own_deps(
                    context_at(cx, roots, std_roots, edge.0),
                    edge.0,
                    unit_for,
                ) is Done
                &&& dev_edges(
                    context_at(cx, roots, std_roots, edge.0),
                    edge.0,
                    unit_for,
                ).subset_of(found.dev)
            },
{
    lemma_planned(cx, roots, std_roots);
    lemma_user_found(cx, anything(), roots, std_roots);
    lemma_std_found(cx, anything(), std_roots);
    let user = user_found(cx, roots, std_roots)->Done_0;
    let std = std_found(cx, std_roots)->Done_0;
    let unit = edge.0;
    if found.dev.contains(edge) {
        if std.dev.contains(edge) {
            assert(dev_edge_explained(cx.for_std(true), std, edge));
        } else {
            assert(dev_edge_explained(cx.for_std(false), user, edge));
        }
    }
    if found.graph.contains_key(unit) && is_compiled(unit) {
        let unit_for = lemma_built_for(cx, roots, std_roots, found, unit);
        assert(own_deps(context_at(cx, roots, std_roots, unit), unit, unit_for) is Done);
    }
}

} // verus!
