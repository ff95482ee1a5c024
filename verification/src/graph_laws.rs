//! What the graph of a build consists of, in terms of its inputs.

use crate::compile::{CompileKind, CompileMode};
use crate::context::Context;
use crate::facts::lemma_own_deps_facts;
use crate::laws::{
    attached_to, context_at, lemma_addition, lemma_built_for, lemma_finished_dep,
    lemma_finished_dom, lemma_planned, lemma_planned_list, lemma_std_found, lemma_user_found,
    std_found, user_found,
};
use crate::layout::{
    additions, finished, is_unit_graph, planned, std_dep, std_deps_for, std_roots_of, std_units,
    visited_std, StdRoots,
};
use crate::lookup::{is_first, lemma_first_where, lemma_found};
use crate::members::lemma_own_members;
use crate::origin::{asks_on, is_asked, lemma_both_asked, lemma_visited_roots_asked, new_asked};
use crate::plan::{dev_edges, root_unit_for, scrape_unit_for};
use crate::profiles::{PanicSetting, UnitFor};
use crate::reach::{anything, extends, scrapes_no_docs};
use crate::run::Run;
use crate::search::{scrapes, Search};
use crate::target::TargetKind;
use crate::terms::{follows, for_host_side, runs_bins, shows_examples, tested};
use crate::unit::{unit_values, UnitDepView, UnitView};
use crate::unit_graph::Graph;
use crate::walk::{explained, is_compiled, lemma_visited_roots_progress, own_deps, settled, Asked};
use vstd::prelude::*;

verus! {

/// Whether a root of the build is built for `unit_for`.
///
/// Procedural macros and build scripts are built for the host, and procedural
/// macros with the features of the host side. What runs in the compiler unwinds,
/// and so do tests unless they may abort.
pub open spec fn root_built_for(cx: Context, u: UnitView, unit_for: UnitFor) -> bool {
    let proc_macro = u.target.proc_macro;
    let script = u.target.kind == TargetKind::CustomBuild;
    let testing = tested(u.mode) || cx.global_mode == CompileMode::Test || cx.global_mode
        == CompileMode::Bench || cx.global_mode == (CompileMode::Check { test: true });
    &&& unit_for.host <==> proc_macro || script && !testing
    &&& unit_for.host_features <==> proc_macro && (testing || !script)
    &&& unit_for.panic_setting == if testing {
        if cx.ws.config.panic_abort_tests {
            PanicSetting::Inherit
        } else {
            PanicSetting::AlwaysUnwind
        }
    } else if script || proc_macro || u.target.for_host {
        PanicSetting::AlwaysUnwind
    } else {
        PanicSetting::ReadProfile
    }
}

/// A root is built for one thing.
pub proof fn lemma_root_built_for(cx: Context, u: UnitView, unit_for: UnitFor)
    ensures
        unit_for == root_unit_for(cx, u) <==> root_built_for(cx, u, unit_for),
{
}

/// Whether a unit is asked for, to be built for `unit_for`: as a root, as
/// something to scrape for documentation, or as a dependency of another unit of
/// the same part of the graph.
pub open spec fn is_wanted(
    cx: Context,
    roots: Seq<UnitView>,
    std_roots: Seq<StdRoots>,
    graph: Graph,
    is_std: bool,
    u: UnitView,
    unit_for: UnitFor,
) -> bool {
    ||| !is_std && roots.contains(u) && root_built_for(cx, u, unit_for)
    ||| is_std && root_built_for(cx, u, unit_for) && exists|k: int, i: int|
        0 <= k < std_roots.len() && 0 <= i < std_roots[k].units@.len() && (
        #[trigger] std_roots[k].units@[i])@ == u
    ||| for_host_side(u.target.proc_macro, unit_for) && exists|v: UnitView, i: int|
        {
            &&& #[trigger] graph.contains_key(v)
            &&& shows_examples(cx, v)
            &&& 0 <= i < cx.scrape_units@.len()
            &&& (#[trigger] cx.scrape_units@[i])@ == u
        }
    ||| exists|v: UnitView, d: UnitDepView|
        {
            &&& #[trigger] graph.contains_key(v)
            &&& context_at(cx, roots, std_roots, v).is_std == is_std
            &&& #[trigger] graph[v].contains(d)
            &&& d.unit == u && d.unit_for == unit_for && !d.noprelude
        }
}

/// Whether position `k` lists the standard library for a kind.
pub open spec fn std_listed_at(std_roots: Seq<StdRoots>, kind: CompileKind, k: int) -> bool {
    &&& 0 <= k < std_roots.len()
    &&& std_roots[k].kind == kind
    &&& forall|j: int| 0 <= j < k ==> (#[trigger] std_roots[j]).kind != kind
}

/// Whether a dependency is on a crate of the standard library for the platform of
/// a unit. It keeps the name of its package and stays out of the prelude.
pub open spec fn is_std_dep(std_roots: Seq<StdRoots>, u: UnitView, d: UnitDepView) -> bool {
    &&& u.kind is Target
    &&& u.mode != CompileMode::RunCustomBuild
    &&& exists|k: int, i: int|
        #[trigger] std_listed_at(std_roots, u.kind, k) && 0 <= i < std_roots[k].units@.len() && (
        #[trigger] std_roots[k].units@[i])@ == d.unit
    &&& !d.unit_for.host && !d.unit_for.host_features && d.unit_for.panic_setting
        == PanicSetting::ReadProfile
    &&& d.extern_crate_name == d.unit.pkg.id.name
    &&& d.public
    &&& d.noprelude
}

/// What a unit gets from the standard library is what is listed for its kind.
pub proof fn lemma_std_deps_members(std_roots: Seq<StdRoots>, u: UnitView, d: UnitDepView)
    ensures
        std_deps_for(std_roots, u).contains(d) <==> is_std_dep(std_roots, u, d),
{
    let p = std_roots_of(u.kind);
    let list = std_deps_for(std_roots, u);
    lemma_first_where(std_roots, p);
    if list.contains(d) {
        let i = list.index_of(d);
        let k = choose|k: int| is_first(std_roots, p, k);
        assert(is_first(std_roots, p, k));
        lemma_found(std_roots, p, k);
        assert(std_listed_at(std_roots, u.kind, k)) by {
            assert forall|j: int| 0 <= j < k implies (#[trigger] std_roots[j]).kind != u.kind by {
                assert(!p(std_roots[j]));
            }
        }
        assert(unit_values(std_roots[k].units@)[i] == std_roots[k].units@[i]@);
        assert(std_roots[k].units@[i]@ == d.unit);
    }
    if is_std_dep(std_roots, u, d) {
        let (k, i) = choose|k: int, i: int|
            #[trigger] std_listed_at(std_roots, u.kind, k) && 0 <= i < std_roots[k].units@.len()
                && (#[trigger] std_roots[k].units@[i])@ == d.unit;
        assert(is_first(std_roots, p, k));
        lemma_found(std_roots, p, k);
        let units = std_units(std_roots, u.kind)->0;
        assert(units[i] == d.unit);
        assert(list[i] == std_dep(d.unit));
        assert(d == std_dep(d.unit)) by {
            assert(d.unit_for == UnitFor::new_normal());
        }
    }
}

proof fn lemma_visited_std_asked(
    cx: Context,
    graph: Graph,
    asked: Asked,
    s: Search,
    std_roots: Seq<StdRoots>,
    n: nat,
)
    requires
        scrapes_no_docs(cx),
        asks_on(cx, graph, asked),
        n <= std_roots.len(),
        forall|k: int, i: int|
            0 <= k < std_roots.len() && 0 <= i < std_roots[k].units@.len() ==> asked(
                (#[trigger] std_roots[k].units@[i])@,
                root_unit_for(cx, std_roots[k].units@[i]@),
            ),
    ensures
        visited_std(cx, s, std_roots, n) matches Run::Done(t) ==> (extends(t.graph, graph)
            ==> new_asked(cx, asked, s, t)),
    decreases n,
{
    if n > 0 {
        let k = (n - 1) as nat;
        lemma_visited_std_asked(cx, graph, asked, s, std_roots, k);
        if let Run::Done(t) = visited_std(cx, s, std_roots, n) {
            if let Run::Done(m) = visited_std(cx, s, std_roots, k) {
                let units = unit_values(std_roots[n - 1].units@);
                assert forall|i: int| 0 <= i < units.len() implies asked(
                    #[trigger] units[i],
                    root_unit_for(cx, units[i]),
                ) by {
                    assert(units[i] == std_roots[n - 1].units@[i]@);
                }
                lemma_visited_roots_progress(cx, anything(), m, units, units.len());
                lemma_visited_roots_asked(cx, graph, asked, m, units, units.len());
                if extends(t.graph, graph) {
                    lemma_both_asked(cx, asked, s, m, t);
                }
            }
        }
    }
}

pub proof fn lemma_joined(a: Seq<UnitDepView>, b: Seq<UnitDepView>, d: UnitDepView)
    ensures
        (a + b).contains(d) <==> a.contains(d) || b.contains(d),
{
    let all = a + b;
    if a.contains(d) {
        let i = a.index_of(d);
        assert(all[i] == d);
    }
    if b.contains(d) {
        let i = b.index_of(d);
        assert(all[a.len() + i] == d);
    }
    if all.contains(d) {
        let i = all.index_of(d);
        if i < a.len() {
            assert(a[i] == d);
        } else {
            assert(b[i - a.len()] == d);
        }
    }
}

/// All that is asked for in one part of a graph.
spec fn wanted_in(
    cx: Context,
    roots: Seq<UnitView>,
    std_roots: Seq<StdRoots>,
    graph: Graph,
    is_std: bool,
) -> Asked {
    |v: UnitView, f: UnitFor| is_wanted(cx, roots, std_roots, graph, is_std, v, f)
}

/// What a unit of the graph depends on is wanted.
proof fn lemma_dep_wanted(
    cx: Context,
    roots: Seq<UnitView>,
    std_roots: Seq<StdRoots>,
    graph: Graph,
    v: UnitView,
    d: UnitDepView,
)
    requires
        graph.contains_key(v),
        graph[v].contains(d),
        !d.noprelude,
    ensures
        is_wanted(
            cx,
            roots,
            std_roots,
            graph,
            context_at(cx, roots, std_roots, v).is_std,
            d.unit,
            d.unit_for,
        ),
{
}

/// What is scraped for a unit of the graph is wanted.
proof fn lemma_scraped_wanted(
    cx: Context,
    roots: Seq<UnitView>,
    std_roots: Seq<StdRoots>,
    graph: Graph,
    is_std: bool,
    v: UnitView,
    i: int,
)
    requires
        graph.contains_key(v),
        shows_examples(cx, v),
        0 <= i < cx.scrape_units@.len(),
    ensures
        is_wanted(
            cx,
            roots,
            std_roots,
            graph,
            is_std,
            cx.scrape_units@[i]@,
            scrape_unit_for(cx.scrape_units@[i]@),
        ),
{
}

/// A dependency that was found is not attached.
proof fn lemma_found_in_prelude(cx: Context, part: Search, v: UnitView, i: int)
    requires
        settled(cx, anything(), part, v),
        0 <= i < part.graph[v].len(),
    ensures
        !part.graph[v][i].noprelude,
{
    let f = choose|f: UnitFor| anything()(v, f) && #[trigger] explained(cx, part, v, f);
    lemma_own_deps_facts(cx, v, f);
}

/// One part of a graph asks for what is wanted in it.
proof fn lemma_part_asks(
    cx: Context,
    roots: Seq<UnitView>,
    std_roots: Seq<StdRoots>,
    found: Search,
    graph: Graph,
    is_std: bool,
    part: Search,
)
    requires
        planned(cx, roots, std_roots) == Run::Done(found),
        finished(cx, found, graph),
        forall|v: UnitView| #[trigger]
            part.graph.contains_key(v) ==> {
                &&& found.graph.contains_key(v)
                &&& context_at(cx, roots, std_roots, v).is_std == is_std
                &&& found.graph[v] == part.graph[v] + attached_to(cx, roots, std_roots, v)
                &&& settled(cx.for_std(is_std), anything(), part, v)
            },
    ensures
        asks_on(
            cx.for_std(is_std),
            part.graph,
            wanted_in(cx, roots, std_roots, graph, is_std),
        ),
{
    let here = cx.for_std(is_std);
    let asked = wanted_in(cx, roots, std_roots, graph, is_std);
    lemma_finished_dom(cx, found, graph);
    assert forall|v: UnitView, i: int|
        part.graph.contains_key(v) && 0 <= i < part.graph[v].len() implies asked(
        (#[trigger] part.graph[v][i]).unit,
        part.graph[v][i].unit_for,
    ) by {
        let d = part.graph[v][i];
        assert(found.graph[v][i] == d);
        assert(graph.contains_key(v));
        lemma_finished_dep(cx, found, graph, v, d);
        lemma_found_in_prelude(here, part, v, i);
        lemma_dep_wanted(cx, roots, std_roots, graph, v, d);
    }
    assert forall|v: UnitView, i: int|
        #[trigger] part.graph.contains_key(v) && scrapes(here, v) && 0 <= i
            < here.scrape_units@.len() implies asked(
        (#[trigger] here.scrape_units@[i])@,
        scrape_unit_for(here.scrape_units@[i]@),
    ) by {
        assert(graph.contains_key(v));
        assert(cx.scrape_units@[i]@ == here.scrape_units@[i]@);
        lemma_scraped_wanted(cx, roots, std_roots, graph, is_std, v, i);
    }
}

/// The part of the graph that a unit belongs to.
spec fn part_at(
    cx: Context,
    roots: Seq<UnitView>,
    std_roots: Seq<StdRoots>,
    is_std: bool,
) -> Search {
    if is_std {
        std_found(cx, std_roots)->Done_0
    } else {
        user_found(cx, roots, std_roots)->Done_0
    }
}

proof fn lemma_part_settled(
    cx: Context,
    roots: Seq<UnitView>,
    std_roots: Seq<StdRoots>,
    found: Search,
    u: UnitView,
    v: UnitView,
)
    requires
        planned(cx, roots, std_roots) == Run::Done(found),
        found.graph.contains_key(u),
        part_at(
            cx,
            roots,
            std_roots,
            context_at(cx, roots, std_roots, u).is_std,
        ).graph.contains_key(v),
    ensures
        ({
            let is_std = context_at(cx, roots, std_roots, u).is_std;
            let part = part_at(cx, roots, std_roots, is_std);
            &&& found.graph.contains_key(v)
            &&& context_at(cx, roots, std_roots, v).is_std == is_std
            &&& found.graph[v] == part.graph[v] + attached_to(cx, roots, std_roots, v)
            &&& settled(cx.for_std(is_std), anything(), part, v)
            &&& part.dev.subset_of(found.dev)
        }),
{
    lemma_planned(cx, roots, std_roots);
    lemma_planned_list(cx, roots, std_roots, found, u);
    lemma_user_found(cx, anything(), roots, std_roots);
    lemma_std_found(cx, anything(), std_roots);
    let std = std_found(cx, std_roots)->Done_0;
    assert(found.graph.contains_key(v));
    lemma_planned_list(cx, roots, std_roots, found, v);
    if context_at(cx, roots, std_roots, u).is_std {
        assert(std.graph[v] + Seq::<UnitDepView>::empty() =~= std.graph[v]);
    }
}

/// What a unit of the graph is built for, and what it then depends on.
pub proof fn lemma_wanted(
    cx: Context,
    roots: Seq<UnitView>,
    std_roots: Seq<StdRoots>,
    found: Search,
    graph: Graph,
    u: UnitView,
) -> (unit_for: UnitFor)
    requires
        scrapes_no_docs(cx),
        planned(cx, roots, std_roots) == Run::Done(found),
        finished(cx, found, graph),
        graph.contains_key(u),
    ensures
        ({
            let here = context_at(cx, roots, std_roots, u);
            &&& is_wanted(cx, roots, std_roots, graph, here.is_std, u, unit_for)
            &&& own_deps(here, u, unit_for) matches Run::Done(own)
            &&& found.graph[u] == own + attached_to(cx, roots, std_roots, u)
            &&& is_compiled(u) ==> dev_edges(here, u, unit_for).subset_of(found.dev)
        }),
{
    lemma_finished_dom(cx, found, graph);
    lemma_planned(cx, roots, std_roots);
    lemma_planned_list(cx, roots, std_roots, found, u);
    let here = context_at(cx, roots, std_roots, u);
    let is_std = here.is_std;
    let part = part_at(cx, roots, std_roots, is_std);
    let asked = wanted_in(cx, roots, std_roots, graph, is_std);
    assert forall|v: UnitView| #[trigger] part.graph.contains_key(v) implies {
        &&& found.graph.contains_key(v)
        &&& context_at(cx, roots, std_roots, v).is_std == is_std
        &&& found.graph[v] == part.graph[v] + attached_to(cx, roots, std_roots, v)
        &&& settled(cx.for_std(is_std), anything(), part, v)
    } by {
        lemma_part_settled(cx, roots, std_roots, found, u, v);
    }
    lemma_part_asks(cx, roots, std_roots, found, graph, is_std, part);
    lemma_part_settled(cx, roots, std_roots, found, u, u);
    lemma_part_asked(cx, roots, std_roots, graph, is_std, part, u);
    let unit_for = choose|f: UnitFor| asked(u, f) && #[trigger] explained(here, part, u, f);
    assert(explained(here, part, u, unit_for));
    unit_for
}

/// What is in one part of a graph is wanted in it.
proof fn lemma_part_asked(
    cx: Context,
    roots: Seq<UnitView>,
    std_roots: Seq<StdRoots>,
    graph: Graph,
    is_std: bool,
    part: Search,
    u: UnitView,
)
    requires
        scrapes_no_docs(cx),
        user_found(cx, roots, std_roots) is Done,
        part == part_at(cx, roots, std_roots, is_std),
        part.graph.contains_key(u),
        asks_on(
            cx.for_std(is_std),
            part.graph,
            wanted_in(cx, roots, std_roots, graph, is_std),
        ),
    ensures
        is_asked(
            cx.for_std(is_std),
            wanted_in(cx, roots, std_roots, graph, is_std),
            part,
            u,
        ),
{
    let here = cx.for_std(is_std);
    let asked = wanted_in(cx, roots, std_roots, graph, is_std);
    let std = std_found(cx, std_roots)->Done_0;
    assert(scrapes_no_docs(here)) by {
        assert forall|i: int| 0 <= i < here.scrape_units@.len() implies !(
        #[trigger] here.scrape_units@[i])@.mode.is_doc() by {
            assert(!cx.scrape_units@[i]@.mode.is_doc());
        }
    }
    if is_std {
        assert forall|k: int, i: int|
            0 <= k < std_roots.len() && 0 <= i < std_roots[k].units@.len() implies asked(
            (#[trigger] std_roots[k].units@[i])@,
            root_unit_for(here, std_roots[k].units@[i]@),
        ) by {
            let v = std_roots[k].units@[i]@;
            lemma_root_built_for(here, v, root_unit_for(here, v));
        }
        lemma_visited_std_asked(
            here,
            part.graph,
            asked,
            Search::empty(),
            std_roots,
            std_roots.len(),
        );
        assert(new_asked(here, asked, Search::empty(), std));
    } else {
        let start = Search { graph: Graph::empty(), dev: std.dev };
        assert forall|i: int| 0 <= i < roots.len() implies asked(
            #[trigger] roots[i],
            root_unit_for(here, roots[i]),
        ) by {
            lemma_root_built_for(here, roots[i], root_unit_for(here, roots[i]));
        }
        lemma_visited_roots_asked(here, part.graph, asked, start, roots, roots.len());
        assert(new_asked(here, asked, start, part));
    }
}

/// The graph holds what is asked for and nothing else. Every unit is built for
/// something that it is asked for, and it depends exactly on what then follows
/// from manifests and tables and, in the user's part of the graph, on the crates
/// of the standard library for its platform. Running a build script depends on
/// other executions in addition.
pub proof fn law_graph_follows(
    cx: Context,
    roots: Seq<UnitView>,
    std_roots: Seq<StdRoots>,
    graph: Graph,
    u: UnitView,
) -> (unit_for: UnitFor)
    requires
        is_unit_graph(cx, roots, std_roots, graph),
        graph.contains_key(u),
        forall|i: int|
            0 <= i < cx.scrape_units@.len() ==> !((#[trigger] cx.scrape_units@[i])@.mode is Doc),
    ensures
        ({
            let is_std = context_at(cx, roots, std_roots, u).is_std;
            &&& is_wanted(cx, roots, std_roots, graph, is_std, u, unit_for)
            &&& forall|d: UnitDepView|
                u.mode != CompileMode::RunCustomBuild || d.unit.mode != CompileMode::RunCustomBuild
                    ==> (#[trigger] graph[u].contains(d) <==> {
                    ||| follows(cx, is_std, u, unit_for, d)
                    ||| !is_std && is_std_dep(std_roots, u, d)
                })
        }),
{
    let found = planned(cx, roots, std_roots)->Done_0;
    let unit_for = lemma_wanted(cx, roots, std_roots, found, graph, u);
    lemma_list_follows(cx, roots, std_roots, found, graph, u, unit_for);
    unit_for
}

/// What follows from manifests and tables for a unit, and what it gets from the
/// standard library, is what it depends on. Running a build script depends on
/// other executions in addition.
pub proof fn lemma_follows(
    cx: Context,
    roots: Seq<UnitView>,
    std_roots: Seq<StdRoots>,
    graph: Graph,
    u: UnitView,
) -> (unit_for: UnitFor)
    requires
        is_unit_graph(cx, roots, std_roots, graph),
        graph.contains_key(u),
    ensures
        ({
            let is_std = context_at(cx, roots, std_roots, u).is_std;
            forall|d: UnitDepView|
                u.mode != CompileMode::RunCustomBuild || d.unit.mode != CompileMode::RunCustomBuild
                    ==> (#[trigger] graph[u].contains(d) <==> {
                    ||| follows(cx, is_std, u, unit_for, d)
                    ||| !is_std && is_std_dep(std_roots, u, d)
                })
        }),
{
    let found = planned(cx, roots, std_roots)->Done_0;
    lemma_finished_dom(cx, found, graph);
    let unit_for = lemma_built_for(cx, roots, std_roots, found, u);
    lemma_list_follows(cx, roots, std_roots, found, graph, u, unit_for);
    unit_for
}

pub proof fn lemma_list_follows(
    cx: Context,
    roots: Seq<UnitView>,
    std_roots: Seq<StdRoots>,
    found: Search,
    graph: Graph,
    u: UnitView,
    unit_for: UnitFor,
)
    requires
        finished(cx, found, graph),
        graph.contains_key(u),
        ({
            let here = context_at(cx, roots, std_roots, u);
            &&& own_deps(here, u, unit_for) matches Run::Done(own)
            &&& found.graph[u] == own + attached_to(cx, roots, std_roots, u)
        }),
    ensures
        ({
            let is_std = context_at(cx, roots, std_roots, u).is_std;
            forall|d: UnitDepView|
                u.mode != CompileMode::RunCustomBuild || d.unit.mode != CompileMode::RunCustomBuild
                    ==> (#[trigger] graph[u].contains(d) <==> {
                    ||| follows(cx, is_std, u, unit_for, d)
                    ||| !is_std && is_std_dep(std_roots, u, d)
                })
        }),
{
    let here = context_at(cx, roots, std_roots, u);
    let is_std = here.is_std;
    let own = own_deps(here, u, unit_for)->Done_0;
    let attached = attached_to(cx, roots, std_roots, u);
    assert forall|d: UnitDepView|
        u.mode != CompileMode::RunCustomBuild || d.unit.mode
            != CompileMode::RunCustomBuild implies (#[trigger] graph[u].contains(d) <==> {
        ||| follows(cx, is_std, u, unit_for, d)
        ||| !is_std && is_std_dep(std_roots, u, d)
    }) by {
        lemma_own_members(cx, is_std, u, unit_for, d);
        lemma_std_deps_members(std_roots, u, d);
        lemma_finished_dep(cx, found, graph, u, d);
        lemma_joined(own, attached, d);
        if additions(cx, found.graph, found.dev, u).contains(d) {
            let other = lemma_addition(cx, found.graph, found.dev, u, d);
        }
    }
}

/// What is built for the host brings its dependencies to the host. Where a unit is asked
/// for only as something for the host, so is all that it depends on for its sake; and where
/// it is asked for only with the features of the host side, these are used throughout.
/// Binaries that a test runs and what is attached from the standard library aside.
pub proof fn law_host_spreads(
    cx: Context,
    roots: Seq<UnitView>,
    std_roots: Seq<StdRoots>,
    graph: Graph,
    u: UnitView,
    d: UnitDepView,
)
    requires
        is_unit_graph(cx, roots, std_roots, graph),
        graph.contains_key(u),
        scrapes_no_docs(cx),
        u.mode != CompileMode::RunCustomBuild,
        !runs_bins(u),
        !shows_examples(cx, u),
        graph[u].contains(d),
        !d.noprelude,
    ensures
        (forall|f: UnitFor| #[trigger]
            is_wanted(
                cx,
                roots,
                std_roots,
                graph,
                context_at(cx, roots, std_roots, u).is_std,
                u,
                f,
            ) ==> f.host) ==> d.unit_for.host,
        (forall|f: UnitFor| #[trigger]
            is_wanted(
                cx,
                roots,
                std_roots,
                graph,
                context_at(cx, roots, std_roots, u).is_std,
                u,
                f,
            ) ==> f.host_features) ==> d.unit_for.host_features,
        (forall|f: UnitFor| #[trigger]
            is_wanted(
                cx,
                roots,
                std_roots,
                graph,
                context_at(cx, roots, std_roots, u).is_std,
                u,
                f,
            ) ==> f.panic_setting == PanicSetting::AlwaysUnwind) ==> d.unit_for.panic_setting
            == PanicSetting::AlwaysUnwind,
        d.unit.target.for_host || d.unit.mode == CompileMode::RunCustomBuild ==> d.unit_for.host
            && d.unit_for.panic_setting == PanicSetting::AlwaysUnwind,
        u.target.kind == TargetKind::CustomBuild && !(u.mode is Doc) || d.unit.target.proc_macro
            && d.unit.mode != CompileMode::RunCustomBuild ==> d.unit_for.host_features,
{
    let is_std = context_at(cx, roots, std_roots, u).is_std;
    let unit_for = law_graph_follows(cx, roots, std_roots, graph, u);
    assert(follows(cx, is_std, u, unit_for, d));
    assert(is_wanted(cx, roots, std_roots, graph, is_std, u, unit_for));
}

} // verus!
