//! How laying out a build ends, in terms of its inputs.

use crate::compile::{CompileKind, CompileMode};
use crate::context::Context;
use crate::dep_order::{lex_le, package_le, package_word};
use crate::dependency::Dependency;
use crate::errors::DepError;
use crate::facts::{downloaded, is_ambiguity};
use crate::graph_laws::std_listed_at;
use crate::interning::InternedString;
use crate::laws::{
    context_at, lemma_finished_dom, lemma_own_in_graph, lemma_planned, lemma_planned_list,
    std_found, user_found,
};
use crate::layout::{
    is_unit_graph, planned, some_want_std, std_roots_of, visited_std, wants_std, StdRoots,
};
use crate::links::{clash, first_clash, linked_to, links_error, no_later};
use crate::lookup::{is_first, lemma_found};
use crate::members::{lemma_active_edge, lemma_holds_package, lemma_joins, lemma_leads};
use crate::order_laws::{filter_of, lemma_edge_within, lemma_parts};
use crate::outcome::lemma_visited_roots_outcome;
use crate::package::{PackageId, PackageView};
use crate::plan::{active_edges, all_package_deps, edge_deps};
use crate::resolve::{Resolve, ResolveEdge};
use crate::run::Run;
use crate::search::{scrape_ends, scrapes, visited_roots, Search};
use crate::table_laws::{
    edges_complete, law_complete_tables, lemma_visited_std_outcome, resolve_complete,
    std_unit_ready, unit_ready,
};
use crate::target::TargetView;
use crate::terms::{edge_at, gets_edge, holds_package, joins, leads, node_at, resolution_of};
use crate::unit::UnitView;
use crate::unit_graph::Graph;
use vstd::prelude::*;

verus! {

/// Whether a package comes before another one: by name, then by version, then by
/// source.
pub open spec fn comes_before(a: PackageId, b: PackageId) -> bool {
    if a.name != b.name {
        a.name.sym < b.name.sym
    } else if a.version != b.version {
        a.version < b.version
    } else if a.source.id != b.source.id {
        a.source.id < b.source.id
    } else {
        !a.source.is_path && b.source.is_path
    }
}

/// The order of packages, spelled out.
pub proof fn law_package_order(a: PackageId, b: PackageId)
    ensures
        package_le(a, b) <==> a == b || comes_before(a, b),
{
    reveal_with_fuel(lex_le, 5);
    let (x, y) = (package_word(a), package_word(b));
    assert(x.drop_first().drop_first().drop_first().drop_first().len() == 0);
    assert(x.drop_first()[0] == x[1] && y.drop_first()[0] == y[1]);
    assert(x.drop_first().drop_first()[0] == x[2] && y.drop_first().drop_first()[0] == y[2]);
    assert(x.drop_first().drop_first().drop_first()[0] == x[3]
        && y.drop_first().drop_first().drop_first()[0] == y[3]);
}

/// Where a package and a native library stand in the order of clashes.
spec fn place(pkg: PackageId, links: InternedString) -> nat {
    ((((pkg.name.sym * 0x1_0000_0000 + pkg.version) * 0x1_0000_0000 + pkg.source.id) * 2 + (
    if pkg.source.is_path {
        1int
    } else {
        0int
    })) * 0x1_0000_0000 + links.sym) as nat
}

proof fn lemma_place(a: InternedString, x: PackageId, b: InternedString, y: PackageId)
    requires
        place(x, a) <= place(y, b),
    ensures
        no_later(a, x, b, y),
{
    law_package_order(x, y);
}

/// Where two packages clash, there is a first clash.
proof fn lemma_first_clash_exists(
    graph: Graph,
    links: InternedString,
    prev: PackageId,
    pkg: PackageId,
)
    requires
        clash(graph, links, prev, pkg),
    ensures
        exists|l: InternedString, a: PackageId, b: PackageId| first_clash(graph, l, a, b),
    decreases place(pkg, links),
{
    if forall|l: InternedString, a: PackageId, b: PackageId| #[trigger]
        clash(graph, l, a, b) ==> place(pkg, links) <= place(b, l) {
        assert forall|l: InternedString, a: PackageId, b: PackageId| #[trigger]
            clash(graph, l, a, b) implies no_later(links, pkg, l, b) by {
            lemma_place(links, pkg, l, b);
        }
        assert(first_clash(graph, links, prev, pkg));
    } else {
        let (l, a, b) = choose|l: InternedString, a: PackageId, b: PackageId| #[trigger]
            clash(graph, l, a, b) && place(pkg, links) > place(b, l);
        lemma_first_clash_exists(graph, l, a, b);
    }
}

/// The name that a dependency gives to a crate.
pub open spec fn given_name(dep: Dependency, own: InternedString) -> InternedString {
    match dep.rename {
        Some(name) => name,
        None => own,
    }
}

/// Whether two dependencies of an edge give a crate different names.
pub open spec fn names_differ(edge: ResolveEdge) -> bool {
    exists|i: int, j: int, own: InternedString|
        0 <= i < edge.deps@.len() && 0 <= j < edge.deps@.len() && #[trigger] given_name(
            edge.deps@[i],
            own,
        ) != #[trigger] given_name(edge.deps@[j], own)
}

/// Whether an error has a reason: dependencies between the two packages give a
/// crate different names, or both packages have units in the user's part of the
/// graph and link to the same native library. They are told in their order, and no package
/// before them clashes with an earlier one.
pub open spec fn has_reason(
    cx: Context,
    roots: Seq<UnitView>,
    std_roots: Seq<StdRoots>,
    e: DepError,
) -> bool {
    match e {
        DepError::AmbiguousName { from, to } => from != to && exists|
            is_std: bool,
            edge: ResolveEdge,
        |
            {
                &&& #[trigger] joins(resolution_of(cx, is_std), from, to, edge)
                &&& names_differ(edge)
                &&& is_std ==> std_roots.len() > 0
            },
        DepError::LinksConflict { links, prev, pkg } => {
            &&& comes_before(prev, pkg)
            &&& user_found(cx, roots, std_roots) matches Run::Done(user)
            &&& forall|a: UnitView, b: UnitView|
                {
                    &&& #[trigger] user.graph.contains_key(a)
                    &&& #[trigger] user.graph.contains_key(b)
                    &&& a.pkg.links is Some
                    &&& a.pkg.links == b.pkg.links
                    &&& comes_before(a.pkg.id, b.pkg.id)
                } ==> !comes_before(b.pkg.id, pkg)
            &&& exists|a: UnitView, b: UnitView|
                {
                    &&& #[trigger] user.graph.contains_key(a) && a.pkg.id == prev && a.pkg.links
                        == Some(links)
                    &&& #[trigger] user.graph.contains_key(b) && b.pkg.id == pkg && b.pkg.links
                        == Some(links)
                }
        },
    }
}

proof fn lemma_ambiguity(cx: Context, is_std: bool, e: DepError)
    requires
        is_ambiguity(cx.for_std(is_std), e),
    ensures
        e matches DepError::AmbiguousName { from, to } && from != to && exists|edge: ResolveEdge|
            #[trigger] joins(resolution_of(cx, is_std), from, to, edge) && names_differ(edge),
{
    let here = cx.for_std(is_std);
    let resolve = resolution_of(cx, is_std);
    assert(here.spec_resolve() == resolve);
    if let DepError::AmbiguousName { from, to } = e {
        let target = choose|target: TargetView| #[trigger]
            resolve.spec_extern_crate_name(from, to, target) is Err;
        let edge = resolve.spec_edge(from, to)->0;
        lemma_joins(resolve, from, to, edge);
        let deps = edge.deps@;
        let own = target.crate_name;
        let i = choose|i: int|
            0 <= i < deps.len() && given_name(#[trigger] deps[i], own) != given_name(deps[0], own);
        assert(given_name(deps[i], own) != given_name(deps[0], own)) by {
            if forall|i: int|
                0 <= i < deps.len() ==> given_name(#[trigger] deps[i], own) == given_name(
                    deps[0],
                    own,
                ) {
                assert(resolve.spec_extern_crate_name(from, to, target) is Ok);
            }
        }
        assert(names_differ(edge));
    }
}

/// A build fails only for a reason, and the error tells it.
pub proof fn law_errors_have_reasons(
    cx: Context,
    roots: Seq<UnitView>,
    std_roots: Seq<StdRoots>,
    e: DepError,
)
    requires
        planned(cx, roots, std_roots) == Run::<Search>::Failed(e),
    ensures
        has_reason(cx, roots, std_roots, e),
{
    let all = |u: UnitView| true;
    let std = std_found(cx, std_roots);
    let start = Search { graph: Graph::empty(), dev: (std->Done_0).dev };
    lemma_visited_std_outcome(
        cx.for_std(true),
        all,
        Search::empty(),
        std_roots,
        std_roots.len(),
    );
    lemma_visited_roots_outcome(cx.for_std(false), all, start, roots, roots.len());
    if std is Failed {
        lemma_ambiguity(cx, true, e);
    } else if user_found(cx, roots, std_roots) is Failed {
        lemma_ambiguity(cx, false, e);
    } else {
        let user = user_found(cx, roots, std_roots)->Done_0;
        let g = user.graph;
        let (x, y, z) = choose|l: InternedString, a: PackageId, b: PackageId| clash(g, l, a, b);
        lemma_first_clash_exists(g, x, y, z);
        let (links, prev, pkg) = choose|l: InternedString, a: PackageId, b: PackageId|
            first_clash(g, l, a, b);
        assert(e == DepError::LinksConflict { links, prev, pkg });
        assert(clash(g, links, prev, pkg));
        law_package_order(prev, pkg);
        let a = choose|u: UnitView| #[trigger]
            g.contains_key(u) && u.pkg.id == prev && u.pkg.links == Some(links);
        let b = choose|u: UnitView| #[trigger]
            g.contains_key(u) && u.pkg.id == pkg && u.pkg.links == Some(links);
        assert(g.contains_key(a) && g.contains_key(b));
        assert forall|x: UnitView, y: UnitView|
            {
                &&& #[trigger] g.contains_key(x)
                &&& #[trigger] g.contains_key(y)
                &&& x.pkg.links is Some
                &&& x.pkg.links == y.pkg.links
                &&& comes_before(x.pkg.id, y.pkg.id)
            } implies !comes_before(y.pkg.id, pkg) by {
            let l = x.pkg.links->0;
            law_package_order(x.pkg.id, y.pkg.id);
            law_package_order(pkg, y.pkg.id);
            assert(linked_to(g, x.pkg.id, l) && linked_to(g, y.pkg.id, l));
            assert(clash(g, l, x.pkg.id, y.pkg.id));
        }
    }
}

/// Whether every edge of a resolution lists dependencies, agrees on names, and leads
/// to a package that has been downloaded.
pub open spec fn edges_sound(cx: Context, resolve: Resolve) -> bool {
    forall|from: PackageId, edge: ResolveEdge| #[trigger]
        leads(resolve, from, edge) ==> {
            &&& edge.deps@.len() > 0
            &&& forall|i: int, j: int|
                0 <= i < edge.deps@.len() && 0 <= j < edge.deps@.len() ==> (
                #[trigger] edge.deps@[i]).rename == (#[trigger] edge.deps@[j]).rename
            &&& exists|pkg: PackageView| #[trigger]
                holds_package(*cx.package_set, pkg) && pkg.id == edge.to
        }
}

/// Whether a unit belongs to the user, and the standard library is listed for its
/// platform if it is to be built.
pub open spec fn is_ready(std_roots: Seq<StdRoots>, u: UnitView) -> bool {
    &&& !u.is_std
    &&& std_roots.len() > 0 && u.kind is Target ==> exists|k: int| #[trigger]
        std_listed_at(std_roots, u.kind, k)
}

proof fn lemma_ready(std_roots: Seq<StdRoots>, u: UnitView)
    requires
        is_ready(std_roots, u),
    ensures
        unit_ready(std_roots, u),
{
    if std_roots.len() > 0 && u.kind is Target {
        let k = choose|k: int| #[trigger] std_listed_at(std_roots, u.kind, k);
        let p = std_roots_of(u.kind);
        assert(is_first(std_roots, p, k));
        lemma_found(std_roots, p, k);
    }
}

proof fn lemma_resolve_complete(cx: Context, is_std: bool)
    requires
        is_std ==> cx.std_resolve is Some,
        edges_sound(cx, resolution_of(cx, is_std)),
        forall|i: int|
            0 <= i < cx.scrape_units@.len() ==> !((#[trigger] cx.scrape_units@[i])@.mode is Doc),
    ensures
        resolve_complete(cx.for_std(is_std)),
{
    let here = cx.for_std(is_std);
    let resolve = resolution_of(cx, is_std);
    assert(here.spec_resolve() == resolve);
    assert forall|pkg: PackageId| #[trigger] edges_complete(here, pkg) by {
        let edges = resolve.spec_deps(pkg);
        assert forall|i: int| 0 <= i < edges.len() implies (#[trigger] edges[i]).deps@.len() > 0
            && downloaded(here, edges[i].to) by {
            assert(edges.contains(edges[i]));
            lemma_leads(resolve, pkg, edges[i]);
            let held = choose|held: PackageView| #[trigger]
                holds_package(*cx.package_set, held) && held.id == edges[i].to;
            lemma_holds_package(*cx.package_set, edges[i].to, held);
        }
    }
    assert(scrape_ends(here)) by {
        assert forall|i: int| 0 <= i < here.scrape_units@.len() implies !scrapes(
            here,
            (#[trigger] here.scrape_units@[i])@,
        ) by {
            assert(!(cx.scrape_units@[i]@.mode is Doc));
        }
    }
}

/// An edge that joins two packages leads from the first one.
proof fn lemma_joined_leads(resolve: Resolve, from: PackageId, to: PackageId, edge: ResolveEdge)
    requires
        joins(resolve, from, to, edge),
    ensures
        leads(resolve, from, edge),
{
    let (n, i) = choose|n: int, i: int|
        #[trigger] node_at(resolve, from, n) && #[trigger] edge_at(
            resolve.nodes@[n].edges@,
            to,
            i,
        ) && resolve.nodes@[n].edges@[i] == edge;
    assert(resolve.nodes@[n].edges@.contains(edge));
}

/// A build whose tables fit together is laid out, or fails because two packages link
/// to the same native library. The tables fit together where resolutions list
/// dependencies, agree on names and lead to downloaded packages, roots and what is
/// scraped belong to the user, and the crates of the standard library, if it is to be
/// built, are its own, are listed for all platforms and document nothing.
pub proof fn law_build_succeeds(cx: Context, roots: Seq<UnitView>, std_roots: Seq<StdRoots>)
    requires
        edges_sound(cx, *cx.usr_resolve),
        std_roots.len() > 0 ==> cx.std_resolve is Some && edges_sound(cx, (cx.std_resolve->0).0),
        forall|i: int| 0 <= i < roots.len() ==> is_ready(std_roots, #[trigger] roots[i]),
        forall|i: int|
            0 <= i < cx.scrape_units@.len() ==> is_ready(
                std_roots,
                (#[trigger] cx.scrape_units@[i])@,
            ) && !(cx.scrape_units@[i]@.mode is Doc),
        forall|k: int, i: int|
            0 <= k < std_roots.len() && 0 <= i < std_roots[k].units@.len() ==> (
            #[trigger] std_roots[k].units@[i])@.is_std && !(std_roots[k].units@[i]@.mode is Doc),
    ensures
        !(planned(cx, roots, std_roots) is Stuck),
        planned(cx, roots, std_roots) matches Run::Failed(e) ==> e is LinksConflict,
{
    lemma_resolve_complete(cx, false);
    if std_roots.len() > 0 {
        lemma_resolve_complete(cx, true);
    }
    assert forall|i: int| 0 <= i < roots.len() implies unit_ready(
        std_roots,
        #[trigger] roots[i],
    ) by {
        lemma_ready(std_roots, roots[i]);
    }
    assert forall|i: int| 0 <= i < cx.scrape_units@.len() implies unit_ready(
        std_roots,
        (#[trigger] cx.scrape_units@[i])@,
    ) by {
        lemma_ready(std_roots, cx.scrape_units@[i]@);
    }
    assert forall|k: int, i: int|
        0 <= k < std_roots.len() && 0 <= i < std_roots[k].units@.len() implies std_unit_ready(
        (#[trigger] std_roots[k].units@[i])@,
    ) by {}
    law_complete_tables(cx, roots, std_roots);
    if let Run::Failed(e) = planned(cx, roots, std_roots) {
        law_errors_have_reasons(cx, roots, std_roots, e);
        if let DepError::AmbiguousName { from, to } = e {
            let (is_std, edge) = choose|is_std: bool, edge: ResolveEdge|
                {
                    &&& #[trigger] joins(resolution_of(cx, is_std), from, to, edge)
                    &&& names_differ(edge)
                    &&& is_std ==> std_roots.len() > 0
                };
            lemma_joined_leads(resolution_of(cx, is_std), from, to, edge);
            let (i, j, own) = choose|i: int, j: int, own: InternedString|
                0 <= i < edge.deps@.len() && 0 <= j < edge.deps@.len() && #[trigger] given_name(
                    edge.deps@[i],
                    own,
                ) != #[trigger] given_name(edge.deps@[j], own);
            assert(edge.deps@[i].rename == edge.deps@[j].rename);
        }
    }
}

/// Without roots there is nothing to build, whatever is asked for of the standard
/// library.
pub proof fn law_nothing_without_roots(
    cx: Context,
    roots: Seq<UnitView>,
    std_roots: Seq<StdRoots>,
    graph: Graph,
    u: UnitView,
)
    requires
        is_unit_graph(cx, roots, std_roots, graph),
        roots.len() == 0,
    ensures
        !graph.contains_key(u),
{
}

/// The standard library is not built for nothing: where no unit of the user's part
/// of the graph is for a requested platform, but for executions of build scripts, or
/// no standard library is asked for, the graph is the user's part.
pub proof fn law_std_when_needed(
    cx: Context,
    roots: Seq<UnitView>,
    std_roots: Seq<StdRoots>,
    graph: Graph,
    u: UnitView,
)
    requires
        is_unit_graph(cx, roots, std_roots, graph),
        std_roots.len() == 0 || forall|v: UnitView| #[trigger]
            graph.contains_key(v) && !context_at(cx, roots, std_roots, v).is_std ==> v.kind
                == CompileKind::Host || v.mode == CompileMode::RunCustomBuild,
        graph.contains_key(u),
    ensures
        !context_at(cx, roots, std_roots, u).is_std,
{
    let found = planned(cx, roots, std_roots)->Done_0;
    lemma_finished_dom(cx, found, graph);
    lemma_planned(cx, roots, std_roots);
    lemma_planned_list(cx, roots, std_roots, found, u);
    let user = user_found(cx, roots, std_roots)->Done_0;
    if std_roots.len() > 0 && some_want_std(user.graph) {
        let v = choose|v: UnitView| #[trigger] user.graph.contains_key(v) && wants_std(v);
        assert(found.graph.contains_key(v));
        assert(graph.contains_key(v));
    }
}

/// Nothing is passed over in silence. Where a build is laid out, every edge of a package
/// that has a unit to compile or document lists dependencies, and those that the unit
/// gets whatever it is built for lead to packages that have been downloaded.
pub proof fn law_nothing_passed_over(
    cx: Context,
    roots: Seq<UnitView>,
    std_roots: Seq<StdRoots>,
    graph: Graph,
    u: UnitView,
    edge: ResolveEdge,
)
    requires
        is_unit_graph(cx, roots, std_roots, graph),
        graph.contains_key(u),
        u.mode != CompileMode::RunCustomBuild,
        leads(
            resolution_of(cx, context_at(cx, roots, std_roots, u).is_std),
            u.pkg.id,
            edge,
        ),
    ensures
        edge.deps@.len() > 0,
        context_at(cx, roots, std_roots, u).is_std ==> cx.std_resolve is Some,
        (forall|host: bool| #[trigger]
            gets_edge(cx, context_at(cx, roots, std_roots, u).is_std, u, host, edge)) ==> exists|
            pkg: PackageView,
        | #[trigger] holds_package(*cx.package_set, pkg) && pkg.id == edge.to,
{
    let here = context_at(cx, roots, std_roots, u);
    let is_std = here.is_std;
    let unit_for = lemma_own_in_graph(cx, roots, std_roots, graph, u);
    let filter = filter_of(u);
    let edges = active_edges(here, u, unit_for, filter);
    lemma_parts(here, u, unit_for);
    assert(all_package_deps(here, u, unit_for, filter) is Done);
    assert(here.spec_resolve() == resolution_of(cx, is_std));
    lemma_leads(resolution_of(cx, is_std), u.pkg.id, edge);
    let all = here.spec_resolve().spec_deps(u.pkg.id);
    let n = all.index_of(edge);
    assert(all[n] == edge);
    if forall|host: bool| #[trigger] gets_edge(cx, is_std, u, host, edge) {
        assert(gets_edge(cx, is_std, u, unit_for.host_features, edge));
        lemma_active_edge(cx, is_std, u, unit_for, edge);
        let k = edges.index_of(edge);
        assert(edges[k] == edge);
        lemma_edge_within(here, u, unit_for, filter, edges.len(), k);
        assert(edge_deps(here, u, unit_for, filter, edges[k]) is Done);
        let pkg = cx.package_set.spec_get_one(edge.to)->0;
        lemma_holds_package(*cx.package_set, edge.to, pkg);
    }
}

/// A build is laid out in stages, and the first that does not come to a result decides how
/// it ends: the standard library, then what follows from the roots, then native libraries.
pub proof fn law_stages(cx: Context, roots: Seq<UnitView>, std_roots: Seq<StdRoots>)
    ensures
        ({
            let std = visited_std(cx.for_std(true), Search::empty(), std_roots, std_roots.len());
            let user = visited_roots(
                cx.for_std(false),
                (Search { graph: Graph::empty(), dev: (std->Done_0).dev }),
                roots,
                roots.len(),
            );
            if !(std is Done) {
                planned(cx, roots, std_roots) == std
            } else if !(user is Done) {
                planned(cx, roots, std_roots) == user
            } else if links_error((user->Done_0).graph) is Some {
                planned(cx, roots, std_roots) == Run::<Search>::Failed(
                    links_error((user->Done_0).graph)->0,
                )
            } else {
                !(planned(cx, roots, std_roots) is Failed)
            }
        }),
{
}

} // verus!
