//! When laying out a build fails, and when its tables suffice.

use crate::compile::CompileKind;
use crate::context::Context;
use crate::errors::DepError;
use crate::facts::{
    downloaded, is_ambiguity, is_lowered, is_scraped, lemma_own_deps_facts, tables_suffice,
};
use crate::laws::{asks_roots, lemma_std_found, lemma_user_found, std_found, user_found};
use crate::layout::{disjoint, planned, std_covers, std_units, visited_std, StdRoots};
use crate::links::links_error;
use crate::outcome::{fits_on, lemma_visited_roots_outcome, Fit};
use crate::package::PackageId;
use crate::profiles::UnitFor;
use crate::run::Run;
use crate::search::{scrape_ends, Search};
use crate::unit::{unit_values, UnitDepView, UnitView};
use crate::unit_graph::Graph;
use crate::walk::{leads_on, own_deps, settled, Asked};
use vstd::prelude::*;

verus! {

pub proof fn lemma_visited_std_outcome(
    cx: Context,
    fit: Fit,
    s: Search,
    std_roots: Seq<StdRoots>,
    n: nat,
)
    requires
        n <= std_roots.len(),
    ensures
        visited_std(cx, s, std_roots, n) matches Run::Failed(e) ==> is_ambiguity(cx, e),
        fits_on(cx, fit) && std_roots_fit(std_roots, fit) ==> !(visited_std(
            cx,
            s,
            std_roots,
            n,
        ) is Stuck),
    decreases n,
{
    if n > 0 {
        let k = (n - 1) as nat;
        lemma_visited_std_outcome(cx, fit, s, std_roots, k);
        if let Run::Done(t) = visited_std(cx, s, std_roots, k) {
            let units = unit_values(std_roots[n - 1].units@);
            assert(std_roots_fit(std_roots, fit) ==> forall|i: int|
                0 <= i < units.len() ==> fit(#[trigger] units[i])) by {
                if std_roots_fit(std_roots, fit) {
                    assert forall|i: int| 0 <= i < units.len() implies fit(#[trigger] units[i]) by {
                        assert(units[i] == std_roots[n - 1].units@[i]@);
                    }
                }
            }
            lemma_visited_roots_outcome(cx, fit, t, units, units.len());
        }
    }
}

/// Whether `fit` holds of all crates of the standard library.
pub open spec fn std_roots_fit(std_roots: Seq<StdRoots>, fit: Fit) -> bool {
    forall|k: int, i: int|
        0 <= k < std_roots.len() && 0 <= i < std_roots[k].units@.len() ==> fit(
            (#[trigger] std_roots[k].units@[i])@,
        )
}

/// A build fails only for a reason: dependencies that give a crate different
/// names, or two packages that link to the same native library.
pub proof fn law_errors_justified(
    cx: Context,
    roots: Seq<UnitView>,
    std_roots: Seq<StdRoots>,
    e: DepError,
)
    requires
        planned(cx, roots, std_roots) == Run::<Search>::Failed(e),
    ensures
        ({
            ||| is_ambiguity(cx.for_std(true), e)
            ||| is_ambiguity(cx.for_std(false), e)
            ||| user_found(cx, roots, std_roots) matches Run::Done(user) && links_error(
                user.graph,
            ) == Some(e)
        }),
{
    let all = |u: UnitView| true;
    lemma_visited_std_outcome(
        cx.for_std(true),
        all,
        Search::empty(),
        std_roots,
        std_roots.len(),
    );
    if let Run::Done(std) = std_found(cx, std_roots) {
        let start = Search { graph: Graph::empty(), dev: std.dev };
        lemma_visited_roots_outcome(cx.for_std(false), all, start, roots, roots.len());
    }
}

/// Whether the edges of a package list dependencies and lead to packages that
/// have been downloaded.
pub open spec fn edges_complete(cx: Context, pkg: PackageId) -> bool {
    let edges = cx.spec_resolve().spec_deps(pkg);
    forall|i: int|
        0 <= i < edges.len() ==> (#[trigger] edges[i]).deps@.len() > 0 && downloaded(
            cx,
            edges[i].to,
        )
}

/// Whether there is a resolution that is complete, and nothing would have to be
/// scraped before itself.
pub open spec fn resolve_complete(cx: Context) -> bool {
    &&& cx.has_resolve()
    &&& forall|pkg: PackageId| #[trigger] edges_complete(cx, pkg)
    &&& scrape_ends(cx)
}

spec fn fit_all() -> Fit {
    |u: UnitView| true
}

proof fn lemma_fits_on(cx: Context)
    requires
        resolve_complete(cx),
    ensures
        fits_on(cx, fit_all()),
{
    let fit = fit_all();
    assert forall|u: UnitView| #[trigger] fit(u) implies tables_suffice(cx, u) by {
        assert(edges_complete(cx, u.pkg.id));
    }
}

/// Whether the standard library is there for the kind of a unit, if that depends
/// on it.
pub open spec fn kind_covered(std_roots: Seq<StdRoots>, kind: CompileKind) -> bool {
    kind.is_host() || std_units(std_roots, kind) is Some
}

/// Whether a unit of the user can be asked for: there is a standard library for
/// its kind, if there is one at all.
pub open spec fn unit_ready(std_roots: Seq<StdRoots>, u: UnitView) -> bool {
    &&& !u.is_std
    &&& std_roots.len() > 0 ==> kind_covered(std_roots, u.kind)
}

/// Whether a unit of the standard library can be asked for.
pub open spec fn std_unit_ready(u: UnitView) -> bool {
    u.is_std && !u.mode.is_doc()
}

spec fn asked_of_user(std_roots: Seq<StdRoots>) -> Asked {
    |u: UnitView, unit_for: UnitFor|
        !u.is_std && (std_roots.len() > 0 ==> kind_covered(std_roots, u.kind))
}

spec fn asked_of_std() -> Asked {
    |u: UnitView, unit_for: UnitFor| u.is_std && !u.mode.is_doc()
}

proof fn lemma_user_leads_on(cx: Context, std_roots: Seq<StdRoots>)
    requires
        !cx.is_std,
        forall|i: int|
            0 <= i < cx.scrape_units@.len() ==> unit_ready(
                std_roots,
                (#[trigger] cx.scrape_units@[i])@,
            ),
    ensures
        leads_on(cx, asked_of_user(std_roots)),
{
    let asked = asked_of_user(std_roots);
    assert forall|u: UnitView, unit_for: UnitFor, deps: Seq<UnitDepView>, i: int|
        #[trigger] asked(u, unit_for) && own_deps(cx, u, unit_for) == Run::Done(deps) && 0 <= i
            < deps.len() implies asked((#[trigger] deps[i]).unit, deps[i].unit_for) by {
        lemma_own_deps_facts(cx, u, unit_for);
        assert(is_lowered(cx, u, deps[i]) || is_scraped(cx, u, deps[i]));
        if is_scraped(cx, u, deps[i]) {
            let k = choose|k: int|
                0 <= k < cx.scrape_units@.len() && deps[i].unit.kind == (
                #[trigger] cx.scrape_units@[k])@.kind && deps[i].unit.mode
                    == cx.scrape_units@[k]@.mode;
            assert(unit_ready(std_roots, cx.scrape_units@[k]@));
        }
    }
}

proof fn lemma_std_leads_on(cx: Context)
    requires
        cx.is_std,
    ensures
        leads_on(cx, asked_of_std()),
{
    let asked = asked_of_std();
    assert forall|u: UnitView, unit_for: UnitFor, deps: Seq<UnitDepView>, i: int|
        #[trigger] asked(u, unit_for) && own_deps(cx, u, unit_for) == Run::Done(deps) && 0 <= i
            < deps.len() implies asked((#[trigger] deps[i]).unit, deps[i].unit_for) by {
        lemma_own_deps_facts(cx, u, unit_for);
        assert(is_lowered(cx, u, deps[i]));
    }
}

/// Tables that are complete are never found wanting: where resolutions lead to
/// downloaded packages only, roots and what is scraped belong to the user, and
/// the standard library is there for their kinds, is its own and documents
/// nothing, a build is laid out or fails with an error.
pub proof fn law_complete_tables(cx: Context, roots: Seq<UnitView>, std_roots: Seq<StdRoots>)
    requires
        resolve_complete(cx.for_std(false)),
        std_roots.len() > 0 ==> resolve_complete(cx.for_std(true)),
        forall|i: int|
            0 <= i < roots.len() ==> unit_ready(std_roots, #[trigger] roots[i]),
        forall|i: int|
            0 <= i < cx.scrape_units@.len() ==> unit_ready(
                std_roots,
                (#[trigger] cx.scrape_units@[i])@,
            ),
        forall|k: int, i: int|
            0 <= k < std_roots.len() && 0 <= i < std_roots[k].units@.len() ==> std_unit_ready(
                (#[trigger] std_roots[k].units@[i])@,
            ),
    ensures
        !(planned(cx, roots, std_roots) is Stuck),
{
    let user_cx = cx.for_std(false);
    let std_cx = cx.for_std(true);
    if std_roots.len() > 0 {
        lemma_fits_on(std_cx);
        lemma_visited_std_outcome(
            std_cx,
            fit_all(),
            Search::empty(),
            std_roots,
            std_roots.len(),
        );
    }
    assert(!(std_found(cx, std_roots) is Stuck));
    if let Run::Done(std) = std_found(cx, std_roots) {
        let start = Search { graph: Graph::empty(), dev: std.dev };
        lemma_fits_on(user_cx);
        lemma_visited_roots_outcome(user_cx, fit_all(), start, roots, roots.len());
        if let Run::Done(user) = user_found(cx, roots, std_roots) {
            if std_roots.len() > 0 {
                lemma_attaches(cx, roots, std_roots, std, user);
            }
        }
    }
}

/// The standard library can be attached.
proof fn lemma_attaches(
    cx: Context,
    roots: Seq<UnitView>,
    std_roots: Seq<StdRoots>,
    std: Search,
    user: Search,
)
    requires
        std_found(cx, std_roots) == Run::Done(std),
        user_found(cx, roots, std_roots) == Run::Done(user),
        std_roots.len() > 0,
        forall|i: int|
            0 <= i < roots.len() ==> unit_ready(std_roots, #[trigger] roots[i]),
        forall|i: int|
            0 <= i < cx.scrape_units@.len() ==> unit_ready(
                std_roots,
                (#[trigger] cx.scrape_units@[i])@,
            ),
        forall|k: int, i: int|
            0 <= k < std_roots.len() && 0 <= i < std_roots[k].units@.len() ==> std_unit_ready(
                (#[trigger] std_roots[k].units@[i])@,
            ),
    ensures
        std_covers(user.graph, std_roots),
        disjoint(user.graph, std.graph),
{
    let user_cx = cx.for_std(false);
    let std_cx = cx.for_std(true);
    let asked = asked_of_user(std_roots);
    let std_asked = asked_of_std();
    assert forall|i: int| 0 <= i < user_cx.scrape_units@.len() implies unit_ready(std_roots,
        (#[trigger] user_cx.scrape_units@[i])@,
    ) by {
        assert(unit_ready(std_roots, cx.scrape_units@[i]@));
    }
    lemma_user_leads_on(user_cx, std_roots);
    lemma_std_leads_on(std_cx);
    assert(asks_roots(user_cx, asked, roots));
    lemma_user_found(cx, asked, roots, std_roots);
    assert forall|k: int| 0 <= k < std_roots.len() implies asks_roots(
        std_cx,
        std_asked,
        unit_values((#[trigger] std_roots[k]).units@),
    ) by {
        let units = unit_values(std_roots[k].units@);
        assert forall|i: int| 0 <= i < units.len() implies #[trigger] units[i].is_std
            && !units[i].mode.is_doc() by {
            assert(std_unit_ready(std_roots[k].units@[i]@));
        }
    }
    lemma_std_found(cx, std_asked, std_roots);
    assert forall|u: UnitView| #[trigger] user.graph.contains_key(u) implies asked(
        u,
        UnitFor::new_normal(),
    ) by {
        assert(settled(user_cx, asked, user, u));
    }
    assert forall|u: UnitView| #[trigger] std.graph.contains_key(u) implies u.is_std by {
        assert(settled(std_cx, std_asked, std, u));
    }
}

} // verus!
