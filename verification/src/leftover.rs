//! What a search leaves behind, however it ends.

use crate::context::Context;
use crate::layout::{visited_std, StdRoots};
use crate::plan::{doc_deps, root_unit_for, scrape_unit_for};
use crate::profiles::UnitFor;
use crate::run::Run;
use crate::search::{
    expand, expand_within, expanded, lemma_expanded, lemma_limit, lemma_steady, lemma_visited_deps,
    lemma_visited_scraped, marked, scrapes, scrapes_itself, steady, visit, visit_deps,
    visit_deps_within, visit_scraped, visit_scraped_within, visit_within, visited, visited_deps,
    visited_roots, visited_scraped, Search,
};
use crate::unit::{unit_values, UnitDepView, UnitView};
use crate::walk::is_compiled;
use vstd::prelude::*;

verus! {

/// What has been recorded when a visit of at most `fuel` nested steps ends.
pub open spec fn visit_leaves(
    cx: Context,
    s: Search,
    unit: UnitView,
    unit_for: UnitFor,
    fuel: nat,
) -> Search
    decreases fuel, 0nat, 0nat,
{
    if s.graph.contains_key(unit) || fuel == 0 {
        s
    } else {
        match expand(cx, s, unit, unit_for, (fuel - 1) as nat) {
            Run::Done((found, deps)) => deps_leave(
                cx,
                found.insert(unit, deps),
                deps,
                deps.len(),
                (fuel - 1) as nat,
            ),
            _ => expand_leaves(cx, s, unit, unit_for, (fuel - 1) as nat),
        }
    }
}

/// What has been recorded when visiting the first `n` dependencies ends.
pub open spec fn deps_leave(
    cx: Context,
    s: Search,
    deps: Seq<UnitDepView>,
    n: nat,
    fuel: nat,
) -> Search
    decreases fuel, 1nat, n,
{
    if n == 0 {
        s
    } else {
        match visit_deps(cx, s, deps, (n - 1) as nat, fuel) {
            Run::Done(t) => visit_leaves(cx, t, deps[n - 1].unit, deps[n - 1].unit_for, fuel),
            _ => deps_leave(cx, s, deps, (n - 1) as nat, fuel),
        }
    }
}

/// What has been recorded when visiting the first `n` units that are scraped
/// ends.
pub open spec fn scraped_leave(cx: Context, s: Search, n: nat, fuel: nat) -> Search
    decreases fuel, 1nat, n,
{
    if n == 0 {
        s
    } else {
        match visit_scraped(cx, s, (n - 1) as nat, fuel) {
            Run::Done((t, _)) => {
                let unit = cx.scrape_units@[n - 1]@;
                if scrapes_itself(cx, t, unit) {
                    t
                } else {
                    visit_leaves(cx, t, unit, scrape_unit_for(unit), fuel)
                }
            },
            _ => scraped_leave(cx, s, (n - 1) as nat, fuel),
        }
    }
}

/// Whether looking for the dependencies of a unit gets as far as scraping.
pub open spec fn comes_to_scrape(cx: Context, unit: UnitView, unit_for: UnitFor) -> bool {
    cx.has_resolve() && scrapes(cx, unit) && doc_deps(cx, unit, unit_for) is Done
}

/// What has been recorded when looking for the dependencies of a unit ends.
pub open spec fn expand_leaves(
    cx: Context,
    s: Search,
    unit: UnitView,
    unit_for: UnitFor,
    fuel: nat,
) -> Search
    decreases fuel, 2nat, 0nat,
{
    if is_compiled(unit) {
        Search { dev: marked(cx, s.dev, unit, unit_for), ..s }
    } else if comes_to_scrape(cx, unit, unit_for) {
        scraped_leave(cx, s, cx.scrape_units@.len(), fuel)
    } else {
        s
    }
}

/// What a run leaves behind that may take as many steps as it needs.
pub open spec fn left_by<T>(run: spec_fn(nat) -> Run<T>, leaves: spec_fn(nat) -> Search) -> Search {
    leaves(choose|n: nat| !(#[trigger] run(n) is Unfinished))
}

/// What visiting a unit leaves behind.
pub open spec fn visit_left(cx: Context, s: Search, unit: UnitView, unit_for: UnitFor) -> Search {
    left_by(
        visit_within(cx, s, unit, unit_for),
        |fuel: nat| visit_leaves(cx, s, unit, unit_for, fuel),
    )
}

/// What visiting the units of the first `n` dependencies leaves behind.
pub open spec fn deps_left(cx: Context, s: Search, deps: Seq<UnitDepView>, n: nat) -> Search {
    left_by(
        visit_deps_within(cx, s, deps, n),
        |fuel: nat| deps_leave(cx, s, deps, n, fuel),
    )
}

/// What visiting the first `n` units that are scraped leaves behind.
pub open spec fn scraped_left(cx: Context, s: Search, n: nat) -> Search {
    left_by(visit_scraped_within(cx, s, n), |fuel: nat| scraped_leave(cx, s, n, fuel))
}

/// What looking for the dependencies of a unit leaves behind.
pub open spec fn expand_left(cx: Context, s: Search, unit: UnitView, unit_for: UnitFor) -> Search {
    if is_compiled(unit) {
        Search { dev: marked(cx, s.dev, unit, unit_for), ..s }
    } else if comes_to_scrape(cx, unit, unit_for) {
        scraped_left(cx, s, cx.scrape_units@.len())
    } else {
        s
    }
}

/// What visiting the first `n` roots leaves behind.
pub open spec fn roots_left(cx: Context, s: Search, roots: Seq<UnitView>, n: nat) -> Search
    decreases n,
{
    if n == 0 {
        s
    } else {
        match visited_roots(cx, s, roots, (n - 1) as nat) {
            Run::Done(t) => visit_left(cx, t, roots[n - 1], root_unit_for(cx, roots[n - 1])),
            _ => roots_left(cx, s, roots, (n - 1) as nat),
        }
    }
}

/// What visiting the standard library for the first `n` kinds leaves behind.
pub open spec fn std_left(cx: Context, s: Search, std_roots: Seq<StdRoots>, n: nat) -> Search
    decreases n,
{
    if n == 0 {
        s
    } else {
        match visited_std(cx, s, std_roots, (n - 1) as nat) {
            Run::Done(t) => roots_left(
                cx,
                t,
                unit_values(std_roots[n - 1].units@),
                std_roots[n - 1].units@.len(),
            ),
            _ => std_left(cx, s, std_roots, (n - 1) as nat),
        }
    }
}

proof fn lemma_visit_leaves_steady(
    cx: Context,
    s: Search,
    unit: UnitView,
    unit_for: UnitFor,
    n: nat,
    m: nat,
)
    requires
        n <= m,
        !(visit(cx, s, unit, unit_for, n) is Unfinished),
    ensures
        visit_leaves(cx, s, unit, unit_for, m) == visit_leaves(cx, s, unit, unit_for, n),
    decreases n, 0nat, 0nat,
{
    lemma_steady(cx);
    if !s.graph.contains_key(unit) {
        let (a, b) = ((n - 1) as nat, (m - 1) as nat);
        let part = expand_within(cx, s, unit, unit_for);
        assert(steady(part));
        assert(part(b) == part(a));
        match expand(cx, s, unit, unit_for, a) {
            Run::Done((found, deps)) => {
                lemma_deps_leave_steady(cx, found.insert(unit, deps), deps, deps.len(), a, b);
            },
            _ => {
                lemma_expand_leaves_steady(cx, s, unit, unit_for, a, b);
            },
        }
    }
}

proof fn lemma_deps_leave_steady(
    cx: Context,
    s: Search,
    deps: Seq<UnitDepView>,
    k: nat,
    n: nat,
    m: nat,
)
    requires
        n <= m,
        !(visit_deps(cx, s, deps, k, n) is Unfinished),
    ensures
        deps_leave(cx, s, deps, k, m) == deps_leave(cx, s, deps, k, n),
    decreases n, 1nat, k,
{
    lemma_steady(cx);
    if k > 0 {
        let part = visit_deps_within(cx, s, deps, (k - 1) as nat);
        assert(steady(part));
        assert(part(m) == part(n));
        match visit_deps(cx, s, deps, (k - 1) as nat, n) {
            Run::Done(t) => {
                lemma_visit_leaves_steady(cx, t, deps[k - 1].unit, deps[k - 1].unit_for, n, m);
            },
            _ => {
                lemma_deps_leave_steady(cx, s, deps, (k - 1) as nat, n, m);
            },
        }
    }
}

proof fn lemma_scraped_leave_steady(cx: Context, s: Search, k: nat, n: nat, m: nat)
    requires
        n <= m,
        !(visit_scraped(cx, s, k, n) is Unfinished),
    ensures
        scraped_leave(cx, s, k, m) == scraped_leave(cx, s, k, n),
    decreases n, 1nat, k,
{
    lemma_steady(cx);
    if k > 0 {
        let part = visit_scraped_within(cx, s, (k - 1) as nat);
        assert(steady(part));
        assert(part(m) == part(n));
        match visit_scraped(cx, s, (k - 1) as nat, n) {
            Run::Done((t, deps)) => {
                let unit = cx.scrape_units@[k - 1]@;
                if !scrapes_itself(cx, t, unit) {
                    lemma_visit_leaves_steady(cx, t, unit, scrape_unit_for(unit), n, m);
                }
            },
            _ => {
                lemma_scraped_leave_steady(cx, s, (k - 1) as nat, n, m);
            },
        }
    }
}

proof fn lemma_expand_leaves_steady(
    cx: Context,
    s: Search,
    unit: UnitView,
    unit_for: UnitFor,
    n: nat,
    m: nat,
)
    requires
        n <= m,
        !(expand(cx, s, unit, unit_for, n) is Unfinished),
    ensures
        expand_leaves(cx, s, unit, unit_for, m) == expand_leaves(cx, s, unit, unit_for, n),
    decreases n, 2nat, 0nat,
{
    if comes_to_scrape(cx, unit, unit_for) {
        lemma_scraped_leave_steady(cx, s, cx.scrape_units@.len(), n, m);
    }
}

proof fn lemma_visit_leaves_done(
    cx: Context,
    s: Search,
    unit: UnitView,
    unit_for: UnitFor,
    fuel: nat,
)
    ensures
        visit(cx, s, unit, unit_for, fuel) matches Run::Done(t) ==> visit_leaves(
            cx,
            s,
            unit,
            unit_for,
            fuel,
        ) == t,
    decreases fuel, 0nat, 0nat,
{
    if !s.graph.contains_key(unit) && fuel > 0 {
        let n = (fuel - 1) as nat;
        if let Run::Done((found, deps)) = expand(cx, s, unit, unit_for, n) {
            lemma_deps_leave_done(cx, found.insert(unit, deps), deps, deps.len(), n);
        }
    }
}

proof fn lemma_deps_leave_done(
    cx: Context,
    s: Search,
    deps: Seq<UnitDepView>,
    n: nat,
    fuel: nat,
)
    ensures
        visit_deps(cx, s, deps, n, fuel) matches Run::Done(t) ==> deps_leave(cx, s, deps, n, fuel)
            == t,
    decreases fuel, 1nat, n,
{
    if n > 0 {
        if let Run::Done(t) = visit_deps(cx, s, deps, (n - 1) as nat, fuel) {
            lemma_visit_leaves_done(cx, t, deps[n - 1].unit, deps[n - 1].unit_for, fuel);
        }
    }
}

proof fn lemma_scraped_leave_done(cx: Context, s: Search, n: nat, fuel: nat)
    ensures
        visit_scraped(cx, s, n, fuel) matches Run::Done((t, deps)) ==> scraped_leave(
            cx,
            s,
            n,
            fuel,
        ) == t,
    decreases fuel, 1nat, n,
{
    if n > 0 {
        if let Run::Done((t, deps)) = visit_scraped(cx, s, (n - 1) as nat, fuel) {
            let unit = cx.scrape_units@[n - 1]@;
            lemma_visit_leaves_done(cx, t, unit, scrape_unit_for(unit), fuel);
        }
    }
}

/// However many steps a run is given, if they suffice it leaves the same behind.
proof fn lemma_left<T>(run: spec_fn(nat) -> Run<T>, leaves: spec_fn(nat) -> Search, n: nat)
    requires
        !(run(n) is Unfinished),
        forall|i: nat, j: nat|
            i <= j && !(#[trigger] run(i) is Unfinished) ==> #[trigger] leaves(j) == leaves(i),
    ensures
        left_by(run, leaves) == leaves(n),
{
    let k = choose|k: nat| !(#[trigger] run(k) is Unfinished);
    assert(!(run(k) is Unfinished));
    if k <= n {
        assert(leaves(n) == leaves(k));
    } else {
        assert(leaves(k) == leaves(n));
    }
}

proof fn lemma_visit_left_at(cx: Context, s: Search, unit: UnitView, unit_for: UnitFor, n: nat)
    requires
        !(visit(cx, s, unit, unit_for, n) is Unfinished),
    ensures
        visit_left(cx, s, unit, unit_for) == visit_leaves(cx, s, unit, unit_for, n),
{
    let run = visit_within(cx, s, unit, unit_for);
    let leaves = |fuel: nat| visit_leaves(cx, s, unit, unit_for, fuel);
    assert forall|i: nat, j: nat|
        i <= j && !(#[trigger] run(i) is Unfinished) implies #[trigger] leaves(j) == leaves(i) by {
        lemma_visit_leaves_steady(cx, s, unit, unit_for, i, j);
    }
    lemma_left(run, leaves, n);
}

proof fn lemma_deps_left_at(cx: Context, s: Search, deps: Seq<UnitDepView>, k: nat, n: nat)
    requires
        !(visit_deps(cx, s, deps, k, n) is Unfinished),
    ensures
        deps_left(cx, s, deps, k) == deps_leave(cx, s, deps, k, n),
{
    let run = visit_deps_within(cx, s, deps, k);
    let leaves = |fuel: nat| deps_leave(cx, s, deps, k, fuel);
    assert forall|i: nat, j: nat|
        i <= j && !(#[trigger] run(i) is Unfinished) implies #[trigger] leaves(j) == leaves(i) by {
        lemma_deps_leave_steady(cx, s, deps, k, i, j);
    }
    lemma_left(run, leaves, n);
}

proof fn lemma_scraped_left_at(cx: Context, s: Search, k: nat, n: nat)
    requires
        !(visit_scraped(cx, s, k, n) is Unfinished),
    ensures
        scraped_left(cx, s, k) == scraped_leave(cx, s, k, n),
{
    let run = visit_scraped_within(cx, s, k);
    let leaves = |fuel: nat| scraped_leave(cx, s, k, fuel);
    assert forall|i: nat, j: nat|
        i <= j && !(#[trigger] run(i) is Unfinished) implies #[trigger] leaves(j) == leaves(i) by {
        lemma_scraped_leave_steady(cx, s, k, i, j);
    }
    lemma_left(run, leaves, n);
}

/// A visit that comes to a result leaves that behind.
pub proof fn lemma_visit_left_done(cx: Context, s: Search, unit: UnitView, unit_for: UnitFor)
    ensures
        visited(cx, s, unit, unit_for) matches Run::Done(t) ==> visit_left(cx, s, unit, unit_for)
            == t,
{
    let run = visit_within(cx, s, unit, unit_for);
    if exists|n: nat| !(#[trigger] run(n) is Unfinished) {
        let n = choose|n: nat| !(#[trigger] run(n) is Unfinished);
        lemma_visit_left_at(cx, s, unit, unit_for, n);
        lemma_visit_leaves_done(cx, s, unit, unit_for, n);
    }
}

proof fn lemma_scraped_left_done(cx: Context, s: Search, n: nat)
    ensures
        visited_scraped(cx, s, n) matches Run::Done((t, deps)) ==> scraped_left(cx, s, n) == t,
{
    let run = visit_scraped_within(cx, s, n);
    if exists|k: nat| !(#[trigger] run(k) is Unfinished) {
        let k = choose|k: nat| !(#[trigger] run(k) is Unfinished);
        lemma_scraped_left_at(cx, s, n, k);
        lemma_scraped_leave_done(cx, s, n, k);
    }
}

/// Looking for the dependencies of a unit leaves behind what it comes to.
pub proof fn lemma_expand_left_done(cx: Context, s: Search, unit: UnitView, unit_for: UnitFor)
    ensures
        expanded(cx, s, unit, unit_for) matches Run::Done((found, deps)) ==> expand_left(
            cx,
            s,
            unit,
            unit_for,
        ) == found,
{
    lemma_expanded(cx, s, unit, unit_for);
    lemma_scraped_left_done(cx, s, cx.scrape_units@.len());
}

/// What a visit leaves behind: nothing new for a unit that has been visited, else
/// what looking for its dependencies leaves behind and, if they are found, what
/// visiting them does.
pub proof fn lemma_visit_left(cx: Context, s: Search, unit: UnitView, unit_for: UnitFor)
    requires
        !(visited(cx, s, unit, unit_for) is Unfinished),
    ensures
        visit_left(cx, s, unit, unit_for) == (if s.graph.contains_key(unit) {
            s
        } else {
            match expanded(cx, s, unit, unit_for) {
                Run::Done((found, deps)) => deps_left(
                    cx,
                    found.insert(unit, deps),
                    deps,
                    deps.len(),
                ),
                _ => expand_left(cx, s, unit, unit_for),
            }
        }),
{
    lemma_steady(cx);
    let run = visit_within(cx, s, unit, unit_for);
    let n = choose|n: nat| !(#[trigger] run(n) is Unfinished);
    lemma_visit_left_at(cx, s, unit, unit_for, n);
    if !s.graph.contains_key(unit) {
        let a = (n - 1) as nat;
        let part = expand_within(cx, s, unit, unit_for);
        assert(steady(part));
        assert(!(part(a) is Unfinished));
        lemma_limit(part, a);
        match part(a) {
            Run::Done((found, deps)) => {
                lemma_deps_left_at(cx, found.insert(unit, deps), deps, deps.len(), a);
            },
            _ => {
                if comes_to_scrape(cx, unit, unit_for) {
                    lemma_scraped_left_at(cx, s, cx.scrape_units@.len(), a);
                }
            },
        }
    }
}

/// Once a visit ends early, the rest is not visited.
pub proof fn lemma_visited_deps_stop(
    cx: Context,
    s: Search,
    deps: Seq<UnitDepView>,
    n: nat,
    m: nat,
)
    requires
        n <= m,
        !(visited_deps(cx, s, deps, n) is Done),
        !(visited_deps(cx, s, deps, n) is Unfinished),
    ensures
        visited_deps(cx, s, deps, m) == visited_deps(cx, s, deps, n),
        deps_left(cx, s, deps, m) == deps_left(cx, s, deps, n),
    decreases m,
{
    if n < m {
        lemma_visited_deps_stop(cx, s, deps, n, (m - 1) as nat);
        lemma_visited_deps(cx, s, deps, m);
        lemma_deps_left(cx, s, deps, m);
    }
}

/// What visiting dependencies leaves behind.
pub proof fn lemma_deps_left(cx: Context, s: Search, deps: Seq<UnitDepView>, n: nat)
    requires
        n > 0,
        !(visited_deps(cx, s, deps, n) is Unfinished),
    ensures
        deps_left(cx, s, deps, n) == (match visited_deps(cx, s, deps, (n - 1) as nat) {
            Run::Done(t) => visit_left(cx, t, deps[n - 1].unit, deps[n - 1].unit_for),
            _ => deps_left(cx, s, deps, (n - 1) as nat),
        }),
{
    lemma_steady(cx);
    let run = visit_deps_within(cx, s, deps, n);
    let part = visit_deps_within(cx, s, deps, (n - 1) as nat);
    assert(steady(part));
    let k = choose|k: nat| !(#[trigger] run(k) is Unfinished);
    lemma_deps_left_at(cx, s, deps, n, k);
    assert(!(part(k) is Unfinished));
    lemma_limit(part, k);
    match part(k) {
        Run::Done(t) => {
            lemma_visit_left_at(cx, t, deps[n - 1].unit, deps[n - 1].unit_for, k);
        },
        _ => {
            lemma_deps_left_at(cx, s, deps, (n - 1) as nat, k);
        },
    }
}

/// What visiting units that are scraped leaves behind.
pub proof fn lemma_scraped_left(cx: Context, s: Search, n: nat)
    requires
        n > 0,
        !(visited_scraped(cx, s, n) is Unfinished),
    ensures
        scraped_left(cx, s, n) == (match visited_scraped(cx, s, (n - 1) as nat) {
            Run::Done((t, _)) => {
                let unit = cx.scrape_units@[n - 1]@;
                if scrapes_itself(cx, t, unit) {
                    t
                } else {
                    visit_left(cx, t, unit, scrape_unit_for(unit))
                }
            },
            _ => scraped_left(cx, s, (n - 1) as nat),
        }),
{
    lemma_steady(cx);
    let run = visit_scraped_within(cx, s, n);
    let part = visit_scraped_within(cx, s, (n - 1) as nat);
    assert(steady(part));
    let k = choose|k: nat| !(#[trigger] run(k) is Unfinished);
    lemma_scraped_left_at(cx, s, n, k);
    assert(!(part(k) is Unfinished));
    lemma_limit(part, k);
    match part(k) {
        Run::Done((t, deps)) => {
            let unit = cx.scrape_units@[n - 1]@;
            if !scrapes_itself(cx, t, unit) {
                lemma_visit_left_at(cx, t, unit, scrape_unit_for(unit), k);
            }
        },
        _ => {
            lemma_scraped_left_at(cx, s, (n - 1) as nat, k);
        },
    }
}

pub proof fn lemma_visited_scraped_stop(cx: Context, s: Search, n: nat, m: nat)
    requires
        n <= m,
        !(visited_scraped(cx, s, n) is Done),
        !(visited_scraped(cx, s, n) is Unfinished),
    ensures
        visited_scraped(cx, s, m) == visited_scraped(cx, s, n),
        scraped_left(cx, s, m) == scraped_left(cx, s, n),
    decreases m,
{
    if n < m {
        lemma_visited_scraped_stop(cx, s, n, (m - 1) as nat);
        lemma_visited_scraped(cx, s, m);
        lemma_scraped_left(cx, s, m);
    }
}

pub proof fn lemma_visited_roots_stop(
    cx: Context,
    s: Search,
    roots: Seq<UnitView>,
    n: nat,
    m: nat,
)
    requires
        n <= m,
        !(visited_roots(cx, s, roots, n) is Done),
    ensures
        visited_roots(cx, s, roots, m) == visited_roots(cx, s, roots, n),
        roots_left(cx, s, roots, m) == roots_left(cx, s, roots, n),
    decreases m,
{
    if n < m {
        lemma_visited_roots_stop(cx, s, roots, n, (m - 1) as nat);
    }
}

/// Visiting roots leaves behind what it comes to.
pub proof fn lemma_roots_left_done(cx: Context, s: Search, roots: Seq<UnitView>, n: nat)
    ensures
        visited_roots(cx, s, roots, n) matches Run::Done(t) ==> roots_left(cx, s, roots, n) == t,
{
    if n > 0 {
        if let Run::Done(t) = visited_roots(cx, s, roots, (n - 1) as nat) {
            lemma_visit_left_done(cx, t, roots[n - 1], root_unit_for(cx, roots[n - 1]));
        }
    }
}

/// Once the standard library cannot be visited for a kind, the rest is not.
pub proof fn lemma_visited_std_stop(
    cx: Context,
    s: Search,
    std_roots: Seq<StdRoots>,
    n: nat,
    m: nat,
)
    requires
        n <= m,
        !(visited_std(cx, s, std_roots, n) is Done),
    ensures
        visited_std(cx, s, std_roots, m) == visited_std(cx, s, std_roots, n),
        std_left(cx, s, std_roots, m) == std_left(cx, s, std_roots, n),
    decreases m,
{
    if n < m {
        lemma_visited_std_stop(cx, s, std_roots, n, (m - 1) as nat);
    }
}

/// Visiting one root is visiting the unit for what a root is built for.
proof fn lemma_single_root(cx: Context, s: Search, u: UnitView)
    ensures
        visited_roots(cx, s, seq![u], 1) == visited(cx, s, u, root_unit_for(cx, u)),
        roots_left(cx, s, seq![u], 1) == visit_left(cx, s, u, root_unit_for(cx, u)),
{
    reveal_with_fuel(visited_roots, 2);
    reveal_with_fuel(roots_left, 2);
}

/// A single root that is tested, or any single root under a test command, is
/// visited as a unit is that is built for a test. That comes before all else,
/// whatever kind of target it is. Both come to the same and leave the same
/// behind, on success and on failure.
pub proof fn law_tested_root(cx: Context, s: Search, u: UnitView)
    requires
        u.mode.is_any_test() || cx.global_mode.is_rustc_test(),
    ensures
        ({
            let unit_for = if u.target.proc_macro {
                UnitFor::new_host_test(cx.ws.config)
            } else {
                UnitFor::new_test(cx.ws.config)
            };
            &&& visited_roots(cx, s, seq![u], 1) == visited(cx, s, u, unit_for)
            &&& roots_left(cx, s, seq![u], 1) == visit_left(cx, s, u, unit_for)
        }),
{
    lemma_single_root(cx, s, u);
}

/// Any other single root is visited for what its kind of target is built for: the
/// host for build scripts and procedural macros, of which the latter use the
/// features of the host side, the compiler for plugins, and nothing special for
/// the rest. Both come to the same and leave the same behind, on success and on
/// failure.
pub proof fn law_plain_root(cx: Context, s: Search, u: UnitView)
    requires
        !u.mode.is_any_test(),
        !cx.global_mode.is_rustc_test(),
    ensures
        ({
            let unit_for = if u.target.is_custom_build() {
                UnitFor::new_host(false)
            } else if u.target.proc_macro {
                UnitFor::new_host(true)
            } else if u.target.for_host {
                UnitFor::new_compiler()
            } else {
                UnitFor::new_normal()
            };
            &&& visited_roots(cx, s, seq![u], 1) == visited(cx, s, u, unit_for)
            &&& roots_left(cx, s, seq![u], 1) == visit_left(cx, s, u, unit_for)
        }),
{
    lemma_single_root(cx, s, u);
}

} // verus!
