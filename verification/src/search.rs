//! All units that follow from a unit, with their dependencies.

use crate::context::Context;
use crate::errors::Misuse;
use crate::facts::lemma_doc_deps_facts;
use crate::plan::{
    all_package_deps, compile_deps, dev_edges, doc_deps, root_unit_for, run_script_deps, scrape_dep,
    scrape_unit_for, DepFilter,
};
use crate::profiles::UnitFor;
use crate::run::Run;
use crate::unit::{UnitDepView, UnitView};
use crate::unit_graph::Graph;
use vstd::prelude::*;

verus! {

/// What has been found out so far.
pub struct Search {
    /// The dependencies of the units that have been visited.
    pub graph: Graph,
    /// The edges that were added purely because of a dev-dependency.
    pub dev: Set<(UnitView, UnitView)>,
}

impl Search {
    /// Nothing has been visited.
    pub open spec fn empty() -> Search {
        Search { graph: Graph::empty(), dev: Set::empty() }
    }

    /// A unit has been visited.
    pub open spec fn insert(self, unit: UnitView, deps: Seq<UnitDepView>) -> Search {
        Search { graph: self.graph.insert(unit, deps), ..self }
    }
}

/// Whether `t` holds all that `s` holds: every list is kept, and every mark.
pub open spec fn keeps(s: Search, t: Search) -> bool {
    &&& forall|v: UnitView| #[trigger]
        s.graph.contains_key(v) ==> t.graph.contains_key(v) && t.graph[v] == s.graph[v]
    &&& s.dev.subset_of(t.dev)
}

/// Whether all units that `t` holds in addition to `s` are no documentation.
pub open spec fn adds_no_docs(s: Search, t: Search) -> bool {
    forall|v: UnitView| #[trigger]
        t.graph.contains_key(v) && !s.graph.contains_key(v) ==> !v.mode.is_doc()
}

/// An early end of one run as the end of another.
pub open spec fn ends<A, B>(run: Run<A>) -> Run<B> {
    match run {
        Run::Done(_) => Run::Unfinished,
        Run::Failed(e) => Run::Failed(e),
        Run::Stuck(m) => Run::Stuck(m),
        Run::Unfinished => Run::Unfinished,
    }
}

/// Whether documenting a unit visits the units that are scraped for examples.
pub open spec fn scrapes(cx: Context, unit: UnitView) -> bool {
    unit.mode.is_doc() && cx.ws.spec_is_member(unit.pkg.id)
}

/// Whether a unit that is about to be scraped would have to be scraped before
/// itself: it is documented in turn, and has not been visited.
pub open spec fn scrapes_itself(cx: Context, s: Search, unit: UnitView) -> bool {
    scrapes(cx, unit) && !s.graph.contains_key(unit)
}

/// How scraping such a unit ends: there is no way to document it, though it may
/// have a fault of its own that is found first.
pub open spec fn self_scrape(cx: Context, unit: UnitView) -> Run<(Search, Seq<UnitDepView>)> {
    match doc_deps(cx, unit, scrape_unit_for(unit)) {
        Run::Done(_) => Run::Stuck(Misuse::ScrapesItself(unit.pkg.id)),
        run => ends(run),
    }
}

/// Whether no unit that is scraped would have to be scraped before itself.
pub open spec fn scrape_ends(cx: Context) -> bool {
    forall|i: int|
        0 <= i < cx.scrape_units@.len() ==> !scrapes(cx, (#[trigger] cx.scrape_units@[i])@)
}

/// Visits a unit, in at most `fuel` nested steps: finds its dependencies,
/// records them and visits each of them in turn. A unit that has been visited
/// is not visited again, whatever it is built for.
pub open spec fn visit(cx: Context, s: Search, unit: UnitView, unit_for: UnitFor, fuel: nat) -> Run<
    Search,
>
    decreases fuel, 0nat, 0nat,
{
    if s.graph.contains_key(unit) {
        Run::Done(s)
    } else if fuel == 0 {
        Run::Unfinished
    } else {
        match expand(cx, s, unit, unit_for, (fuel - 1) as nat) {
            Run::Done((found, deps)) => visit_deps(
                cx,
                found.insert(unit, deps),
                deps,
                deps.len(),
                (fuel - 1) as nat,
            ),
            run => ends(run),
        }
    }
}

/// Visits the units of the first `n` dependencies, in order.
pub open spec fn visit_deps(
    cx: Context,
    s: Search,
    deps: Seq<UnitDepView>,
    n: nat,
    fuel: nat,
) -> Run<Search>
    decreases fuel, 1nat, n,
{
    if n == 0 {
        Run::Done(s)
    } else {
        match visit_deps(cx, s, deps, (n - 1) as nat, fuel) {
            Run::Done(t) => visit(cx, t, deps[n - 1].unit, deps[n - 1].unit_for, fuel),
            run => run,
        }
    }
}

/// Visits the first `n` units that are scraped for examples, in order, and
/// depends on them.
pub open spec fn visit_scraped(cx: Context, s: Search, n: nat, fuel: nat) -> Run<
    (Search, Seq<UnitDepView>),
>
    decreases fuel, 1nat, n,
{
    if n == 0 {
        Run::Done((s, Seq::empty()))
    } else {
        match visit_scraped(cx, s, (n - 1) as nat, fuel) {
            Run::Done((t, deps)) => {
                let unit = cx.scrape_units@[n - 1]@;
                if scrapes_itself(cx, t, unit) {
                    self_scrape(cx, unit)
                } else {
                    match visit(cx, t, unit, scrape_unit_for(unit), fuel) {
                        Run::Done(found) => match scrape_dep(cx, unit) {
                            Run::Done(dep) => Run::Done((found, deps.push(dep))),
                            run => ends(run),
                        },
                        run => ends(run),
                    }
                }
            },
            run => run,
        }
    }
}

/// Finds the dependencies of a unit.
pub open spec fn expand(
    cx: Context,
    s: Search,
    unit: UnitView,
    unit_for: UnitFor,
    fuel: nat,
) -> Run<(Search, Seq<UnitDepView>)>
    decreases fuel, 2nat, 0nat,
{
    if unit.mode.is_run_custom_build() {
        match run_script_deps(cx, unit, unit_for) {
            Run::Done(deps) => Run::Done((s, deps)),
            run => ends(run),
        }
    } else if !cx.has_resolve() {
        Run::Stuck(Misuse::NoStdResolve)
    } else if unit.mode.is_doc() {
        match doc_deps(cx, unit, unit_for) {
            Run::Done(deps) => if scrapes(cx, unit) {
                match visit_scraped(cx, s, cx.scrape_units@.len(), fuel) {
                    Run::Done((found, scraped)) => Run::Done((found, deps + scraped)),
                    run => run,
                }
            } else {
                Run::Done((s, deps))
            },
            run => ends(run),
        }
    } else {
        match compile_deps(cx, unit, unit_for) {
            Run::Done(deps) => Run::Done(
                (Search { dev: s.dev.union(dev_edges(cx, unit, unit_for)), ..s }, deps),
            ),
            run => ends(run),
        }
    }
}

/// The marks of dev-dependencies after the dependencies of a compiled unit have
/// been looked for: its own are added once its packages are found, whatever
/// becomes of the rest.
pub open spec fn marked(
    cx: Context,
    dev: Set<(UnitView, UnitView)>,
    unit: UnitView,
    unit_for: UnitFor,
) -> Set<(UnitView, UnitView)> {
    if cx.has_resolve() && all_package_deps(cx, unit, unit_for, DepFilter::Compile) is Done {
        dev.union(dev_edges(cx, unit, unit_for))
    } else {
        dev
    }
}

/// What a run comes to when it may take as many steps as it needs.
pub open spec fn limit<T>(run: spec_fn(nat) -> Run<T>) -> Run<T> {
    if exists|n: nat| !(#[trigger] run(n) is Unfinished) {
        run(choose|n: nat| !(#[trigger] run(n) is Unfinished))
    } else {
        Run::Unfinished
    }
}

/// More steps do not change how a run ends.
pub open spec fn steady<T>(run: spec_fn(nat) -> Run<T>) -> bool {
    forall|n: nat, m: nat|
        n <= m && !(#[trigger] run(n) is Unfinished) ==> #[trigger] run(m) == run(n)
}

pub proof fn lemma_limit<T>(run: spec_fn(nat) -> Run<T>, n: nat)
    requires
        steady(run),
        !(run(n) is Unfinished),
    ensures
        limit(run) == run(n),
{
    let k = choose|k: nat| !(#[trigger] run(k) is Unfinished);
    assert(!(run(k) is Unfinished));
    if n <= k {
        assert(run(k) == run(n));
    } else {
        assert(run(n) == run(k));
    }
}

pub open spec fn visit_within(
    cx: Context,
    s: Search,
    unit: UnitView,
    unit_for: UnitFor,
) -> spec_fn(nat) -> Run<Search> {
    |fuel: nat| visit(cx, s, unit, unit_for, fuel)
}

pub open spec fn visit_deps_within(
    cx: Context,
    s: Search,
    deps: Seq<UnitDepView>,
    n: nat,
) -> spec_fn(nat) -> Run<Search> {
    |fuel: nat| visit_deps(cx, s, deps, n, fuel)
}

pub open spec fn visit_scraped_within(cx: Context, s: Search, n: nat) -> spec_fn(nat) -> Run<
    (Search, Seq<UnitDepView>),
> {
    |fuel: nat| visit_scraped(cx, s, n, fuel)
}

pub open spec fn expand_within(
    cx: Context,
    s: Search,
    unit: UnitView,
    unit_for: UnitFor,
) -> spec_fn(nat) -> Run<(Search, Seq<UnitDepView>)> {
    |fuel: nat| expand(cx, s, unit, unit_for, fuel)
}

/// What visiting a unit comes to.
pub open spec fn visited(cx: Context, s: Search, unit: UnitView, unit_for: UnitFor) -> Run<Search> {
    limit(visit_within(cx, s, unit, unit_for))
}

/// What visiting the units of the first `n` dependencies comes to.
pub open spec fn visited_deps(cx: Context, s: Search, deps: Seq<UnitDepView>, n: nat) -> Run<
    Search,
> {
    limit(visit_deps_within(cx, s, deps, n))
}

/// What visiting the first `n` units that are scraped comes to.
pub open spec fn visited_scraped(cx: Context, s: Search, n: nat) -> Run<
    (Search, Seq<UnitDepView>),
> {
    limit(visit_scraped_within(cx, s, n))
}

/// What finding the dependencies of a unit comes to.
pub open spec fn expanded(cx: Context, s: Search, unit: UnitView, unit_for: UnitFor) -> Run<
    (Search, Seq<UnitDepView>),
> {
    limit(expand_within(cx, s, unit, unit_for))
}

/// What visiting the first `n` roots comes to.
pub open spec fn visited_roots(cx: Context, s: Search, roots: Seq<UnitView>, n: nat) -> Run<Search>
    decreases n,
{
    if n == 0 {
        Run::Done(s)
    } else {
        match visited_roots(cx, s, roots, (n - 1) as nat) {
            Run::Done(t) => visited(cx, t, roots[n - 1], root_unit_for(cx, roots[n - 1])),
            run => run,
        }
    }
}

proof fn lemma_visit_steady(
    cx: Context,
    s: Search,
    unit: UnitView,
    unit_for: UnitFor,
    n: nat,
    m: nat,
)
    requires
        n <= m,
        !(visit(cx, s, unit, unit_for, n) is Unfinished),
    ensures
        visit(cx, s, unit, unit_for, m) == visit(cx, s, unit, unit_for, n),
    decreases n, 0nat, 0nat,
{
    if !s.graph.contains_key(unit) {
        let (a, b) = ((n - 1) as nat, (m - 1) as nat);
        lemma_expand_steady(cx, s, unit, unit_for, a, b);
        match expand(cx, s, unit, unit_for, a) {
            Run::Done((found, deps)) => {
                lemma_visit_deps_steady(cx, found.insert(unit, deps), deps, deps.len(), a, b);
            },
            _ => {},
        }
    }
}

proof fn lemma_visit_deps_steady(
    cx: Context,
    s: Search,
    deps: Seq<UnitDepView>,
    k: nat,
    n: nat,
    m: nat,
)
    requires
        n <= m,
        !(visit_deps(cx, s, deps, k, n) is Unfinished),
    ensures
        visit_deps(cx, s, deps, k, m) == visit_deps(cx, s, deps, k, n),
    decreases n, 1nat, k,
{
    if k > 0 {
        lemma_visit_deps_steady(cx, s, deps, (k - 1) as nat, n, m);
        match visit_deps(cx, s, deps, (k - 1) as nat, n) {
            Run::Done(t) => {
                lemma_visit_steady(cx, t, deps[k - 1].unit, deps[k - 1].unit_for, n, m);
            },
            _ => {},
        }
    }
}

proof fn lemma_visit_scraped_steady(cx: Context, s: Search, k: nat, n: nat, m: nat)
    requires
        n <= m,
        !(visit_scraped(cx, s, k, n) is Unfinished),
    ensures
        visit_scraped(cx, s, k, m) == visit_scraped(cx, s, k, n),
    decreases n, 1nat, k,
{
    if k > 0 {
        lemma_visit_scraped_steady(cx, s, (k - 1) as nat, n, m);
        match visit_scraped(cx, s, (k - 1) as nat, n) {
            Run::Done((t, deps)) => {
                let unit = cx.scrape_units@[k - 1]@;
                if !scrapes_itself(cx, t, unit) {
                    lemma_visit_steady(cx, t, unit, scrape_unit_for(unit), n, m);
                }
            },
            _ => {},
        }
    }
}

proof fn lemma_expand_steady(
    cx: Context,
    s: Search,
    unit: UnitView,
    unit_for: UnitFor,
    n: nat,
    m: nat,
)
    requires
        n <= m,
        !(expand(cx, s, unit, unit_for, n) is Unfinished),
    ensures
        expand(cx, s, unit, unit_for, m) == expand(cx, s, unit, unit_for, n),
    decreases n, 2nat, 0nat,
{
    if !unit.mode.is_run_custom_build() && cx.has_resolve() && scrapes(cx, unit) {
        match doc_deps(cx, unit, unit_for) {
            Run::Done(deps) => {
                lemma_visit_scraped_steady(cx, s, cx.scrape_units@.len(), n, m);
            },
            _ => {},
        }
    }
}

/// More steps do not change how a visit ends, nor any of its parts.
pub proof fn lemma_steady(cx: Context)
    ensures
        forall|s: Search, unit: UnitView, unit_for: UnitFor| #[trigger]
            steady(visit_within(cx, s, unit, unit_for)),
        forall|s: Search, deps: Seq<UnitDepView>, k: nat| #[trigger]
            steady(visit_deps_within(cx, s, deps, k)),
        forall|s: Search, k: nat| #[trigger] steady(visit_scraped_within(cx, s, k)),
        forall|s: Search, unit: UnitView, unit_for: UnitFor| #[trigger]
            steady(expand_within(cx, s, unit, unit_for)),
{
    assert forall|s: Search, unit: UnitView, unit_for: UnitFor| #[trigger]
        steady(visit_within(cx, s, unit, unit_for)) by {
        let run = visit_within(cx, s, unit, unit_for);
        assert forall|n: nat, m: nat|
            n <= m && !(#[trigger] run(n) is Unfinished) implies #[trigger] run(m) == run(n) by {
            lemma_visit_steady(cx, s, unit, unit_for, n, m);
        }
    }
    assert forall|s: Search, deps: Seq<UnitDepView>, k: nat| #[trigger]
        steady(visit_deps_within(cx, s, deps, k)) by {
        let run = visit_deps_within(cx, s, deps, k);
        assert forall|n: nat, m: nat|
            n <= m && !(#[trigger] run(n) is Unfinished) implies #[trigger] run(m) == run(n) by {
            lemma_visit_deps_steady(cx, s, deps, k, n, m);
        }
    }
    assert forall|s: Search, k: nat| #[trigger] steady(visit_scraped_within(cx, s, k)) by {
        let run = visit_scraped_within(cx, s, k);
        assert forall|n: nat, m: nat|
            n <= m && !(#[trigger] run(n) is Unfinished) implies #[trigger] run(m) == run(n) by {
            lemma_visit_scraped_steady(cx, s, k, n, m);
        }
    }
    assert forall|s: Search, unit: UnitView, unit_for: UnitFor| #[trigger]
        steady(expand_within(cx, s, unit, unit_for)) by {
        let run = expand_within(cx, s, unit, unit_for);
        assert forall|n: nat, m: nat|
            n <= m && !(#[trigger] run(n) is Unfinished) implies #[trigger] run(m) == run(n) by {
            lemma_expand_steady(cx, s, unit, unit_for, n, m);
        }
    }
}

/// A visit without its count of steps: nothing for a unit that has been
/// visited, else its dependencies are found, recorded and visited.
pub proof fn lemma_visited(cx: Context, s: Search, unit: UnitView, unit_for: UnitFor)
    ensures
        visited(cx, s, unit, unit_for) == (if s.graph.contains_key(unit) {
            Run::Done(s)
        } else {
            match expanded(cx, s, unit, unit_for) {
                Run::Done((found, deps)) => visited_deps(
                    cx,
                    found.insert(unit, deps),
                    deps,
                    deps.len(),
                ),
                run => ends(run),
            }
        }),
{
    lemma_steady(cx);
    let run = visit_within(cx, s, unit, unit_for);
    assert(steady(run));
    let part = expand_within(cx, s, unit, unit_for);
    assert(steady(part));
    if s.graph.contains_key(unit) {
        assert(run(0) == Run::Done(s));
        lemma_limit(run, 0);
    } else if exists|n: nat| !(#[trigger] part(n) is Unfinished) {
        let a = choose|n: nat| !(#[trigger] part(n) is Unfinished);
        lemma_limit(part, a);
        match part(a) {
            Run::Done((found, deps)) => {
                let next = visit_deps_within(cx, found.insert(unit, deps), deps, deps.len());
                assert(steady(next));
                if exists|n: nat| !(#[trigger] next(n) is Unfinished) {
                    let b = choose|n: nat| !(#[trigger] next(n) is Unfinished);
                    let c = if a <= b {
                        b
                    } else {
                        a
                    };
                    assert(part(c) == part(a));
                    assert(next(c) == next(b));
                    lemma_limit(next, b);
                    assert(run(c + 1) == next(c));
                    lemma_limit(run, c + 1);
                } else {
                    assert forall|n: nat| #[trigger] run(n) is Unfinished by {
                        if n > 0 {
                            let k = (n - 1) as nat;
                            if !(part(k) is Unfinished) {
                                if k <= a {
                                    assert(part(a) == part(k));
                                } else {
                                    assert(part(k) == part(a));
                                }
                                assert(next(k) is Unfinished);
                            }
                        }
                    }
                }
            },
            _ => {
                assert(run(a + 1) == ends::<_, Search>(part(a)));
                lemma_limit(run, a + 1);
            },
        }
    } else {
        assert forall|n: nat| #[trigger] run(n) is Unfinished by {
            if n > 0 {
                assert(part((n - 1) as nat) is Unfinished);
            }
        }
    }
}

/// Dependencies are visited one after the other.
pub proof fn lemma_visited_deps(cx: Context, s: Search, deps: Seq<UnitDepView>, n: nat)
    ensures
        visited_deps(cx, s, deps, 0) == Run::Done(s),
        n > 0 ==> visited_deps(cx, s, deps, n) == (match visited_deps(
            cx,
            s,
            deps,
            (n - 1) as nat,
        ) {
            Run::Done(t) => visited(cx, t, deps[n - 1].unit, deps[n - 1].unit_for),
            run => run,
        }),
{
    lemma_steady(cx);
    assert(visit_deps_within(cx, s, deps, 0)(0) == Run::Done(s));
    lemma_limit(visit_deps_within(cx, s, deps, 0), 0);
    if n > 0 {
        let run = visit_deps_within(cx, s, deps, n);
        assert(steady(run));
        let part = visit_deps_within(cx, s, deps, (n - 1) as nat);
        assert(steady(part));
        if exists|k: nat| !(#[trigger] part(k) is Unfinished) {
            let a = choose|k: nat| !(#[trigger] part(k) is Unfinished);
            lemma_limit(part, a);
            match part(a) {
                Run::Done(t) => {
                    let next = visit_within(cx, t, deps[n - 1].unit, deps[n - 1].unit_for);
                    assert(steady(next));
                    if exists|k: nat| !(#[trigger] next(k) is Unfinished) {
                        let b = choose|k: nat| !(#[trigger] next(k) is Unfinished);
                        let c = if a <= b {
                            b
                        } else {
                            a
                        };
                        assert(part(c) == part(a));
                        assert(next(c) == next(b));
                        lemma_limit(next, b);
                        assert(run(c) == next(c));
                        lemma_limit(run, c);
                    } else {
                        assert forall|k: nat| #[trigger] run(k) is Unfinished by {
                            if !(part(k) is Unfinished) {
                                if k <= a {
                                    assert(part(a) == part(k));
                                } else {
                                    assert(part(k) == part(a));
                                }
                                assert(next(k) is Unfinished);
                            }
                        }
                    }
                },
                _ => {
                    assert(run(a) == part(a));
                    lemma_limit(run, a);
                },
            }
        } else {
            assert forall|k: nat| #[trigger] run(k) is Unfinished by {
                assert(part(k) is Unfinished);
            }
        }
    }
}

/// Scraping a unit before itself comes to an end.
proof fn lemma_self_scrape(cx: Context, unit: UnitView)
    requires
        unit.mode.is_doc(),
    ensures
        !(self_scrape(cx, unit) is Unfinished),
        !(self_scrape(cx, unit) is Done),
{
    lemma_doc_deps_facts(cx, unit, scrape_unit_for(unit));
}

/// The units that are scraped are visited one after the other.
pub proof fn lemma_visited_scraped(cx: Context, s: Search, n: nat)
    ensures
        visited_scraped(cx, s, 0) == Run::Done((s, Seq::<UnitDepView>::empty())),
        n > 0 ==> visited_scraped(cx, s, n) == (match visited_scraped(cx, s, (n - 1) as nat) {
            Run::Done((t, deps)) => {
                let unit = cx.scrape_units@[n - 1]@;
                if scrapes_itself(cx, t, unit) {
                    self_scrape(cx, unit)
                } else {
                    match visited(cx, t, unit, scrape_unit_for(unit)) {
                        Run::Done(found) => match scrape_dep(cx, unit) {
                            Run::Done(dep) => Run::Done((found, deps.push(dep))),
                            run => ends(run),
                        },
                        run => ends(run),
                    }
                }
            },
            run => run,
        }),
{
    lemma_steady(cx);
    assert(visit_scraped_within(cx, s, 0)(0) == Run::Done((s, Seq::<UnitDepView>::empty())));
    lemma_limit(visit_scraped_within(cx, s, 0), 0);
    if n > 0 {
        let run = visit_scraped_within(cx, s, n);
        assert(steady(run));
        let part = visit_scraped_within(cx, s, (n - 1) as nat);
        assert(steady(part));
        let unit = cx.scrape_units@[n - 1]@;
        if exists|k: nat| !(#[trigger] part(k) is Unfinished) {
            let a = choose|k: nat| !(#[trigger] part(k) is Unfinished);
            lemma_limit(part, a);
            match part(a) {
                Run::Done((t, deps)) => {
                    let next = visit_within(cx, t, unit, scrape_unit_for(unit));
                    assert(steady(next));
                    if scrapes_itself(cx, t, unit) {
                        lemma_self_scrape(cx, unit);
                        assert(run(a) == self_scrape(cx, unit));
                        lemma_limit(run, a);
                    } else if exists|k: nat| !(#[trigger] next(k) is Unfinished) {
                        let b = choose|k: nat| !(#[trigger] next(k) is Unfinished);
                        let c = if a <= b {
                            b
                        } else {
                            a
                        };
                        assert(part(c) == part(a));
                        assert(next(c) == next(b));
                        lemma_limit(next, b);
                        assert(!(scrape_dep(cx, unit) is Unfinished));
                        assert(!(run(c) is Unfinished));
                        lemma_limit(run, c);
                    } else {
                        assert forall|k: nat| #[trigger] run(k) is Unfinished by {
                            if !(part(k) is Unfinished) {
                                if k <= a {
                                    assert(part(a) == part(k));
                                } else {
                                    assert(part(k) == part(a));
                                }
                                assert(next(k) is Unfinished);
                            }
                        }
                    }
                },
                _ => {
                    assert(run(a) == part(a));
                    lemma_limit(run, a);
                },
            }
        } else {
            assert forall|k: nat| #[trigger] run(k) is Unfinished by {
                assert(part(k) is Unfinished);
            }
        }
    }
}

/// Finding the dependencies of a unit, without a count of steps.
pub proof fn lemma_expanded(cx: Context, s: Search, unit: UnitView, unit_for: UnitFor)
    ensures
        expanded(cx, s, unit, unit_for) == (if unit.mode.is_run_custom_build() {
            match run_script_deps(cx, unit, unit_for) {
                Run::Done(deps) => Run::Done((s, deps)),
                run => ends(run),
            }
        } else if !cx.has_resolve() {
            Run::Stuck(Misuse::NoStdResolve)
        } else if unit.mode.is_doc() {
            match doc_deps(cx, unit, unit_for) {
                Run::Done(deps) => if scrapes(cx, unit) {
                    match visited_scraped(cx, s, cx.scrape_units@.len()) {
                        Run::Done((found, scraped)) => Run::Done((found, deps + scraped)),
                        run => run,
                    }
                } else {
                    Run::Done((s, deps))
                },
                run => ends(run),
            }
        } else {
            match compile_deps(cx, unit, unit_for) {
                Run::Done(deps) => Run::Done(
                    (Search { dev: s.dev.union(dev_edges(cx, unit, unit_for)), ..s }, deps),
                ),
                run => ends(run),
            }
        }),
{
    lemma_steady(cx);
    let run = expand_within(cx, s, unit, unit_for);
    assert(steady(run));
    let part = visit_scraped_within(cx, s, cx.scrape_units@.len());
    assert(steady(part));
    if !unit.mode.is_run_custom_build() && cx.has_resolve() && scrapes(cx, unit) && doc_deps(
        cx,
        unit,
        unit_for,
    ) is Done {
        if exists|k: nat| !(#[trigger] part(k) is Unfinished) {
            let a = choose|k: nat| !(#[trigger] part(k) is Unfinished);
            lemma_limit(part, a);
            assert(!(run(a) is Unfinished));
            lemma_limit(run, a);
        } else {
            assert forall|k: nat| #[trigger] run(k) is Unfinished by {
                assert(part(k) is Unfinished);
            }
        }
    } else if !(run(0) is Unfinished) {
        lemma_limit(run, 0);
    } else {
        assert forall|k: nat| #[trigger] run(k) is Unfinished by {
            assert(run(k) == run(0));
        }
    }
}

} // verus!
