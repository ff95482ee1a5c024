//! How a search can end.

use crate::context::Context;
use crate::facts::{is_ambiguity, lemma_doc_deps_facts, lemma_head_deps_facts, tables_suffice};
use crate::plan::{root_unit_for, scrape_dep, scrape_unit_for};
use crate::profiles::UnitFor;
use crate::run::Run;
use crate::search::{
    expand, scrapes, scrapes_itself, visit, visit_deps, visit_scraped, visit_within, visited,
    visited_roots, Search,
};
use crate::unit::{UnitDepView, UnitView};
use crate::walk::{lemma_expand_deps, own_deps};
use vstd::prelude::*;

verus! {

/// Tells of which units the tables hold enough.
pub type Fit = spec_fn(UnitView) -> bool;

/// Whether the tables hold enough for all units that fit, and these lead to
/// such units only.
pub open spec fn fits_on(cx: Context, fit: Fit) -> bool {
    &&& forall|unit: UnitView| #[trigger] fit(unit) ==> tables_suffice(cx, unit)
    &&& forall|unit: UnitView, unit_for: UnitFor, deps: Seq<UnitDepView>, i: int|
        fit(unit) && #[trigger] own_deps(cx, unit, unit_for) == Run::Done(deps) && 0 <= i
            < deps.len() ==> fit((#[trigger] deps[i]).unit)
    &&& forall|unit: UnitView, i: int|
        #[trigger] fit(unit) && scrapes(cx, unit) && 0 <= i < cx.scrape_units@.len() ==> fit(
            (#[trigger] cx.scrape_units@[i])@,
        ) && !scrapes(cx, cx.scrape_units@[i]@)
}

proof fn lemma_visit_outcome(
    cx: Context,
    fit: Fit,
    s: Search,
    unit: UnitView,
    unit_for: UnitFor,
    fuel: nat,
)
    ensures
        visit(cx, s, unit, unit_for, fuel) matches Run::Failed(e) ==> is_ambiguity(cx, e),
        fits_on(cx, fit) && fit(unit) ==> !(visit(cx, s, unit, unit_for, fuel) is Stuck),
    decreases fuel, 0nat, 0nat,
{
    if !s.graph.contains_key(unit) && fuel > 0 {
        let n = (fuel - 1) as nat;
        lemma_expand_outcome(cx, fit, s, unit, unit_for, n);
        if let Run::Done((found, deps)) = expand(cx, s, unit, unit_for, n) {
            lemma_visit_deps_outcome(cx, fit, found.insert(unit, deps), deps, deps.len(), n);
        }
    }
}

proof fn lemma_visit_deps_outcome(
    cx: Context,
    fit: Fit,
    s: Search,
    deps: Seq<UnitDepView>,
    n: nat,
    fuel: nat,
)
    requires
        n <= deps.len(),
    ensures
        visit_deps(cx, s, deps, n, fuel) matches Run::Failed(e) ==> is_ambiguity(cx, e),
        fits_on(cx, fit) && (forall|i: int| 0 <= i < n ==> fit((#[trigger] deps[i]).unit))
            ==> !(visit_deps(cx, s, deps, n, fuel) is Stuck),
    decreases fuel, 1nat, n,
{
    if n > 0 {
        let k = (n - 1) as nat;
        lemma_visit_deps_outcome(cx, fit, s, deps, k, fuel);
        if let Run::Done(t) = visit_deps(cx, s, deps, k, fuel) {
            lemma_visit_outcome(cx, fit, t, deps[n - 1].unit, deps[n - 1].unit_for, fuel);
        }
    }
}

proof fn lemma_visit_scraped_outcome(cx: Context, fit: Fit, s: Search, n: nat, fuel: nat)
    requires
        n <= cx.scrape_units@.len(),
    ensures
        visit_scraped(cx, s, n, fuel) matches Run::Failed(e) ==> is_ambiguity(cx, e),
        fits_on(cx, fit) && (forall|i: int|
            0 <= i < n ==> fit((#[trigger] cx.scrape_units@[i])@) && !scrapes(
                cx,
                cx.scrape_units@[i]@,
            )) ==> !(visit_scraped(
            cx,
            s,
            n,
            fuel,
        ) is Stuck),
    decreases fuel, 1nat, n,
{
    if n > 0 {
        let k = (n - 1) as nat;
        lemma_visit_scraped_outcome(cx, fit, s, k, fuel);
        if let Run::Done((t, deps)) = visit_scraped(cx, s, k, fuel) {
            let unit = cx.scrape_units@[n - 1]@;
            lemma_visit_outcome(cx, fit, t, unit, scrape_unit_for(unit), fuel);
            lemma_scrape_dep_outcome(cx, unit);
            if scrapes_itself(cx, t, unit) {
                lemma_doc_deps_facts(cx, unit, scrape_unit_for(unit));
            }
        }
    }
}

proof fn lemma_scrape_dep_outcome(cx: Context, unit: UnitView)
    ensures
        scrape_dep(cx, unit) matches Run::Failed(e) ==> is_ambiguity(cx, e),
        !(scrape_dep(cx, unit) is Stuck),
{
}

proof fn lemma_expand_outcome(
    cx: Context,
    fit: Fit,
    s: Search,
    unit: UnitView,
    unit_for: UnitFor,
    fuel: nat,
)
    ensures
        expand(cx, s, unit, unit_for, fuel) matches Run::Failed(e) ==> is_ambiguity(cx, e),
        fits_on(cx, fit) && fit(unit) ==> !(expand(cx, s, unit, unit_for, fuel) is Stuck),
        expand(cx, s, unit, unit_for, fuel) matches Run::Done((found, deps)) ==> own_deps(
            cx,
            unit,
            unit_for,
        ) == Run::Done(deps),
    decreases fuel, 2nat, 0nat,
{
    lemma_head_deps_facts(cx, unit, unit_for);
    lemma_expand_deps(cx, s, unit, unit_for, fuel);
    if scrapes(cx, unit) {
        lemma_visit_scraped_outcome(cx, fit, s, cx.scrape_units@.len(), fuel);
    }
}

/// How a visit can end: it fails on ambiguous names only, and the tables are not
/// found wanting where they hold enough.
pub proof fn lemma_visited_outcome(
    cx: Context,
    fit: Fit,
    s: Search,
    unit: UnitView,
    unit_for: UnitFor,
)
    ensures
        visited(cx, s, unit, unit_for) matches Run::Failed(e) ==> is_ambiguity(cx, e),
        fits_on(cx, fit) && fit(unit) ==> !(visited(cx, s, unit, unit_for) is Stuck),
{
    let run = visit_within(cx, s, unit, unit_for);
    if exists|n: nat| !(#[trigger] run(n) is Unfinished) {
        let n = choose|n: nat| !(#[trigger] run(n) is Unfinished);
        lemma_visit_outcome(cx, fit, s, unit, unit_for, n);
    }
}

/// How visiting roots can end.
pub proof fn lemma_visited_roots_outcome(
    cx: Context,
    fit: Fit,
    s: Search,
    roots: Seq<UnitView>,
    n: nat,
)
    requires
        n <= roots.len(),
    ensures
        visited_roots(cx, s, roots, n) matches Run::Failed(e) ==> is_ambiguity(cx, e),
        fits_on(cx, fit) && (forall|i: int| 0 <= i < n ==> fit(#[trigger] roots[i]))
            ==> !(visited_roots(cx, s, roots, n) is Stuck),
    decreases n,
{
    if n > 0 {
        let k = (n - 1) as nat;
        lemma_visited_roots_outcome(cx, fit, s, roots, k);
        if let Run::Done(t) = visited_roots(cx, s, roots, k) {
            lemma_visited_outcome(cx, fit, t, roots[n - 1], root_unit_for(cx, roots[n - 1]));
        }
    }
}

} // verus!
