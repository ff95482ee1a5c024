//! What holds of the dependencies of a single unit.

use crate::compile::{CompileKind, CompileMode};
use crate::context::Context;
use crate::errors::DepError;
use crate::lookup::lemma_first_where;
use crate::package::{package_with, PackageId};
use crate::plan::{
    active_edges, all_package_deps, bin_deps, build_script_dep, compile_deps, doc_deps, edge_active,
    edge_deps, edges_listed, own_bin_deps, own_lib_dep, package_deps, run_script_deps, DepFilter,
};
use crate::profiles::UnitFor;
use crate::resolve::ResolveEdge;
use crate::run::{append, Run};
use crate::search::scrapes;
use crate::target::TargetView;
use crate::unit::{UnitDepView, UnitView};
use crate::walk::{head_deps, own_deps, scrape_deps};
use vstd::prelude::*;

verus! {

/// Whether a package has been downloaded.
pub open spec fn downloaded(cx: Context, pkg: PackageId) -> bool {
    cx.package_set.spec_get_one(pkg) is Some
}

/// What holds of every dependency that is made for a build.
pub open spec fn is_made(cx: Context, dep: UnitDepView) -> bool {
    &&& dep.unit.is_std == cx.is_std
    &&& dep.unit.dep_hash == 0
    &&& !dep.noprelude
    &&& dep.unit.features == cx.spec_features().spec_activated_features(
        dep.unit.pkg.id,
        dep.unit_for.map_to_features_for(),
    )
}

/// What holds of every dependency of a unit, but for those that are scraped.
///
/// It belongs to the same package or to one that has been downloaded. It is built
/// for the same kind or for the host. It is never a test. It is
/// documentation only of documentation. If it runs a build script, then that of
/// the same package.
pub open spec fn is_lowered(cx: Context, unit: UnitView, dep: UnitDepView) -> bool {
    &&& is_made(cx, dep)
    &&& dep.unit.kind == unit.kind || dep.unit.kind == CompileKind::Host
    &&& dep.unit.pkg == unit.pkg || cx.package_set.spec_get_one(dep.unit.pkg.id) == Some(
        dep.unit.pkg,
    )
    &&& dep.unit.mode.is_run_custom_build() ==> dep.unit.pkg == unit.pkg
    &&& {
        ||| dep.unit.mode == CompileMode::Build
        ||| dep.unit.mode == (CompileMode::Check { test: false })
        ||| dep.unit.mode == CompileMode::RunCustomBuild
        ||| unit.mode.is_doc() && dep.unit.mode == unit.mode
    }
}

/// Whether an error tells of dependencies that give a crate different names.
pub open spec fn is_ambiguity(cx: Context, e: DepError) -> bool {
    match e {
        DepError::AmbiguousName { from, to } => exists|target: TargetView| #[trigger]
            cx.spec_resolve().spec_extern_crate_name(from, to, target) is Err,
        DepError::LinksConflict { .. } => false,
    }
}

/// Whether a run ends as finding the dependencies of a unit can end.
pub open spec fn sound(cx: Context, unit: UnitView, run: Run<Seq<UnitDepView>>) -> bool {
    match run {
        Run::Done(deps) => forall|i: int|
            0 <= i < deps.len() ==> is_lowered(cx, unit, #[trigger] deps[i]),
        Run::Failed(e) => is_ambiguity(cx, e),
        Run::Stuck(_) => true,
        Run::Unfinished => false,
    }
}

/// A package is found under its own identity.
pub proof fn lemma_get_one(cx: Context, id: PackageId)
    ensures
        cx.package_set.spec_get_one(id) matches Some(pkg) ==> pkg.id == id,
{
    lemma_first_where(cx.package_set.packages@, package_with(id));
}

proof fn lemma_edge_deps_facts(
    cx: Context,
    unit: UnitView,
    unit_for: UnitFor,
    filter: DepFilter,
    edge: ResolveEdge,
)
    requires
        filter is Document ==> unit.mode.is_doc(),
    ensures
        sound(cx, unit, edge_deps(cx, unit, unit_for, filter, edge)),
        edge_deps(cx, unit, unit_for, filter, edge) is Stuck ==> !downloaded(cx, edge.to),
{
    lemma_get_one(cx, edge.to);
}

proof fn lemma_package_deps_facts(
    cx: Context,
    unit: UnitView,
    unit_for: UnitFor,
    filter: DepFilter,
    n: nat,
)
    requires
        filter is Document ==> unit.mode.is_doc(),
        n <= active_edges(cx, unit, unit_for, filter).len(),
    ensures
        sound(cx, unit, package_deps(cx, unit, unit_for, filter, n)),
        package_deps(cx, unit, unit_for, filter, n) is Stuck ==> exists|k: int|
            0 <= k < n && !downloaded(
                cx,
                (#[trigger] active_edges(cx, unit, unit_for, filter)[k]).to,
            ),
    decreases n,
{
    if n > 0 {
        let k = (n - 1) as nat;
        let edges = active_edges(cx, unit, unit_for, filter);
        lemma_package_deps_facts(cx, unit, unit_for, filter, k);
        lemma_edge_deps_facts(cx, unit, unit_for, filter, edges[n - 1]);
    }
}

/// Whether all that a package depends on has been downloaded.
pub open spec fn deps_downloaded(cx: Context, pkg: PackageId) -> bool {
    let edges = cx.spec_resolve().spec_deps(pkg);
    forall|i: int| 0 <= i < edges.len() ==> downloaded(cx, (#[trigger] edges[i]).to)
}

proof fn lemma_all_package_deps_facts(
    cx: Context,
    unit: UnitView,
    unit_for: UnitFor,
    filter: DepFilter,
)
    requires
        filter is Document ==> unit.mode.is_doc(),
    ensures
        sound(cx, unit, all_package_deps(cx, unit, unit_for, filter)),
        edges_listed(cx, unit) && deps_downloaded(cx, unit.pkg.id) ==> !(all_package_deps(
            cx,
            unit,
            unit_for,
            filter,
        ) is Stuck),
{
    let all = cx.spec_resolve().spec_deps(unit.pkg.id);
    let p = edge_active(cx, unit, unit_for, filter);
    let edges = active_edges(cx, unit, unit_for, filter);
    lemma_package_deps_facts(cx, unit, unit_for, filter, edges.len());
    assert forall|k: int| 0 <= k < edges.len() && deps_downloaded(cx, unit.pkg.id) implies downloaded(
        cx,
        (#[trigger] edges[k]).to,
    ) by {
        all.lemma_filter_contains_rev(p, edges[k]);
        let i = all.index_of(edges[k]);
        assert(all[i] == edges[k]);
    }
}

proof fn lemma_bin_deps_facts(cx: Context, unit: UnitView, n: nat)
    ensures
        sound(cx, unit, bin_deps(cx, unit, n)),
        !(bin_deps(cx, unit, n) is Stuck),
    decreases n,
{
    if n > 0 {
        lemma_bin_deps_facts(cx, unit, (n - 1) as nat);
    }
}

proof fn lemma_append_facts(
    cx: Context,
    unit: UnitView,
    a: Run<Seq<UnitDepView>>,
    b: Run<Seq<UnitDepView>>,
)
    requires
        sound(cx, unit, a),
        sound(cx, unit, b),
    ensures
        sound(cx, unit, append(a, b)),
        !(a is Stuck) && !(b is Stuck) ==> !(append(a, b) is Stuck),
{
}

proof fn lemma_build_script_dep_facts(cx: Context, unit: UnitView, unit_for: UnitFor)
    ensures
        sound(cx, unit, build_script_dep(cx, unit, unit_for)),
        !(build_script_dep(cx, unit, unit_for) is Stuck),
{
}

proof fn lemma_own_lib_dep_facts(
    cx: Context,
    unit: UnitView,
    unit_for: UnitFor,
    force_mode: Option<CompileMode>,
)
    requires
        force_mode matches Some(mode) ==> mode == unit.mode && unit.mode.is_doc(),
    ensures
        sound(cx, unit, own_lib_dep(cx, unit, unit_for, force_mode)),
        !(own_lib_dep(cx, unit, unit_for, force_mode) is Stuck),
{
}

proof fn lemma_run_script_deps_facts(cx: Context, unit: UnitView, unit_for: UnitFor)
    ensures
        sound(cx, unit, run_script_deps(cx, unit, unit_for)),
        cx.has_resolve() ==> !(run_script_deps(cx, unit, unit_for) is Stuck),
{
}

/// Whether the tables hold all that the dependencies of a unit can ask for.
pub open spec fn tables_suffice(cx: Context, unit: UnitView) -> bool {
    &&& cx.has_resolve()
    &&& edges_listed(cx, unit)
    &&& deps_downloaded(cx, unit.pkg.id)
}

pub proof fn lemma_doc_deps_facts(cx: Context, unit: UnitView, unit_for: UnitFor)
    requires
        unit.mode.is_doc(),
    ensures
        sound(cx, unit, doc_deps(cx, unit, unit_for)),
        tables_suffice(cx, unit) ==> !(doc_deps(cx, unit, unit_for) is Stuck),
{
    let packages = all_package_deps(cx, unit, unit_for, DepFilter::Document);
    let script = append(packages, build_script_dep(cx, unit, unit_for));
    let lib = own_lib_dep(cx, unit, unit_for, None);
    let doc = own_lib_dep(cx, unit, unit_for, Some(unit.mode));
    lemma_all_package_deps_facts(cx, unit, unit_for, DepFilter::Document);
    lemma_build_script_dep_facts(cx, unit, unit_for);
    lemma_append_facts(cx, unit, packages, build_script_dep(cx, unit, unit_for));
    lemma_own_lib_dep_facts(cx, unit, unit_for, None);
    lemma_own_lib_dep_facts(cx, unit, unit_for, Some(unit.mode));
    lemma_append_facts(cx, unit, script, lib);
    lemma_append_facts(cx, unit, append(script, lib), doc);
}

proof fn lemma_compile_deps_facts(cx: Context, unit: UnitView, unit_for: UnitFor)
    ensures
        sound(cx, unit, compile_deps(cx, unit, unit_for)),
        tables_suffice(cx, unit) ==> !(compile_deps(cx, unit, unit_for) is Stuck),
{
    let packages = all_package_deps(cx, unit, unit_for, DepFilter::Compile);
    let script = append(packages, build_script_dep(cx, unit, unit_for));
    let lib = append(script, own_lib_dep(cx, unit, unit_for, None));
    lemma_all_package_deps_facts(cx, unit, unit_for, DepFilter::Compile);
    lemma_build_script_dep_facts(cx, unit, unit_for);
    lemma_append_facts(cx, unit, packages, build_script_dep(cx, unit, unit_for));
    lemma_own_lib_dep_facts(cx, unit, unit_for, None);
    lemma_append_facts(cx, unit, script, own_lib_dep(cx, unit, unit_for, None));
    lemma_bin_deps_facts(cx, unit, unit.pkg.targets.len());
    lemma_append_facts(cx, unit, lib, own_bin_deps(cx, unit));
}

/// What holds of the dependencies of a unit, and when they can be told.
pub proof fn lemma_head_deps_facts(cx: Context, unit: UnitView, unit_for: UnitFor)
    ensures
        sound(cx, unit, head_deps(cx, unit, unit_for)),
        tables_suffice(cx, unit) ==> !(head_deps(cx, unit, unit_for) is Stuck),
{
    lemma_run_script_deps_facts(cx, unit, unit_for);
    lemma_compile_deps_facts(cx, unit, unit_for);
    if unit.mode.is_doc() {
        lemma_doc_deps_facts(cx, unit, unit_for);
    }
}

/// What holds of the dependencies on units that are scraped for examples.
pub proof fn lemma_scrape_deps_facts(cx: Context, n: nat)
    requires
        n <= cx.scrape_units@.len(),
    ensures
        scrape_deps(cx, n) matches Run::Failed(e) ==> is_ambiguity(cx, e),
        scrape_deps(cx, n) matches Run::Done(deps) ==> deps.len() == n && forall|i: int|
            0 <= i < n ==> is_made(cx, #[trigger] deps[i]) && deps[i].unit.kind
                == cx.scrape_units@[i]@.kind && deps[i].unit.mode == cx.scrape_units@[i]@.mode,
        !(scrape_deps(cx, n) is Stuck),
        !(scrape_deps(cx, n) is Unfinished),
    decreases n,
{
    if n > 0 {
        lemma_scrape_deps_facts(cx, (n - 1) as nat);
    }
}

/// Whether a dependency is on a unit that documenting `unit` scrapes for
/// examples.
pub open spec fn is_scraped(cx: Context, unit: UnitView, dep: UnitDepView) -> bool {
    &&& scrapes(cx, unit)
    &&& is_made(cx, dep)
    &&& exists|i: int|
        0 <= i < cx.scrape_units@.len() && dep.unit.kind == (#[trigger] cx.scrape_units@[i])@.kind
            && dep.unit.mode == cx.scrape_units@[i]@.mode
}

/// What holds of each dependency of a unit.
pub proof fn lemma_own_deps_facts(cx: Context, unit: UnitView, unit_for: UnitFor)
    ensures
        own_deps(cx, unit, unit_for) matches Run::Done(deps) ==> forall|i: int|
            0 <= i < deps.len() ==> is_lowered(cx, unit, #[trigger] deps[i]) || is_scraped(
                cx,
                unit,
                deps[i],
            ),
{
    lemma_head_deps_facts(cx, unit, unit_for);
    lemma_scrape_deps_facts(cx, cx.scrape_units@.len());
    if let Run::Done(deps) = own_deps(cx, unit, unit_for) {
        assert forall|i: int| 0 <= i < deps.len() implies is_lowered(cx, unit, #[trigger] deps[i])
            || is_scraped(cx, unit, deps[i]) by {
            if let Run::Done(head) = head_deps(cx, unit, unit_for) {
                if i < head.len() {
                    assert(deps[i] == head[i]);
                } else if let Run::Done(tail) = scrape_deps(cx, cx.scrape_units@.len()) {
                    assert(deps[i] == tail[i - head.len()]);
                    let scraped = cx.scrape_units@[i - head.len()];
                }
            }
        }
    }
}

/// A unit that does not scrape, or has nothing to scrape, depends on nothing that
/// is scraped.
pub proof fn law_nothing_scraped(cx: Context, unit: UnitView, unit_for: UnitFor)
    requires
        !scrapes(cx, unit) || cx.scrape_units@.len() == 0,
    ensures
        own_deps(cx, unit, unit_for) matches Run::Done(deps) ==> forall|i: int|
            0 <= i < deps.len() ==> !(#[trigger] deps[i]).unit.mode.is_doc_scrape(),
{
    lemma_own_deps_facts(cx, unit, unit_for);
    if let Run::Done(deps) = own_deps(cx, unit, unit_for) {
        assert forall|i: int| 0 <= i < deps.len() implies !(
        #[trigger] deps[i]).unit.mode.is_doc_scrape() by {
            assert(is_lowered(cx, unit, deps[i]) || is_scraped(cx, unit, deps[i]));
        }
    }
}

} // verus!
