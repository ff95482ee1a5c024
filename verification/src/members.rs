//! The dependencies of a unit are those that follow from the tables.

use crate::compile::{CompileKind, CompileMode};
use crate::context::Context;
use crate::dependency::Dependency;
use crate::interning::{all_among, InternedString};
use crate::lookup::{first_where, is_first, lemma_first_where, lemma_found};
use crate::order_laws::{filter_of, lemma_parts};
use crate::package::{
    build_script_target, lib_target, linkable_target, package_with, PackageId, PackageSet,
    PackageView,
};
use crate::plan::{
    active_edges, all_package_deps, bin_dep, bin_deps, build_script_dep, dep_active, dep_available,
    edge_active, edge_deps, enabled_bin, lib_deps, needs_bins, own_bin_deps, own_lib_dep,
    package_deps, profile_query, run_script_deps, scrape_dep, scrape_unit_for, script_overridden,
    spec_check_or_build_mode, spec_new_unit_dep, spec_new_unit_dep_with_profile, wanted_by,
    DepFilter,
};
use crate::profiles::{
    choice_for, run_profile_for, PanicSetting, Profile, ProfileChoice, Profiles, UnitFor,
};
use crate::resolve::{
    activation_of, all_features_of, edge_to, node_of, FeaturesFor, Resolve, ResolveEdge,
    ResolvedFeatures,
};
use crate::run::{append, single, Run};
use crate::search::scrapes;
use crate::target::{TargetKind, TargetView};
use crate::terms::{
    activation_at, asks_for, built_twice, edge_at, features_are, features_of, follows,
    for_host_side, gets, gets_edge, handed_down, holds_package, is_bin_dep, is_lib_dep, is_lib_of,
    is_linkable_of, is_own_lib_dep, is_run_dep, is_scrape_dep, is_script_dep, is_script_of,
    is_selected, joins, kind_follows, leads, mode_follows, name_selected, node_at, output_given,
    package_at, profile_fits, publicly, resolution_of, rightly_made, rightly_named, row_fits,
    run_profile_fits, runs_bins, shows_examples, turned_on,
};
use crate::unit::{UnitDepView, UnitView};
use crate::walk::{head_deps, own_deps, scrape_deps};
use vstd::prelude::*;

verus! {

pub proof fn lemma_leads(resolve: Resolve, from: PackageId, edge: ResolveEdge)
    ensures
        resolve.spec_deps(from).contains(edge) <==> leads(resolve, from, edge),
{
    let p = node_of(from);
    lemma_first_where(resolve.nodes@, p);
    if exists|n: int| is_first(resolve.nodes@, p, n) {
        let n = choose|n: int| is_first(resolve.nodes@, p, n);
        assert(node_at(resolve, from, n));
        lemma_found(resolve.nodes@, p, n);
    }
    if leads(resolve, from, edge) {
        let n = choose|n: int| #[trigger]
            node_at(resolve, from, n) && resolve.nodes@[n].edges@.contains(edge);
        assert(is_first(resolve.nodes@, p, n));
        lemma_found(resolve.nodes@, p, n);
    }
}

pub proof fn lemma_joins(resolve: Resolve, from: PackageId, to: PackageId, edge: ResolveEdge)
    ensures
        resolve.spec_edge(from, to) == Some(edge) <==> joins(resolve, from, to, edge),
{
    let p = node_of(from);
    let q = edge_to(to);
    let edges = resolve.spec_deps(from);
    lemma_first_where(resolve.nodes@, p);
    lemma_first_where(edges, q);
    if resolve.spec_edge(from, to) == Some(edge) {
        let n = choose|n: int| is_first(resolve.nodes@, p, n);
        assert(is_first(resolve.nodes@, p, n));
        assert(node_at(resolve, from, n));
        lemma_found(resolve.nodes@, p, n);
        let i = choose|i: int| is_first(edges, q, i);
        assert(is_first(edges, q, i));
        assert(edge_at(resolve.nodes@[n].edges@, to, i));
    }
    if joins(resolve, from, to, edge) {
        let (n, i) = choose|n: int, i: int|
            #[trigger] node_at(resolve, from, n) && #[trigger] edge_at(
                resolve.nodes@[n].edges@,
                to,
                i,
            ) && resolve.nodes@[n].edges@[i] == edge;
        assert(is_first(resolve.nodes@, p, n));
        lemma_found(resolve.nodes@, p, n);
        assert(is_first(edges, q, i));
        lemma_found(edges, q, i);
    }
}

pub open spec fn side(host: bool) -> FeaturesFor {
    if host {
        FeaturesFor::HostDep
    } else {
        FeaturesFor::NormalOrDev
    }
}

proof fn lemma_activation(features: ResolvedFeatures, pkg: PackageId, host: bool)
    ensures
        forall|n: int| #[trigger]
            activation_at(features, pkg, host, n) ==> first_where(
                features.activations@,
                activation_of(pkg, side(host)),
            ) == Some(features.activations@[n]),
        (forall|n: int| !#[trigger] activation_at(features, pkg, host, n)) ==> first_where(
            features.activations@,
            activation_of(pkg, side(host)),
        ) is None,
{
    let rows = features.activations@;
    let p = activation_of(pkg, side(host));
    assert forall|n: int| #[trigger] activation_at(features, pkg, host, n) implies first_where(rows, p)
        == Some(rows[n]) by {
        assert(is_first(rows, p, n));
        lemma_found(rows, p, n);
    }
    if exists|n: int| is_first(rows, p, n) {
        let n = choose|n: int| is_first(rows, p, n);
        assert forall|m: int| 0 <= m < n implies !((#[trigger] rows[m]).pkg == pkg
            && rows[m].features_for == side(host)) by {
            assert(!p(rows[m]));
        }
        assert(activation_at(features, pkg, host, n));
    }
}

proof fn lemma_features_are(
    features: ResolvedFeatures,
    pkg: PackageId,
    host: bool,
    names: Seq<InternedString>,
)
    ensures
        features.spec_activated_features(pkg, side(host)) == names <==> features_are(
            features,
            pkg,
            host,
            names,
        ),
{
    lemma_activation(features, pkg, host);
    if exists|n: int| #[trigger] activation_at(features, pkg, host, n) {
        let n = choose|n: int| #[trigger] activation_at(features, pkg, host, n);
        assert(activation_at(features, pkg, host, n));
    } else if names.len() == 0 {
        assert(names =~= Seq::empty());
    }
}

pub proof fn lemma_turned_on(
    features: ResolvedFeatures,
    pkg: PackageId,
    host: bool,
    name: InternedString,
)
    ensures
        features.spec_is_dep_activated(pkg, side(host), name) <==> turned_on(
            features,
            pkg,
            host,
            name,
        ),
{
    lemma_activation(features, pkg, host);
    if exists|n: int| #[trigger] activation_at(features, pkg, host, n) {
        let n = choose|n: int| #[trigger] activation_at(features, pkg, host, n);
        assert(activation_at(features, pkg, host, n));
    }
}

proof fn lemma_name_selected(features: ResolvedFeatures, pkg: PackageId, name: InternedString)
    ensures
        features.spec_all_features(pkg).contains(name) <==> name_selected(features, pkg, name),
{
    let rows = features.all@;
    let p = all_features_of(pkg);
    lemma_first_where(rows, p);
    if features.spec_all_features(pkg).contains(name) {
        let n = choose|n: int| is_first(rows, p, n);
        assert(is_first(rows, p, n));
        lemma_found(rows, p, n);
        assert forall|m: int| 0 <= m < n implies (#[trigger] rows[m]).pkg != pkg by {
            assert(!p(rows[m]));
        }
        assert(rows[n].pkg == pkg);
    }
    if name_selected(features, pkg, name) {
        let n = choose|n: int|
            {
                &&& 0 <= n < rows.len()
                &&& (#[trigger] rows[n]).pkg == pkg
                &&& rows[n].names@.contains(name)
                &&& forall|m: int| 0 <= m < n ==> (#[trigger] rows[m]).pkg != pkg
            };
        assert(is_first(rows, p, n));
        lemma_found(rows, p, n);
    }
}

proof fn lemma_selected(features: ResolvedFeatures, pkg: PackageId, target: TargetView)
    ensures
        is_selected(features, pkg, target) <==> match target.required_features {
            Some(required) => all_among(required, features.spec_all_features(pkg)),
            None => true,
        },
{
    if let Some(required) = target.required_features {
        assert forall|i: int| 0 <= i < required.len() implies features.spec_all_features(
            pkg,
        ).contains(#[trigger] required[i]) == name_selected(features, pkg, required[i]) by {
            lemma_name_selected(features, pkg, required[i]);
        }
    }
}

pub proof fn lemma_holds_package(set: PackageSet, id: PackageId, pkg: PackageView)
    ensures
        set.spec_get_one(id) == Some(pkg) <==> pkg.id == id && holds_package(set, pkg),
{
    let p = package_with(id);
    lemma_first_where(set.packages@, p);
    if set.spec_get_one(id) == Some(pkg) {
        let n = choose|n: int| is_first(set.packages@, p, n);
        assert(is_first(set.packages@, p, n));
        lemma_found(set.packages@, p, n);
        assert(package_at(set, id, n));
    }
    if pkg.id == id && holds_package(set, pkg) {
        let n = choose|n: int| #[trigger] package_at(set, pkg.id, n) && set.packages@[n]@ == pkg;
        assert(is_first(set.packages@, p, n));
        lemma_found(set.packages@, p, n);
    }
}

proof fn lemma_lib_of(pkg: PackageView, t: TargetView)
    ensures
        pkg.spec_lib() == Some(t) <==> is_lib_of(pkg, t),
{
    let all = pkg.targets;
    let p = lib_target();
    lemma_first_where(all, p);
    if pkg.spec_lib() == Some(t) {
        let k = choose|k: int| is_first(all, p, k);
        assert(is_first(all, p, k));
        lemma_found(all, p, k);
        assert forall|j: int| 0 <= j < k implies !((#[trigger] all[j]).kind is Lib) by {
            assert(!p(all[j]));
        }
        assert(all[k] == t);
    }
    if is_lib_of(pkg, t) {
        let k = choose|k: int|
            {
                &&& 0 <= k < all.len()
                &&& (#[trigger] all[k]) == t
                &&& t.kind is Lib
                &&& forall|j: int| 0 <= j < k ==> !((#[trigger] all[j]).kind is Lib)
            };
        assert(is_first(all, p, k));
        lemma_found(all, p, k);
    }
}

proof fn lemma_linkable_of(pkg: PackageView, t: TargetView)
    ensures
        pkg.spec_linkable() == Some(t) <==> is_linkable_of(pkg, t),
{
    let all = pkg.targets;
    let p = linkable_target();
    lemma_first_where(all, p);
    if pkg.spec_linkable() == Some(t) {
        let k = choose|k: int| is_first(all, p, k);
        assert(is_first(all, p, k));
        lemma_found(all, p, k);
        assert forall|j: int| 0 <= j < k implies (#[trigger] all[j]).kind != TargetKind::Lib { linkable: true } by {
            assert(!p(all[j]));
        }
        assert(all[k] == t);
    }
    if is_linkable_of(pkg, t) {
        let k = choose|k: int|
            {
                &&& 0 <= k < all.len()
                &&& (#[trigger] all[k]) == t
                &&& t.kind == TargetKind::Lib { linkable: true }
                &&& forall|j: int| 0 <= j < k ==> (#[trigger] all[j]).kind != TargetKind::Lib { linkable: true }
            };
        assert(is_first(all, p, k));
        lemma_found(all, p, k);
    }
}

pub proof fn lemma_script_of(pkg: PackageView, t: TargetView)
    ensures
        pkg.spec_build_script() == Some(t) <==> is_script_of(pkg, t),
{
    let all = pkg.targets;
    let p = build_script_target();
    lemma_first_where(all, p);
    if pkg.spec_build_script() == Some(t) {
        let k = choose|k: int| is_first(all, p, k);
        assert(is_first(all, p, k));
        lemma_found(all, p, k);
        assert forall|j: int| 0 <= j < k implies (#[trigger] all[j]).kind != TargetKind::CustomBuild by {
            assert(!p(all[j]));
        }
        assert(all[k] == t);
    }
    if is_script_of(pkg, t) {
        let k = choose|k: int|
            {
                &&& 0 <= k < all.len()
                &&& (#[trigger] all[k]) == t
                &&& t.kind == TargetKind::CustomBuild
                &&& forall|j: int| 0 <= j < k ==> (#[trigger] all[j]).kind != TargetKind::CustomBuild
            };
        assert(is_first(all, p, k));
        lemma_found(all, p, k);
    }
}

pub proof fn lemma_targets(pkg: PackageView, t: TargetView)
    ensures
        pkg.spec_lib() == Some(t) <==> is_lib_of(pkg, t),
        pkg.spec_linkable() == Some(t) <==> is_linkable_of(pkg, t),
        pkg.spec_build_script() == Some(t) <==> is_script_of(pkg, t),
{
    lemma_lib_of(pkg, t);
    lemma_linkable_of(pkg, t);
    lemma_script_of(pkg, t);
}

/// A dependency has the right name exactly if it has the one that is given to it.
proof fn lemma_named(resolve: Resolve, from: PackageId, d: UnitDepView)
    ensures
        resolve.spec_extern_crate_name(from, d.unit.pkg.id, d.unit.target) matches Ok(name) ==> (
        d.extern_crate_name == name <==> rightly_named(resolve, from, d)),
{
    let to = d.unit.pkg.id;
    let own = d.unit.target.crate_name;
    assert forall|edge: ResolveEdge| #[trigger] joins(resolve, from, to, edge) implies
        resolve.spec_edge(from, to) == Some(edge) by {
        lemma_joins(resolve, from, to, edge);
    }
    if let Ok(name) = resolve.spec_extern_crate_name(from, to, d.unit.target) {
        if let Some(edge) = resolve.spec_edge(from, to) {
            lemma_joins(resolve, from, to, edge);
            if from != to && edge.deps@.len() > 0 {
                assert(joins(resolve, from, to, edge));
                assert(edge.deps@[0] == resolve.spec_naming_deps(from, to)[0]);
            }
        }
    }
}

proof fn lemma_publicly(resolve: Resolve, from: PackageId, to: PackageId)
    ensures
        resolve.spec_is_public_dep(from, to) <==> publicly(resolve, from, to),
{
    if let Some(edge) = resolve.spec_edge(from, to) {
        lemma_joins(resolve, from, to, edge);
    }
    if publicly(resolve, from, to) {
        let edge = choose|edge: ResolveEdge| #[trigger]
            joins(resolve, from, to, edge) && edge.public;
        lemma_joins(resolve, from, to, edge);
    }
}

proof fn lemma_profile_fits(cx: Context, is_std: bool, d: UnitDepView)
    ensures
        d.unit.profile == cx.profiles.spec_get_profile(
            profile_query(
                cx.for_std(is_std),
                d.unit.pkg,
                d.unit_for,
                d.unit.mode,
                d.unit.kind,
            ),
        ) <==> profile_fits(cx, is_std, d),
{
    let query = profile_query(
        cx.for_std(is_std),
        d.unit.pkg,
        d.unit_for,
        d.unit.mode,
        d.unit.kind,
    );
    let rows = cx.profiles.choices@;
    let p = choice_for(query);
    assert forall|row: ProfileChoice| #[trigger] p(row) == row_fits(cx, is_std, row, d) by {}
    assert forall|n: int| 0 <= n < rows.len() implies row_fits(cx, is_std, #[trigger] rows[n], d)
        == p(rows[n]) by {}
    if exists|n: int| is_first(rows, p, n) {
        let n = choose|n: int| is_first(rows, p, n);
        lemma_found(rows, p, n);
        assert forall|m: int| 0 <= m < n implies !row_fits(cx, is_std, #[trigger] rows[m], d) by {
            assert(!p(rows[m]));
        }
        assert(row_fits(cx, is_std, rows[n], d));
        if profile_fits(cx, is_std, d) {
            assert(d.unit.profile == rows[n].profile);
        }
        assert forall|k: int|
            0 <= k < rows.len() && row_fits(cx, is_std, #[trigger] rows[k], d) && (forall|m: int|
                0 <= m < k ==> !row_fits(cx, is_std, #[trigger] rows[m], d)) implies k == n by {
            if n < k {
                assert(!row_fits(cx, is_std, rows[n], d));
            }
        }
    } else {
        lemma_first_where(rows, p);
        assert forall|n: int| 0 <= n < rows.len() implies !row_fits(
            cx,
            is_std,
            #[trigger] rows[n],
            d,
        ) by {
            assert(!p(rows[n]));
        }
    }
}

pub proof fn lemma_run_profile_fits(profiles: Profiles, of: Profile, profile: Profile)
    ensures
        profile == profiles.spec_get_profile_run_custom_build(of) <==> run_profile_fits(
            profiles,
            of,
            profile,
        ),
{
    let rows = profiles.run_custom_build@;
    let p = run_profile_for(of);
    if exists|n: int| is_first(rows, p, n) {
        let n = choose|n: int| is_first(rows, p, n);
        lemma_found(rows, p, n);
        assert forall|m: int| 0 <= m < n implies (#[trigger] rows[m]).for_unit != of by {
            assert(!p(rows[m]));
        }
        assert(rows[n].for_unit == of);
        assert forall|k: int|
            0 <= k < rows.len() && (#[trigger] rows[k]).for_unit == of && (forall|m: int|
                0 <= m < k ==> (#[trigger] rows[m]).for_unit != of) implies k == n by {
            if n < k {
                assert(rows[n].for_unit != of);
            }
        }
    } else {
        lemma_first_where(rows, p);
        assert forall|n: int| 0 <= n < rows.len() implies (#[trigger] rows[n]).for_unit != of by {
            assert(!p(rows[n]));
        }
    }
}

/// A dependency that is built with a given profile is determined by what it is on.
pub proof fn lemma_made_with(
    cx: Context,
    is_std: bool,
    parent: UnitView,
    target: TargetView,
    pkg: PackageView,
    unit_for: UnitFor,
    kind: CompileKind,
    mode: CompileMode,
    profile: Profile,
    d: UnitDepView,
)
    ensures
        spec_new_unit_dep_with_profile(
            cx.for_std(is_std),
            parent,
            pkg,
            target,
            unit_for,
            kind,
            mode,
            profile,
        ) matches Run::Done(x) ==> (d == x <==> {
            &&& d.unit.pkg == pkg
            &&& d.unit.target == target
            &&& d.unit.kind == kind
            &&& d.unit.mode == mode
            &&& d.unit_for == unit_for
            &&& d.unit.profile == profile
            &&& rightly_made(cx, is_std, parent.pkg.id, d)
        }),
{
    let here = cx.for_std(is_std);
    let resolve = resolution_of(cx, is_std);
    assert(here.spec_resolve() == resolve);
    assert(here.spec_features() == features_of(cx, is_std));
    lemma_named(resolve, parent.pkg.id, d);
    lemma_publicly(resolve, parent.pkg.id, d.unit.pkg.id);
    lemma_features_are(
        features_of(cx, is_std),
        d.unit.pkg.id,
        d.unit_for.host_features,
        d.unit.features,
    );
    assert(d.unit_for.map_to_features_for() == side(d.unit_for.host_features));
}

/// A dependency is determined by what it is on.
proof fn lemma_made(
    cx: Context,
    is_std: bool,
    parent: UnitView,
    pkg: PackageView,
    target: TargetView,
    unit_for: UnitFor,
    kind: CompileKind,
    mode: CompileMode,
    d: UnitDepView,
)
    ensures
        spec_new_unit_dep(
            cx.for_std(is_std),
            parent,
            pkg,
            target,
            unit_for,
            kind,
            mode,
        ) matches Run::Done(x) ==> (d == x <==> {
            &&& d.unit.pkg == pkg
            &&& d.unit.target == target
            &&& d.unit.kind == kind
            &&& d.unit.mode == mode
            &&& d.unit_for == unit_for
            &&& profile_fits(cx, is_std, d)
            &&& rightly_made(cx, is_std, parent.pkg.id, d)
        }),
{
    let here = cx.for_std(is_std);
    let profile = here.profiles.spec_get_profile(profile_query(here, pkg, unit_for, mode, kind));
    lemma_made_with(cx, is_std, parent, target, pkg, unit_for, kind, mode, profile, d);
    lemma_profile_fits(cx, is_std, d);
}

/// Whether a run ends with a list that holds a dependency.
pub open spec fn has(run: Run<Seq<UnitDepView>>, d: UnitDepView) -> bool {
    run matches Run::Done(deps) && deps.contains(d)
}

pub proof fn lemma_append_has(a: Run<Seq<UnitDepView>>, b: Run<Seq<UnitDepView>>, d: UnitDepView)
    ensures
        append(a, b) is Done ==> a is Done && b is Done,
        append(a, b) is Done ==> (has(append(a, b), d) <==> has(a, d) || has(b, d)),
{
    if let Run::Done(deps) = append(a, b) {
        let x = a->Done_0;
        let y = b->Done_0;
        if x.contains(d) {
            let i = x.index_of(d);
            assert(deps[i] == d);
        }
        if y.contains(d) {
            let i = y.index_of(d);
            assert(deps[x.len() + i] == d);
        }
        if deps.contains(d) {
            let i = deps.index_of(d);
            if i < x.len() {
                assert(x[i] == d);
            } else {
                assert(y[i - x.len()] == d);
            }
        }
    }
}

pub proof fn lemma_single_has(run: Run<UnitDepView>, d: UnitDepView)
    ensures
        single(run) is Done ==> run is Done && (has(single(run), d) <==> run == Run::Done(d)),
{
    if let Run::Done(x) = run {
        assert(seq![x][0] == x);
    }
}

/// Whether an edge that a unit gets brings a dependency.
pub open spec fn brought(
    cx: Context,
    is_std: bool,
    u: UnitView,
    unit_for: UnitFor,
    edge: ResolveEdge,
    d: UnitDepView,
) -> bool {
    &&& d.unit.pkg.id == edge.to
    &&& holds_package(*cx.package_set, d.unit.pkg)
    &&& is_lib_of(d.unit.pkg, d.unit.target)
    &&& handed_down(u, unit_for, d.unit.target, d.unit_for)
    &&& if built_twice(cx, u, d.unit.target) {
        d.unit.kind == u.kind || d.unit.kind == CompileKind::Host
    } else {
        kind_follows(u, d.unit.target, d.unit.kind)
    }
    &&& mode_follows(u, d.unit.target, d.unit.mode) || u.mode == (CompileMode::Doc { deps: true })
        && d.unit.mode == u.mode
    &&& profile_fits(cx, is_std, d)
    &&& rightly_made(cx, is_std, u.pkg.id, d)
}

proof fn lemma_handed_down(u: UnitView, unit_for: UnitFor, target: TargetView, dep_for: UnitFor)
    ensures
        dep_for == unit_for.spec_with_dependency(u, target) <==> handed_down(
            u,
            unit_for,
            target,
            dep_for,
        ),
{
}

proof fn lemma_lib_deps_has(
    cx: Context,
    is_std: bool,
    u: UnitView,
    unit_for: UnitFor,
    pkg: PackageView,
    lib: TargetView,
    d: UnitDepView,
)
    requires
        !u.mode.is_run_custom_build(),
    ensures
        lib_deps(cx.for_std(is_std), u, unit_for, filter_of(u), pkg, lib) is Done ==> (has(
            lib_deps(cx.for_std(is_std), u, unit_for, filter_of(u), pkg, lib),
            d,
        ) <==> {
            &&& d.unit.pkg == pkg
            &&& d.unit.target == lib
            &&& handed_down(u, unit_for, lib, d.unit_for)
            &&& if built_twice(cx, u, lib) {
                d.unit.kind == u.kind || d.unit.kind == CompileKind::Host
            } else {
                kind_follows(u, lib, d.unit.kind)
            }
            &&& mode_follows(u, lib, d.unit.mode) || u.mode == (CompileMode::Doc { deps: true })
                && d.unit.mode == u.mode
            &&& profile_fits(cx, is_std, d)
            &&& rightly_made(cx, is_std, u.pkg.id, d)
        }),
{
    let here = cx.for_std(is_std);
    let mode = spec_check_or_build_mode(u.mode, lib);
    let dep_for = unit_for.spec_with_dependency(u, lib);
    let kind = u.kind.spec_for_target(lib);
    lemma_handed_down(u, unit_for, lib, d.unit_for);
    assert(mode_follows(u, lib, d.unit.mode) <==> d.unit.mode == mode);
    assert(kind_follows(u, lib, d.unit.kind) <==> d.unit.kind == kind);
    let plain = spec_new_unit_dep(here, u, pkg, lib, dep_for, kind, mode);
    let away = spec_new_unit_dep(here, u, pkg, lib, dep_for, u.kind, mode);
    let host = spec_new_unit_dep(here, u, pkg, lib, dep_for, CompileKind::Host, mode);
    let doc = spec_new_unit_dep(here, u, pkg, lib, dep_for, kind, u.mode);
    lemma_made(cx, is_std, u, pkg, lib, dep_for, kind, mode, d);
    lemma_made(cx, is_std, u, pkg, lib, dep_for, u.kind, mode, d);
    lemma_made(cx, is_std, u, pkg, lib, dep_for, CompileKind::Host, mode, d);
    lemma_made(cx, is_std, u, pkg, lib, dep_for, kind, u.mode, d);
    lemma_single_has(plain, d);
    lemma_single_has(away, d);
    lemma_single_has(host, d);
    lemma_single_has(doc, d);
    lemma_append_has(single(away), single(host), d);
    lemma_append_has(single(plain), single(doc), d);
}

pub proof fn lemma_edge_has(
    cx: Context,
    is_std: bool,
    u: UnitView,
    unit_for: UnitFor,
    edge: ResolveEdge,
    d: UnitDepView,
)
    requires
        !u.mode.is_run_custom_build(),
    ensures
        edge_deps(cx.for_std(is_std), u, unit_for, filter_of(u), edge) is Done ==> (has(
            edge_deps(cx.for_std(is_std), u, unit_for, filter_of(u), edge),
            d,
        ) <==> brought(cx, is_std, u, unit_for, edge, d)),
{
    lemma_holds_package(*cx.package_set, edge.to, d.unit.pkg);
    if let Some(pkg) = cx.package_set.spec_get_one(edge.to) {
        lemma_holds_package(*cx.package_set, edge.to, pkg);
        lemma_lib_of(pkg, d.unit.target);
        if let Some(lib) = pkg.spec_lib() {
            lemma_lib_deps_has(cx, is_std, u, unit_for, pkg, lib, d);
        }
    }
}

pub proof fn lemma_package_deps_has(
    cx: Context,
    u: UnitView,
    unit_for: UnitFor,
    filter: DepFilter,
    n: nat,
    d: UnitDepView,
)
    requires
        n <= active_edges(cx, u, unit_for, filter).len(),
    ensures
        package_deps(cx, u, unit_for, filter, n) is Done ==> {
            let edges = active_edges(cx, u, unit_for, filter);
            &&& forall|k: int|
                0 <= k < n ==> edge_deps(cx, u, unit_for, filter, #[trigger] edges[k]) is Done
            &&& has(package_deps(cx, u, unit_for, filter, n), d) <==> exists|k: int|
                0 <= k < n && has(edge_deps(cx, u, unit_for, filter, #[trigger] edges[k]), d)
        },
    decreases n,
{
    if n > 0 {
        let edges = active_edges(cx, u, unit_for, filter);
        let k = (n - 1) as nat;
        let before = package_deps(cx, u, unit_for, filter, k);
        let last = edge_deps(cx, u, unit_for, filter, edges[n - 1]);
        lemma_package_deps_has(cx, u, unit_for, filter, k, d);
        lemma_append_has(before, last, d);
        if package_deps(cx, u, unit_for, filter, n) is Done {
            if has(before, d) {
                let j = choose|j: int|
                    0 <= j < k && has(edge_deps(cx, u, unit_for, filter, #[trigger] edges[j]), d);
                assert(has(edge_deps(cx, u, unit_for, filter, edges[j]), d));
            }
            if has(last, d) {
                assert(has(edge_deps(cx, u, unit_for, filter, edges[n - 1]), d));
            }
        }
    }
}

proof fn lemma_gets(
    cx: Context,
    is_std: bool,
    u: UnitView,
    unit_for: UnitFor,
    dep: Dependency,
)
    requires
        !u.mode.is_run_custom_build(),
    ensures
        dep_active(cx.for_std(is_std), u, unit_for, filter_of(u), dep) <==> gets(
            cx,
            is_std,
            u,
            unit_for.host_features,
            dep,
        ),
{
    lemma_turned_on(
        features_of(cx, is_std),
        u.pkg.id,
        unit_for.host_features,
        dep.name_in_toml,
    );
    assert(unit_for.map_to_features_for() == side(unit_for.host_features));
    assert(cx.for_std(is_std).spec_features() == features_of(cx, is_std));
}

pub proof fn lemma_active_edge(
    cx: Context,
    is_std: bool,
    u: UnitView,
    unit_for: UnitFor,
    edge: ResolveEdge,
)
    requires
        !u.mode.is_run_custom_build(),
    ensures
        active_edges(cx.for_std(is_std), u, unit_for, filter_of(u)).contains(edge) <==> leads(
            resolution_of(cx, is_std),
            u.pkg.id,
            edge,
        ) && gets_edge(cx, is_std, u, unit_for.host_features, edge),
{
    let here = cx.for_std(is_std);
    let filter = filter_of(u);
    let all = here.spec_resolve().spec_deps(u.pkg.id);
    let p = edge_active(here, u, unit_for, filter);
    let wanted = wanted_by(u, filter);
    assert(here.spec_resolve() == resolution_of(cx, is_std));
    lemma_leads(resolution_of(cx, is_std), u.pkg.id, edge);
    assert(p(edge) <==> gets_edge(cx, is_std, u, unit_for.host_features, edge)) by {
        assert forall|i: int| 0 <= i < edge.deps@.len() implies (wanted(#[trigger] edge.deps@[i])
            && dep_available(here, u, unit_for, edge.deps@[i])) == gets(
            cx,
            is_std,
            u,
            unit_for.host_features,
            edge.deps@[i],
        ) by {
            lemma_gets(cx, is_std, u, unit_for, edge.deps@[i]);
        }
        if p(edge) {
            let i = choose|i: int|
                0 <= i < edge.deps@.len() && wanted(#[trigger] edge.deps@[i]) && dep_available(
                    here,
                    u,
                    unit_for,
                    edge.deps@[i],
                );
            assert(gets(cx, is_std, u, unit_for.host_features, edge.deps@[i]));
        }
        if gets_edge(cx, is_std, u, unit_for.host_features, edge) {
            let i = choose|i: int|
                0 <= i < edge.deps@.len() && gets(
                    cx,
                    is_std,
                    u,
                    unit_for.host_features,
                    #[trigger] edge.deps@[i],
                );
            assert(wanted(edge.deps@[i]));
        }
    }
    let kept = all.filter(p);
    if kept.contains(edge) {
        let k = kept.index_of(edge);
        all.lemma_filter_pred(p, k);
        all.lemma_filter_contains_rev(p, edge);
    }
    if all.contains(edge) && p(edge) {
        let i = all.index_of(edge);
        all.lemma_filter_contains(p, i);
    }
}

pub proof fn lemma_packages_has(
    cx: Context,
    is_std: bool,
    u: UnitView,
    unit_for: UnitFor,
    d: UnitDepView,
)
    requires
        !u.mode.is_run_custom_build(),
    ensures
        all_package_deps(cx.for_std(is_std), u, unit_for, filter_of(u)) is Done ==> (has(
            all_package_deps(cx.for_std(is_std), u, unit_for, filter_of(u)),
            d,
        ) <==> is_lib_dep(cx, is_std, u, unit_for, d)),
{
    let here = cx.for_std(is_std);
    let filter = filter_of(u);
    let edges = active_edges(here, u, unit_for, filter);
    let run = all_package_deps(here, u, unit_for, filter);
    lemma_package_deps_has(here, u, unit_for, filter, edges.len(), d);
    if run is Done {
        if has(run, d) {
            let k = choose|k: int|
                0 <= k < edges.len() && has(
                    edge_deps(here, u, unit_for, filter, #[trigger] edges[k]),
                    d,
                );
            lemma_edge_has(cx, is_std, u, unit_for, edges[k], d);
            assert(edges.contains(edges[k]));
            lemma_active_edge(cx, is_std, u, unit_for, edges[k]);
            assert(leads(resolution_of(cx, is_std), u.pkg.id, edges[k]));
        }
        if is_lib_dep(cx, is_std, u, unit_for, d) {
            let edge = choose|edge: ResolveEdge|
                {
                    &&& #[trigger] leads(resolution_of(cx, is_std), u.pkg.id, edge)
                    &&& gets_edge(cx, is_std, u, unit_for.host_features, edge)
                    &&& d.unit.pkg.id == edge.to
                };
            lemma_active_edge(cx, is_std, u, unit_for, edge);
            let k = edges.index_of(edge);
            assert(edges[k] == edge);
            lemma_edge_has(cx, is_std, u, unit_for, edge, d);
            assert(has(edge_deps(here, u, unit_for, filter, edges[k]), d));
        }
    }
}

pub proof fn lemma_script_has(cx: Context, is_std: bool, u: UnitView, unit_for: UnitFor, d: UnitDepView)
    requires
        u.mode.is_doc() || !u.mode.is_run_custom_build() && !u.target.is_custom_build(),
    ensures
        build_script_dep(cx.for_std(is_std), u, unit_for) is Done ==> (has(
            build_script_dep(cx.for_std(is_std), u, unit_for),
            d,
        ) <==> is_run_dep(cx, is_std, u, unit_for, d)),
{
    let here = cx.for_std(is_std);
    lemma_script_of(u.pkg, d.unit.target);
    if let Some(script) = u.pkg.spec_build_script() {
        let dep_for = UnitFor::new_host(unit_for.is_for_host_features());
        let profile = here.profiles.spec_get_profile_run_custom_build(u.profile);
        let mode = CompileMode::RunCustomBuild;
        let run = spec_new_unit_dep_with_profile(
            here,
            u,
            u.pkg,
            script,
            dep_for,
            u.kind,
            mode,
            profile,
        );
        lemma_made_with(cx, is_std, u, script, u.pkg, dep_for, u.kind, mode, profile, d);
        lemma_run_profile_fits(*cx.profiles, u.profile, d.unit.profile);
        lemma_single_has(run, d);
        assert(for_host_side(unit_for.host_features, d.unit_for) <==> d.unit_for == dep_for);
    }
}

pub proof fn lemma_own_lib_has(
    cx: Context,
    is_std: bool,
    u: UnitView,
    unit_for: UnitFor,
    force_mode: Option<CompileMode>,
    d: UnitDepView,
)
    ensures
        own_lib_dep(cx.for_std(is_std), u, unit_for, force_mode) is Done ==> (has(
            own_lib_dep(cx.for_std(is_std), u, unit_for, force_mode),
            d,
        ) <==> {
            &&& d.unit.pkg == u.pkg
            &&& is_linkable_of(u.pkg, d.unit.target)
            &&& handed_down(u, unit_for, d.unit.target, d.unit_for)
            &&& kind_follows(u, d.unit.target, d.unit.kind)
            &&& match force_mode {
                Some(mode) => d.unit.mode == mode,
                None => mode_follows(u, d.unit.target, d.unit.mode),
            }
            &&& profile_fits(cx, is_std, d)
            &&& rightly_made(cx, is_std, u.pkg.id, d)
        }),
{
    let here = cx.for_std(is_std);
    lemma_linkable_of(u.pkg, d.unit.target);
    if let Some(lib) = u.pkg.spec_linkable() {
        let dep_for = unit_for.spec_with_dependency(u, lib);
        let kind = u.kind.spec_for_target(lib);
        let mode = match force_mode {
            Some(mode) => mode,
            None => spec_check_or_build_mode(u.mode, lib),
        };
        lemma_handed_down(u, unit_for, lib, d.unit_for);
        lemma_made(cx, is_std, u, u.pkg, lib, dep_for, kind, mode, d);
        lemma_single_has(spec_new_unit_dep(here, u, u.pkg, lib, dep_for, kind, mode), d);
        assert(mode_follows(u, lib, d.unit.mode) <==> d.unit.mode == spec_check_or_build_mode(
            u.mode,
            lib,
        ));
        assert(kind_follows(u, lib, d.unit.kind) <==> d.unit.kind == kind);
    }
}

pub proof fn lemma_bin_has(cx: Context, is_std: bool, u: UnitView, t: TargetView, d: UnitDepView)
    requires
        needs_bins(u),
        u.pkg.targets.contains(t),
    ensures
        bin_dep(cx.for_std(is_std), u, t) is Done ==> (has(bin_dep(cx.for_std(is_std), u, t), d)
            <==> d.unit.target == t && is_bin_dep(cx, is_std, u, d)),
{
    let here = cx.for_std(is_std);
    lemma_selected(features_of(cx, is_std), u.pkg.id, t);
    assert(here.spec_features() == features_of(cx, is_std));
    if enabled_bin(here, u.pkg.id, t) {
        let dep_for = UnitFor::new_normal();
        let kind = u.kind.spec_for_target(t);
        lemma_made(cx, is_std, u, u.pkg, t, dep_for, kind, CompileMode::Build, d);
        lemma_single_has(
            spec_new_unit_dep(here, u, u.pkg, t, dep_for, kind, CompileMode::Build),
            d,
        );
        assert(kind_follows(u, t, d.unit.kind) <==> d.unit.kind == kind);
        assert(d.unit_for == dep_for <==> !d.unit_for.host && !d.unit_for.host_features
            && d.unit_for.panic_setting == PanicSetting::ReadProfile);
    }
}

pub proof fn lemma_bins_has(cx: Context, is_std: bool, u: UnitView, n: nat, d: UnitDepView)
    requires
        needs_bins(u),
        n <= u.pkg.targets.len(),
    ensures
        bin_deps(cx.for_std(is_std), u, n) is Done ==> (has(bin_deps(cx.for_std(is_std), u, n), d)
            <==> is_bin_dep(cx, is_std, u, d) && u.pkg.targets.take(n as int).contains(
            d.unit.target,
        )),
    decreases n,
{
    if n > 0 {
        let here = cx.for_std(is_std);
        let k = (n - 1) as nat;
        let t = u.pkg.targets[n - 1];
        let (now, before) = (u.pkg.targets.take(n as int), u.pkg.targets.take(k as int));
        lemma_bins_has(cx, is_std, u, k, d);
        lemma_bin_has(cx, is_std, u, t, d);
        lemma_append_has(bin_deps(here, u, k), bin_dep(here, u, t), d);
        assert(now =~= before.push(t));
        if before.contains(d.unit.target) {
            let i = before.index_of(d.unit.target);
            assert(now[i] == d.unit.target);
        }
        if now.contains(d.unit.target) && d.unit.target != t {
            let i = now.index_of(d.unit.target);
            assert(before[i] == d.unit.target);
        }
        assert(now[n - 1] == t);
    }
}

proof fn lemma_run_script_has(
    cx: Context,
    is_std: bool,
    u: UnitView,
    unit_for: UnitFor,
    d: UnitDepView,
)
    requires
        u.mode.is_run_custom_build(),
    ensures
        run_script_deps(cx.for_std(is_std), u, unit_for) is Done ==> (has(
            run_script_deps(cx.for_std(is_std), u, unit_for),
            d,
        ) <==> is_script_dep(cx, is_std, u, unit_for, d)),
{
    let here = cx.for_std(is_std);
    assert(script_overridden(here, u.pkg, u.kind) == output_given(cx, u));
    if !script_overridden(here, u.pkg, u.kind) && here.has_resolve() {
        let dep_for = UnitFor::new_host(unit_for.is_for_host_features());
        let kind = CompileKind::Host;
        lemma_made(cx, is_std, u, u.pkg, u.target, dep_for, kind, CompileMode::Build, d);
        lemma_single_has(
            spec_new_unit_dep(here, u, u.pkg, u.target, dep_for, kind, CompileMode::Build),
            d,
        );
        assert(for_host_side(unit_for.host_features, d.unit_for) <==> d.unit_for == dep_for);
    }
}

pub proof fn lemma_scraped_has(cx: Context, is_std: bool, u: UnitView, n: nat, d: UnitDepView)
    requires
        shows_examples(cx, u),
        n <= cx.scrape_units@.len(),
    ensures
        scrape_deps(cx.for_std(is_std), n) is Done ==> (has(scrape_deps(cx.for_std(is_std), n), d)
            <==> exists|i: int|
            0 <= i < n && is_scrape_dep(cx, is_std, u, (#[trigger] cx.scrape_units@[i])@, d)),
    decreases n,
{
    if n > 0 {
        let here = cx.for_std(is_std);
        let k = (n - 1) as nat;
        let w = cx.scrape_units@[n - 1]@;
        let dep_for = scrape_unit_for(w);
        lemma_scraped_has(cx, is_std, u, k, d);
        lemma_append_has(scrape_deps(here, k), single(scrape_dep(here, w)), d);
        lemma_made(cx, is_std, w, w.pkg, w.target, dep_for, w.kind, w.mode, d);
        lemma_single_has(scrape_dep(here, w), d);
        assert(for_host_side(w.target.proc_macro, d.unit_for) <==> d.unit_for == dep_for);
        if scrape_deps(here, n) is Done {
            assert(has(single(scrape_dep(here, w)), d) <==> is_scrape_dep(cx, is_std, u, w, d));
            if has(scrape_deps(here, k), d) {
                let i = choose|i: int|
                    0 <= i < k && is_scrape_dep(cx, is_std, u, (#[trigger] cx.scrape_units@[i])@, d);
                assert(is_scrape_dep(cx, is_std, u, cx.scrape_units@[i]@, d));
            }
            if is_scrape_dep(cx, is_std, u, w, d) {
                assert(is_scrape_dep(cx, is_std, u, cx.scrape_units@[n - 1]@, d));
            }
            if exists|i: int|
                0 <= i < n && is_scrape_dep(cx, is_std, u, (#[trigger] cx.scrape_units@[i])@, d) {
                let i = choose|i: int|
                    0 <= i < n && is_scrape_dep(cx, is_std, u, (#[trigger] cx.scrape_units@[i])@, d);
                assert(is_scrape_dep(cx, is_std, u, cx.scrape_units@[i]@, d));
            }
        }
    }
}

pub proof fn lemma_head_has(cx: Context, is_std: bool, u: UnitView, unit_for: UnitFor, d: UnitDepView)
    ensures
        head_deps(cx.for_std(is_std), u, unit_for) is Done ==> (has(
            head_deps(cx.for_std(is_std), u, unit_for),
            d,
        ) <==> {
            ||| is_lib_dep(cx, is_std, u, unit_for, d)
            ||| is_run_dep(cx, is_std, u, unit_for, d)
            ||| is_own_lib_dep(cx, is_std, u, unit_for, d)
            ||| is_bin_dep(cx, is_std, u, d)
            ||| is_script_dep(cx, is_std, u, unit_for, d)
        }),
{
    let here = cx.for_std(is_std);
    let packages = all_package_deps(here, u, unit_for, filter_of(u));
    let script = build_script_dep(here, u, unit_for);
    let lib = own_lib_dep(here, u, unit_for, None);
    let doc = own_lib_dep(here, u, unit_for, Some(u.mode));
    let bins = own_bin_deps(here, u);
    let two = append(packages, script);
    let three = append(two, lib);
    if u.mode.is_run_custom_build() {
        lemma_run_script_has(cx, is_std, u, unit_for, d);
        assert(!is_lib_dep(cx, is_std, u, unit_for, d)) by {
            if is_lib_dep(cx, is_std, u, unit_for, d) {
                let edge = choose|edge: ResolveEdge|
                    {
                        &&& #[trigger] leads(resolution_of(cx, is_std), u.pkg.id, edge)
                        &&& gets_edge(cx, is_std, u, unit_for.host_features, edge)
                        &&& d.unit.pkg.id == edge.to
                    };
                let i = choose|i: int|
                    0 <= i < edge.deps@.len() && gets(
                        cx,
                        is_std,
                        u,
                        unit_for.host_features,
                        #[trigger] edge.deps@[i],
                    );
                assert(!asks_for(u, edge.deps@[i]));
            }
        }
    } else {
        lemma_packages_has(cx, is_std, u, unit_for, d);
        if u.mode.is_doc() || !u.target.is_custom_build() {
            lemma_script_has(cx, is_std, u, unit_for, d);
        }
        lemma_own_lib_has(cx, is_std, u, unit_for, None, d);
        lemma_own_lib_has(cx, is_std, u, unit_for, Some(u.mode), d);
        if needs_bins(u) {
            lemma_bins_has(cx, is_std, u, u.pkg.targets.len(), d);
            assert(u.pkg.targets.take(u.pkg.targets.len() as int) =~= u.pkg.targets);
        }
        assert(needs_bins(u) == runs_bins(u));
        lemma_append_has(packages, script, d);
        lemma_append_has(two, lib, d);
        lemma_append_has(three, doc, d);
        lemma_append_has(three, bins, d);
    }
}

/// The dependencies of a unit are those that follow from the tables.
pub proof fn lemma_own_members(
    cx: Context,
    is_std: bool,
    u: UnitView,
    unit_for: UnitFor,
    d: UnitDepView,
)
    ensures
        own_deps(cx.for_std(is_std), u, unit_for) matches Run::Done(deps) ==> (deps.contains(d)
            <==> follows(cx, is_std, u, unit_for, d)),
{
    let here = cx.for_std(is_std);
    let n = cx.scrape_units@.len();
    assert(scrapes(here, u) == shows_examples(cx, u));
    lemma_head_has(cx, is_std, u, unit_for, d);
    if shows_examples(cx, u) {
        lemma_scraped_has(cx, is_std, u, n, d);
        lemma_append_has(head_deps(here, u, unit_for), scrape_deps(here, n), d);
    }
}

/// A unit depends on one execution of the build script of its package at most.
pub proof fn lemma_one_run(
    cx: Context,
    is_std: bool,
    u: UnitView,
    unit_for: UnitFor,
    a: UnitDepView,
    b: UnitDepView,
)
    requires
        own_deps(cx.for_std(is_std), u, unit_for) is Done,
        is_run_dep(cx, is_std, u, unit_for, a),
        is_run_dep(cx, is_std, u, unit_for, b),
    ensures
        a == b,
{
    let here = cx.for_std(is_std);
    lemma_parts(here, u, unit_for);
    lemma_script_has(cx, is_std, u, unit_for, a);
    lemma_script_has(cx, is_std, u, unit_for, b);
    let part = build_script_dep(here, u, unit_for)->Done_0;
    let i = part.index_of(a);
    let j = part.index_of(b);
    assert(part[i] == a && part[j] == b);
    assert(part.len() <= 1);
}

/// A dependency on the library of another package is brought by an edge.
pub proof fn lemma_brought_by(
    cx: Context,
    is_std: bool,
    u: UnitView,
    unit_for: UnitFor,
    d: UnitDepView,
) -> (k: int)
    requires
        own_deps(cx.for_std(is_std), u, unit_for) is Done,
        !u.mode.is_run_custom_build(),
        is_lib_dep(cx, is_std, u, unit_for, d),
    ensures
        ({
            let here = cx.for_std(is_std);
            let edges = active_edges(here, u, unit_for, filter_of(u));
            &&& 0 <= k < edges.len()
            &&& has(edge_deps(here, u, unit_for, filter_of(u), edges[k]), d)
            &&& edges[k].to == d.unit.pkg.id
            &&& leads(resolution_of(cx, is_std), u.pkg.id, edges[k])
            &&& gets_edge(cx, is_std, u, unit_for.host_features, edges[k])
        }),
{
    let here = cx.for_std(is_std);
    let filter = filter_of(u);
    let edges = active_edges(here, u, unit_for, filter);
    lemma_parts(here, u, unit_for);
    lemma_packages_has(cx, is_std, u, unit_for, d);
    lemma_package_deps_has(here, u, unit_for, filter, edges.len(), d);
    let k = choose|k: int|
        0 <= k < edges.len() && has(edge_deps(here, u, unit_for, filter, #[trigger] edges[k]), d);
    lemma_edge_has(cx, is_std, u, unit_for, edges[k], d);
    assert(edges.contains(edges[k]));
    lemma_active_edge(cx, is_std, u, unit_for, edges[k]);
    k
}

} // verus!
