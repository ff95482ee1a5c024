//! What each list of a graph looks like: nothing stands in it twice, it is in order,
//! and what it holds was found in turn.

use crate::compile::{CompileKind, CompileMode};
use crate::context::Context;
use crate::dep_laws::scraped_only;
use crate::dep_order::{
    compile_letters, contents_word, dep_le, dep_letters, dep_word, lex_le, names_word,
    optional_names_word, package_word, target_head, target_letters,
};
use crate::end_laws::comes_before;
use crate::facts::{lemma_get_one, lemma_own_deps_facts};
use crate::graph_laws::lemma_std_deps_members;
use crate::interning::InternedString;
use crate::laws::{
    attached_to, context_at, lemma_addition, lemma_built_for, lemma_finished, lemma_finished_dom,
};
use crate::layout::{
    additions, is_unit_graph, lists_additions, planned, std_deps_for, std_roots_of, StdRoots,
};
use crate::lookup::{is_first, lemma_filter_within, lemma_first_where, lemma_found, stands_at};
use crate::members::{
    has, lemma_active_edge, lemma_append_has, lemma_bin_has, lemma_bins_has, lemma_edge_has,
    lemma_head_has, lemma_own_lib_has, lemma_package_deps_has, lemma_packages_has,
    lemma_scraped_has, lemma_script_has, lemma_single_has,
};
use crate::order_laws::filter_of;
use crate::package::PackageId;
use crate::plan::{
    active_edges, all_package_deps, bin_dep, bin_deps, build_script_dep, edge_active, edge_deps,
    law_edges_apart, needs_bins, own_bin_deps, own_lib_dep, package_deps, run_script_deps,
    scrape_dep, wanted_by,
};
use crate::profiles::{PanicSetting, UnitFor};
use crate::resolve::{lemma_deps_apart, node_of, Resolve, ResolveEdge};
use crate::run::{append, single, Run};
use crate::search::{expand, expand_within, expanded, scrapes, Search};
use crate::target::{TargetKind, TargetView};
use crate::terms::{
    edge_at, gets_edge, is_lib_dep, is_scrape_dep, leads, node_at, resolution_of, runs_bins,
    shows_examples,
};
use crate::unit::{unit_values, UnitDepView, UnitView};
use crate::unit_graph::Graph;
use crate::walk::{head_deps, lemma_expand_deps, own_deps, scrape_deps};
use vstd::prelude::*;

verus! {

/// Whether a run that ends with a list ends with one in which nothing stands twice.
spec fn once(run: Run<Seq<UnitDepView>>) -> bool {
    run matches Run::Done(deps) ==> deps.no_duplicates()
}

proof fn lemma_append_once(a: Run<Seq<UnitDepView>>, b: Run<Seq<UnitDepView>>)
    requires
        once(a),
        once(b),
        append(a, b) is Done ==> forall|d: UnitDepView| !(#[trigger] has(a, d) && has(b, d)),
    ensures
        once(append(a, b)),
{
    if let Run::Done(deps) = append(a, b) {
        let x = a->Done_0;
        let y = b->Done_0;
        assert forall|i: int, j: int| 0 <= i < deps.len() && 0 <= j < deps.len() && i != j implies
            deps[i] != deps[j] by {
            if i < x.len() && j >= x.len() {
                assert(x.contains(x[i]));
                assert(y.contains(y[j - x.len()]));
                assert(has(a, x[i]));
            } else if j < x.len() && i >= x.len() {
                assert(x.contains(x[j]));
                assert(y.contains(y[i - x.len()]));
                assert(has(a, x[j]));
            }
        }
    }
}

proof fn lemma_edge_once(
    cx: Context,
    u: UnitView,
    unit_for: UnitFor,
    edge: ResolveEdge,
)
    requires
        !u.mode.is_run_custom_build(),
    ensures
        once(edge_deps(cx, u, unit_for, filter_of(u), edge)),
{
}

proof fn lemma_packages_once(cx: Context, is_std: bool, u: UnitView, unit_for: UnitFor, n: nat)
    requires
        !u.mode.is_run_custom_build(),
        resolution_of(cx, is_std).wf(),
        n <= active_edges(cx.for_std(is_std), u, unit_for, filter_of(u)).len(),
    ensures
        once(package_deps(cx.for_std(is_std), u, unit_for, filter_of(u), n)),
    decreases n,
{
    if n > 0 {
        let here = cx.for_std(is_std);
        let filter = filter_of(u);
        let k = (n - 1) as nat;
        let edges = active_edges(here, u, unit_for, filter);
        let before = package_deps(here, u, unit_for, filter, k);
        let last = edge_deps(here, u, unit_for, filter, edges[n - 1]);
        lemma_packages_once(cx, is_std, u, unit_for, k);
        lemma_edge_once(here, u, unit_for, edges[n - 1]);
        assert(here.spec_resolve() == resolution_of(cx, is_std));
        law_edges_apart(here, u, unit_for, wanted_by(u, filter));
        if append(before, last) is Done {
            assert forall|d: UnitDepView| !(#[trigger] has(before, d) && has(last, d)) by {
                if has(before, d) && has(last, d) {
                    lemma_package_deps_has(here, u, unit_for, filter, k, d);
                    let j = choose|j: int|
                        0 <= j < k && has(
                            edge_deps(here, u, unit_for, filter, #[trigger] edges[j]),
                            d,
                        );
                    lemma_edge_has(cx, is_std, u, unit_for, edges[j], d);
                    lemma_edge_has(cx, is_std, u, unit_for, edges[n - 1], d);
                    assert(edges[j].to != edges[n - 1].to);
                }
            }
        }
        lemma_append_once(before, last);
    }
}

proof fn lemma_bins_once(cx: Context, is_std: bool, u: UnitView, n: nat)
    requires
        needs_bins(u),
        u.pkg.targets.no_duplicates(),
        n <= u.pkg.targets.len(),
    ensures
        once(bin_deps(cx.for_std(is_std), u, n)),
    decreases n,
{
    if n > 0 {
        let here = cx.for_std(is_std);
        let k = (n - 1) as nat;
        let all = u.pkg.targets;
        let before = bin_deps(here, u, k);
        let last = bin_dep(here, u, all[n - 1]);
        lemma_bins_once(cx, is_std, u, k);
        if append(before, last) is Done {
            assert forall|d: UnitDepView| !(#[trigger] has(before, d) && has(last, d)) by {
                if has(before, d) && has(last, d) {
                    lemma_bins_has(cx, is_std, u, k, d);
                    assert(all.contains(all[n - 1]));
                    lemma_bin_has(cx, is_std, u, all[n - 1], d);
                    let j = all.take(k as int).index_of(d.unit.target);
                    assert(all.take(k as int)[j] == all[j]);
                    assert(all[j] == all[n - 1]);
                }
            }
        }
        lemma_append_once(before, last);
    }
}

/// Whether the units that are scraped for examples differ in package, target, kind or
/// mode.
pub open spec fn scraped_apart(cx: Context) -> bool {
    forall|i: int, j: int|
        0 <= i < j < cx.scrape_units@.len() ==> {
            let (a, b) = ((#[trigger] cx.scrape_units@[i])@, (#[trigger] cx.scrape_units@[j])@);
            a.pkg != b.pkg || a.target != b.target || a.kind != b.kind || a.mode != b.mode
        }
}

proof fn lemma_scraped_once(cx: Context, is_std: bool, u: UnitView, n: nat)
    requires
        shows_examples(cx, u),
        scraped_apart(cx),
        n <= cx.scrape_units@.len(),
    ensures
        once(scrape_deps(cx.for_std(is_std), n)),
    decreases n,
{
    if n > 0 {
        let here = cx.for_std(is_std);
        let k = (n - 1) as nat;
        let before = scrape_deps(here, k);
        let last = single(scrape_dep(here, cx.scrape_units@[n - 1]@));
        lemma_scraped_once(cx, is_std, u, k);
        if append(before, last) is Done {
            assert forall|d: UnitDepView| !(#[trigger] has(before, d) && has(last, d)) by {
                if has(before, d) && has(last, d) {
                    lemma_scraped_has(cx, is_std, u, k, d);
                    lemma_single_has(scrape_dep(here, cx.scrape_units@[n - 1]@), d);
                    let j = choose|j: int|
                        0 <= j < k && is_scrape_dep(
                            cx,
                            is_std,
                            u,
                            (#[trigger] cx.scrape_units@[j])@,
                            d,
                        );
                    let (a, b) = (cx.scrape_units@[j]@, cx.scrape_units@[n - 1]@);
                    assert(a.pkg == b.pkg && a.target == b.target && a.kind == b.kind && a.mode
                        == b.mode);
                }
            }
        }
        lemma_append_once(before, last);
    }
}

/// Whether no edge leads from a package to itself.
pub open spec fn no_self_edge(cx: Context, is_std: bool, u: UnitView) -> bool {
    forall|edge: ResolveEdge| #[trigger]
        leads(resolution_of(cx, is_std), u.pkg.id, edge) ==> edge.to != u.pkg.id
}

/// A dependency on the library of another package is on another package.
proof fn lemma_lib_elsewhere(
    cx: Context,
    is_std: bool,
    u: UnitView,
    unit_for: UnitFor,
    d: UnitDepView,
)
    requires
        no_self_edge(cx, is_std, u),
        is_lib_dep(cx, is_std, u, unit_for, d),
    ensures
        d.unit.pkg.id != u.pkg.id,
        d.unit.mode != CompileMode::Docscrape,
{
    let edge = choose|edge: ResolveEdge|
        {
            &&& #[trigger] leads(resolution_of(cx, is_std), u.pkg.id, edge)
            &&& gets_edge(cx, is_std, u, unit_for.host_features, edge)
            &&& d.unit.pkg.id == edge.to
        };
}

proof fn lemma_head_once(cx: Context, is_std: bool, u: UnitView, unit_for: UnitFor)
    requires
        resolution_of(cx, is_std).wf(),
        no_self_edge(cx, is_std, u),
        runs_bins(u) ==> u.pkg.targets.no_duplicates(),
    ensures
        once(head_deps(cx.for_std(is_std), u, unit_for)),
{
    let here = cx.for_std(is_std);
    let packages = all_package_deps(here, u, unit_for, filter_of(u));
    let script = build_script_dep(here, u, unit_for);
    let lib = own_lib_dep(here, u, unit_for, None);
    let doc = own_lib_dep(here, u, unit_for, Some(u.mode));
    let bins = own_bin_deps(here, u);
    let two = append(packages, script);
    let three = append(two, lib);
    if !u.mode.is_run_custom_build() {
        lemma_packages_once(
            cx,
            is_std,
            u,
            unit_for,
            active_edges(here, u, unit_for, filter_of(u)).len(),
        );
        assert(once(packages));
        if u.mode.is_doc() || !u.target.is_custom_build() {
            if two is Done {
                assert forall|d: UnitDepView| !(#[trigger] has(packages, d) && has(script, d)) by {
                    if has(packages, d) && has(script, d) {
                        lemma_packages_has(cx, is_std, u, unit_for, d);
                        lemma_script_has(cx, is_std, u, unit_for, d);
                        lemma_lib_elsewhere(cx, is_std, u, unit_for, d);
                    }
                }
            }
            lemma_append_once(packages, script);
            if three is Done {
                assert forall|d: UnitDepView| !(#[trigger] has(two, d) && has(lib, d)) by {
                    if has(two, d) && has(lib, d) {
                        lemma_append_has(packages, script, d);
                        lemma_packages_has(cx, is_std, u, unit_for, d);
                        lemma_script_has(cx, is_std, u, unit_for, d);
                        lemma_own_lib_has(cx, is_std, u, unit_for, None, d);
                        if has(packages, d) {
                            lemma_lib_elsewhere(cx, is_std, u, unit_for, d);
                        }
                    }
                }
            }
            lemma_append_once(two, lib);
            if u.mode.is_doc() {
                if append(three, doc) is Done {
                    assert forall|d: UnitDepView| !(#[trigger] has(three, d) && has(doc, d)) by {
                        if has(three, d) && has(doc, d) {
                            lemma_append_has(two, lib, d);
                            lemma_append_has(packages, script, d);
                            lemma_packages_has(cx, is_std, u, unit_for, d);
                            lemma_script_has(cx, is_std, u, unit_for, d);
                            lemma_own_lib_has(cx, is_std, u, unit_for, None, d);
                            lemma_own_lib_has(cx, is_std, u, unit_for, Some(u.mode), d);
                            if has(packages, d) {
                                lemma_lib_elsewhere(cx, is_std, u, unit_for, d);
                            }
                        }
                    }
                }
                lemma_append_once(three, doc);
            } else if needs_bins(u) {
                lemma_bins_once(cx, is_std, u, u.pkg.targets.len());
                if append(three, bins) is Done {
                    assert forall|d: UnitDepView| !(#[trigger] has(three, d) && has(bins, d)) by {
                        if has(three, d) && has(bins, d) {
                            lemma_append_has(two, lib, d);
                            lemma_append_has(packages, script, d);
                            lemma_packages_has(cx, is_std, u, unit_for, d);
                            lemma_script_has(cx, is_std, u, unit_for, d);
                            lemma_own_lib_has(cx, is_std, u, unit_for, None, d);
                            lemma_bins_has(cx, is_std, u, u.pkg.targets.len(), d);
                            if has(packages, d) {
                                lemma_lib_elsewhere(cx, is_std, u, unit_for, d);
                            }
                        }
                    }
                }
                lemma_append_once(three, bins);
            }
        }
    }
}

proof fn lemma_own_once(cx: Context, is_std: bool, u: UnitView, unit_for: UnitFor)
    requires
        resolution_of(cx, is_std).wf(),
        no_self_edge(cx, is_std, u),
        runs_bins(u) ==> u.pkg.targets.no_duplicates(),
        shows_examples(cx, u) ==> scraped_only(cx) && scraped_apart(cx),
    ensures
        once(own_deps(cx.for_std(is_std), u, unit_for)),
{
    let here = cx.for_std(is_std);
    let head = head_deps(here, u, unit_for);
    lemma_head_once(cx, is_std, u, unit_for);
    assert(scrapes(here, u) == shows_examples(cx, u));
    if shows_examples(cx, u) {
        let n = cx.scrape_units@.len();
        let tail = scrape_deps(here, n);
        lemma_scraped_once(cx, is_std, u, n);
        if append(head, tail) is Done {
            assert forall|d: UnitDepView| !(#[trigger] has(head, d) && has(tail, d)) by {
                if has(head, d) && has(tail, d) {
                    lemma_head_has(cx, is_std, u, unit_for, d);
                    lemma_scraped_has(cx, is_std, u, n, d);
                    let i = choose|i: int|
                        0 <= i < n && is_scrape_dep(
                            cx,
                            is_std,
                            u,
                            (#[trigger] cx.scrape_units@[i])@,
                            d,
                        );
                    assert(cx.scrape_units@[i]@.mode == CompileMode::Docscrape);
                    if is_lib_dep(cx, is_std, u, unit_for, d) {
                        lemma_lib_elsewhere(cx, is_std, u, unit_for, d);
                    }
                }
            }
        }
        lemma_append_once(head, tail);
    }
}

/// Nothing stands in a list twice, where resolutions and lists of targets do not
/// repeat themselves, no package depends on itself, and neither what is scraped nor
/// the crates of the standard library are given twice.
pub proof fn law_listed_once(
    cx: Context,
    roots: Seq<UnitView>,
    std_roots: Seq<StdRoots>,
    graph: Graph,
    u: UnitView,
)
    requires
        is_unit_graph(cx, roots, std_roots, graph),
        graph.contains_key(u),
        resolution_of(cx, context_at(cx, roots, std_roots, u).is_std).wf(),
        no_self_edge(cx, context_at(cx, roots, std_roots, u).is_std, u),
        runs_bins(u) ==> u.pkg.targets.no_duplicates(),
        shows_examples(cx, u) ==> scraped_only(cx) && scraped_apart(cx),
        forall|k: int|
            0 <= k < std_roots.len() ==> unit_values(
                (#[trigger] std_roots[k]).units@,
            ).no_duplicates(),
    ensures
        graph[u].no_duplicates(),
{
    let found = planned(cx, roots, std_roots)->Done_0;
    lemma_finished_dom(cx, found, graph);
    let here = context_at(cx, roots, std_roots, u);
    let unit_for = lemma_built_for(cx, roots, std_roots, found, u);
    let own = own_deps(here, u, unit_for)->Done_0;
    let attached = attached_to(cx, roots, std_roots, u);
    let extra = lemma_finished(cx, found, graph, u);
    lemma_own_once(cx, here.is_std, u, unit_for);
    assert(attached.no_duplicates()) by {
        lemma_attached_once(std_roots, u);
    }
    lemma_three_once(cx, here, std_roots, found, u, unit_for, own, attached, extra);
    let all = found.graph[u] + extra;
    all.lemma_multiset_has_no_duplicates();
    graph[u].lemma_multiset_has_no_duplicates_conv();
}

proof fn lemma_attached_once(std_roots: Seq<StdRoots>, u: UnitView)
    requires
        forall|k: int|
            0 <= k < std_roots.len() ==> unit_values(
                (#[trigger] std_roots[k]).units@,
            ).no_duplicates(),
    ensures
        std_deps_for(std_roots, u).no_duplicates(),
{
    let list = std_deps_for(std_roots, u);
    let p = std_roots_of(u.kind);
    lemma_first_where(std_roots, p);
    if list.len() > 0 {
        let k = choose|k: int| is_first(std_roots, p, k);
        assert(is_first(std_roots, p, k));
        lemma_found(std_roots, p, k);
        let units = unit_values(std_roots[k].units@);
        assert(units.no_duplicates());
        assert forall|i: int, j: int| 0 <= i < list.len() && 0 <= j < list.len() && i != j implies
            list[i] != list[j] by {
            assert(units[i] != units[j]);
        }
    }
}

proof fn lemma_three_once(
    cx: Context,
    here: Context,
    std_roots: Seq<StdRoots>,
    found: Search,
    u: UnitView,
    unit_for: UnitFor,
    own: Seq<UnitDepView>,
    attached: Seq<UnitDepView>,
    extra: Seq<UnitDepView>,
)
    requires
        own_deps(here, u, unit_for) == Run::Done(own),
        own.no_duplicates(),
        attached.no_duplicates(),
        attached == std_deps_for(std_roots, u) || attached.len() == 0,
        lists_additions(cx, found.graph, found.dev, u, extra),
    ensures
        (own + attached + extra).no_duplicates(),
{
    let all = own + attached + extra;
    let (n, m) = (own.len(), own.len() + attached.len());
    lemma_own_deps_facts(here, u, unit_for);
    assert forall|i: int| 0 <= i < n implies !(#[trigger] all[i]).noprelude && (
    u.mode.is_run_custom_build() ==> !all[i].unit.mode.is_run_custom_build()) by {
        assert(all[i] == own[i]);
    }
    assert forall|i: int| n <= i < m implies (#[trigger] all[i]).noprelude
        && !u.mode.is_run_custom_build() by {
        let d = attached[i - n];
        assert(attached.contains(d));
        lemma_std_deps_members(std_roots, u, d);
        assert(all[i] == d);
    }
    assert forall|i: int| m <= i < all.len() implies (
    #[trigger] all[i]).unit.mode.is_run_custom_build() && u.mode.is_run_custom_build() by {
        let d = extra[i - m];
        assert(extra.contains(d));
        assert(additions(cx, found.graph, found.dev, u).contains(d));
        let other = lemma_addition(cx, found.graph, found.dev, u, d);
        assert(all[i] == d);
    }
    assert forall|i: int, j: int| 0 <= i < all.len() && 0 <= j < all.len() && i != j implies all[i]
        != all[j] by {
        if i < n && j < n {
            assert(own[i] != own[j]);
        } else if n <= i < m && n <= j < m {
            assert(attached[i - n] != attached[j - n]);
        } else if m <= i && m <= j {
            assert(extra[i - m] != extra[j - m]);
        }
    }
}

/// Equal letters at the front of two words do not matter for their order.
proof fn lemma_lex_prefix(p: Seq<u64>, x: Seq<u64>, y: Seq<u64>)
    ensures
        lex_le(p + x, p + y) <==> lex_le(x, y),
    decreases p.len(),
{
    if p.len() == 0 {
        assert(p + x =~= x);
        assert(p + y =~= y);
    } else {
        let rest = p.drop_first();
        lemma_lex_prefix(rest, x, y);
        assert((p + x).drop_first() =~= rest + x);
        assert((p + y).drop_first() =~= rest + y);
        assert((p + x)[0] == p[0] && (p + y)[0] == p[0]);
    }
}

/// The first letter in which two words differ decides their order.
proof fn lemma_lex_at(x: Seq<u64>, y: Seq<u64>, k: int)
    requires
        lex_le(x, y),
        0 <= k < x.len(),
        k < y.len(),
        forall|j: int| 0 <= j < k ==> #[trigger] x[j] == y[j],
    ensures
        x[k] <= y[k],
    decreases k,
{
    if k > 0 {
        assert(x[0] == y[0]);
        let (s, t) = (x.drop_first(), y.drop_first());
        assert forall|j: int| 0 <= j < k - 1 implies #[trigger] s[j] == t[j] by {
            assert(x[j + 1] == y[j + 1]);
        }
        lemma_lex_at(s, t, k - 1);
        assert(s[k - 1] == x[k] && t[k - 1] == y[k]);
    }
}

/// The place of a sort of target in the order of targets of the same name.
pub open spec fn target_rank(kind: TargetKind) -> int {
    match kind {
        TargetKind::Lib { linkable: false } => 0,
        TargetKind::Lib { linkable: true } => 1,
        TargetKind::Bin => 2,
        TargetKind::Test => 3,
        TargetKind::Bench => 4,
        TargetKind::Example => 5,
        TargetKind::CustomBuild => 6,
    }
}

/// The place of a mode in the order of modes.
pub open spec fn mode_rank(mode: CompileMode) -> int {
    match mode {
        CompileMode::Test => 0,
        CompileMode::Build => 1,
        CompileMode::Check { test: false } => 2,
        CompileMode::Check { test: true } => 3,
        CompileMode::Bench => 4,
        CompileMode::Doc { deps: false } => 5,
        CompileMode::Doc { deps: true } => 6,
        CompileMode::Doctest => 7,
        CompileMode::Docscrape => 8,
        CompileMode::RunCustomBuild => 9,
    }
}

/// The place of a panic setting in the order of these.
pub open spec fn panic_rank(setting: PanicSetting) -> int {
    match setting {
        PanicSetting::AlwaysUnwind => 0,
        PanicSetting::ReadProfile => 1,
        PanicSetting::Inherit => 2,
    }
}

/// Whether a list of names comes before another one: it is the beginning of it, or has
/// the lesser name where they first differ.
pub open spec fn names_before(a: Seq<InternedString>, b: Seq<InternedString>) -> bool {
    exists|k: int|
        {
            &&& 0 <= k <= a.len()
            &&& k < b.len()
            &&& forall|j: int| 0 <= j < k ==> a[j] == b[j]
            &&& k == a.len() || a[k].sym < (#[trigger] b[k]).sym
        }
}

/// Whether a target may stand before another one of the same package: by name, then by
/// sort, then those that do not run on the host, then by the features that they
/// require.
pub open spec fn target_before(a: TargetView, b: TargetView) -> bool {
    if a.crate_name != b.crate_name {
        a.crate_name.sym < b.crate_name.sym
    } else if a.kind != b.kind {
        target_rank(a.kind) < target_rank(b.kind)
    } else if a.for_host != b.for_host {
        !a.for_host
    } else if a.proc_macro != b.proc_macro {
        !a.proc_macro
    } else {
        match (a.required_features, b.required_features) {
            (None, _) => true,
            (Some(_), None) => false,
            (Some(x), Some(y)) => x == y || names_before(x, y),
        }
    }
}

/// Whether a unit may stand before another one of the same target: by profile, then the
/// host before other platforms, then by mode, then by features, then the user's units
/// before those of the standard library.
pub open spec fn unit_before(a: UnitView, b: UnitView) -> bool {
    if a.profile != b.profile {
        a.profile.id < b.profile.id
    } else if a.kind != b.kind {
        match (a.kind, b.kind) {
            (CompileKind::Host, _) => true,
            (CompileKind::Target(_), CompileKind::Host) => false,
            (CompileKind::Target(s), CompileKind::Target(t)) => s.name.sym < t.name.sym,
        }
    } else if a.mode != b.mode {
        mode_rank(a.mode) < mode_rank(b.mode)
    } else if a.features != b.features {
        names_before(a.features, b.features)
    } else if a.is_std != b.is_std {
        !a.is_std
    } else {
        a.dep_hash <= b.dep_hash
    }
}

/// Whether a dependency may stand before another one on the same unit: by what it is
/// built for, then by name, then those that are not public, then those in the prelude.
pub open spec fn use_before(a: UnitDepView, b: UnitDepView) -> bool {
    if a.unit_for.host != b.unit_for.host {
        !a.unit_for.host
    } else if a.unit_for.host_features != b.unit_for.host_features {
        !a.unit_for.host_features
    } else if a.unit_for.panic_setting != b.unit_for.panic_setting {
        panic_rank(a.unit_for.panic_setting) < panic_rank(b.unit_for.panic_setting)
    } else if a.extern_crate_name != b.extern_crate_name {
        a.extern_crate_name.sym < b.extern_crate_name.sym
    } else if a.public != b.public {
        !a.public
    } else {
        !a.noprelude || b.noprelude
    }
}

/// Whether a dependency may stand before another one: by package, then by target, then
/// by unit, then by how it is used.
pub open spec fn stands_before(a: UnitDepView, b: UnitDepView) -> bool {
    if a.unit.pkg.id != b.unit.pkg.id {
        comes_before(a.unit.pkg.id, b.unit.pkg.id)
    } else if a.unit.target != b.unit.target {
        target_before(a.unit.target, b.unit.target)
    } else if a.unit != b.unit {
        unit_before(a.unit, b.unit)
    } else {
        use_before(a, b)
    }
}

/// Where two lists of names first differ, or one ends.
proof fn lemma_first_difference(
    a: Seq<InternedString>,
    b: Seq<InternedString>,
    n: int,
) -> (k: int)
    requires
        0 <= n <= a.len(),
        n <= b.len(),
        forall|j: int| 0 <= j < n ==> a[j] == b[j],
    ensures
        n <= k <= a.len(),
        k <= b.len(),
        forall|j: int| 0 <= j < k ==> a[j] == b[j],
        k == a.len() || k == b.len() || a[k] != b[k],
    decreases a.len() - n,
{
    if n == a.len() || n == b.len() || a[n] != b[n] {
        n
    } else {
        lemma_first_difference(a, b, n + 1)
    }
}

proof fn lemma_names_before(
    a: Seq<InternedString>,
    b: Seq<InternedString>,
    x: Seq<u64>,
    y: Seq<u64>,
)
    requires
        lex_le(names_word(a) + x, names_word(b) + y),
        a != b,
    ensures
        names_before(a, b),
{
    let (s, t) = (names_word(a) + x, names_word(b) + y);
    let k = lemma_first_difference(a, b, 0);
    if k == a.len() && k == b.len() {
        assert(a =~= b);
    }
    assert forall|j: int| 0 <= j < k implies #[trigger] s[j] == t[j] by {
        assert(a[j] == b[j]);
    }
    lemma_lex_at(s, t, k);
    assert(s[k] == names_word(a)[k] && t[k] == names_word(b)[k]);
    assert(k < b.len());
    assert(k == a.len() || a[k].sym < b[k].sym);
}

proof fn lemma_package_before(a: UnitDepView, b: UnitDepView)
    requires
        dep_le()(a, b),
        a.unit.pkg.id != b.unit.pkg.id,
    ensures
        comes_before(a.unit.pkg.id, b.unit.pkg.id),
{
    let (x, y) = (dep_word(a), dep_word(b));
    let (p, q) = (package_word(a.unit.pkg.id), package_word(b.unit.pkg.id));
    assert(x[0] == p[0] && x[1] == p[1] && x[2] == p[2] && x[3] == p[3]);
    assert(y[0] == q[0] && y[1] == q[1] && y[2] == q[2] && y[3] == q[3]);
    lemma_lex_at(x, y, 0);
    if x[0] == y[0] {
        lemma_lex_at(x, y, 1);
        if x[1] == y[1] {
            lemma_lex_at(x, y, 2);
            if x[2] == y[2] {
                lemma_lex_at(x, y, 3);
            }
        }
    }
}

proof fn lemma_target_before(a: UnitDepView, b: UnitDepView)
    requires
        dep_le()(a, b),
        a.unit.pkg.id == b.unit.pkg.id,
        a.unit.target != b.unit.target,
    ensures
        target_before(a.unit.target, b.unit.target),
{
    let (x, y) = (dep_word(a), dep_word(b));
    let p = package_word(a.unit.pkg.id);
    let (s, t) = (a.unit.target, b.unit.target);
    let (h, k) = (target_head(s), target_head(t));
    let (o, q) = (
        optional_names_word(s.required_features),
        optional_names_word(t.required_features),
    );
    let (u, v) = (
        compile_letters(a.unit) + (names_word(a.unit.features) + (dep_letters(a) + contents_word(
            a.unit.pkg,
        ))),
        compile_letters(b.unit) + (names_word(b.unit.features) + (dep_letters(b) + contents_word(
            b.unit.pkg,
        ))),
    );
    let (m, n) = (h + (o + u), k + (q + v));
    assert(x =~= p + m);
    assert(y =~= p + n);
    lemma_lex_prefix(p, m, n);
    assert(m[0] == h[0] && m[1] == h[1] && m[2] == h[2] && m[3] == h[3] && m[4] == o[0]);
    assert(n[0] == k[0] && n[1] == k[1] && n[2] == k[2] && n[3] == k[3] && n[4] == q[0]);
    lemma_lex_at(m, n, 0);
    if m[0] == n[0] {
        lemma_lex_at(m, n, 1);
        if m[1] == n[1] {
            lemma_lex_at(m, n, 2);
            if m[2] == n[2] {
                lemma_lex_at(m, n, 3);
                if m[3] == n[3] {
                    lemma_lex_at(m, n, 4);
                    assert(h =~= k);
                    if let (Some(c), Some(e)) = (s.required_features, t.required_features) {
                        let front = h + seq![1u64];
                        assert(m =~= front + (names_word(c) + u));
                        assert(n =~= front + (names_word(e) + v));
                        lemma_lex_prefix(front, names_word(c) + u, names_word(e) + v);
                        if c != e {
                            lemma_names_before(c, e, u, v);
                        }
                    }
                }
            }
        }
    }
}

/// Behind equal packages and targets, the letters of the units decide.
proof fn lemma_behind_target(a: UnitDepView, b: UnitDepView)
    requires
        dep_le()(a, b),
        a.unit.pkg.id == b.unit.pkg.id,
        a.unit.target == b.unit.target,
    ensures
        lex_le(
            compile_letters(a.unit) + (names_word(a.unit.features) + (dep_letters(a)
                + contents_word(a.unit.pkg))),
            compile_letters(b.unit) + (names_word(b.unit.features) + (dep_letters(b)
                + contents_word(b.unit.pkg))),
        ),
{
    let (x, y) = (dep_word(a), dep_word(b));
    let p = target_letters(a.unit) + optional_names_word(a.unit.target.required_features);
    let (m, n) = (
        compile_letters(a.unit) + (names_word(a.unit.features) + (dep_letters(a) + contents_word(
            a.unit.pkg,
        ))),
        compile_letters(b.unit) + (names_word(b.unit.features) + (dep_letters(b) + contents_word(
            b.unit.pkg,
        ))),
    );
    assert(x =~= p + m);
    assert(y =~= p + n);
    lemma_lex_prefix(p, m, n);
}

/// Behind equal letters of the units and equal features, the letters of the
/// dependencies decide.
proof fn lemma_behind_features(a: UnitDepView, b: UnitDepView)
    requires
        dep_le()(a, b),
        a.unit.pkg.id == b.unit.pkg.id,
        a.unit.target == b.unit.target,
        a.unit.profile == b.unit.profile,
        a.unit.kind == b.unit.kind,
        a.unit.mode == b.unit.mode,
        a.unit.features == b.unit.features,
    ensures
        lex_le(
            dep_letters(a) + contents_word(a.unit.pkg),
            dep_letters(b) + contents_word(b.unit.pkg),
        ),
{
    lemma_behind_target(a, b);
    let c = compile_letters(a.unit);
    let f = names_word(a.unit.features);
    let (s, t) = (
        dep_letters(a) + contents_word(a.unit.pkg),
        dep_letters(b) + contents_word(b.unit.pkg),
    );
    lemma_lex_prefix(c, f + s, f + t);
    lemma_lex_prefix(f, s, t);
}

proof fn lemma_unit_before(a: UnitDepView, b: UnitDepView)
    requires
        dep_le()(a, b),
        a.unit.pkg.id == b.unit.pkg.id,
        a.unit.target == b.unit.target,
    ensures
        unit_before(a.unit, b.unit),
{
    lemma_behind_target(a, b);
    let (c, e) = (compile_letters(a.unit), compile_letters(b.unit));
    let (s, t) = (
        dep_letters(a) + contents_word(a.unit.pkg),
        dep_letters(b) + contents_word(b.unit.pkg),
    );
    let (m, n) = (c + (names_word(a.unit.features) + s), e + (names_word(b.unit.features) + t));
    assert(m[0] == c[0] && m[1] == c[1] && m[2] == c[2] && m[3] == c[3]);
    assert(n[0] == e[0] && n[1] == e[1] && n[2] == e[2] && n[3] == e[3]);
    lemma_lex_at(m, n, 0);
    if m[0] == n[0] {
        lemma_lex_at(m, n, 1);
        if m[1] == n[1] {
            lemma_lex_at(m, n, 2);
            if m[2] == n[2] {
                lemma_lex_at(m, n, 3);
            }
        }
    }
    if a.unit.profile == b.unit.profile && a.unit.kind == b.unit.kind && a.unit.mode
        == b.unit.mode {
        if a.unit.features != b.unit.features {
            lemma_lex_prefix(
                c,
                names_word(a.unit.features) + s,
                names_word(b.unit.features) + t,
            );
            lemma_names_before(a.unit.features, b.unit.features, s, t);
        } else {
            lemma_behind_features(a, b);
            let (g, h) = (dep_letters(a), dep_letters(b));
            assert(s[0] == g[0] && s[1] == g[1] && t[0] == h[0] && t[1] == h[1]);
            lemma_lex_at(s, t, 0);
            if s[0] == t[0] {
                lemma_lex_at(s, t, 1);
            }
        }
    }
}

proof fn lemma_use_before(a: UnitDepView, b: UnitDepView)
    requires
        dep_le()(a, b),
        a.unit == b.unit,
    ensures
        use_before(a, b),
{
    lemma_behind_features(a, b);
    let (s, t) = (
        dep_letters(a) + contents_word(a.unit.pkg),
        dep_letters(b) + contents_word(b.unit.pkg),
    );
    let (g, h) = (dep_letters(a), dep_letters(b));
    assert(s[0] == g[0] && s[1] == g[1] && s[2] == g[2] && s[3] == g[3]);
    assert(s[4] == g[4] && s[5] == g[5] && s[6] == g[6] && s[7] == g[7]);
    assert(t[0] == h[0] && t[1] == h[1] && t[2] == h[2] && t[3] == h[3]);
    assert(t[4] == h[4] && t[5] == h[5] && t[6] == h[6] && t[7] == h[7]);
    lemma_lex_at(s, t, 2);
    if s[2] == t[2] {
        lemma_lex_at(s, t, 3);
        if s[3] == t[3] {
            lemma_lex_at(s, t, 4);
            if s[4] == t[4] {
                lemma_lex_at(s, t, 5);
                if s[5] == t[5] {
                    lemma_lex_at(s, t, 6);
                    if s[6] == t[6] {
                        lemma_lex_at(s, t, 7);
                    }
                }
            }
        }
    }
}

/// Every list is in order.
pub proof fn law_listed_in_order(
    cx: Context,
    roots: Seq<UnitView>,
    std_roots: Seq<StdRoots>,
    graph: Graph,
    u: UnitView,
    i: int,
    j: int,
)
    requires
        is_unit_graph(cx, roots, std_roots, graph),
        graph.contains_key(u),
        0 <= i < j < graph[u].len(),
    ensures
        stands_before(graph[u][i], graph[u][j]),
{
    let found = planned(cx, roots, std_roots)->Done_0;
    let extra = lemma_finished(cx, found, graph, u);
    let (a, b) = (graph[u][i], graph[u][j]);
    assert(dep_le()(a, b));
    if a.unit.pkg.id != b.unit.pkg.id {
        lemma_package_before(a, b);
    } else if a.unit.target != b.unit.target {
        lemma_target_before(a, b);
    } else if a.unit != b.unit {
        lemma_unit_before(a, b);
    } else {
        lemma_use_before(a, b);
    }
}

/// Whether a dependency is on another package, and not scraped.
pub open spec fn is_elsewhere(u: UnitView, d: UnitDepView) -> bool {
    d.unit.pkg.id != u.pkg.id && d.unit.mode != CompileMode::Docscrape
}

/// Whether a dependency is on a library of the same package, and not scraped.
pub open spec fn is_own_lib(u: UnitView, d: UnitDepView) -> bool {
    d.unit.pkg.id == u.pkg.id && d.unit.target.kind is Lib && d.unit.mode != CompileMode::Docscrape
        && d.unit.mode != CompileMode::RunCustomBuild
}

/// Whether the edge to one package stands no later than that to another one.
pub open spec fn edge_no_later(
    resolve: Resolve,
    from: PackageId,
    x: PackageId,
    y: PackageId,
) -> bool {
    exists|n: int, p: int, q: int|
        {
            &&& #[trigger] node_at(resolve, from, n)
            &&& #[trigger] edge_at(resolve.nodes@[n].edges@, x, p)
            &&& #[trigger] edge_at(resolve.nodes@[n].edges@, y, q)
            &&& p <= q
        }
}

/// Whether a dependency may be found before another one: first those on other packages, in
/// the order of the resolution; then the build script; then the library of the package;
/// then its binaries; then what is scraped. Documentation comes after what is documented,
/// and a build for the host after one for another platform.
pub open spec fn in_turn(
    cx: Context,
    is_std: bool,
    u: UnitView,
    a: UnitDepView,
    b: UnitDepView,
) -> bool {
    &&& is_elsewhere(u, b) ==> {
        &&& is_elsewhere(u, a)
        &&& edge_no_later(
            resolution_of(cx, is_std),
            u.pkg.id,
            a.unit.pkg.id,
            b.unit.pkg.id,
        )
        &&& a.unit.pkg.id == b.unit.pkg.id ==> (a.unit.mode is Doc ==> b.unit.mode is Doc) && (
        a.unit.kind == CompileKind::Host ==> b.unit.kind == CompileKind::Host)
    }
    &&& b.unit.mode == CompileMode::RunCustomBuild ==> is_elsewhere(u, a)
    &&& is_own_lib(u, b) ==> {
        ||| is_elsewhere(u, a)
        ||| a.unit.mode == CompileMode::RunCustomBuild
        ||| is_own_lib(u, a) && (a.unit.mode is Doc ==> b.unit.mode is Doc)
    }
    &&& b.unit.mode != CompileMode::Docscrape ==> a.unit.mode != CompileMode::Docscrape
}

spec fn turns_kept(cx: Context, is_std: bool, u: UnitView, run: Run<Seq<UnitDepView>>) -> bool {
    run matches Run::Done(deps) ==> forall|i: int, j: int|
        0 <= i < j < deps.len() ==> in_turn(
            cx,
            is_std,
            u,
            #[trigger] deps[i],
            #[trigger] deps[j],
        )
}

proof fn lemma_append_turns(
    cx: Context,
    is_std: bool,
    u: UnitView,
    a: Run<Seq<UnitDepView>>,
    b: Run<Seq<UnitDepView>>,
)
    requires
        turns_kept(cx, is_std, u, a),
        turns_kept(cx, is_std, u, b),
        append(a, b) is Done ==> forall|x: UnitDepView, y: UnitDepView| #[trigger]
            has(a, x) && #[trigger] has(b, y) ==> in_turn(cx, is_std, u, x, y),
    ensures
        turns_kept(cx, is_std, u, append(a, b)),
{
    if let Run::Done(deps) = append(a, b) {
        let x = a->Done_0;
        let y = b->Done_0;
        assert forall|i: int, j: int| 0 <= i < j < deps.len() implies in_turn(
            cx,
            is_std,
            u,
            #[trigger] deps[i],
            #[trigger] deps[j],
        ) by {
            if j < x.len() {
                assert(deps[i] == x[i] && deps[j] == x[j]);
            } else if i >= x.len() {
                assert(deps[i] == y[i - x.len()] && deps[j] == y[j - x.len()]);
            } else {
                assert(x.contains(x[i]) && y.contains(y[j - x.len()]));
                assert(has(a, deps[i]) && has(b, deps[j]));
            }
        }
    }
}

/// The edges that a unit gets stand in the order of the resolution.
proof fn lemma_edges_in_turn(
    cx: Context,
    is_std: bool,
    u: UnitView,
    unit_for: UnitFor,
    j: int,
    k: int,
)
    requires
        !u.mode.is_run_custom_build(),
        resolution_of(cx, is_std).wf(),
        0 <= j <= k < active_edges(cx.for_std(is_std), u, unit_for, filter_of(u)).len(),
    ensures
        edge_no_later(
            resolution_of(cx, is_std),
            u.pkg.id,
            active_edges(cx.for_std(is_std), u, unit_for, filter_of(u))[j].to,
            active_edges(cx.for_std(is_std), u, unit_for, filter_of(u))[k].to,
        ),
{
    let here = cx.for_std(is_std);
    let resolve = resolution_of(cx, is_std);
    assert(here.spec_resolve() == resolve);
    let all = resolve.spec_deps(u.pkg.id);
    let p = edge_active(here, u, unit_for, filter_of(u));
    let edges = active_edges(here, u, unit_for, filter_of(u));
    lemma_filter_within(all, p);
    let at = choose|at: Seq<int>| stands_at(edges, all, at);
    lemma_deps_apart(resolve, u.pkg.id);
    assert(at[j] <= at[k]) by {
        if j < k {
            assert(at[j] < at[k]);
        }
    }
    let q = node_of(u.pkg.id);
    lemma_first_where(resolve.nodes@, q);
    let n = choose|n: int| is_first(resolve.nodes@, q, n);
    assert(is_first(resolve.nodes@, q, n));
    lemma_found(resolve.nodes@, q, n);
    assert(node_at(resolve, u.pkg.id, n)) by {
        assert forall|m: int| 0 <= m < n implies (#[trigger] resolve.nodes@[m]).id != u.pkg.id by {
            assert(!q(resolve.nodes@[m]));
        }
    }
    assert(resolve.nodes@[n].edges@ == all);
    assert(edge_at(resolve.nodes@[n].edges@, edges[j].to, at[j]));
    assert(edge_at(resolve.nodes@[n].edges@, edges[k].to, at[k]));
}

proof fn lemma_edge_turns(
    cx: Context,
    is_std: bool,
    u: UnitView,
    unit_for: UnitFor,
    k: int,
)
    requires
        !u.mode.is_run_custom_build(),
        resolution_of(cx, is_std).wf(),
        no_self_edge(cx, is_std, u),
        0 <= k < active_edges(cx.for_std(is_std), u, unit_for, filter_of(u)).len(),
    ensures
        turns_kept(
            cx,
            is_std,
            u,
            edge_deps(
                cx.for_std(is_std),
                u,
                unit_for,
                filter_of(u),
                active_edges(cx.for_std(is_std), u, unit_for, filter_of(u))[k],
            ),
        ),
{
    let here = cx.for_std(is_std);
    let edge = active_edges(here, u, unit_for, filter_of(u))[k];
    let run = edge_deps(here, u, unit_for, filter_of(u), edge);
    lemma_edges_in_turn(cx, is_std, u, unit_for, k, k);
    lemma_edge_leaves(cx, is_std, u, unit_for, k);
    lemma_edge_pair(here, u, unit_for, edge);
    if let Run::Done(deps) = run {
        if deps.len() == 2 {
            assert(in_turn(cx, is_std, u, deps[0], deps[1]));
        }
    }
}

/// What an edge brings: two dependencies at most, on the same package.
proof fn lemma_edge_pair(cx: Context, u: UnitView, unit_for: UnitFor, edge: ResolveEdge)
    requires
        !u.mode.is_run_custom_build(),
    ensures
        edge_deps(cx, u, unit_for, filter_of(u), edge) matches Run::Done(deps) ==> {
            &&& deps.len() <= 2
            &&& deps.len() == 2 ==> {
                &&& deps[0].unit.pkg.id == edge.to
                &&& deps[1].unit.pkg.id == edge.to
                &&& !(deps[0].unit.mode is Doc)
                &&& deps[0].unit.kind == CompileKind::Host ==> deps[1].unit.kind
                    == CompileKind::Host
                &&& deps[0].unit.mode != CompileMode::Docscrape
                &&& deps[1].unit.mode != CompileMode::Docscrape
                &&& deps[1].unit.mode != CompileMode::RunCustomBuild
            }
        },
{
    lemma_get_one(cx, edge.to);
}

/// An edge that a unit gets leads to another package.
proof fn lemma_edge_leaves(
    cx: Context,
    is_std: bool,
    u: UnitView,
    unit_for: UnitFor,
    k: int,
)
    requires
        !u.mode.is_run_custom_build(),
        no_self_edge(cx, is_std, u),
        0 <= k < active_edges(cx.for_std(is_std), u, unit_for, filter_of(u)).len(),
    ensures
        active_edges(cx.for_std(is_std), u, unit_for, filter_of(u))[k].to != u.pkg.id,
{
    let edges = active_edges(cx.for_std(is_std), u, unit_for, filter_of(u));
    assert(edges.contains(edges[k]));
    lemma_active_edge(cx, is_std, u, unit_for, edges[k]);
}

proof fn lemma_packages_turns(cx: Context, is_std: bool, u: UnitView, unit_for: UnitFor, n: nat)
    requires
        !u.mode.is_run_custom_build(),
        resolution_of(cx, is_std).wf(),
        no_self_edge(cx, is_std, u),
        n <= active_edges(cx.for_std(is_std), u, unit_for, filter_of(u)).len(),
    ensures
        turns_kept(
            cx,
            is_std,
            u,
            package_deps(cx.for_std(is_std), u, unit_for, filter_of(u), n),
        ),
    decreases n,
{
    if n > 0 {
        let here = cx.for_std(is_std);
        let filter = filter_of(u);
        let k = (n - 1) as nat;
        let edges = active_edges(here, u, unit_for, filter);
        let before = package_deps(here, u, unit_for, filter, k);
        let last = edge_deps(here, u, unit_for, filter, edges[n - 1]);
        lemma_packages_turns(cx, is_std, u, unit_for, k);
        lemma_edge_turns(cx, is_std, u, unit_for, n - 1);
        if append(before, last) is Done {
            assert forall|x: UnitDepView, y: UnitDepView| #[trigger]
                has(before, x) && #[trigger] has(last, y) implies in_turn(
                cx,
                is_std,
                u,
                x,
                y,
            ) by {
                lemma_package_deps_has(here, u, unit_for, filter, k, x);
                let j = choose|j: int|
                    0 <= j < k && has(
                        edge_deps(here, u, unit_for, filter, #[trigger] edges[j]),
                        x,
                    );
                lemma_edge_has(cx, is_std, u, unit_for, edges[j], x);
                lemma_edge_has(cx, is_std, u, unit_for, edges[n - 1], y);
                assert(here.spec_resolve() == resolution_of(cx, is_std));
                law_edges_apart(here, u, unit_for, wanted_by(u, filter));
                assert(edges[j].to != edges[n - 1].to);
                lemma_edge_leaves(cx, is_std, u, unit_for, j);
                lemma_edges_in_turn(cx, is_std, u, unit_for, j, n - 1);
            }
        }
        lemma_append_turns(cx, is_std, u, before, last);
    }
}

/// A list of dependencies on binaries only keeps its turns.
proof fn lemma_bins_turns(cx: Context, is_std: bool, u: UnitView)
    requires
        needs_bins(u),
    ensures
        turns_kept(cx, is_std, u, own_bin_deps(cx.for_std(is_std), u)),
{
    let here = cx.for_std(is_std);
    let n = u.pkg.targets.len();
    if let Run::Done(deps) = own_bin_deps(here, u) {
        assert forall|i: int, j: int| 0 <= i < j < deps.len() implies in_turn(
            cx,
            is_std,
            u,
            #[trigger] deps[i],
            #[trigger] deps[j],
        ) by {
            assert(deps.contains(deps[i]) && deps.contains(deps[j]));
            lemma_bins_has(cx, is_std, u, n, deps[i]);
            lemma_bins_has(cx, is_std, u, n, deps[j]);
        }
    }
}

/// What the parts of a list are on.
proof fn lemma_part_members(
    cx: Context,
    is_std: bool,
    u: UnitView,
    unit_for: UnitFor,
    x: UnitDepView,
)
    requires
        !u.mode.is_run_custom_build(),
        u.mode.is_doc() || !u.target.is_custom_build(),
        no_self_edge(cx, is_std, u),
    ensures
        has(all_package_deps(cx.for_std(is_std), u, unit_for, filter_of(u)), x) ==> is_elsewhere(
            u,
            x,
        ),
        has(build_script_dep(cx.for_std(is_std), u, unit_for), x) ==> x.unit.mode
            == CompileMode::RunCustomBuild && x.unit.pkg.id == u.pkg.id,
        has(own_lib_dep(cx.for_std(is_std), u, unit_for, None), x) ==> is_own_lib(u, x) && !(
        x.unit.mode is Doc),
        u.mode.is_doc() && has(
            own_lib_dep(cx.for_std(is_std), u, unit_for, Some(u.mode)),
            x,
        ) ==> is_own_lib(u, x) && x.unit.mode is Doc,
{
    let here = cx.for_std(is_std);
    if has(all_package_deps(here, u, unit_for, filter_of(u)), x) {
        lemma_packages_has(cx, is_std, u, unit_for, x);
        lemma_lib_elsewhere(cx, is_std, u, unit_for, x);
    }
    lemma_script_has(cx, is_std, u, unit_for, x);
    lemma_own_lib_members(cx, is_std, u, unit_for, None, x);
    lemma_own_lib_members(cx, is_std, u, unit_for, Some(u.mode), x);
}

proof fn lemma_own_lib_members(
    cx: Context,
    is_std: bool,
    u: UnitView,
    unit_for: UnitFor,
    force_mode: Option<CompileMode>,
    x: UnitDepView,
)
    ensures
        has(own_lib_dep(cx.for_std(is_std), u, unit_for, force_mode), x) ==> {
            &&& x.unit.pkg.id == u.pkg.id
            &&& x.unit.target.kind is Lib
            &&& match force_mode {
                Some(mode) => x.unit.mode == mode,
                None => x.unit.mode == CompileMode::Build || x.unit.mode == (CompileMode::Check {
                    test: false,
                }),
            }
        },
{
    lemma_own_lib_has(cx, is_std, u, unit_for, force_mode, x);
}

proof fn lemma_bins_members(cx: Context, is_std: bool, u: UnitView, x: UnitDepView)
    requires
        needs_bins(u),
    ensures
        has(own_bin_deps(cx.for_std(is_std), u), x) ==> x.unit.pkg.id == u.pkg.id
            && x.unit.target.kind == TargetKind::Bin && x.unit.mode == CompileMode::Build,
{
    lemma_bins_has(cx, is_std, u, u.pkg.targets.len(), x);
}

/// Turns are kept up to the library of the package.
proof fn lemma_three_turns(cx: Context, is_std: bool, u: UnitView, unit_for: UnitFor)
    requires
        !u.mode.is_run_custom_build(),
        u.mode.is_doc() || !u.target.is_custom_build(),
        resolution_of(cx, is_std).wf(),
        no_self_edge(cx, is_std, u),
    ensures
        ({
            let here = cx.for_std(is_std);
            let packages = all_package_deps(here, u, unit_for, filter_of(u));
            let two = append(packages, build_script_dep(here, u, unit_for));
            let three = append(two, own_lib_dep(here, u, unit_for, None));
            &&& turns_kept(cx, is_std, u, two)
            &&& turns_kept(cx, is_std, u, three)
            &&& three is Done ==> forall|x: UnitDepView| #[trigger]
                has(three, x) ==> {
                    ||| is_elsewhere(u, x)
                    ||| x.unit.mode == CompileMode::RunCustomBuild && x.unit.pkg.id == u.pkg.id
                    ||| is_own_lib(u, x) && !(x.unit.mode is Doc)
                }
        }),
{
    let here = cx.for_std(is_std);
    let packages = all_package_deps(here, u, unit_for, filter_of(u));
    let script = build_script_dep(here, u, unit_for);
    let lib = own_lib_dep(here, u, unit_for, None);
    let two = append(packages, script);
    let three = append(two, lib);
    lemma_packages_turns(
        cx,
        is_std,
        u,
        unit_for,
        active_edges(here, u, unit_for, filter_of(u)).len(),
    );
    assert(turns_kept(cx, is_std, u, packages));
    if two is Done {
        assert forall|x: UnitDepView, y: UnitDepView| #[trigger]
            has(packages, x) && #[trigger] has(script, y) implies in_turn(
            cx,
            is_std,
            u,
            x,
            y,
        ) by {
            lemma_part_members(cx, is_std, u, unit_for, x);
            lemma_part_members(cx, is_std, u, unit_for, y);
        }
    }
    lemma_append_turns(cx, is_std, u, packages, script);
    if three is Done {
        assert forall|x: UnitDepView, y: UnitDepView| #[trigger]
            has(two, x) && #[trigger] has(lib, y) implies in_turn(cx, is_std, u, x, y) by {
            lemma_append_has(packages, script, x);
            lemma_part_members(cx, is_std, u, unit_for, x);
            lemma_part_members(cx, is_std, u, unit_for, y);
        }
        assert forall|x: UnitDepView| #[trigger] has(three, x) implies {
            ||| is_elsewhere(u, x)
            ||| x.unit.mode == CompileMode::RunCustomBuild && x.unit.pkg.id == u.pkg.id
            ||| is_own_lib(u, x) && !(x.unit.mode is Doc)
        } by {
            lemma_append_has(two, lib, x);
            lemma_append_has(packages, script, x);
            lemma_part_members(cx, is_std, u, unit_for, x);
        }
    }
    lemma_append_turns(cx, is_std, u, two, lib);
}

proof fn lemma_head_turns(cx: Context, is_std: bool, u: UnitView, unit_for: UnitFor)
    requires
        resolution_of(cx, is_std).wf(),
        no_self_edge(cx, is_std, u),
    ensures
        turns_kept(cx, is_std, u, head_deps(cx.for_std(is_std), u, unit_for)),
{
    let here = cx.for_std(is_std);
    let packages = all_package_deps(here, u, unit_for, filter_of(u));
    let script = build_script_dep(here, u, unit_for);
    let lib = own_lib_dep(here, u, unit_for, None);
    let doc = own_lib_dep(here, u, unit_for, Some(u.mode));
    let bins = own_bin_deps(here, u);
    let three = append(append(packages, script), lib);
    if u.mode.is_run_custom_build() {
        assert(turns_kept(cx, is_std, u, run_script_deps(here, u, unit_for)));
    } else if u.mode.is_doc() {
        lemma_three_turns(cx, is_std, u, unit_for);
        if append(three, doc) is Done {
            assert forall|x: UnitDepView, y: UnitDepView| #[trigger]
                has(three, x) && #[trigger] has(doc, y) implies in_turn(cx, is_std, u, x, y) by {
                lemma_part_members(cx, is_std, u, unit_for, y);
            }
        }
        lemma_append_turns(cx, is_std, u, three, doc);
    } else if u.target.is_custom_build() {
        lemma_packages_turns(
            cx,
            is_std,
            u,
            unit_for,
            active_edges(here, u, unit_for, filter_of(u)).len(),
        );
    } else {
        lemma_three_turns(cx, is_std, u, unit_for);
        if needs_bins(u) {
            lemma_bins_turns(cx, is_std, u);
            if append(three, bins) is Done {
                assert forall|x: UnitDepView, y: UnitDepView| #[trigger]
                    has(three, x) && #[trigger] has(bins, y) implies in_turn(
                    cx,
                    is_std,
                    u,
                    x,
                    y,
                ) by {
                    lemma_bins_members(cx, is_std, u, y);
                }
            }
            lemma_append_turns(cx, is_std, u, three, bins);
        }
    }
}

/// The dependencies of a unit are found in turn. They are visited as they are found, and
/// sorted only when the graph is complete.
pub proof fn law_found_in_turn(
    cx: Context,
    s: Search,
    t: Search,
    u: UnitView,
    unit_for: UnitFor,
    list: Seq<UnitDepView>,
    i: int,
    j: int,
)
    requires
        expanded(cx, s, u, unit_for) == Run::Done((t, list)),
        resolution_of(cx, cx.is_std).wf(),
        no_self_edge(cx, cx.is_std, u),
        shows_examples(cx, u) ==> scraped_only(cx),
        0 <= i < j < list.len(),
    ensures
        in_turn(cx, cx.is_std, u, list[i], list[j]),
{
    let is_std = cx.is_std;
    assert(cx.for_std(is_std) == cx);
    let run = expand_within(cx, s, u, unit_for);
    let fuel = choose|fuel: nat| !(#[trigger] run(fuel) is Unfinished);
    assert(expand(cx, s, u, unit_for, fuel) == Run::Done((t, list)));
    lemma_expand_deps(cx, s, u, unit_for, fuel);
    let head = head_deps(cx, u, unit_for);
    lemma_head_turns(cx, is_std, u, unit_for);
    assert(scrapes(cx, u) == shows_examples(cx, u));
    if shows_examples(cx, u) {
        let n = cx.scrape_units@.len();
        let tail = scrape_deps(cx, n);
        assert forall|y: UnitDepView| #[trigger] has(tail, y) implies y.unit.mode
            == CompileMode::Docscrape by {
            lemma_scraped_has(cx, is_std, u, n, y);
            let k = choose|k: int|
                0 <= k < n && is_scrape_dep(cx, is_std, u, (#[trigger] cx.scrape_units@[k])@, y);
            assert(cx.scrape_units@[k]@.mode == CompileMode::Docscrape);
        }
        if let Run::Done(rest) = tail {
            assert forall|p: int| 0 <= p < rest.len() implies (#[trigger] rest[p]).unit.mode
                == CompileMode::Docscrape by {
                assert(rest.contains(rest[p]));
                assert(has(tail, rest[p]));
            }
        }
        assert(turns_kept(cx, is_std, u, tail));
        lemma_append_turns(cx, is_std, u, head, tail);
    }
}

} // verus!
