use cargo_units::compile::{CompileKind, CompileMode, CompileTarget};
use cargo_units::context::Context;
use cargo_units::dep_order::{le_deps, le_packages, sort_deps};
use cargo_units::dependency::{DepKind, Dependency, Platform};
use cargo_units::dev_edges::DevEdges;
use cargo_units::errors::{DepError, Halt, Misuse};
use cargo_units::interning::InternedString;
use cargo_units::layout::StdRoots;
use cargo_units::links::validate_links;
use cargo_units::package::{Config, Package, PackageId, PackageSet, SourceId, Workspace};
use cargo_units::plan::DepFilter;
use cargo_units::profiles::{
    PanicSetting, Profile, ProfileChoice, ProfileQuery, Profiles, RunProfile, UnitFor,
};
use cargo_units::resolve::{
    Activation, AllFeatures, FeaturesFor, Resolve, ResolveEdge, ResolveNode, ResolvedFeatures,
};
use cargo_units::target::{Target, TargetKind};
use cargo_units::target_data::{PlatformMatch, RustcTargetData, ScriptOverride};
use cargo_units::unit::{Unit, UnitDep};
use cargo_units::unit_dependencies::{
    build_unit_dependencies, calc_deps_of_std, check_or_build_mode, deps_of, deps_of_roots,
    try_build_unit_dependencies, State,
};
use cargo_units::unit_graph::UnitGraph;

const BUILD: CompileMode = CompileMode::Build;
const CHECK: CompileMode = CompileMode::Check { test: false };
const RUN: CompileMode = CompileMode::RunCustomBuild;
const HOST: CompileKind = CompileKind::Host;
const ARM: CompileKind = CompileKind::Target(CompileTarget { name: InternedString { sym: 900 } });

/// Names of packages.
const A: u32 = 1;
const B: u32 = 2;
const C: u32 = 3;

fn name(sym: u32) -> InternedString {
    InternedString { sym }
}

fn id(pkg: u32) -> PackageId {
    PackageId { name: name(pkg), version: 1, source: SourceId { id: 0, is_path: true } }
}

/// The crate names are a hundred times the package's name, and a little more.
fn target(pkg: u32, kind: TargetKind) -> Target {
    let offset: u32 = match kind {
        TargetKind::Lib { .. } => 0,
        TargetKind::Bin => 1,
        TargetKind::Test => 2,
        TargetKind::Bench => 3,
        TargetKind::Example => 4,
        TargetKind::CustomBuild => 5,
    };
    Target {
        crate_name: name(pkg * 100 + offset),
        kind,
        for_host: kind == TargetKind::CustomBuild,
        proc_macro: false,
        required_features: None,
    }
}

fn lib(pkg: u32) -> Target {
    target(pkg, TargetKind::Lib { linkable: true })
}

fn script(pkg: u32) -> Target {
    target(pkg, TargetKind::CustomBuild)
}

fn bin(pkg: u32) -> Target {
    target(pkg, TargetKind::Bin)
}

fn proc_macro(pkg: u32) -> Target {
    Target {
        for_host: true,
        proc_macro: true,
        ..target(pkg, TargetKind::Lib { linkable: false })
    }
}

fn package(pkg: u32, targets: Vec<Target>) -> Package {
    Package { id: id(pkg), links: None, targets }
}

fn linked(pkg: u32, links: u32, targets: Vec<Target>) -> Package {
    Package { id: id(pkg), links: Some(name(links)), targets }
}

fn dep(kind: DepKind) -> Dependency {
    Dependency { kind, name_in_toml: name(0), rename: None, platform: None, optional: false }
}

fn edge(to: u32, kinds: &[DepKind]) -> ResolveEdge {
    let mut deps: Vec<Dependency> = Vec::new();
    for kind in kinds {
        deps.push(dep(*kind));
    }
    ResolveEdge { to: id(to), deps, public: false }
}

fn node(pkg: u32, edges: Vec<ResolveEdge>) -> ResolveNode {
    ResolveNode { id: id(pkg), edges }
}

/// A unit of a package about which nothing else is said.
fn unit(pkg: u32, target: Target, kind: CompileKind, mode: CompileMode) -> Unit {
    Unit {
        pkg: package(pkg, vec![]),
        target,
        profile: Profile { id: 0 },
        kind,
        mode,
        features: Vec::new(),
        is_std: false,
        dep_hash: 0,
    }
}

fn std_unit(pkg: u32, kind: CompileKind) -> Unit {
    Unit { is_std: true, ..unit(pkg, lib(pkg), kind, BUILD) }
}

struct World {
    ws: Workspace,
    set: PackageSet,
    resolve: Resolve,
    features: ResolvedFeatures,
    std_resolve: Option<(Resolve, ResolvedFeatures)>,
    roots: Vec<Unit>,
    scrape: Vec<Unit>,
    std_roots: Vec<StdRoots>,
    global_mode: CompileMode,
    target_data: RustcTargetData,
    profiles: Profiles,
}

fn no_features() -> ResolvedFeatures {
    ResolvedFeatures { activations: Vec::new(), all: Vec::new() }
}

fn world(packages: Vec<Package>, nodes: Vec<ResolveNode>, roots: Vec<Unit>) -> World {
    World {
        ws: Workspace {
            config: Config { dual_proc_macros: false, panic_abort_tests: false },
            members: vec![id(A)],
        },
        set: PackageSet { packages },
        resolve: Resolve { nodes },
        features: no_features(),
        std_resolve: None,
        roots,
        scrape: Vec::new(),
        std_roots: Vec::new(),
        global_mode: BUILD,
        target_data: RustcTargetData { overrides: Vec::new(), platforms: Vec::new() },
        profiles: Profiles {
            choices: Vec::new(),
            run_custom_build: Vec::new(),
            default: Profile { id: 0 },
        },
    }
}

impl World {
    /// The same unit with its package as it was downloaded, if it was.
    fn owned(&self, unit: &Unit) -> Unit {
        let mut unit = unit.duplicate();
        if let Some(pkg) = self.set.get_one(unit.pkg.id) {
            unit.pkg = pkg.duplicate();
        }
        unit
    }

    fn owned_all(&self, units: &[Unit]) -> Vec<Unit> {
        units.iter().map(|unit| self.owned(unit)).collect()
    }

    /// The same world in which all units have their packages.
    fn settled(mut self) -> World {
        self.roots = self.owned_all(&self.roots);
        self.scrape = self.owned_all(&self.scrape);
        for k in 0..self.std_roots.len() {
            self.std_roots[k].units = self.owned_all(&self.std_roots[k].units);
        }
        self
    }

    fn run(&self) -> Result<UnitGraph, Halt> {
        let roots = self.owned_all(&self.roots);
        let scrape = self.owned_all(&self.scrape);
        let mut std_roots: Vec<StdRoots> = Vec::new();
        for std in &self.std_roots {
            std_roots.push(StdRoots { kind: std.kind, units: self.owned_all(&std.units) });
        }
        try_build_unit_dependencies(
            &self.ws,
            &self.set,
            &self.resolve,
            &self.features,
            self.std_resolve.as_ref(),
            &roots,
            &scrape,
            &std_roots,
            self.global_mode,
            &self.target_data,
            &self.profiles,
        )
    }

    /// Follows dependencies from all that was asked for.
    fn assert_reachable(&self, graph: &UnitGraph) {
        let mut rest: Vec<Unit> = Vec::new();
        for unit in self.roots.iter().chain(&self.scrape) {
            rest.push(self.owned(unit));
        }
        for roots in &self.std_roots {
            for unit in &roots.units {
                rest.push(self.owned(unit));
            }
        }
        let mut seen: Vec<Unit> = Vec::new();
        while let Some(unit) = rest.pop() {
            if seen.iter().any(|other| other.same(&unit)) {
                continue;
            }
            if let Some(deps) = graph.get(&unit) {
                for dep in deps {
                    rest.push(dep.unit.duplicate());
                }
                seen.push(unit);
            }
        }
        assert_eq!(seen.len(), graph.entries.len());
    }

    fn graph(&self) -> UnitGraph {
        let graph: UnitGraph = self.run().unwrap();
        assert_closed(&graph);
        assert_sorted(&graph);
        for root in &self.roots {
            assert!(graph.get(&self.owned(root)).is_some());
        }
        self.assert_reachable(&graph);
        graph
    }
}

fn assert_closed(graph: &UnitGraph) {
    for entry in &graph.entries {
        for dep in &entry.deps {
            assert!(graph.get(&dep.unit).is_some());
        }
    }
}

fn assert_sorted(graph: &UnitGraph) {
    for entry in &graph.entries {
        for i in 1..entry.deps.len() {
            assert!(le_deps(&entry.deps[i - 1], &entry.deps[i]));
        }
    }
}

/// Whether two units agree in all but what their packages hold.
fn alike(a: &Unit, b: &Unit) -> bool {
    let mut b = b.duplicate();
    b.pkg = a.pkg.duplicate();
    a.same(&b)
}

/// The dependencies of the unit of the graph that is like the given one.
fn find<'a>(graph: &'a UnitGraph, unit: &Unit) -> Option<&'a Vec<UnitDep>> {
    for entry in &graph.entries {
        if entry.unit.pkg.id == unit.pkg.id && alike(&entry.unit, unit) {
            return Some(&entry.deps);
        }
    }
    None
}

fn deps<'a>(graph: &'a UnitGraph, unit: &Unit) -> &'a Vec<UnitDep> {
    find(graph, unit).unwrap()
}

/// Package, crate name, kind and mode of each dependency.
fn shape(graph: &UnitGraph, unit: &Unit) -> Vec<(u32, u32, CompileKind, CompileMode)> {
    let mut shape = Vec::new();
    for dep in deps(graph, unit) {
        shape.push((
            dep.unit.pkg.id.name.sym,
            dep.unit.target.crate_name.sym,
            dep.unit.kind,
            dep.unit.mode,
        ));
    }
    shape
}

fn same_graphs(a: &UnitGraph, b: &UnitGraph) -> bool {
    if a.entries.len() != b.entries.len() {
        return false;
    }
    for entry in &a.entries {
        match b.get(&entry.unit) {
            Some(deps) => {
                if deps.len() != entry.deps.len() {
                    return false;
                }
                for i in 0..deps.len() {
                    if !deps[i].same(&entry.deps[i]) {
                        return false;
                    }
                }
            }
            None => return false,
        }
    }
    true
}

#[test]
fn no_roots_no_graph() {
    let mut w = world(vec![package(A, vec![lib(A)])], vec![], vec![]);
    w.std_roots = vec![StdRoots { kind: ARM, units: vec![std_unit(7, ARM)] }];
    assert_eq!(w.run().unwrap().entries.len(), 0);
}

#[test]
fn lone_library() {
    let w = world(
        vec![package(A, vec![lib(A)])],
        vec![],
        vec![unit(A, lib(A), HOST, BUILD)],
    );
    let graph = w.graph();
    assert_eq!(graph.entries.len(), 1);
    assert_eq!(shape(&graph, &w.roots[0]), vec![]);
}

#[test]
fn binary_after_library_after_script() {
    let w = world(
        vec![package(A, vec![lib(A), bin(A), script(A)])],
        vec![],
        vec![unit(A, bin(A), HOST, BUILD)],
    );
    let graph = w.graph();
    assert_eq!(graph.entries.len(), 4);
    assert_eq!(
        shape(&graph, &w.roots[0]),
        vec![(A, 100, HOST, BUILD), (A, 105, HOST, RUN)]
    );
    assert_eq!(shape(&graph, &unit(A, lib(A), HOST, BUILD)), vec![(A, 105, HOST, RUN)]);
    assert_eq!(shape(&graph, &unit(A, script(A), HOST, RUN)), vec![(A, 105, HOST, BUILD)]);
    assert_eq!(shape(&graph, &unit(A, script(A), HOST, BUILD)), vec![]);
}

#[test]
fn build_scripts_are_compiled_for_the_host() {
    let w = world(
        vec![package(A, vec![lib(A), script(A)])],
        vec![],
        vec![unit(A, lib(A), ARM, BUILD)],
    );
    let graph = w.graph();
    let run = unit(A, script(A), ARM, RUN);
    assert_eq!(shape(&graph, &w.roots[0]), vec![(A, 105, ARM, RUN)]);
    assert_eq!(shape(&graph, &run), vec![(A, 105, HOST, BUILD)]);
    let for_script = deps(&graph, &run)[0].unit_for;
    assert_eq!(for_script, UnitFor::new_host(false));
}

#[test]
fn overridden_script_has_no_dependencies() {
    let mut w = world(
        vec![linked(A, 50, vec![lib(A), script(A)])],
        vec![],
        vec![unit(A, lib(A), ARM, BUILD)],
    );
    w.target_data.overrides = vec![ScriptOverride { links: name(50), kind: ARM }];
    let graph = w.graph();
    assert_eq!(shape(&graph, &w.roots[0]), vec![(A, 105, ARM, RUN)]);
    assert_eq!(shape(&graph, &unit(A, script(A), ARM, RUN)), vec![]);
    // It is overridden for that kind only.
    w.target_data.overrides = vec![ScriptOverride { links: name(50), kind: HOST }];
    let graph = w.graph();
    assert_eq!(shape(&graph, &unit(A, script(A), ARM, RUN)), vec![(A, 105, HOST, BUILD)]);
}

#[test]
fn edges_are_lowered_to_libraries() {
    let w = world(
        vec![
            package(A, vec![lib(A)]),
            package(B, vec![bin(B), lib(B)]),
            package(C, vec![bin(C)]),
        ],
        vec![node(A, vec![edge(C, &[DepKind::Normal]), edge(B, &[DepKind::Normal])])],
        vec![unit(A, lib(A), HOST, BUILD)],
    );
    let graph = w.graph();
    assert_eq!(shape(&graph, &w.roots[0]), vec![(B, 200, HOST, BUILD)]);
    assert_eq!(graph.entries.len(), 2);
}

#[test]
fn order_of_edges_does_not_matter() {
    let packages = || {
        vec![package(A, vec![lib(A)]), package(B, vec![lib(B)]), package(C, vec![lib(C)])]
    };
    let b = || edge(B, &[DepKind::Normal]);
    let c = || edge(C, &[DepKind::Normal]);
    let root = || vec![unit(A, lib(A), HOST, BUILD)];
    let x = world(packages(), vec![node(A, vec![b(), c()])], root()).graph();
    let y = world(packages(), vec![node(A, vec![c(), b()])], root()).graph();
    assert!(same_graphs(&x, &y));
    assert_eq!(
        shape(&y, &root()[0]),
        vec![(B, 200, HOST, BUILD), (C, 300, HOST, BUILD)]
    );
}

#[test]
fn dev_dependencies_are_for_tests_and_examples() {
    let example = || target(A, TargetKind::Example);
    let test = || target(A, TargetKind::Test);
    let w = |root: Unit| {
        world(
            vec![
                package(A, vec![lib(A), bin(A), example(), test()]),
                package(B, vec![lib(B)]),
            ],
            vec![node(A, vec![edge(B, &[DepKind::Development])])],
            vec![root],
        )
    };
    let on_b = |root: Unit| {
        let w = w(root);
        let graph = w.graph();
        deps(&graph, &w.roots[0]).iter().any(|d| d.unit.pkg.id == id(B))
    };
    assert!(!on_b(unit(A, lib(A), HOST, BUILD)));
    assert!(!on_b(unit(A, bin(A), HOST, BUILD)));
    assert!(!on_b(unit(A, lib(A), HOST, CHECK)));
    assert!(on_b(unit(A, example(), HOST, BUILD)));
    assert!(on_b(unit(A, test(), HOST, CompileMode::Test)));
    assert!(on_b(unit(A, lib(A), HOST, CompileMode::Test)));
    assert!(on_b(unit(A, lib(A), HOST, CompileMode::Bench)));
    assert!(on_b(unit(A, lib(A), HOST, CompileMode::Doctest)));
    assert!(on_b(unit(A, lib(A), HOST, CompileMode::Check { test: true })));
    assert!(on_b(unit(A, lib(A), HOST, CompileMode::Docscrape)));
    assert!(!on_b(unit(A, lib(A), HOST, CompileMode::Doc { deps: true })));
}

#[test]
fn build_dependencies_are_for_the_script() {
    let w = world(
        vec![package(A, vec![lib(A), script(A)]), package(B, vec![lib(B)])],
        vec![node(A, vec![edge(B, &[DepKind::Build])])],
        vec![unit(A, lib(A), ARM, BUILD)],
    );
    let graph = w.graph();
    assert_eq!(shape(&graph, &w.roots[0]), vec![(A, 105, ARM, RUN)]);
    let compiled = unit(A, script(A), HOST, BUILD);
    assert_eq!(shape(&graph, &compiled), vec![(B, 200, HOST, BUILD)]);
    // Below a build script the features of the host side are in use.
    assert_eq!(
        deps(&graph, &compiled)[0].unit_for,
        UnitFor { host: true, host_features: true, panic_setting: PanicSetting::AlwaysUnwind }
    );
}

#[test]
fn platforms_restrict_dependencies() {
    let on_platform = || {
        let mut e = edge(B, &[DepKind::Normal]);
        e.deps[0].platform = Some(Platform { id: 4 });
        e
    };
    let mut w = world(
        vec![package(A, vec![lib(A)]), package(B, vec![lib(B)])],
        vec![node(A, vec![on_platform()])],
        vec![unit(A, lib(A), ARM, BUILD)],
    );
    assert_eq!(shape(&w.graph(), &w.roots[0]), vec![]);
    w.target_data.platforms = vec![PlatformMatch { platform: Platform { id: 4 }, kind: HOST }];
    assert_eq!(shape(&w.graph(), &w.roots[0]), vec![]);
    w.target_data.platforms = vec![PlatformMatch { platform: Platform { id: 4 }, kind: ARM }];
    assert_eq!(shape(&w.graph(), &w.roots[0]), vec![(B, 200, ARM, BUILD)]);
}

#[test]
fn optional_dependencies_are_activated() {
    let optional = || {
        let mut e = edge(B, &[DepKind::Normal]);
        e.deps[0].optional = true;
        e.deps[0].name_in_toml = name(77);
        e
    };
    let mut w = world(
        vec![package(A, vec![lib(A)]), package(B, vec![lib(B)])],
        vec![node(A, vec![optional()])],
        vec![unit(A, lib(A), HOST, BUILD)],
    );
    assert_eq!(shape(&w.graph(), &w.roots[0]), vec![]);
    let active = |features_for: FeaturesFor| Activation {
        pkg: id(A),
        features_for,
        features: vec![],
        deps: vec![name(77)],
    };
    w.features.activations = vec![active(FeaturesFor::HostDep)];
    assert_eq!(shape(&w.graph(), &w.roots[0]), vec![]);
    w.features.activations = vec![active(FeaturesFor::NormalOrDev)];
    assert_eq!(shape(&w.graph(), &w.roots[0]), vec![(B, 200, HOST, BUILD)]);
}

#[test]
fn features_depend_on_the_side() {
    let mut w = world(
        vec![
            package(A, vec![lib(A), script(A)]),
            package(B, vec![lib(B)]),
        ],
        vec![node(A, vec![edge(B, &[DepKind::Normal, DepKind::Build])])],
        vec![unit(A, lib(A), HOST, BUILD)],
    );
    w.features.activations = vec![
        Activation {
            pkg: id(B),
            features_for: FeaturesFor::NormalOrDev,
            features: vec![name(61)],
            deps: vec![],
        },
        Activation {
            pkg: id(B),
            features_for: FeaturesFor::HostDep,
            features: vec![name(62), name(63)],
            deps: vec![],
        },
    ];
    let graph = w.graph();
    let normal = deps(&graph, &w.roots[0]);
    assert_eq!(normal[1].unit.pkg.id, id(B));
    assert_eq!(normal[1].unit.features, vec![name(61)]);
    let compiled = deps(&graph, &unit(A, script(A), HOST, BUILD));
    assert_eq!(compiled[0].unit.features, vec![name(62), name(63)]);
}

#[test]
fn procedural_macros_are_built_for_the_host() {
    let w = |mode: CompileMode| {
        world(
            vec![package(A, vec![lib(A)]), package(B, vec![proc_macro(B)])],
            vec![node(A, vec![edge(B, &[DepKind::Normal])])],
            vec![unit(A, lib(A), ARM, mode)],
        )
    };
    let build = w(BUILD);
    assert_eq!(shape(&build.graph(), &build.roots[0]), vec![(B, 200, HOST, BUILD)]);
    let check = w(CHECK);
    let graph = check.graph();
    assert_eq!(shape(&graph, &check.roots[0]), vec![(B, 200, HOST, BUILD)]);
    assert_eq!(
        deps(&graph, &check.roots[0])[0].unit_for,
        UnitFor { host: true, host_features: true, panic_setting: PanicSetting::AlwaysUnwind }
    );
}

#[test]
fn dual_procedural_macros() {
    let mut w = world(
        vec![package(A, vec![lib(A)]), package(B, vec![proc_macro(B)])],
        vec![node(A, vec![edge(B, &[DepKind::Normal])])],
        vec![unit(A, lib(A), ARM, BUILD)],
    );
    w.ws.config.dual_proc_macros = true;
    assert_eq!(
        shape(&w.graph(), &w.roots[0]),
        vec![(B, 200, HOST, BUILD), (B, 200, ARM, BUILD)]
    );
    w.roots = vec![unit(A, lib(A), HOST, BUILD)];
    assert_eq!(shape(&w.graph(), &w.roots[0]), vec![(B, 200, HOST, BUILD)]);
}

#[test]
fn modes_of_dependencies() {
    let plain = lib(A);
    let for_host = proc_macro(A);
    for mode in [
        CHECK,
        CompileMode::Check { test: true },
        CompileMode::Doc { deps: true },
        CompileMode::Doc { deps: false },
        CompileMode::Docscrape,
    ] {
        assert_eq!(check_or_build_mode(mode, &plain), CHECK);
        assert_eq!(check_or_build_mode(mode, &for_host), BUILD);
    }
    for mode in
        [BUILD, CompileMode::Test, CompileMode::Bench, CompileMode::Doctest, RUN]
    {
        assert_eq!(check_or_build_mode(mode, &plain), BUILD);
        assert_eq!(check_or_build_mode(mode, &for_host), BUILD);
    }
}

#[test]
fn checked_tests_have_checked_dependencies() {
    let w = world(
        vec![package(A, vec![lib(A)]), package(B, vec![lib(B)])],
        vec![node(A, vec![edge(B, &[DepKind::Normal])])],
        vec![unit(A, lib(A), HOST, CompileMode::Check { test: true })],
    );
    assert_eq!(shape(&w.graph(), &w.roots[0]), vec![(B, 200, HOST, CHECK)]);
}

#[test]
fn documentation_of_dependencies() {
    let w = |deps: bool| {
        world(
            vec![package(A, vec![lib(A)]), package(B, vec![lib(B)])],
            vec![node(A, vec![edge(B, &[DepKind::Normal])])],
            vec![unit(A, lib(A), HOST, CompileMode::Doc { deps })],
        )
    };
    let alone = w(false);
    assert_eq!(shape(&alone.graph(), &alone.roots[0]), vec![(B, 200, HOST, CHECK)]);
    let all = w(true);
    assert_eq!(
        shape(&all.graph(), &all.roots[0]),
        vec![(B, 200, HOST, CHECK), (B, 200, HOST, CompileMode::Doc { deps: true })]
    );
}

#[test]
fn documentation_of_binaries() {
    let doc = CompileMode::Doc { deps: false };
    let w = world(
        vec![package(A, vec![lib(A), bin(A), script(A)])],
        vec![],
        vec![unit(A, bin(A), HOST, doc)],
    );
    assert_eq!(
        shape(&w.graph(), &w.roots[0]),
        vec![(A, 100, HOST, CHECK), (A, 100, HOST, doc), (A, 105, HOST, RUN)]
    );
    let w = world(
        vec![package(A, vec![lib(A), bin(A), script(A)])],
        vec![],
        vec![unit(A, lib(A), HOST, doc)],
    );
    assert_eq!(shape(&w.graph(), &w.roots[0]), vec![(A, 105, HOST, RUN)]);
}

#[test]
fn examples_are_scraped_for_members() {
    let doc = CompileMode::Doc { deps: false };
    let example = || target(B, TargetKind::Example);
    let mut w = world(
        vec![package(A, vec![lib(A)]), package(B, vec![lib(B), example()])],
        vec![],
        vec![unit(A, lib(A), HOST, doc)],
    );
    w.scrape = vec![unit(B, example(), HOST, CompileMode::Docscrape)];
    let graph = w.graph();
    assert_eq!(
        shape(&graph, &w.roots[0]),
        vec![(B, 204, HOST, CompileMode::Docscrape)]
    );
    assert_eq!(deps(&graph, &w.roots[0])[0].unit_for, UnitFor::new_host(false));
    assert_eq!(shape(&graph, &w.scrape[0]), vec![(B, 200, HOST, CHECK)]);
    // Packages outside of the workspace do not scrape.
    w.ws.members = vec![];
    let graph = w.graph();
    assert_eq!(shape(&graph, &w.roots[0]), vec![]);
    assert_eq!(graph.entries.len(), 1);
}

#[test]
fn integration_tests_build_binaries() {
    let test = || target(A, TargetKind::Test);
    let restricted = || Target { required_features: Some(vec![name(70), name(71)]), ..bin(A) };
    let w = |second: Target, mode: CompileMode| {
        let mut w = world(
            vec![package(A, vec![lib(A), bin(A), second, test()])],
            vec![],
            vec![unit(A, test(), HOST, mode)],
        );
        w.features.all = vec![AllFeatures { pkg: id(A), names: vec![name(71), name(70)] }];
        w
    };
    let both = w(restricted(), CompileMode::Test);
    let graph = both.graph();
    assert_eq!(
        shape(&graph, &both.roots[0]),
        vec![(A, 100, HOST, BUILD), (A, 101, HOST, BUILD), (A, 101, HOST, BUILD)]
    );
    // Binaries are built as normal targets.
    assert_eq!(deps(&graph, &both.roots[0])[1].unit_for, UnitFor::new_normal());
    let mut one = w(restricted(), CompileMode::Test);
    one.features.all[0].names = vec![name(70)];
    assert_eq!(
        shape(&one.graph(), &one.roots[0]),
        vec![(A, 100, HOST, BUILD), (A, 101, HOST, BUILD)]
    );
    let checked = w(restricted(), CompileMode::Check { test: true });
    assert_eq!(shape(&checked.graph(), &checked.roots[0]), vec![(A, 100, HOST, CHECK)]);
    let built = w(restricted(), BUILD);
    assert_eq!(shape(&built.graph(), &built.roots[0]), vec![(A, 100, HOST, BUILD)]);
}

#[test]
fn doc_tests_need_the_library() {
    let w = world(
        vec![package(A, vec![lib(A)])],
        vec![],
        vec![unit(A, lib(A), HOST, CompileMode::Doctest)],
    );
    assert_eq!(shape(&w.graph(), &w.roots[0]), vec![(A, 100, HOST, BUILD)]);
}

#[test]
fn roots_are_built_for_something() {
    let on_b = |root: Target, kind: CompileKind, mode: CompileMode, change: &dyn Fn(&mut World)| {
        let mut w = world(
            vec![package(A, vec![root.duplicate()]), package(B, vec![lib(B)])],
            vec![node(A, vec![edge(B, &[DepKind::Normal, DepKind::Build])])],
            vec![unit(A, root, kind, mode)],
        );
        change(&mut w);
        let graph = w.graph();
        deps(&graph, &w.roots[0])[0].unit_for
    };
    let keep = |_: &mut World| {};
    assert_eq!(on_b(lib(A), HOST, BUILD, &keep), UnitFor::new_normal());
    let unwinds = |host: bool, host_features: bool| UnitFor {
        host,
        host_features,
        panic_setting: PanicSetting::AlwaysUnwind,
    };
    assert_eq!(on_b(lib(A), HOST, CompileMode::Test, &keep), unwinds(false, false));
    let testing = |w: &mut World| w.global_mode = CompileMode::Test;
    assert_eq!(on_b(lib(A), HOST, BUILD, &testing), unwinds(false, false));
    let abort = |w: &mut World| w.ws.config.panic_abort_tests = true;
    assert_eq!(
        on_b(lib(A), HOST, CompileMode::Test, &abort),
        UnitFor { host: false, host_features: false, panic_setting: PanicSetting::Inherit }
    );
    assert_eq!(on_b(proc_macro(A), HOST, BUILD, &keep), unwinds(true, true));
    assert_eq!(on_b(proc_macro(A), HOST, CompileMode::Test, &keep), unwinds(true, true));
    assert_eq!(on_b(script(A), HOST, BUILD, &keep), unwinds(true, true));
    let plugin = Target { for_host: true, ..lib(A) };
    assert_eq!(on_b(plugin, HOST, BUILD, &keep), unwinds(false, false));
}

#[test]
fn build_scripts_follow_links() {
    // A depends on B, and both link to native libraries.
    let w = |kinds: &[DepKind], root: Unit| {
        world(
            vec![
                linked(A, 50, vec![lib(A), script(A)]),
                linked(B, 51, vec![lib(B), script(B)]),
            ],
            vec![node(A, vec![edge(B, kinds)])],
            vec![root],
        )
    };
    let normal = w(&[DepKind::Normal], unit(A, lib(A), HOST, BUILD));
    let graph = normal.graph();
    assert_eq!(
        shape(&graph, &unit(A, script(A), HOST, RUN)),
        vec![(A, 105, HOST, BUILD), (B, 205, HOST, RUN)]
    );
    assert_eq!(shape(&graph, &unit(B, script(B), HOST, RUN)), vec![(B, 205, HOST, BUILD)]);
    // Not so for dev-dependencies, which may be cyclic.
    let dev = w(&[DepKind::Development], unit(A, lib(A), HOST, CompileMode::Test));
    let graph = dev.graph();
    assert_eq!(
        shape(&graph, &dev.roots[0]),
        vec![(A, 105, HOST, RUN), (B, 200, HOST, BUILD)]
    );
    assert_eq!(shape(&graph, &unit(A, script(A), HOST, RUN)), vec![(A, 105, HOST, BUILD)]);
    // But so if one of several dependencies is a normal one.
    let mixed = w(
        &[DepKind::Development, DepKind::Normal],
        unit(A, lib(A), HOST, CompileMode::Test),
    );
    let graph = mixed.graph();
    assert_eq!(
        shape(&graph, &unit(A, script(A), HOST, RUN)),
        vec![(A, 105, HOST, BUILD), (B, 205, HOST, RUN)]
    );
}

#[test]
fn build_scripts_do_not_follow_packages_without_links() {
    let w = world(
        vec![linked(A, 50, vec![lib(A), script(A)]), package(B, vec![lib(B), script(B)])],
        vec![node(A, vec![edge(B, &[DepKind::Normal])])],
        vec![unit(A, lib(A), HOST, BUILD)],
    );
    let graph = w.graph();
    assert_eq!(shape(&graph, &unit(A, script(A), HOST, RUN)), vec![(A, 105, HOST, BUILD)]);
}

#[test]
fn overridden_scripts_do_not_follow_links() {
    let mut w = world(
        vec![
            linked(A, 50, vec![lib(A), script(A)]),
            linked(B, 51, vec![lib(B), script(B)]),
        ],
        vec![node(A, vec![edge(B, &[DepKind::Normal])])],
        vec![unit(A, lib(A), HOST, BUILD)],
    );
    w.target_data.overrides = vec![ScriptOverride { links: name(50), kind: HOST }];
    let graph = w.graph();
    assert_eq!(
        shape(&graph, &w.roots[0]),
        vec![(A, 105, HOST, RUN), (B, 200, HOST, BUILD)]
    );
    assert_eq!(shape(&graph, &unit(A, script(A), HOST, RUN)), vec![]);
}

#[test]
fn scraped_units_do_not_connect_build_scripts() {
    let doc = CompileMode::Doc { deps: false };
    let mut w = world(
        vec![
            linked(A, 50, vec![lib(A), script(A)]),
            linked(B, 51, vec![lib(B), script(B)]),
        ],
        vec![node(A, vec![edge(B, &[DepKind::Build])])],
        vec![unit(A, lib(A), HOST, doc), unit(B, lib(B), HOST, doc)],
    );
    w.ws.members = vec![id(A), id(B)];
    w.scrape = vec![
        unit(A, lib(A), HOST, CompileMode::Docscrape),
        unit(B, lib(B), HOST, CompileMode::Docscrape),
    ];
    let graph = w.graph();
    assert_eq!(
        shape(&graph, &w.roots[0]),
        vec![
            (A, 100, HOST, CompileMode::Docscrape),
            (A, 105, HOST, RUN),
            (B, 200, HOST, CompileMode::Docscrape),
        ]
    );
    assert_eq!(shape(&graph, &unit(A, script(A), HOST, RUN)), vec![(A, 105, HOST, BUILD)]);
    assert_eq!(shape(&graph, &unit(B, script(B), HOST, RUN)), vec![(B, 205, HOST, BUILD)]);
}

#[test]
fn cyclic_dev_dependencies_end() {
    let w = world(
        vec![
            linked(A, 50, vec![lib(A), script(A)]),
            linked(B, 51, vec![lib(B), script(B)]),
        ],
        vec![
            node(A, vec![edge(B, &[DepKind::Development])]),
            node(B, vec![edge(A, &[DepKind::Normal])]),
        ],
        vec![unit(A, lib(A), HOST, CompileMode::Test)],
    );
    let graph = w.graph();
    assert_eq!(shape(&graph, &unit(A, script(A), HOST, RUN)), vec![(A, 105, HOST, BUILD)]);
    assert_eq!(
        shape(&graph, &unit(B, script(B), HOST, RUN)),
        vec![(A, 105, HOST, RUN), (B, 205, HOST, BUILD)]
    );
}

#[test]
fn native_libraries_are_linked_once() {
    let mut w = world(
        vec![linked(A, 50, vec![lib(A)]), linked(B, 50, vec![lib(B)])],
        vec![node(A, vec![edge(B, &[DepKind::Normal])])],
        vec![unit(A, lib(A), HOST, BUILD)],
    );
    assert_eq!(
        w.run().unwrap_err(),
        Halt::Failed(DepError::LinksConflict { links: name(50), prev: id(A), pkg: id(B) })
    );
    w.set.packages[1].links = Some(name(51));
    let graph = w.graph();
    assert!(validate_links(&graph).is_ok());
}

#[test]
fn ambiguous_names_are_refused() {
    let renamed = || {
        let mut e = edge(B, &[DepKind::Normal, DepKind::Normal]);
        e.deps[1].rename = Some(name(88));
        e
    };
    let w = world(
        vec![package(A, vec![lib(A)]), package(B, vec![lib(B)])],
        vec![node(A, vec![renamed()])],
        vec![unit(A, lib(A), HOST, BUILD)],
    )
    .settled();
    assert_eq!(
        w.run().unwrap_err(),
        Halt::Failed(DepError::AmbiguousName { from: id(A), to: id(B) })
    );
    let res = build_unit_dependencies(
        &w.ws,
        &w.set,
        &w.resolve,
        &w.features,
        None,
        &w.roots,
        &w.scrape,
        &w.std_roots,
        w.global_mode,
        &w.target_data,
        &w.profiles,
    );
    assert_eq!(res.unwrap_err(), DepError::AmbiguousName { from: id(A), to: id(B) });
}

#[test]
fn dependencies_are_renamed_and_public() {
    let renamed = || {
        let mut e = edge(B, &[DepKind::Normal]);
        e.deps[0].rename = Some(name(88));
        e.public = true;
        e
    };
    let w = world(
        vec![package(A, vec![lib(A)]), package(B, vec![lib(B)]), package(C, vec![lib(C)])],
        vec![node(A, vec![renamed(), edge(C, &[DepKind::Normal])])],
        vec![unit(A, lib(A), HOST, BUILD)],
    );
    let graph = w.graph();
    let deps = deps(&graph, &w.roots[0]);
    assert_eq!(deps[0].extern_crate_name, name(88));
    assert!(deps[0].public);
    assert!(!deps[0].noprelude);
    assert_eq!(deps[1].extern_crate_name, name(300));
    assert!(!deps[1].public);
}

#[test]
fn profiles_are_chosen() {
    let mut w = world(
        vec![package(A, vec![lib(A), script(A)]), package(B, vec![lib(B)])],
        vec![node(A, vec![edge(B, &[DepKind::Normal])])],
        vec![unit(A, lib(A), HOST, BUILD)],
    );
    w.roots[0].profile = Profile { id: 3 };
    let query = ProfileQuery {
        pkg: id(B),
        is_member: false,
        is_local: true,
        unit_for: UnitFor::new_normal(),
        mode: BUILD,
        kind: HOST,
    };
    w.profiles = Profiles {
        choices: vec![
            ProfileChoice {
                query: ProfileQuery { is_member: true, ..query },
                profile: Profile { id: 10 },
            },
            ProfileChoice { query, profile: Profile { id: 11 } },
            ProfileChoice { query, profile: Profile { id: 12 } },
        ],
        run_custom_build: vec![RunProfile {
            for_unit: Profile { id: 3 },
            profile: Profile { id: 20 },
        }],
        default: Profile { id: 1 },
    };
    let graph = w.graph();
    let root = deps(&graph, &w.roots[0]);
    assert_eq!(root[0].unit.mode, RUN);
    assert_eq!(root[0].unit.profile, Profile { id: 20 });
    assert_eq!(root[1].unit.profile, Profile { id: 11 });
    assert_eq!(deps(&graph, &root[0].unit)[0].unit.profile, Profile { id: 1 });
}

fn with_std(kind: CompileKind) -> World {
    let mut w = world(
        vec![
            package(A, vec![lib(A), script(A)]),
            package(7, vec![lib(7)]),
            package(8, vec![lib(8)]),
        ],
        vec![],
        vec![unit(A, lib(A), kind, BUILD)],
    );
    w.std_resolve = Some((
        Resolve { nodes: vec![node(7, vec![edge(8, &[DepKind::Normal])])] },
        no_features(),
    ));
    w.std_roots = vec![StdRoots { kind: ARM, units: vec![std_unit(7, ARM)] }];
    w
}

#[test]
fn standard_library_is_attached() {
    let w = with_std(ARM);
    let graph = w.graph();
    assert_eq!(
        shape(&graph, &w.roots[0]),
        vec![(A, 105, ARM, RUN), (7, 700, ARM, BUILD)]
    );
    let on_std = &deps(&graph, &w.roots[0])[1];
    assert!(on_std.noprelude);
    assert!(on_std.public);
    assert_eq!(on_std.extern_crate_name, name(7));
    assert_eq!(on_std.unit_for, UnitFor::new_normal());
    // Executions of build scripts and what is built for the host do without.
    assert_eq!(shape(&graph, &unit(A, script(A), ARM, RUN)), vec![(A, 105, HOST, BUILD)]);
    assert_eq!(shape(&graph, &unit(A, script(A), HOST, BUILD)), vec![]);
    // The standard library has its own dependencies.
    assert_eq!(shape(&graph, &std_unit(7, ARM)), vec![(8, 800, ARM, BUILD)]);
    let inner = &deps(&graph, &std_unit(7, ARM))[0];
    assert!(inner.unit.is_std);
    assert!(!inner.noprelude);
    assert_eq!(graph.entries.len(), 5);
}

#[test]
fn standard_library_is_left_out() {
    let w = with_std(HOST);
    let graph = w.graph();
    assert_eq!(shape(&graph, &w.roots[0]), vec![(A, 105, HOST, RUN)]);
    assert_eq!(graph.entries.len(), 3);
}

#[test]
fn missing_package_is_told() {
    let w = world(
        vec![package(A, vec![lib(A)])],
        vec![node(A, vec![edge(B, &[DepKind::Normal])])],
        vec![unit(A, lib(A), HOST, BUILD)],
    );
    assert_eq!(w.run().unwrap_err(), Halt::Stuck(Misuse::NotDownloaded(id(B))));
}

#[test]
fn empty_edge_is_told() {
    let w = world(
        vec![package(A, vec![lib(A)]), package(B, vec![lib(B)])],
        vec![node(A, vec![edge(B, &[])])],
        vec![unit(A, lib(A), HOST, BUILD)],
    );
    assert_eq!(w.run().unwrap_err(), Halt::Stuck(Misuse::EmptyEdge(id(A))));
}

#[test]
fn missing_std_resolution_is_told() {
    let mut w = with_std(ARM);
    w.std_resolve = None;
    assert_eq!(w.run().unwrap_err(), Halt::Stuck(Misuse::NoStdResolve));
}

#[test]
fn missing_std_kind_is_told() {
    let mut w = with_std(ARM);
    w.std_roots[0].kind = CompileKind::Target(CompileTarget { name: name(901) });
    assert_eq!(w.run().unwrap_err(), Halt::Stuck(Misuse::NoStdRoots));
}

#[test]
fn std_collision_is_told() {
    let mut w = with_std(ARM);
    w.roots = vec![std_unit(7, ARM)];
    assert_eq!(w.run().unwrap_err(), Halt::Stuck(Misuse::StdCollision));
}

#[test]
fn complete_tables_suffice() {
    let w = with_std(ARM).settled();
    let res = build_unit_dependencies(
        &w.ws,
        &w.set,
        &w.resolve,
        &w.features,
        w.std_resolve.as_ref(),
        &w.roots,
        &w.scrape,
        &w.std_roots,
        w.global_mode,
        &w.target_data,
        &w.profiles,
    );
    assert!(same_graphs(&res.unwrap(), &w.graph()));
}

#[test]
fn host_is_kept() {
    let parent = unit(A, lib(A), HOST, BUILD);
    let host = UnitFor::new_host(true);
    assert_eq!(host.with_dependency(&parent, &lib(B)), host);
    let macros = UnitFor::new_normal().with_dependency(&parent, &proc_macro(B));
    assert_eq!(macros, UnitFor::new_host(true));
    assert_eq!(macros.with_dependency(&parent, &lib(C)), macros);
    assert_eq!(
        UnitFor::new_normal().with_dependency(&parent, &lib(B)),
        UnitFor::new_normal()
    );
    assert_eq!(UnitFor::new_normal().map_to_features_for(), FeaturesFor::NormalOrDev);
    assert_eq!(macros.map_to_features_for(), FeaturesFor::HostDep);
}

#[test]
fn order_of_dependencies() {
    let make = |pkg: u32, kind: CompileKind, mode: CompileMode, noprelude: bool| UnitDep {
        unit: unit(pkg, lib(pkg), kind, mode),
        unit_for: UnitFor::new_normal(),
        extern_crate_name: name(0),
        public: false,
        noprelude,
    };
    let sorted = sort_deps(vec![
        make(B, HOST, BUILD, false),
        make(A, ARM, BUILD, true),
        make(A, ARM, BUILD, false),
        make(A, HOST, CompileMode::Test, false),
        make(A, HOST, BUILD, false),
    ]);
    let mut keys = Vec::new();
    for dep in &sorted {
        keys.push((dep.unit.pkg.id.name.sym, dep.unit.kind, dep.unit.mode, dep.noprelude));
    }
    assert_eq!(
        keys,
        vec![
            (A, HOST, CompileMode::Test, false),
            (A, HOST, BUILD, false),
            (A, ARM, BUILD, false),
            (A, ARM, BUILD, true),
            (B, HOST, BUILD, false),
        ]
    );
    assert!(le_packages(id(A), id(B)));
    assert!(!le_packages(id(B), id(A)));
    assert!(le_packages(id(A), id(A)));
}

#[test]
fn no_roots_whatever_is_scraped() {
    let doc = CompileMode::Doc { deps: false };
    let mut w = world(vec![package(A, vec![lib(A)])], vec![], vec![]);
    w.scrape = vec![unit(A, lib(A), HOST, doc)];
    assert_eq!(w.run().unwrap().entries.len(), 0);
}

#[test]
fn scraping_itself_is_told() {
    let doc = CompileMode::Doc { deps: false };
    let mut w = world(
        vec![package(A, vec![lib(A), bin(A)]), package(B, vec![lib(B)])],
        vec![],
        vec![unit(A, lib(A), HOST, BUILD)],
    );
    w.scrape = vec![unit(A, bin(A), HOST, doc)];
    // Nothing is documented, so nothing is scraped.
    assert_eq!(w.graph().entries.len(), 1);
    // Nor is anything scraped outside of the workspace.
    w.roots = vec![unit(B, lib(B), HOST, doc)];
    assert_eq!(w.graph().entries.len(), 1);
    w.roots = vec![unit(A, lib(A), HOST, doc)];
    assert_eq!(w.run().unwrap_err(), Halt::Stuck(Misuse::ScrapesItself(id(A))));
}

#[test]
fn std_resolution_is_unused_without_std_roots() {
    let mut w = world(
        vec![package(A, vec![lib(A)]), package(B, vec![lib(B)])],
        vec![node(A, vec![edge(B, &[DepKind::Normal])])],
        vec![unit(A, lib(A), ARM, BUILD)],
    );
    let without = w.graph();
    w.std_resolve = Some((
        Resolve { nodes: vec![node(A, vec![edge(C, &[])])] },
        no_features(),
    ));
    assert!(same_graphs(&without, &w.graph()));
}

impl World {
    fn state(&self) -> State<'_> {
        State {
            cx: Context {
                ws: &self.ws,
                package_set: &self.set,
                usr_resolve: &self.resolve,
                usr_features: &self.features,
                std_resolve: self.std_resolve.as_ref(),
                is_std: false,
                global_mode: self.global_mode,
                target_data: &self.target_data,
                profiles: &self.profiles,
                scrape_units: &self.scrape,
            },
            unit_dependencies: UnitGraph::new(),
            dev_dependency_edges: DevEdges::new(),
        }
    }
}

#[test]
fn failures_keep_what_was_found() {
    let w = world(
        vec![package(A, vec![lib(A)]), package(B, vec![lib(B)])],
        vec![
            node(A, vec![edge(B, &[DepKind::Normal])]),
            node(B, vec![edge(C, &[DepKind::Normal])]),
        ],
        vec![unit(A, lib(A), HOST, BUILD), unit(B, lib(B), HOST, BUILD)],
    )
    .settled();
    let mut state = w.state();
    let other = unit(C, lib(C), HOST, RUN);
    state.unit_dependencies.insert(other.duplicate(), vec![]);
    let res = deps_of(&w.roots[0], &mut state, UnitFor::new_normal());
    assert_eq!(res.unwrap_err(), Halt::Stuck(Misuse::NotDownloaded(id(C))));
    // The dependencies of the root were found, those of its dependency were not.
    assert_eq!(state.unit_dependencies.entries.len(), 2);
    assert_eq!(shape(&state.unit_dependencies, &other), vec![]);
    assert_eq!(shape(&state.unit_dependencies, &w.roots[0]), vec![(B, 200, HOST, BUILD)]);
    assert!(find(&state.unit_dependencies, &w.roots[1]).is_none());
}

#[test]
fn single_roots_are_visited_alike() {
    let w = world(
        vec![package(A, vec![lib(A)]), package(B, vec![lib(B)])],
        vec![node(A, vec![edge(B, &[DepKind::Normal])])],
        vec![unit(A, lib(A), HOST, CompileMode::Test)],
    )
    .settled();
    let mut x = w.state();
    assert!(deps_of_roots(&w.roots, &mut x).is_ok());
    let mut y = w.state();
    assert!(deps_of(&w.roots[0], &mut y, UnitFor::new_test(w.ws.config)).is_ok());
    assert!(same_graphs(&x.unit_dependencies, &y.unit_dependencies));
    let plain = [w.owned(&unit(A, lib(A), HOST, BUILD))];
    let mut x = w.state();
    assert!(deps_of_roots(&plain, &mut x).is_ok());
    let mut y = w.state();
    assert!(deps_of(&plain[0], &mut y, UnitFor::new_normal()).is_ok());
    assert!(same_graphs(&x.unit_dependencies, &y.unit_dependencies));
}

#[test]
fn standard_library_is_calculated_from_either_side() {
    let w = with_std(ARM).settled();
    for is_std in [false, true] {
        let mut state = w.state();
        state.cx.is_std = is_std;
        let graph = calc_deps_of_std(&mut state, &w.std_roots).unwrap().unwrap();
        assert_eq!(graph.entries.len(), 2);
        assert_eq!(state.unit_dependencies.entries.len(), 0);
        assert!(!state.cx.is_std);
        let mut state = w.state();
        state.cx.is_std = is_std;
        assert!(calc_deps_of_std(&mut state, &[]).unwrap().is_none());
        assert_eq!(state.cx.is_std, is_std);
    }
}

#[test]
fn stricter_filters_keep_fewer_edges() {
    let w = world(
        vec![package(A, vec![lib(A)])],
        vec![node(
            A,
            vec![
                edge(B, &[DepKind::Normal]),
                edge(C, &[DepKind::Development]),
                edge(7, &[DepKind::Normal, DepKind::Build]),
                edge(8, &[DepKind::Build]),
            ],
        )],
        vec![unit(A, lib(A), HOST, CompileMode::Test)],
    )
    .settled();
    let state = w.state();
    let to = |filter: DepFilter| {
        let mut to = Vec::new();
        for edge in state.deps(&w.roots[0], UnitFor::new_normal(), filter).unwrap() {
            to.push(edge.to.name.sym);
        }
        to
    };
    assert_eq!(to(DepFilter::Compile), vec![B, C, 7]);
    assert_eq!(to(DepFilter::Document), vec![B, 7]);
}

#[test]
fn taken_dependencies_are_gone() {
    let w = world(
        vec![package(A, vec![lib(A)]), package(B, vec![lib(B)])],
        vec![node(A, vec![edge(B, &[DepKind::Normal])])],
        vec![unit(A, lib(A), HOST, BUILD)],
    );
    let mut graph = w.graph();
    assert_eq!(graph.take_deps(0).len(), 1);
    assert_eq!(graph.entries[0].deps.len(), 0);
}

#[test]
fn own_package_need_not_be_downloaded() {
    // The set of downloaded packages is empty: a unit brings its own package.
    let mut w = world(vec![], vec![], vec![unit(A, bin(A), HOST, BUILD)]);
    w.roots[0].pkg = package(A, vec![lib(A), bin(A), script(A)]);
    let graph = w.graph();
    assert_eq!(
        shape(&graph, &w.roots[0]),
        vec![(A, 100, HOST, BUILD), (A, 105, HOST, RUN)]
    );
    assert_eq!(shape(&graph, &unit(A, script(A), HOST, RUN)), vec![(A, 105, HOST, BUILD)]);
    assert_eq!(graph.entries.len(), 4);
}

#[test]
fn own_links_need_not_be_downloaded() {
    let mut w = world(
        vec![],
        vec![],
        vec![unit(A, lib(A), HOST, BUILD), unit(B, lib(B), HOST, BUILD)],
    );
    w.roots[0].pkg = linked(A, 50, vec![lib(A), script(A)]);
    w.roots[1].pkg = linked(B, 50, vec![lib(B)]);
    assert_eq!(
        w.run().unwrap_err(),
        Halt::Failed(DepError::LinksConflict { links: name(50), prev: id(A), pkg: id(B) })
    );
    w.roots[1].pkg.links = None;
    w.target_data.overrides = vec![ScriptOverride { links: name(50), kind: HOST }];
    let graph = w.graph();
    assert_eq!(shape(&graph, &unit(A, script(A), HOST, RUN)), vec![]);
}

#[test]
fn own_package_is_scraped() {
    let doc = CompileMode::Doc { deps: false };
    let example = || target(B, TargetKind::Example);
    let mut w = world(vec![], vec![], vec![unit(A, lib(A), HOST, doc)]);
    w.roots[0].pkg = package(A, vec![lib(A)]);
    w.scrape = vec![unit(B, example(), HOST, CompileMode::Docscrape)];
    w.scrape[0].pkg = package(B, vec![lib(B), example()]);
    let graph = w.graph();
    assert_eq!(shape(&graph, &w.roots[0]), vec![(B, 204, HOST, CompileMode::Docscrape)]);
    assert_eq!(shape(&graph, &w.scrape[0]), vec![(B, 200, HOST, CHECK)]);
}
