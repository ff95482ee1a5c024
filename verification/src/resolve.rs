//! The dependencies between packages and the features of each.

use crate::dependency::Dependency;
use crate::errors::DepError;
use crate::interning::{all_among, contains_name, copy_names, InternedString};
use crate::lookup::{first_where, is_first, lemma_first_where, lemma_found, lemma_not_found};
use crate::package::PackageId;
use crate::target::{Target, TargetView};
use vstd::prelude::*;

verus! {

/// The dependencies by which one package depends on another.
#[derive(Debug)]
pub struct ResolveEdge {
    pub to: PackageId,
    pub deps: Vec<Dependency>,
    /// Whether the dependency is part of the public interface.
    pub public: bool,
}

/// A package of the resolution with what it depends on.
#[derive(Debug)]
pub struct ResolveNode {
    pub id: PackageId,
    pub edges: Vec<ResolveEdge>,
}

/// The dependencies between packages, as version resolution chose them.
#[derive(Debug)]
pub struct Resolve {
    pub nodes: Vec<ResolveNode>,
}

impl ResolveNode {
    /// There is one edge at most to each package.
    pub open spec fn wf(self) -> bool {
        forall|i: int, j: int|
            0 <= i < j < self.edges@.len() ==> (#[trigger] self.edges@[i]).to != (
            #[trigger] self.edges@[j]).to
    }
}

pub open spec fn node_of(id: PackageId) -> spec_fn(ResolveNode) -> bool {
    |n: ResolveNode| n.id == id
}

pub open spec fn edge_to(id: PackageId) -> spec_fn(ResolveEdge) -> bool {
    |e: ResolveEdge| e.to == id
}

/// The crate name that a dependency gives to a target.
pub open spec fn dep_crate_name(dep: Dependency, target: TargetView) -> InternedString {
    match dep.rename {
        Some(name) => name,
        None => target.crate_name,
    }
}

impl Resolve {
    /// There is one node at most for each package, and one edge at most between
    /// two packages.
    pub open spec fn wf(self) -> bool {
        &&& forall|i: int, j: int|
            0 <= i < j < self.nodes@.len() ==> (#[trigger] self.nodes@[i]).id != (
            #[trigger] self.nodes@[j]).id
        &&& forall|i: int| 0 <= i < self.nodes@.len() ==> (#[trigger] self.nodes@[i]).wf()
    }

    /// What the package depends on.
    pub open spec fn spec_deps(self, pkg: PackageId) -> Seq<ResolveEdge> {
        match first_where(self.nodes@, node_of(pkg)) {
            Some(node) => node.edges@,
            None => Seq::empty(),
        }
    }

    /// The edge between two packages.
    pub open spec fn spec_edge(self, from: PackageId, to: PackageId) -> Option<ResolveEdge> {
        first_where(self.spec_deps(from), edge_to(to))
    }

    /// The dependencies that give the crates of `to` their names inside of
    /// `from`; none give a name to crates of the same package.
    pub open spec fn spec_naming_deps(self, from: PackageId, to: PackageId) -> Seq<Dependency> {
        if from == to {
            Seq::empty()
        } else {
            match self.spec_edge(from, to) {
                Some(edge) => edge.deps@,
                None => Seq::empty(),
            }
        }
    }

    /// The name of crate `target` of package `to` inside of `from`.
    pub open spec fn spec_extern_crate_name(
        self,
        from: PackageId,
        to: PackageId,
        target: TargetView,
    ) -> Result<InternedString, DepError> {
        let deps = self.spec_naming_deps(from, to);
        if deps.len() == 0 {
            Ok(target.crate_name)
        } else if forall|i: int|
            0 <= i < deps.len() ==> dep_crate_name(#[trigger] deps[i], target) == dep_crate_name(
                deps[0],
                target,
            ) {
            Ok(dep_crate_name(deps[0], target))
        } else {
            Err(DepError::AmbiguousName { from, to })
        }
    }

    /// Whether `to` is part of the public interface of `from`.
    pub open spec fn spec_is_public_dep(self, from: PackageId, to: PackageId) -> bool {
        match self.spec_edge(from, to) {
            Some(edge) => edge.public,
            None => false,
        }
    }

    /// The node of a package, if it is part of the resolution.
    fn node(&self, pkg: PackageId) -> (found: Option<&ResolveNode>)
        ensures
            match found {
                Some(node) => first_where(self.nodes@, node_of(pkg)) == Some(*node),
                None => first_where(self.nodes@, node_of(pkg)) is None,
            },
    {
        for i in 0..self.nodes.len()
            invariant
                forall|j: int| 0 <= j < i ==> !node_of(pkg)(#[trigger] self.nodes@[j]),
        {
            if self.nodes[i].id == pkg {
                proof {
                    assert(is_first(self.nodes@, node_of(pkg), i as int));
                    lemma_found(self.nodes@, node_of(pkg), i as int);
                }
                return Some(&self.nodes[i]);
            }
        }
        proof {
            lemma_not_found(self.nodes@, node_of(pkg));
        }
        None
    }

    /// What the package depends on; `None` stands for nothing.
    pub fn deps(&self, pkg: PackageId) -> (edges: Option<&Vec<ResolveEdge>>)
        ensures
            match edges {
                Some(edges) => edges@ == self.spec_deps(pkg),
                None => self.spec_deps(pkg) == Seq::<ResolveEdge>::empty(),
            },
    {
        match self.node(pkg) {
            Some(node) => Some(&node.edges),
            None => None,
        }
    }

    /// The edge between two packages, if there is one.
    fn edge(&self, from: PackageId, to: PackageId) -> (found: Option<&ResolveEdge>)
        ensures
            match found {
                Some(edge) => self.spec_edge(from, to) == Some(*edge),
                None => self.spec_edge(from, to) is None,
            },
    {
        if let Some(edges) = self.deps(from) {
            for i in 0..edges.len()
                invariant
                    forall|j: int| 0 <= j < i ==> !edge_to(to)(#[trigger] edges@[j]),
                    edges@ == self.spec_deps(from),
            {
                if edges[i].to == to {
                    proof {
                        assert(is_first(edges@, edge_to(to), i as int));
                        lemma_found(edges@, edge_to(to), i as int);
                    }
                    return Some(&edges[i]);
                }
            }
        }
        proof {
            lemma_not_found(self.spec_deps(from), edge_to(to));
        }
        None
    }

    /// The name of crate `target` of package `to` inside of `from`: the name
    /// to which the dependency renames it, else its own. Fails where several
    /// dependencies disagree.
    pub fn extern_crate_name(&self, from: PackageId, to: PackageId, target: &Target) -> (name:
        Result<InternedString, DepError>)
        ensures
            name == self.spec_extern_crate_name(from, to, target@),
    {
        if from == to {
            return Ok(target.crate_name);
        }
        let edge: &ResolveEdge = match self.edge(from, to) {
            Some(edge) => edge,
            None => {
                return Ok(target.crate_name);
            },
        };
        if edge.deps.len() == 0 {
            return Ok(target.crate_name);
        }
        let ghost deps = self.spec_naming_deps(from, to);
        let name: InternedString = match edge.deps[0].rename {
            Some(name) => name,
            None => target.crate_name,
        };
        for i in 0..edge.deps.len()
            invariant
                deps == edge.deps@,
                deps.len() > 0,
                deps == self.spec_naming_deps(from, to),
                name == dep_crate_name(deps[0], target@),
                forall|j: int|
                    0 <= j < i ==> dep_crate_name(#[trigger] deps[j], target@) == name,
        {
            let other: InternedString = match edge.deps[i].rename {
                Some(name) => name,
                None => target.crate_name,
            };
            if other != name {
                assert(dep_crate_name(deps[i as int], target@) != name);
                return Err(DepError::AmbiguousName { from, to });
            }
        }
        Ok(name)
    }

    /// Whether `to` is part of the public interface of `from`.
    pub fn is_public_dep(&self, from: PackageId, to: PackageId) -> (public: bool)
        ensures
            public == self.spec_is_public_dep(from, to),
    {
        match self.edge(from, to) {
            Some(edge) => edge.public,
            None => false,
        }
    }
}

/// In a resolution that lists nothing twice, every node is found under its
/// package, and every edge under the two packages that it joins.
pub proof fn law_listed_is_found(resolve: Resolve, n: int, i: int)
    requires
        resolve.wf(),
        0 <= n < resolve.nodes@.len(),
    ensures
        resolve.spec_deps(resolve.nodes@[n].id) == resolve.nodes@[n].edges@,
        0 <= i < resolve.nodes@[n].edges@.len() ==> resolve.spec_edge(
            resolve.nodes@[n].id,
            resolve.nodes@[n].edges@[i].to,
        ) == Some(resolve.nodes@[n].edges@[i]),
{
    let node = resolve.nodes@[n];
    let p = node_of(node.id);
    assert(is_first(resolve.nodes@, p, n));
    lemma_found(resolve.nodes@, p, n);
    if 0 <= i < node.edges@.len() {
        assert(node.wf());
        assert(is_first(node.edges@, edge_to(node.edges@[i].to), i));
        lemma_found(node.edges@, edge_to(node.edges@[i].to), i);
    }
}

/// In a resolution that lists nothing twice, the edges of a package lead to
/// different packages.
pub proof fn lemma_deps_apart(resolve: Resolve, pkg: PackageId)
    requires
        resolve.wf(),
    ensures
        forall|i: int, j: int|
            0 <= i < j < resolve.spec_deps(pkg).len() ==> (#[trigger] resolve.spec_deps(pkg)[i]).to
                != (#[trigger] resolve.spec_deps(pkg)[j]).to,
{
    lemma_first_where(resolve.nodes@, node_of(pkg));
    if let Some(node) = first_where(resolve.nodes@, node_of(pkg)) {
        let n = resolve.nodes@.index_of(node);
        assert(resolve.nodes@[n].wf());
    }
}

/// For which side of the build features are resolved.
#[derive(Clone, Copy, Debug, PartialEq, Eq, Hash, Structural)]
pub enum FeaturesFor {
    /// Normal dependencies and dev-dependencies.
    NormalOrDev,
    /// Build dependencies and procedural macros.
    HostDep,
}

/// What feature resolution activated in a package on one side of the build.
#[derive(Debug)]
pub struct Activation {
    pub pkg: PackageId,
    pub features_for: FeaturesFor,
    pub features: Vec<InternedString>,
    /// Optional dependencies, by the names under which the manifest lists them.
    pub deps: Vec<InternedString>,
}

/// Every feature name by which a target of a package can be restricted: the
/// activated features of the package and of its dependencies.
#[derive(Debug)]
pub struct AllFeatures {
    pub pkg: PackageId,
    pub names: Vec<InternedString>,
}

/// The outcome of feature resolution.
#[derive(Debug)]
pub struct ResolvedFeatures {
    pub activations: Vec<Activation>,
    pub all: Vec<AllFeatures>,
}

pub open spec fn activation_of(pkg: PackageId, features_for: FeaturesFor) -> spec_fn(
    Activation,
) -> bool {
    |a: Activation| a.pkg == pkg && a.features_for == features_for
}

pub open spec fn all_features_of(pkg: PackageId) -> spec_fn(AllFeatures) -> bool {
    |a: AllFeatures| a.pkg == pkg
}

impl ResolvedFeatures {
    /// The features activated in a package.
    pub open spec fn spec_activated_features(
        self,
        pkg: PackageId,
        features_for: FeaturesFor,
    ) -> Seq<InternedString> {
        match first_where(self.activations@, activation_of(pkg, features_for)) {
            Some(activation) => activation.features@,
            None => Seq::empty(),
        }
    }

    /// Whether an optional dependency of a package is activated.
    pub open spec fn spec_is_dep_activated(
        self,
        pkg: PackageId,
        features_for: FeaturesFor,
        dep_name: InternedString,
    ) -> bool {
        match first_where(self.activations@, activation_of(pkg, features_for)) {
            Some(activation) => activation.deps@.contains(dep_name),
            None => false,
        }
    }

    /// Every feature name by which a target of the package can be restricted.
    pub open spec fn spec_all_features(self, pkg: PackageId) -> Seq<InternedString> {
        match first_where(self.all@, all_features_of(pkg)) {
            Some(all) => all.names@,
            None => Seq::empty(),
        }
    }

    fn activation(&self, pkg: PackageId, features_for: FeaturesFor) -> (found: Option<&Activation>)
        ensures
            match found {
                Some(a) => first_where(self.activations@, activation_of(pkg, features_for)) == Some(
                    *a,
                ),
                None => first_where(self.activations@, activation_of(pkg, features_for)) is None,
            },
    {
        let ghost p = activation_of(pkg, features_for);
        for i in 0..self.activations.len()
            invariant
                p == activation_of(pkg, features_for),
                forall|j: int| 0 <= j < i ==> !p(#[trigger] self.activations@[j]),
        {
            if self.activations[i].pkg == pkg && self.activations[i].features_for == features_for {
                proof {
                    assert(is_first(self.activations@, p, i as int));
                    lemma_found(self.activations@, p, i as int);
                }
                return Some(&self.activations[i]);
            }
        }
        proof {
            lemma_not_found(self.activations@, p);
        }
        None
    }

    /// The features activated in a package.
    pub fn activated_features(&self, pkg: PackageId, features_for: FeaturesFor) -> (features: Vec<
        InternedString,
    >)
        ensures
            features@ == self.spec_activated_features(pkg, features_for),
    {
        match self.activation(pkg, features_for) {
            Some(activation) => copy_names(&activation.features),
            None => Vec::new(),
        }
    }

    /// Whether the optional dependency `dep_name` of a package is activated.
    pub fn is_dep_activated(
        &self,
        pkg: PackageId,
        features_for: FeaturesFor,
        dep_name: InternedString,
    ) -> (active: bool)
        ensures
            active == self.spec_is_dep_activated(pkg, features_for, dep_name),
    {
        match self.activation(pkg, features_for) {
            Some(activation) => contains_name(&activation.deps, dep_name),
            None => false,
        }
    }

    /// Whether all of `required` are among the feature names by which a target
    /// of the package can be restricted.
    pub fn covers(&self, pkg: PackageId, required: &Vec<InternedString>) -> (covered: bool)
        ensures
            covered == all_among(required@, self.spec_all_features(pkg)),
    {
        let ghost p = all_features_of(pkg);
        for k in 0..self.all.len()
            invariant
                p == all_features_of(pkg),
                forall|j: int| 0 <= j < k ==> !p(#[trigger] self.all@[j]),
        {
            if self.all[k].pkg == pkg {
                proof {
                    assert(is_first(self.all@, p, k as int));
                    lemma_found(self.all@, p, k as int);
                }
                for i in 0..required.len()
                    invariant
                        k < self.all@.len(),
                        self.spec_all_features(pkg) == self.all@[k as int].names@,
                        forall|j: int|
                            0 <= j < i ==> self.spec_all_features(pkg).contains(
                                #[trigger] required@[j],
                            ),
                {
                    if !contains_name(&self.all[k].names, required[i]) {
                        assert(!self.spec_all_features(pkg).contains(required@[i as int]));
                        return false;
                    }
                }
                return true;
            }
        }
        proof {
            lemma_not_found(self.all@, p);
        }
        assert(required@.len() > 0 ==> !self.spec_all_features(pkg).contains(required@[0]));
        required.len() == 0
    }
}

} // verus!
