//! Native libraries that packages link to.

use crate::dep_order::{
    le_packages, lemma_package_order, lemma_package_order_transitive, package_le,
};
use crate::errors::DepError;
use crate::interning::InternedString;
use crate::package::PackageId;
use crate::unit::UnitView;
use crate::unit_graph::{lemma_entry, lemma_position, Graph, UnitGraph};
use vstd::prelude::*;

verus! {

/// Whether a package has a unit in the graph and links to a native library.
pub open spec fn linked_to(graph: Graph, pkg: PackageId, links: InternedString) -> bool {
    exists|unit: UnitView| #[trigger]
        graph.contains_key(unit) && unit.pkg.id == pkg && unit.pkg.links == Some(links)
}

/// Whether two packages of the graph, of which `prev` comes first, link to the
/// same native library.
pub open spec fn clash(
    graph: Graph,
    links: InternedString,
    prev: PackageId,
    pkg: PackageId,
) -> bool {
    &&& linked_to(graph, prev, links)
    &&& linked_to(graph, pkg, links)
    &&& prev != pkg
    &&& package_le(prev, pkg)
}

/// Whether a native library and the package that links to it come no later than
/// another one and the package that links to that.
pub open spec fn no_later(
    a: InternedString,
    x: PackageId,
    b: InternedString,
    y: PackageId,
) -> bool {
    package_le(x, y) && (x == y ==> a.sym <= b.sym)
}

/// Whether these are the packages that clash and of which `pkg` comes first of
/// all that clash with an earlier one.
pub open spec fn first_clash(
    graph: Graph,
    links: InternedString,
    prev: PackageId,
    pkg: PackageId,
) -> bool {
    &&& clash(graph, links, prev, pkg)
    &&& forall|l: InternedString, a: PackageId, b: PackageId| #[trigger]
        clash(graph, l, a, b) ==> no_later(links, pkg, l, b)
}

/// The error that the native libraries of a graph lead to: the first clash, if
/// there is one.
pub open spec fn links_error(graph: Graph) -> Option<DepError> {
    if exists|l: InternedString, a: PackageId, b: PackageId| clash(graph, l, a, b) {
        let (links, prev, pkg) = choose|l: InternedString, a: PackageId, b: PackageId|
            first_clash(graph, l, a, b);
        Some(DepError::LinksConflict { links, prev, pkg })
    } else {
        None
    }
}

/// There is one first clash.
pub proof fn lemma_first_clash_unique(
    graph: Graph,
    l: InternedString,
    a: PackageId,
    b: PackageId,
    m: InternedString,
    c: PackageId,
    d: PackageId,
)
    requires
        first_clash(graph, l, a, b),
        first_clash(graph, m, c, d),
    ensures
        l == m,
        a == c,
        b == d,
{
    lemma_package_order(b, d);
    assert(b == d);
    assert(l == m);
    if a != c {
        lemma_package_order(a, c);
        if package_le(a, c) {
            assert(clash(graph, l, a, c));
            lemma_package_order(c, b);
        } else {
            assert(clash(graph, l, c, a));
            lemma_package_order(a, b);
        }
    }
}

/// One of two comes no later than the other, and so on from step to step.
proof fn lemma_no_later(
    a: InternedString,
    x: PackageId,
    b: InternedString,
    y: PackageId,
    c: InternedString,
    z: PackageId,
)
    ensures
        no_later(a, x, b, y) || no_later(b, y, a, x),
        no_later(a, x, b, y) && no_later(b, y, c, z) ==> no_later(a, x, c, z),
{
    lemma_package_order(x, y);
    lemma_package_order(y, z);
    if package_le(x, y) && package_le(y, z) {
        lemma_package_order_transitive(x, y, z);
    }
}

/// Whether the first of two comes no later than the second.
fn comes_no_later(a: InternedString, x: PackageId, b: InternedString, y: PackageId) -> (res: bool)
    ensures
        res == no_later(a, x, b, y),
{
    le_packages(x, y) && (x != y || a.sym <= b.sym)
}

/// Validates that no two packages of the graph link to the same native library,
/// since a native library can be linked only once.
pub fn validate_links(graph: &UnitGraph) -> (res: Result<(), DepError>)
    requires
        graph.wf(),
    ensures
        match res {
            Ok(()) => links_error(graph@) is None,
            Err(e) => links_error(graph@) == Some(e),
        },
{
    let ghost g = graph@;
    let ghost entries = graph.entries@;
    let mut best: Option<(InternedString, PackageId, PackageId)> = None;
    for i in 0..graph.entries.len()
        invariant
            graph.wf(),
            g == graph@,
            entries == graph.entries@,
            match best {
                Some((l, a, b)) => {
                    &&& clash(g, l, a, b)
                    &&& forall|m: InternedString, c: PackageId, k: int|
                        0 <= k < i && entries[k].unit.pkg.links == Some(m) && #[trigger] clash(
                            g,
                            m,
                            c,
                            entries[k].unit.pkg.id,
                        ) ==> no_later(l, b, m, entries[k].unit.pkg.id)
                },
                None => forall|m: InternedString, c: PackageId, k: int|
                    0 <= k < i && entries[k].unit.pkg.links == Some(m) ==> !#[trigger] clash(
                        g,
                        m,
                        c,
                        entries[k].unit.pkg.id,
                    ),
            },
    {
        let pkg: PackageId = graph.entries[i].unit.pkg.id;
        proof {
            lemma_entry(entries, i as int);
            assert(entries[i as int].unit@.pkg.id == pkg);
        }
        if let Some(links) = graph.entries[i].unit.pkg.links {
            let mut found: Option<PackageId> = None;
            assert(linked_to(g, pkg, links)) by {
                assert(entries[i as int].unit@.pkg.links == Some(links));
            }
            for j in 0..graph.entries.len()
                invariant
                    graph.wf(),
                    g == graph@,
                    entries == graph.entries@,
                    linked_to(g, pkg, links),
                    match found {
                        Some(prev) => clash(g, links, prev, pkg),
                        None => forall|k: int|
                            0 <= k < j && (#[trigger] entries[k]).unit.pkg.links == Some(links)
                                ==> !clash(g, links, entries[k].unit.pkg.id, pkg),
                    },
            {
                let prev: PackageId = graph.entries[j].unit.pkg.id;
                proof {
                    lemma_entry(entries, j as int);
                    assert(entries[j as int].unit@.pkg.id == prev);
                    assert(entries[j as int].unit@.pkg.links == entries[j as int].unit.pkg.links);
                }
                if prev != pkg && le_packages(prev, pkg) && graph.entries[j].unit.pkg.links == Some(
                    links,
                ) {
                    assert(linked_to(g, prev, links));
                    found = Some(prev);
                }
            }
            match found {
                Some(prev) => {
                    let better: bool = match best {
                        Some((l, _, b)) => !comes_no_later(l, b, links, pkg),
                        None => true,
                    };
                    proof {
                        match best {
                            Some((l, a, b)) => {
                                lemma_no_later(l, b, links, pkg, links, pkg);
                                assert forall|m: InternedString, c: PackageId, k: int|
                                    0 <= k < i && entries[k].unit.pkg.links == Some(m)
                                        && #[trigger] clash(g, m, c, entries[k].unit.pkg.id)
                                        && better implies no_later(
                                    links,
                                    pkg,
                                    m,
                                    entries[k].unit.pkg.id,
                                ) by {
                                    lemma_no_later(links, pkg, l, b, m, entries[k].unit.pkg.id);
                                }
                            },
                            None => {},
                        }
                        lemma_package_order(pkg, pkg);
                    }
                    if better {
                        best = Some((links, prev, pkg));
                    }
                },
                None => {
                    proof {
                        assert forall|c: PackageId| !#[trigger] clash(g, links, c, pkg) by {
                            if clash(g, links, c, pkg) {
                                let u = choose|u: UnitView| #[trigger]
                                    g.contains_key(u) && u.pkg.id == c && u.pkg.links == Some(
                                        links,
                                    );
                                let k = lemma_position(entries, u);
                                assert(entries[k].unit.pkg.id == c);
                                assert(entries[k].unit.pkg.links == Some(links));
                            }
                        }
                    }
                },
            }
        }
    }
    proof {
        assert forall|m: InternedString, c: PackageId, d: PackageId| #[trigger]
            clash(g, m, c, d) implies exists|k: int|
            0 <= k < entries.len() && (#[trigger] entries[k]).unit.pkg.id == d
                && entries[k].unit.pkg.links == Some(m) by {
            let u = choose|u: UnitView| #[trigger]
                g.contains_key(u) && u.pkg.id == d && u.pkg.links == Some(m);
            let k = lemma_position(entries, u);
            assert(entries[k].unit.pkg.id == d);
            assert(entries[k].unit.pkg.links == Some(m));
        }
    }
    match best {
        Some((links, prev, pkg)) => {
            proof {
                assert(first_clash(g, links, prev, pkg));
                let (l, a, b) = choose|l: InternedString, a: PackageId, b: PackageId|
                    first_clash(g, l, a, b);
                lemma_first_clash_unique(g, links, prev, pkg, l, a, b);
            }
            Err(DepError::LinksConflict { links, prev, pkg })
        },
        None => Ok(()),
    }
}

} // verus!
