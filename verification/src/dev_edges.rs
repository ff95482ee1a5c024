//! Edges of the graph that are there purely because of dev-dependencies.

use crate::unit::{Unit, UnitView};
use vstd::prelude::*;

verus! {

/// An edge of the graph that was added purely because of a dev-dependency.
#[derive(Debug)]
pub struct DevEdge {
    pub from: Unit,
    pub to: Unit,
}

/// A set of such edges.
#[derive(Debug)]
pub struct DevEdges {
    pub edges: Vec<DevEdge>,
}

/// Whether an edge is listed.
pub open spec fn edge_listed(edges: Seq<DevEdge>, edge: (UnitView, UnitView)) -> bool {
    exists|i: int|
        0 <= i < edges.len() && (#[trigger] edges[i]).from@ == edge.0 && edges[i].to@ == edge.1
}

impl View for DevEdges {
    type V = Set<(UnitView, UnitView)>;

    open spec fn view(&self) -> Set<(UnitView, UnitView)> {
        Set::new(|edge: (UnitView, UnitView)| edge_listed(self.edges@, edge))
    }
}

impl DevEdges {
    /// The empty set.
    pub fn new() -> (set: DevEdges)
        ensures
            set@ == Set::<(UnitView, UnitView)>::empty(),
    {
        let set = DevEdges { edges: Vec::new() };
        assert(set@ =~= Set::<(UnitView, UnitView)>::empty());
        set
    }

    /// Adds an edge.
    pub fn insert(&mut self, from: Unit, to: Unit)
        ensures
            final(self)@ == old(self)@.insert((from@, to@)),
    {
        let ghost before = self.edges@;
        let ghost edge = (from@, to@);
        self.edges.push(DevEdge { from, to });
        proof {
            let after = self.edges@;
            assert forall|e: (UnitView, UnitView)|
                edge_listed(after, e) <==> edge_listed(before, e) || e == edge by {
                if edge_listed(before, e) {
                    let i = choose|i: int|
                        0 <= i < before.len() && (#[trigger] before[i]).from@ == e.0
                            && before[i].to@ == e.1;
                    assert(after[i] == before[i]);
                }
                if e == edge {
                    assert(after[before.len() as int].from@ == e.0);
                }
                if edge_listed(after, e) {
                    let i = choose|i: int|
                        0 <= i < after.len() && (#[trigger] after[i]).from@ == e.0 && after[i].to@
                            == e.1;
                    if i < before.len() {
                        assert(before[i] == after[i]);
                    }
                }
            }
            assert(self@ =~= old(self)@.insert(edge));
        }
    }

    /// Adds every edge of another set.
    pub fn extend(&mut self, mut other: DevEdges)
        ensures
            final(self)@ == old(self)@.union(other@),
    {
        let ghost before = self.edges@;
        let ghost more = other.edges@;
        self.edges.append(&mut other.edges);
        proof {
            let after = self.edges@;
            assert(after == before + more);
            assert forall|e: (UnitView, UnitView)|
                edge_listed(after, e) <==> edge_listed(before, e) || edge_listed(more, e) by {
                if edge_listed(before, e) {
                    let i = choose|i: int|
                        0 <= i < before.len() && (#[trigger] before[i]).from@ == e.0
                            && before[i].to@ == e.1;
                    assert(after[i] == before[i]);
                }
                if edge_listed(more, e) {
                    let i = choose|i: int|
                        0 <= i < more.len() && (#[trigger] more[i]).from@ == e.0 && more[i].to@
                            == e.1;
                    assert(after[before.len() + i] == more[i]);
                }
                if edge_listed(after, e) {
                    let i = choose|i: int|
                        0 <= i < after.len() && (#[trigger] after[i]).from@ == e.0 && after[i].to@
                            == e.1;
                    if i < before.len() {
                        assert(before[i] == after[i]);
                    } else {
                        assert(more[i - before.len()] == after[i]);
                    }
                }
            }
        }
    }

    /// Whether the edge is in the set.
    pub fn contains(&self, from: &Unit, to: &Unit) -> (found: bool)
        ensures
            found == self@.contains((from@, to@)),
    {
        for i in 0..self.edges.len()
            invariant
                forall|j: int|
                    0 <= j < i ==> !((#[trigger] self.edges@[j]).from@ == from@
                        && self.edges@[j].to@ == to@),
        {
            if self.edges[i].from.same(from) && self.edges[i].to.same(to) {
                return true;
            }
        }
        false
    }
}

} // verus!
