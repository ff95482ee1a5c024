//! A map from units to their dependencies.

use crate::unit::{dep_values, Unit, UnitDep, UnitDepView, UnitView};
use vstd::prelude::*;

verus! {

/// The dependencies of each unit, as a mathematical map.
pub type Graph = Map<UnitView, Seq<UnitDepView>>;

/// A unit with its dependencies.
#[derive(Debug)]
pub struct UnitEntry {
    pub unit: Unit,
    pub deps: Vec<UnitDep>,
}

/// The dependencies of each unit of a build.
#[derive(Debug)]
pub struct UnitGraph {
    pub entries: Vec<UnitEntry>,
}

/// The units of a list of entries, in order.
pub open spec fn entry_units(entries: Seq<UnitEntry>) -> Seq<UnitView> {
    Seq::new(entries.len(), |i: int| entries[i].unit@)
}

/// The map that a list of entries stands for.
pub open spec fn entry_map(entries: Seq<UnitEntry>) -> Graph {
    Map::new(
        |unit: UnitView| entry_units(entries).contains(unit),
        |unit: UnitView| dep_values(entries[entry_units(entries).index_of(unit)].deps@),
    )
}

impl View for UnitGraph {
    type V = Graph;

    open spec fn view(&self) -> Graph {
        entry_map(self.entries@)
    }
}

/// Entries at their own positions are what the map holds.
pub proof fn lemma_entry(entries: Seq<UnitEntry>, i: int)
    requires
        entry_units(entries).no_duplicates(),
        0 <= i < entries.len(),
    ensures
        entry_map(entries).contains_key(entries[i].unit@),
        entry_map(entries)[entries[i].unit@] == dep_values(entries[i].deps@),
{
    let units = entry_units(entries);
    assert(units[i] == entries[i].unit@);
    assert(units.contains(entries[i].unit@));
    assert(units.index_of(units[i]) == i);
}

/// What the map holds stands at some position.
pub proof fn lemma_position(entries: Seq<UnitEntry>, unit: UnitView) -> (i: int)
    requires
        entry_units(entries).no_duplicates(),
        entry_map(entries).contains_key(unit),
    ensures
        0 <= i < entries.len(),
        entries[i].unit@ == unit,
        entry_map(entries)[unit] == dep_values(entries[i].deps@),
{
    let units = entry_units(entries);
    let i = units.index_of(unit);
    assert(units[i] == unit);
    i
}

impl UnitGraph {
    /// No unit is listed twice.
    pub open spec fn wf(self) -> bool {
        entry_units(self.entries@).no_duplicates()
    }

    /// The units of the graph, in the order in which they were added.
    pub open spec fn spec_units(self) -> Seq<UnitView> {
        entry_units(self.entries@)
    }

    /// The graph without units.
    pub fn new() -> (graph: UnitGraph)
        ensures
            graph.wf(),
            graph@ == Graph::empty(),
            graph.spec_units() == Seq::<UnitView>::empty(),
    {
        let graph = UnitGraph { entries: Vec::new() };
        assert(graph.spec_units() =~= Seq::<UnitView>::empty());
        assert(graph@ =~= Graph::empty());
        graph
    }

    /// The number of units.
    pub fn len(&self) -> (n: usize)
        ensures
            n == self.spec_units().len(),
    {
        self.entries.len()
    }

    /// Where the unit stands among the entries.
    fn position(&self, unit: &Unit) -> (found: Option<usize>)
        ensures
            match found {
                Some(i) => i < self.entries@.len() && self.entries@[i as int].unit@ == unit@,
                None => !self@.contains_key(unit@),
            },
    {
        for i in 0..self.entries.len()
            invariant
                forall|j: int| 0 <= j < i ==> (#[trigger] self.entries@[j]).unit@ != unit@,
        {
            if self.entries[i].unit.same(unit) {
                return Some(i);
            }
        }
        proof {
            let units = self.spec_units();
            if units.contains(unit@) {
                let j = units.index_of(unit@);
                assert(self.entries@[j].unit@ == unit@);
            }
        }
        None
    }

    /// Whether the unit is part of the graph.
    pub fn contains_key(&self, unit: &Unit) -> (found: bool)
        requires
            self.wf(),
        ensures
            found == self@.contains_key(unit@),
    {
        match self.position(unit) {
            Some(i) => {
                proof {
                    lemma_entry(self.entries@, i as int);
                }
                true
            },
            None => false,
        }
    }

    /// The dependencies of a unit, if it is part of the graph.
    pub fn get(&self, unit: &Unit) -> (deps: Option<&Vec<UnitDep>>)
        requires
            self.wf(),
        ensures
            match deps {
                Some(deps) => self@.contains_key(unit@) && self@[unit@] == dep_values(deps@),
                None => !self@.contains_key(unit@),
            },
    {
        match self.position(unit) {
            Some(i) => {
                proof {
                    lemma_entry(self.entries@, i as int);
                }
                Some(&self.entries[i].deps)
            },
            None => None,
        }
    }

    /// Gives a unit its dependencies, and says whether it had some before.
    pub fn insert(&mut self, unit: Unit, deps: Vec<UnitDep>) -> (replaced: bool)
        requires
            old(self).wf(),
        ensures
            final(self).wf(),
            replaced == old(self)@.contains_key(unit@),
            final(self)@ == old(self)@.insert(unit@, dep_values(deps@)),
            final(self).spec_units() == (if replaced {
                old(self).spec_units()
            } else {
                old(self).spec_units().push(unit@)
            }),
    {
        let ghost before = self.entries@;
        let ghost u = unit@;
        let ghost ds = dep_values(deps@);
        match self.position(&unit) {
            Some(i) => {
                self.entries[i] = UnitEntry { unit, deps };
                proof {
                    let after = self.entries@;
                    lemma_entry(before, i as int);
                    assert(entry_units(after) =~= entry_units(before));
                    assert forall|v: UnitView| entry_map(after).contains_key(v) implies entry_map(
                        after,
                    )[v] == entry_map(before).insert(u, ds)[v] by {
                        let k = lemma_position(after, v);
                        lemma_entry(before, k);
                        if v == u {
                            lemma_entry(after, i as int);
                        }
                    }
                    assert(entry_map(after) =~= entry_map(before).insert(u, ds));
                }
                true
            },
            None => {
                self.entries.push(UnitEntry { unit, deps });
                proof {
                    let after = self.entries@;
                    let units = entry_units(before);
                    assert(entry_units(after) =~= units.push(u));
                    assert(!units.contains(u));
                    assert(entry_units(after).no_duplicates());
                    lemma_entry(after, before.len() as int);
                    assert forall|v: UnitView|
                        entry_map(after).contains_key(v) <==> entry_map(before).insert(
                            u,
                            ds,
                        ).contains_key(v) by {
                        if units.contains(v) {
                            let k = units.index_of(v);
                            assert(entry_units(after)[k] == v);
                        }
                        if entry_units(after).contains(v) {
                            let k = entry_units(after).index_of(v);
                            if k < before.len() {
                                assert(units[k] == v);
                            }
                        }
                    }
                    assert forall|v: UnitView| entry_map(after).contains_key(v) implies entry_map(
                        after,
                    )[v] == entry_map(before).insert(u, ds)[v] by {
                        let k = lemma_position(after, v);
                        if k < before.len() {
                            lemma_entry(before, k);
                        }
                    }
                    assert(entry_map(after) =~= entry_map(before).insert(u, ds));
                }
                false
            },
        }
    }

    /// Takes the dependencies away from the `i`th unit, which is left with none.
    pub fn take_deps(&mut self, i: usize) -> (deps: Vec<UnitDep>)
        requires
            i < old(self).entries@.len(),
        ensures
            final(self).spec_units() == old(self).spec_units(),
            final(self).entries@.len() == old(self).entries@.len(),
            forall|j: int|
                0 <= j < final(self).entries@.len() && j != i ==> (
                #[trigger] final(self).entries@[j]) == old(self).entries@[j],
            dep_values(deps@) == dep_values(old(self).entries@[i as int].deps@),
            final(self).entries@[i as int].deps@.len() == 0,
    {
        let mut deps: Vec<UnitDep> = Vec::new();
        std::mem::swap(&mut deps, &mut self.entries[i].deps);
        assert(self.spec_units() =~= old(self).spec_units());
        deps
    }
}

} // verus!
