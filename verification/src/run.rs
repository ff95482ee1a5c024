//! How computations end.

use crate::errors::{DepError, Halt, Misuse};
use crate::unit::{dep_values, UnitDep, UnitDepView};
use vstd::prelude::*;

verus! {

/// How a computation ends.
pub enum Run<T> {
    /// With a result.
    Done(T),
    /// With an error that the user is told.
    Failed(DepError),
    /// On a broken promise of the caller.
    Stuck(Misuse),
    /// Not within the steps that it was given.
    Unfinished,
}

/// The run that an early stop stands for.
pub open spec fn halted<T>(halt: Halt) -> Run<T> {
    match halt {
        Halt::Failed(e) => Run::Failed(e),
        Halt::Stuck(m) => Run::Stuck(m),
    }
}

/// The run that a result stands for, whose value is `v` on success.
pub open spec fn run_of<A, T>(res: Result<A, Halt>, v: T) -> Run<T> {
    match res {
        Ok(_) => Run::Done(v),
        Err(halt) => halted(halt),
    }
}

/// The run that ends with a list of dependencies.
pub open spec fn deps_run(res: Result<Vec<UnitDep>, Halt>) -> Run<Seq<UnitDepView>> {
    match res {
        Ok(deps) => Run::Done(dep_values(deps@)),
        Err(halt) => halted(halt),
    }
}

/// The run that ends with a dependency.
pub open spec fn dep_run(res: Result<UnitDep, Halt>) -> Run<UnitDepView> {
    match res {
        Ok(dep) => Run::Done(dep@),
        Err(halt) => halted(halt),
    }
}

/// The run that ends with at most one dependency.
pub open spec fn optional_dep_run(res: Result<Option<UnitDep>, Halt>) -> Run<Seq<UnitDepView>> {
    match res {
        Ok(Some(dep)) => Run::Done(seq![dep@]),
        Ok(None) => Run::Done(Seq::empty()),
        Err(halt) => halted(halt),
    }
}

/// The dependency as a list of one.
pub open spec fn single(run: Run<UnitDepView>) -> Run<Seq<UnitDepView>> {
    match run {
        Run::Done(dep) => Run::Done(seq![dep]),
        Run::Failed(e) => Run::Failed(e),
        Run::Stuck(m) => Run::Stuck(m),
        Run::Unfinished => Run::Unfinished,
    }
}

/// First `a`, and if it ends with a result, `b`: the dependencies of both.
pub open spec fn append(a: Run<Seq<UnitDepView>>, b: Run<Seq<UnitDepView>>) -> Run<
    Seq<UnitDepView>,
> {
    match a {
        Run::Done(x) => match b {
            Run::Done(y) => Run::Done(x + y),
            _ => b,
        },
        _ => a,
    }
}

} // verus!
