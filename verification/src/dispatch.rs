//! The dispatcher: from a selector to the answer of the solver it means.
//! Where the puzzle input comes from and how a module is run are handed
//! in, so that the dispatcher itself holds no state and does no I/O.

use vstd::prelude::*;
use crate::catalog::{Catalog, ModuleInfo};
use crate::descriptor::RunError;
use crate::error::ResolveError;
use crate::identity::DayData;
use crate::part::Part;
use crate::selector::{resolution, Selector};

verus! {

/// Why a dispatch gave no answer.
#[derive(Debug, PartialEq, Eq)]
pub enum DispatchError<E> {
    /// The selector led to no solver.
    Resolve(ResolveError),
    /// The input of the module could not be had.
    Input { identity: DayData, error: E },
    /// The module gave no answer.
    Run(RunError),
}

/// What a run comes to as the result of a dispatch.
pub open spec fn dispatched<A, E>(out: Result<A, RunError>) -> Result<A, DispatchError<E>> {
    match out {
        Ok(answer) => Ok(answer),
        Err(error) => Err(DispatchError::Run(error)),
    }
}

/// Whether `r` is an outcome of dispatching `selector`: a selector that
/// settles on nothing is refused before anything is read; else the source
/// is asked for the input of the module found, its failure is passed on
/// under the module's identity, and the module found is run on the text
/// for the part found.
pub open spec fn is_dispatched<M, A, E, Src, Run>(
    infos: Seq<ModuleInfo>,
    modules: Seq<M>,
    selector: Selector,
    source: Src,
    run: Run,
    r: Result<A, DispatchError<E>>,
) -> bool where Src: Fn(DayData) -> Result<String, E>, Run: Fn(&M, Part, &str) -> Result<A, RunError> {
    match resolution(infos, selector) {
        Err(e) => r == Err::<A, DispatchError<E>>(DispatchError::Resolve(e)),
        Ok((i, part)) => exists|input: Result<String, E>| #[trigger]
            call_ensures(source, (infos[i].identity,), input) && match input {
                Err(error) => r == Err::<A, DispatchError<E>>(
                    DispatchError::Input { identity: infos[i].identity, error },
                ),
                Ok(raw) => exists|text: &str, out: Result<A, RunError>| #[trigger]
                    call_ensures(run, (&modules[i], part, text), out) && text@ == raw@ && r
                        == dispatched::<A, E>(out),
            },
    }
}

/// Resolves the selector, asks `source` for the input of the module it
/// finds, and lets `run` run that module on it.
pub fn dispatch<M, A, E, Src, Run>(
    catalog: &Catalog<M>,
    selector: &Selector,
    source: Src,
    run: Run,
) -> (r: Result<A, DispatchError<E>>) where
    Src: Fn(DayData) -> Result<String, E>,
    Run: Fn(&M, Part, &str) -> Result<A, RunError>,

    requires
        forall|id: DayData| #[trigger] call_requires(source, (id,)),
        forall|m: &M, part: Part, text: &str| #[trigger] call_requires(run, (m, part, text)),
    ensures
        is_dispatched(catalog@, catalog.modules(), *selector, source, run, r),
{
    let found = match catalog.resolve(selector) {
        Ok(found) => found,
        Err(e) => { return Err(DispatchError::Resolve(e)); },
    };
    let module = match catalog.get(found.index) {
        Some(module) => module,
        None => { return Err(DispatchError::Resolve(ResolveError::NotFound)); },
    };
    let raw = match source(found.identity) {
        Ok(raw) => raw,
        Err(error) => { return Err(DispatchError::Input { identity: found.identity, error }); },
    };
    match run(module, found.part, raw.as_str()) {
        Ok(answer) => Ok(answer),
        Err(error) => Err(DispatchError::Run(error)),
    }
}

} // verus!
