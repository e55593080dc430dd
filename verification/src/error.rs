//! The failures a module definition or a lookup can end in.

use vstd::prelude::*;
use crate::identity::DayData;

verus! {

/// The declared number that a definition error is about.
#[derive(Clone, Copy, Debug, PartialEq, Eq, Structural)]
pub enum Field {
    Year,
    Day,
    Part,
}

/// A module definition that cannot be accepted. The program that holds
/// such a definition must not start dispatching.
#[derive(Clone, Copy, Debug, PartialEq, Eq, Structural)]
pub enum BuildError {
    /// The identity declaration gives no year.
    MissingYear,
    /// The identity declaration gives no day.
    MissingDay,
    /// No input type is declared.
    MissingInput,
    /// A declared number is not a literal.
    NotALiteral(Field),
    /// A declared number is a literal that writes no decimal `u32`.
    NotANumber(Field),
    /// A solver is declared without its part.
    MissingPart,
    /// A solver is declared for a part other than 1 or 2.
    InvalidPart(u32),
    /// Two modules declare the same year and day.
    DuplicateIdentity(DayData),
}

/// A selector that leads to no solver.
#[derive(Clone, Copy, Debug, PartialEq, Eq, Structural)]
pub enum ResolveError {
    /// No registered module has the resolved year and day.
    NotFound,
    /// The module exists, but has no solver for the resolved part.
    SolverMissing,
}

} // verus!
