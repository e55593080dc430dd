//! The two parts of a puzzle.

use vstd::prelude::*;
use crate::error::BuildError;

verus! {

/// One of the two parts a module may solve.
#[derive(Clone, Copy, Debug, PartialEq, Eq, Structural)]
pub enum Part {
    One,
    Two,
}

impl Part {
    /// The number a part is declared and requested by.
    pub open spec fn spec_number(&self) -> u32 {
        match self {
            Part::One => 1,
            Part::Two => 2,
        }
    }

    /// The part that a number names, if it names one.
    pub open spec fn of_number(n: u32) -> Option<Part> {
        if n == 1 {
            Some(Part::One)
        } else if n == 2 {
            Some(Part::Two)
        } else {
            None
        }
    }

    #[verifier::when_used_as_spec(spec_number)]
    pub fn number(&self) -> (n: u32)
        ensures
            n == self.spec_number(),
    {
        match self {
            Part::One => 1,
            Part::Two => 2,
        }
    }

    /// Accepts 1 and 2 and refuses every other number.
    pub fn from_number(n: u32) -> (r: Result<Part, BuildError>)
        ensures
            r == match Part::of_number(n) {
                Some(p) => Ok::<Part, BuildError>(p),
                None => Err::<Part, BuildError>(BuildError::InvalidPart(n)),
            },
    {
        if n == 1 {
            Ok(Part::One)
        } else if n == 2 {
            Ok(Part::Two)
        } else {
            Err(BuildError::InvalidPart(n))
        }
    }

    /// A part is found again from its number.
    pub proof fn lemma_number_round_trip(p: Part)
        ensures
            Part::of_number(p.spec_number()) == Some(p),
    {
    }
}

} // verus!
