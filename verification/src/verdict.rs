//! Judging one output against the output that an example expects.

use vstd::prelude::*;

verus! {

/// Why an example did not pass for one part.
#[derive(Debug, PartialEq, Eq)]
pub enum FixtureError<'a, O> {
    /// The solver gave another output than the example expects.
    ExampleMismatch { expected: &'a O, actual: O },
    /// The example expects an output of a part that has no solver.
    ConfigError,
    /// The parser refused the example's input, for the reason it gave.
    ParseError { reason: String },
}

/// Whether `outcome` judges `actual` against `expected`: it is a pass or a
/// mismatch that holds both values, and it is a pass exactly when the
/// type's `==` says that the two are equal.
pub open spec fn judged<'a, O: PartialEq>(
    expected: O,
    actual: O,
    outcome: Result<(), FixtureError<'a, O>>,
) -> bool {
    &&& outcome == Ok::<(), FixtureError<'a, O>>(()) || outcome == Err::<(), FixtureError<'a, O>>(
        FixtureError::ExampleMismatch { expected: &expected, actual },
    )
    &&& exists|same: bool| #[trigger]
        call_ensures(O::eq, (&expected, &actual), same) && (outcome is Ok <==> same)
}

/// Whether the `==` of `O` is a function of the two values it compares.
pub open spec fn decides<O: PartialEq>() -> bool {
    forall|a: &O, b: &O, x: bool, y: bool|
        #![trigger call_ensures(O::eq, (a, b), x), call_ensures(O::eq, (a, b), y)]
        call_ensures(O::eq, (a, b), x) && call_ensures(O::eq, (a, b), y) ==> x == y
}

/// Where the `==` of `O` is a function of the two values, two verdicts on
/// the same pair of values are the same verdict.
pub proof fn lemma_judged_once<'a, O: PartialEq>(
    expected: O,
    actual: O,
    first: Result<(), FixtureError<'a, O>>,
    second: Result<(), FixtureError<'a, O>>,
)
    requires
        decides::<O>(),
        judged(expected, actual, first),
        judged(expected, actual, second),
    ensures
        first == second,
{
}

/// Compares what a solver gave with what was expected of it.
pub fn judge<'a, O: PartialEq>(expected: &'a O, actual: O) -> (outcome: Result<
    (),
    FixtureError<'a, O>,
>)
    ensures
        judged(*expected, actual, outcome),
{
    if *expected == actual {
        Ok(())
    } else {
        Err(FixtureError::ExampleMismatch { expected, actual })
    }
}

} // verus!
