//! The fixture runner: every example of a module is parsed and solved,
//! and each output is held against the one that the example expects.

use vstd::prelude::*;
use crate::descriptor::ModuleDescriptor;
use crate::example::ExampleData;
use crate::part::Part;
use crate::verdict::{decides, judge, judged, lemma_judged_once, FixtureError};

verus! {

/// The result of one example for one part.
#[allow(inconsistent_fields)]
#[derive(Debug, PartialEq, Eq)]
pub enum ExampleResult<'a, O1, O2> {
    Part1 { example: usize, outcome: Result<(), FixtureError<'a, O1>> },
    Part2 { example: usize, outcome: Result<(), FixtureError<'a, O2>> },
}

/// What one example came to: for each part an outcome, where the example
/// expects an output of that part.
#[derive(Debug, PartialEq, Eq)]
pub struct ExampleRow<'a, O1, O2> {
    pub part1: Option<Result<(), FixtureError<'a, O1>>>,
    pub part2: Option<Result<(), FixtureError<'a, O2>>>,
}

impl<'a, O1, O2> ExampleResult<'a, O1, O2> {
    /// The place of the example among the module's examples.
    pub open spec fn spec_example(&self) -> usize {
        match self {
            ExampleResult::Part1 { example, outcome } => *example,
            ExampleResult::Part2 { example, outcome } => *example,
        }
    }

    /// The part that was checked.
    pub open spec fn spec_part(&self) -> Part {
        match self {
            ExampleResult::Part1 { example, outcome } => Part::One,
            ExampleResult::Part2 { example, outcome } => Part::Two,
        }
    }

    /// Whether the example passed for the part.
    pub open spec fn spec_passed(&self) -> bool {
        match self {
            ExampleResult::Part1 { example, outcome } => outcome is Ok,
            ExampleResult::Part2 { example, outcome } => outcome is Ok,
        }
    }

    #[verifier::when_used_as_spec(spec_example)]
    pub fn example(&self) -> (r: usize)
        ensures
            r == self.spec_example(),
    {
        match self {
            ExampleResult::Part1 { example, outcome } => *example,
            ExampleResult::Part2 { example, outcome } => *example,
        }
    }

    #[verifier::when_used_as_spec(spec_part)]
    pub fn part(&self) -> (r: Part)
        ensures
            r == self.spec_part(),
    {
        match self {
            ExampleResult::Part1 { example, outcome } => Part::One,
            ExampleResult::Part2 { example, outcome } => Part::Two,
        }
    }

    #[verifier::when_used_as_spec(spec_passed)]
    pub fn passed(&self) -> (r: bool)
        ensures
            r == self.spec_passed(),
    {
        match self {
            ExampleResult::Part1 { example, outcome } => outcome.is_ok(),
            ExampleResult::Part2 { example, outcome } => outcome.is_ok(),
        }
    }
}

/// The results that the row of example `k` stands for: part 1 first.
pub open spec fn results_of<'a, O1, O2>(k: int, row: ExampleRow<'a, O1, O2>) -> Seq<
    ExampleResult<'a, O1, O2>,
> {
    let first = match row.part1 {
        Some(outcome) => seq![ExampleResult::Part1 { example: k as usize, outcome }],
        None => Seq::empty(),
    };
    let second = match row.part2 {
        Some(outcome) => seq![ExampleResult::Part2 { example: k as usize, outcome }],
        None => Seq::empty(),
    };
    first + second
}

/// The results of all rows, in the order of the examples.
pub open spec fn flat<'a, O1, O2>(rows: Seq<ExampleRow<'a, O1, O2>>) -> Seq<
    ExampleResult<'a, O1, O2>,
>
    decreases rows.len(),
{
    if rows.len() == 0 {
        Seq::empty()
    } else {
        flat(rows.drop_last()) + results_of(rows.len() - 1, rows.last())
    }
}

/// How many outputs a single example expects.
pub open spec fn expects<O1, O2>(example: ExampleData<O1, O2>) -> nat {
    let first: nat = if example.expected1() is Some { 1 } else { 0 };
    let second: nat = if example.expected2() is Some { 1 } else { 0 };
    first + second
}

/// How many outputs the examples expect, all parts together.
pub open spec fn expected_count<O1, O2>(examples: Seq<ExampleData<O1, O2>>) -> nat
    decreases examples.len(),
{
    if examples.len() == 0 {
        0
    } else {
        expected_count(examples.drop_last()) + expects(examples.last())
    }
}

/// How many of the results are passes.
pub open spec fn passes<'a, O1, O2>(results: Seq<ExampleResult<'a, O1, O2>>) -> nat
    decreases results.len(),
{
    if results.len() == 0 {
        0
    } else {
        let last: nat = if results.last().spec_passed() { 1 } else { 0 };
        passes(results.drop_last()) + last
    }
}

/// Counts the passes among the results.
pub fn count_passed<'a, O1, O2>(results: &Vec<ExampleResult<'a, O1, O2>>) -> (n: usize)
    ensures
        n == passes(results@),
        n <= results@.len(),
{
    let mut n: usize = 0;
    let mut i: usize = 0;
    while i < results.len()
        invariant
            i <= results.len(),
            n <= i,
            n == passes(results@.take(i as int)),
        decreases results.len() - i,
    {
        assert(results@.take(i + 1).drop_last() =~= results@.take(i as int));
        if results[i].passed() {
            n = n + 1;
        }
        i = i + 1;
    }
    assert(results@.take(i as int) =~= results@);
    n
}

/// Counts the results that are no pass.
pub fn count_failed<'a, O1, O2>(results: &Vec<ExampleResult<'a, O1, O2>>) -> (n: usize)
    ensures
        n == results@.len() - passes(results@),
{
    results.len() - count_passed(results)
}

impl<I, O1, O2, P, S1, S2> ModuleDescriptor<I, O1, O2, P, S1, S2> where
    O1: PartialEq,
    O2: PartialEq,
    P: Fn(&str) -> Result<I, String>,
    S1: Fn(&I) -> O1,
    S2: Fn(&I) -> O2,
 {
    /// Whether `outcome` is what example `k` comes to for part 1, once
    /// the parser has given `parsed`: nothing where the example expects no
    /// output of the part; a configuration error where the part has no
    /// solver; the parser's refusal; else the verdict on what the solver
    /// gives for the parsed input.
    pub open spec fn checked1<'a>(
        &self,
        k: int,
        parsed: Result<I, String>,
        outcome: Option<Result<(), FixtureError<'a, O1>>>,
    ) -> bool {
        match self.spec_examples()[k].expected1() {
            None => outcome is None,
            Some(expected) => outcome is Some && match self.solver1() {
                None => outcome->0 == Err::<(), FixtureError<'a, O1>>(FixtureError::ConfigError),
                Some(f) => match parsed {
                    Err(reason) => outcome->0 == Err::<(), FixtureError<'a, O1>>(
                        FixtureError::ParseError { reason },
                    ),
                    Ok(input) => exists|actual: O1| #[trigger]
                        call_ensures(f, (&input,), actual) && judged(expected, actual, outcome->0),
                },
            },
        }
    }

    /// The same for part 2.
    pub open spec fn checked2<'a>(
        &self,
        k: int,
        parsed: Result<I, String>,
        outcome: Option<Result<(), FixtureError<'a, O2>>>,
    ) -> bool {
        match self.spec_examples()[k].expected2() {
            None => outcome is None,
            Some(expected) => outcome is Some && match self.solver2() {
                None => outcome->0 == Err::<(), FixtureError<'a, O2>>(FixtureError::ConfigError),
                Some(f) => match parsed {
                    Err(reason) => outcome->0 == Err::<(), FixtureError<'a, O2>>(
                        FixtureError::ParseError { reason },
                    ),
                    Ok(input) => exists|actual: O2| #[trigger]
                        call_ensures(f, (&input,), actual) && judged(expected, actual, outcome->0),
                },
            },
        }
    }

    /// Whether `row` is what example `k` comes to: the parser is given the
    /// example's input once, and both parts are checked on what it gave.
    pub open spec fn example_checked<'a>(&self, k: int, row: ExampleRow<'a, O1, O2>) -> bool {
        exists|parsed: Result<I, String>| #[trigger]
            call_ensures(self.parser(), (self.spec_examples()[k].text(),), parsed) && self.checked1(
                k,
                parsed,
                row.part1,
            ) && self.checked2(k, parsed, row.part2)
    }

    /// Whether `results` is a report of the fixture runner on this
    /// module: some row for every example, in declared order, none left
    /// out after a failure.
    pub open spec fn is_report<'a>(&self, results: Seq<ExampleResult<'a, O1, O2>>) -> bool {
        exists|rows: Seq<ExampleRow<'a, O1, O2>>|
            {
                &&& rows.len() == self.spec_examples().len()
                &&& forall|k: int| 0 <= k < rows.len() ==> self.example_checked(k, #[trigger] rows[k])
                &&& results == flat(rows)
            }
    }

    /// Whether the parser, the solvers and the `==` of both output types
    /// are functions of their arguments alone.
    pub open spec fn deterministic(&self) -> bool {
        &&& forall|s: &str, a: Result<I, String>, b: Result<I, String>|
            #![trigger call_ensures(self.parser(), (s,), a), call_ensures(self.parser(), (s,), b)]
            call_ensures(self.parser(), (s,), a) && call_ensures(self.parser(), (s,), b) ==> a == b
        &&& self.solver1() matches Some(f) ==> forall|i: &I, a: O1, b: O1|
            #![trigger call_ensures(f, (i,), a), call_ensures(f, (i,), b)]
            call_ensures(f, (i,), a) && call_ensures(f, (i,), b) ==> a == b
        &&& self.solver2() matches Some(f) ==> forall|i: &I, a: O2, b: O2|
            #![trigger call_ensures(f, (i,), a), call_ensures(f, (i,), b)]
            call_ensures(f, (i,), a) && call_ensures(f, (i,), b) ==> a == b
        &&& decides::<O1>()
        &&& decides::<O2>()
    }

    /// Runs example `k` through the parser and the solvers. There is no
    /// row where the module has no such example.
    pub fn run_example<'a>(&'a self, k: usize) -> (r: Option<ExampleRow<'a, O1, O2>>)
        requires
            self.runnable(),
        ensures
            match r {
                Some(row) => k < self.spec_examples().len() && self.example_checked(k as int, row),
                None => k >= self.spec_examples().len(),
            },
    {
        let examples = self.examples();
        if k >= examples.len() {
            return None;
        }
        let example = &examples[k];
        let parsed = self.parse_text(example.input());
        let part1 = match example.output_p1() {
            None => None,
            Some(expected) => Some(
                match self.part1_output(&parsed) {
                    None => Err(FixtureError::ConfigError),
                    Some(Err(reason)) => Err(FixtureError::ParseError { reason }),
                    Some(Ok(actual)) => judge(expected, actual),
                },
            ),
        };
        let part2 = match example.output_p2() {
            None => None,
            Some(expected) => Some(
                match self.part2_output(&parsed) {
                    None => Err(FixtureError::ConfigError),
                    Some(Err(reason)) => Err(FixtureError::ParseError { reason }),
                    Some(Ok(actual)) => judge(expected, actual),
                },
            ),
        };
        Some(ExampleRow { part1, part2 })
    }

    /// Runs every example of the module, in declared order, and reports
    /// one result for each output that an example expects. A failure ends
    /// nothing: the examples after it are run all the same.
    pub fn run_examples<'a>(&'a self) -> (results: Vec<ExampleResult<'a, O1, O2>>)
        requires
            self.runnable(),
        ensures
            self.is_report(results@),
            results@.len() == expected_count(self.spec_examples()),
    {
        let n = self.examples().len();
        let mut results: Vec<ExampleResult<'a, O1, O2>> = Vec::new();
        let ghost mut rows: Seq<ExampleRow<'a, O1, O2>> = Seq::empty();
        let mut k: usize = 0;
        while k < n
            invariant
                self.runnable(),
                n == self.spec_examples().len(),
                k <= n,
                rows.len() == k,
                forall|j: int| 0 <= j < k ==> self.example_checked(j, #[trigger] rows[j]),
                results@ == flat(rows),
                results@.len() == expected_count(self.spec_examples().take(k as int)),
            decreases n - k,
        {
            let row = match self.run_example(k) {
                Some(row) => row,
                None => { return results; },
            };
            let ghost before = results@;
            proof {
                let next = rows.push(row);
                assert(next.drop_last() =~= rows);
                assert(self.spec_examples().take(k + 1).drop_last() =~= self.spec_examples().take(
                    k as int,
                ));
                rows = next;
            }
            let ExampleRow { part1, part2 } = row;
            match part1 {
                Some(outcome) => {
                    results.push(ExampleResult::Part1 { example: k, outcome });
                },
                None => {},
            }
            match part2 {
                Some(outcome) => {
                    results.push(ExampleResult::Part2 { example: k, outcome });
                },
                None => {},
            }
            assert(results@ =~= before + results_of(k as int, rows.last()));
            k = k + 1;
        }
        assert(self.spec_examples().take(k as int) =~= self.spec_examples());
        results
    }

    /// Running the fixture runner again gives the same report: where the
    /// parser and the solvers are functions of their argument, a module
    /// has one report only.
    pub proof fn lemma_report_is_determined<'a>(
        &self,
        first: Seq<ExampleResult<'a, O1, O2>>,
        second: Seq<ExampleResult<'a, O1, O2>>,
    )
        requires
            self.deterministic(),
            self.is_report(first),
            self.is_report(second),
        ensures
            first == second,
    {
        let rows1 = choose|rows: Seq<ExampleRow<'a, O1, O2>>|
            {
                &&& rows.len() == self.spec_examples().len()
                &&& forall|k: int| 0 <= k < rows.len() ==> self.example_checked(k, #[trigger] rows[k])
                &&& first == flat(rows)
            };
        let rows2 = choose|rows: Seq<ExampleRow<'a, O1, O2>>|
            {
                &&& rows.len() == self.spec_examples().len()
                &&& forall|k: int| 0 <= k < rows.len() ==> self.example_checked(k, #[trigger] rows[k])
                &&& second == flat(rows)
            };
        assert forall|k: int| 0 <= k < rows1.len() implies rows1[k] == rows2[k] by {
            self.lemma_row_is_determined(k, rows1[k], rows2[k]);
        }
        assert(rows1 =~= rows2);
    }

    /// Where the parser and the solvers are functions of their argument,
    /// an example has one row only.
    pub proof fn lemma_row_is_determined<'a>(
        &self,
        k: int,
        first: ExampleRow<'a, O1, O2>,
        second: ExampleRow<'a, O1, O2>,
    )
        requires
            self.deterministic(),
            0 <= k < self.spec_examples().len(),
            self.example_checked(k, first),
            self.example_checked(k, second),
        ensures
            first == second,
    {
        let text = self.spec_examples()[k].text();
        let p1 = choose|parsed: Result<I, String>| #[trigger]
            call_ensures(self.parser(), (text,), parsed) && self.checked1(k, parsed, first.part1)
                && self.checked2(k, parsed, first.part2);
        let p2 = choose|parsed: Result<I, String>| #[trigger]
            call_ensures(self.parser(), (text,), parsed) && self.checked1(k, parsed, second.part1)
                && self.checked2(k, parsed, second.part2);
        assert(p1 == p2);
        match (self.spec_examples()[k].expected1(), self.solver1(), p1) {
            (Some(expected), Some(f), Ok(input)) => {
                let a1 = choose|actual: O1| #[trigger]
                    call_ensures(f, (&input,), actual) && judged(expected, actual, first.part1->0);
                let a2 = choose|actual: O1| #[trigger]
                    call_ensures(f, (&input,), actual) && judged(expected, actual, second.part1->0);
                assert(a1 == a2);
                lemma_judged_once(expected, a1, first.part1->0, second.part1->0);
            },
            _ => {},
        }
        match (self.spec_examples()[k].expected2(), self.solver2(), p1) {
            (Some(expected), Some(f), Ok(input)) => {
                let a1 = choose|actual: O2| #[trigger]
                    call_ensures(f, (&input,), actual) && judged(expected, actual, first.part2->0);
                let a2 = choose|actual: O2| #[trigger]
                    call_ensures(f, (&input,), actual) && judged(expected, actual, second.part2->0);
                assert(a1 == a2);
                lemma_judged_once(expected, a1, first.part2->0, second.part2->0);
            },
            _ => {},
        }
    }
}

} // verus!
