//! Module descriptors: the identity of a module, its parser, its solvers
//! and its examples, under the module's own input and output types.

use vstd::prelude::*;
use core::marker::PhantomData;
use crate::catalog::ModuleInfo;
use crate::example::ExampleData;
use crate::identity::DayData;
use crate::part::Part;

verus! {

/// Everything one module declares. `I` is what its parser makes of the
/// input text, `O1` and `O2` are what its two solvers give. `P`, `S1` and
/// `S2` are the parser and the solvers themselves.
pub struct ModuleDescriptor<I, O1, O2, P, S1, S2> {
    identity: DayData,
    parse: P,
    solve_part1: Option<S1>,
    solve_part2: Option<S2>,
    examples: Vec<ExampleData<O1, O2>>,
    input: PhantomData<I>,
}

/// The answer of one solver.
#[derive(Debug, PartialEq, Eq)]
pub enum Answer<O1, O2> {
    Part1(O1),
    Part2(O2),
}

/// Why a module gave no answer.
#[derive(Debug, PartialEq, Eq)]
pub enum RunError {
    /// The module has no solver for the part.
    SolverMissing,
    /// The module's parser refused the input, for the reason it gave.
    Parse { identity: DayData, reason: String },
}

impl<I, O1, O2, P, S1, S2> ModuleDescriptor<I, O1, O2, P, S1, S2> where
    P: Fn(&str) -> Result<I, String>,
    S1: Fn(&I) -> O1,
    S2: Fn(&I) -> O2,
 {
    /// The identity of the module.
    pub closed spec fn spec_identity(&self) -> DayData {
        self.identity
    }

    /// The parser.
    pub closed spec fn parser(&self) -> P {
        self.parse
    }

    /// The solver of part 1, if the module has one.
    pub closed spec fn solver1(&self) -> Option<S1> {
        self.solve_part1
    }

    /// The solver of part 2, if the module has one.
    pub closed spec fn solver2(&self) -> Option<S2> {
        self.solve_part2
    }

    /// The examples, in declared order.
    pub closed spec fn spec_examples(&self) -> Seq<ExampleData<O1, O2>> {
        self.examples@
    }

    /// Whether the module has a solver for `part`.
    pub open spec fn solves(&self, part: Part) -> bool {
        match part {
            Part::One => self.solver1() is Some,
            Part::Two => self.solver2() is Some,
        }
    }

    /// What the catalog is told of this module.
    pub open spec fn spec_info(&self) -> ModuleInfo {
        ModuleInfo {
            identity: self.spec_identity(),
            part1: self.solver1() is Some,
            part2: self.solver2() is Some,
        }
    }

    /// Whether the parser takes every text and each solver every input.
    /// Functions and closures that state no precondition do.
    pub open spec fn runnable(&self) -> bool {
        &&& forall|s: &str| #[trigger] call_requires(self.parser(), (s,))
        &&& self.solver1() matches Some(f) ==> forall|i: &I| #[trigger] call_requires(f, (i,))
        &&& self.solver2() matches Some(f) ==> forall|i: &I| #[trigger] call_requires(f, (i,))
    }

    /// Whether `r` is an outcome of running `part` on the text `raw`:
    /// without a solver for the part nothing is run; else the parser is
    /// given `raw`, its refusal is passed on under the module's identity,
    /// and what it accepts is given to the solver, whose output is the
    /// answer.
    pub open spec fn is_outcome(&self, part: Part, raw: &str, r: Result<Answer<O1, O2>, RunError>) -> bool {
        match r {
            Ok(Answer::Part1(o)) => {
                &&& part == Part::One
                &&& self.solver1() matches Some(f)
                &&& exists|i: I| #[trigger]
                    call_ensures(self.parser(), (raw,), Ok::<I, String>(i)) && call_ensures(f, (&i,), o)
            },
            Ok(Answer::Part2(o)) => {
                &&& part == Part::Two
                &&& self.solver2() matches Some(f)
                &&& exists|i: I| #[trigger]
                    call_ensures(self.parser(), (raw,), Ok::<I, String>(i)) && call_ensures(f, (&i,), o)
            },
            Err(RunError::SolverMissing) => !self.solves(part),
            Err(RunError::Parse { identity, reason }) => {
                &&& self.solves(part)
                &&& identity == self.spec_identity()
                &&& call_ensures(self.parser(), (raw,), Err::<I, String>(reason))
            },
        }
    }

    /// Puts a descriptor together from what a module declares.
    #[must_use]
    pub fn new(
        identity: DayData,
        parse: P,
        solve_part1: Option<S1>,
        solve_part2: Option<S2>,
        examples: Vec<ExampleData<O1, O2>>,
    ) -> (r: Self)
        ensures
            r.spec_identity() == identity,
            r.parser() == parse,
            r.solver1() == solve_part1,
            r.solver2() == solve_part2,
            r.spec_examples() == examples@,
    {
        ModuleDescriptor { identity, parse, solve_part1, solve_part2, examples, input: PhantomData }
    }

    #[verifier::when_used_as_spec(spec_identity)]
    pub fn identity(&self) -> (r: DayData)
        ensures
            r == self.spec_identity(),
    {
        self.identity
    }

    #[verifier::when_used_as_spec(solves)]
    pub fn has_part(&self, part: Part) -> (r: bool)
        ensures
            r == self.solves(part),
    {
        match part {
            Part::One => self.solve_part1.is_some(),
            Part::Two => self.solve_part2.is_some(),
        }
    }

    #[verifier::when_used_as_spec(spec_info)]
    pub fn info(&self) -> (r: ModuleInfo)
        ensures
            r == self.spec_info(),
    {
        ModuleInfo::new(self.identity, self.solve_part1.is_some(), self.solve_part2.is_some())
    }

    /// The examples, in declared order.
    pub fn examples(&self) -> (r: &Vec<ExampleData<O1, O2>>)
        ensures
            r@ == self.spec_examples(),
    {
        &self.examples
    }

    /// Hands a text to the parser.
    pub fn parse_text(&self, raw: &str) -> (r: Result<I, String>)
        requires
            self.runnable(),
        ensures
            call_ensures(self.parser(), (raw,), r),
    {
        assert(self.parser() == self.parse);
        (self.parse)(raw)
    }

    /// What part 1 gives on what the parser made of a text: nothing
    /// without a solver, the parser's refusal, else the solver's output.
    pub fn part1_output(&self, parsed: &Result<I, String>) -> (r: Option<Result<O1, String>>)
        requires
            self.runnable(),
        ensures
            match self.solver1() {
                None => r is None,
                Some(f) => match *parsed {
                    Err(reason) => r == Some(Err::<O1, String>(reason)),
                    Ok(input) => r matches Some(Ok(o)) && call_ensures(f, (&input,), o),
                },
            },
    {
        assert(self.solver1() == self.solve_part1);
        match &self.solve_part1 {
            None => None,
            Some(f) => match parsed {
                Err(reason) => Some(Err(reason.clone())),
                Ok(input) => Some(Ok(f(input))),
            },
        }
    }

    /// What part 2 gives on what the parser made of a text.
    pub fn part2_output(&self, parsed: &Result<I, String>) -> (r: Option<Result<O2, String>>)
        requires
            self.runnable(),
        ensures
            match self.solver2() {
                None => r is None,
                Some(f) => match *parsed {
                    Err(reason) => r == Some(Err::<O2, String>(reason)),
                    Ok(input) => r matches Some(Ok(o)) && call_ensures(f, (&input,), o),
                },
            },
    {
        assert(self.solver2() == self.solve_part2);
        match &self.solve_part2 {
            None => None,
            Some(f) => match parsed {
                Err(reason) => Some(Err(reason.clone())),
                Ok(input) => Some(Ok(f(input))),
            },
        }
    }

    /// Runs one part of the module on a puzzle input.
    pub fn run(&self, part: Part, raw: &str) -> (r: Result<Answer<O1, O2>, RunError>)
        requires
            self.runnable(),
        ensures
            self.is_outcome(part, raw, r),
    {
        assert(self.parser() == self.parse);
        assert(self.solver1() == self.solve_part1);
        assert(self.solver2() == self.solve_part2);
        match part {
            Part::One => match &self.solve_part1 {
                None => Err(RunError::SolverMissing),
                Some(f) => match (self.parse)(raw) {
                    Err(reason) => Err(RunError::Parse { identity: self.identity, reason }),
                    Ok(input) => {
                        let o = f(&input);
                        Ok(Answer::Part1(o))
                    },
                },
            },
            Part::Two => match &self.solve_part2 {
                None => Err(RunError::SolverMissing),
                Some(f) => match (self.parse)(raw) {
                    Err(reason) => Err(RunError::Parse { identity: self.identity, reason }),
                    Ok(input) => {
                        let o = f(&input);
                        Ok(Answer::Part2(o))
                    },
                },
            },
        }
    }
}

} // verus!
