//! Example fixtures: an input bundled with the outputs it must give.

use vstd::prelude::*;

verus! {

/// One example of a module: an input text, and for each part the output
/// that is expected of it, where one is.
#[derive(Debug)]
pub struct ExampleData<OP1, OP2> {
    input: &'static str,
    output_part1: Option<OP1>,
    output_part2: Option<OP2>,
}

impl<OP1, OP2> ExampleData<OP1, OP2> {
    /// The input text, as the value that is handed to a parser.
    pub closed spec fn text(&self) -> &'static str {
        self.input
    }

    /// The characters of the input text.
    pub open spec fn spec_input(&self) -> Seq<char> {
        self.text()@
    }

    /// The output expected of part 1.
    pub closed spec fn expected1(&self) -> Option<OP1> {
        self.output_part1
    }

    /// The output expected of part 2.
    pub closed spec fn expected2(&self) -> Option<OP2> {
        self.output_part2
    }

    #[must_use]
    pub fn new(input: &'static str, output_part1: Option<OP1>, output_part2: Option<OP2>) -> (r:
        Self)
        ensures
            r.text() == input,
            r.expected1() == output_part1,
            r.expected2() == output_part2,
    {
        Self { input, output_part1, output_part2 }
    }

    #[must_use]
    pub fn input(&self) -> (r: &'static str)
        ensures
            r == self.text(),
    {
        self.input
    }

    #[must_use]
    pub fn output_p1(&self) -> (r: Option<&OP1>)
        ensures
            match r {
                Some(o) => self.expected1() == Some(*o),
                None => self.expected1() is None,
            },
    {
        self.output_part1.as_ref()
    }

    #[must_use]
    pub fn output_p2(&self) -> (r: Option<&OP2>)
        ensures
            match r {
                Some(o) => self.expected2() == Some(*o),
                None => self.expected2() is None,
            },
    {
        self.output_part2.as_ref()
    }
}

} // verus!
