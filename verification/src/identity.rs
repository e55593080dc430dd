//! The identity of a puzzle module: the year and the day it solves.

use vstd::prelude::*;

verus! {

/// Year and day of one puzzle module. Two modules are the same module
/// exactly when both fields agree.
#[derive(Clone, Copy, Debug, PartialEq, Eq, Structural)]
pub struct DayData {
    year: u32,
    day: u32,
}

impl DayData {
    /// The year as a mathematical integer.
    pub closed spec fn spec_year(&self) -> u32 {
        self.year
    }

    /// The day as a mathematical integer.
    pub closed spec fn spec_day(&self) -> u32 {
        self.day
    }

    /// Whether this identity names the given year and day.
    pub open spec fn names(&self, y: u32, d: u32) -> bool {
        self.spec_year() == y && self.spec_day() == d
    }

    #[must_use]
    pub fn new(year: u32, day: u32) -> (r: DayData)
        ensures
            r.spec_year() == year,
            r.spec_day() == day,
    {
        DayData { year, day }
    }

    #[verifier::when_used_as_spec(spec_year)]
    pub fn year(&self) -> (r: u32)
        ensures
            r == self.spec_year(),
    {
        self.year
    }

    #[verifier::when_used_as_spec(spec_day)]
    pub fn day(&self) -> (r: u32)
        ensures
            r == self.spec_day(),
    {
        self.day
    }

    pub fn is(&self, y: u32, d: u32) -> (r: bool)
        ensures
            r == self.names(y, d),
    {
        self.year == y && self.day == d
    }

    /// An identity is determined by its two fields.
    pub proof fn lemma_identity_by_fields(a: DayData, b: DayData)
        ensures
            (a.spec_year() == b.spec_year() && a.spec_day() == b.spec_day()) <==> a == b,
    {
    }
}

} // verus!
