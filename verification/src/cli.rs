//! The command line: `--year`/`-y`, `--day`/`-d` and `--part`/`-p`, each
//! followed by its value, in any order and each optional.

use vstd::prelude::*;
use crate::part::Part;
use crate::selector::Selector;
use crate::text::{decimal_u32, parse_u32, same_text};

verus! {

/// A flag of the command line.
#[derive(Clone, Copy, Debug, PartialEq, Eq, Structural)]
pub enum Flag {
    Year,
    Day,
    Part,
}

/// A command line that names no selector.
#[derive(Clone, Copy, Debug, PartialEq, Eq, Structural)]
pub enum UsageError {
    /// The argument at this place is none of the flags.
    UnknownArgument { at: usize },
    /// The flag is the last argument and has no value after it.
    MissingValue(Flag),
    /// The value after the flag is not one the flag takes.
    InvalidValue(Flag),
}

/// The flag that an argument writes, if it writes one.
pub open spec fn flag_of(arg: Seq<char>) -> Option<Flag> {
    if arg == "--year"@ || arg == "-y"@ {
        Some(Flag::Year)
    } else if arg == "--day"@ || arg == "-d"@ {
        Some(Flag::Day)
    } else if arg == "--part"@ || arg == "-p"@ {
        Some(Flag::Part)
    } else {
        None
    }
}

/// The selector with one more flag applied. Year and day take a decimal
/// `u32`, the part takes 1 or 2. A flag given again replaces the earlier
/// value.
pub open spec fn with_flag(selector: Selector, flag: Flag, value: Seq<char>) -> Result<
    Selector,
    UsageError,
> {
    match decimal_u32(value) {
        None => Err(UsageError::InvalidValue(flag)),
        Some(n) => match flag {
            Flag::Year => Ok(Selector { year: Some(n), ..selector }),
            Flag::Day => Ok(Selector { day: Some(n), ..selector }),
            Flag::Part => match Part::of_number(n) {
                Some(p) => Ok(Selector { part: Some(p), ..selector }),
                None => Err(UsageError::InvalidValue(flag)),
            },
        },
    }
}

/// The selector that the arguments from place `from` on make of
/// `selector`, read in pairs of a flag and its value, or the first fault.
pub open spec fn selected(args: Seq<String>, from: int, selector: Selector) -> Result<
    Selector,
    UsageError,
>
    decreases args.len() - from,
{
    if from < 0 || from >= args.len() {
        Ok(selector)
    } else {
        match flag_of(args[from]@) {
            None => Err(UsageError::UnknownArgument { at: from as usize }),
            Some(flag) => if from + 1 >= args.len() {
                Err(UsageError::MissingValue(flag))
            } else {
                match with_flag(selector, flag, args[from + 1]@) {
                    Err(e) => Err(e),
                    Ok(next) => selected(args, from + 2, next),
                }
            },
        }
    }
}

/// Reads an argument as a flag.
pub fn read_flag(arg: &str) -> (r: Option<Flag>)
    ensures
        r == flag_of(arg@),
{
    if same_text(arg, "--year") || same_text(arg, "-y") {
        Some(Flag::Year)
    } else if same_text(arg, "--day") || same_text(arg, "-d") {
        Some(Flag::Day)
    } else if same_text(arg, "--part") || same_text(arg, "-p") {
        Some(Flag::Part)
    } else {
        None
    }
}

impl Selector {
    /// Applies one flag with its value.
    pub fn apply(self, flag: Flag, value: &str) -> (r: Result<Selector, UsageError>)
        ensures
            r == with_flag(self, flag, value@),
    {
        let n = match parse_u32(value) {
            Some(n) => n,
            None => { return Err(UsageError::InvalidValue(flag)); },
        };
        match flag {
            Flag::Year => Ok(Selector { year: Some(n), day: self.day, part: self.part }),
            Flag::Day => Ok(Selector { year: self.year, day: Some(n), part: self.part }),
            Flag::Part => match Part::from_number(n) {
                Ok(p) => Ok(Selector { year: self.year, day: self.day, part: Some(p) }),
                Err(_) => Err(UsageError::InvalidValue(flag)),
            },
        }
    }

    /// Reads the selector that the arguments of a command line name. What
    /// no flag sets is left to the defaults.
    pub fn from_args(args: &Vec<String>) -> (r: Result<Selector, UsageError>)
        ensures
            r == selected(args@, 0, Selector { year: None, day: None, part: None }),
    {
        let mut selector = Selector::any();
        let mut i: usize = 0;
        while i < args.len()
            invariant
                i <= args.len(),
                selected(args@, 0, Selector { year: None, day: None, part: None }) == selected(
                    args@,
                    i as int,
                    selector,
                ),
            decreases args.len() - i,
        {
            let flag = match read_flag(args[i].as_str()) {
                Some(flag) => flag,
                None => { return Err(UsageError::UnknownArgument { at: i }); },
            };
            if i + 1 >= args.len() {
                return Err(UsageError::MissingValue(flag));
            }
            selector = match selector.apply(flag, args[i + 1].as_str()) {
                Ok(next) => next,
                Err(e) => { return Err(e); },
            };
            i = i + 2;
        }
        Ok(selector)
    }
}

} // verus!
