//! What a module definition declares, as plain values: the assignments of
//! its identity, the names of its types, the arguments of a solver. The
//! functions here decide what such a declaration means, or why it is
//! refused.

use vstd::prelude::*;
use crate::error::{BuildError, Field};
use crate::identity::DayData;
use crate::part::Part;
use crate::text::{decimal_u32, parse_u32, same_text};

verus! {

/// A literal as it stands in a declaration.
#[derive(Debug, PartialEq, Eq)]
pub enum Literal {
    /// A string literal, by the text it denotes.
    Str(String),
    /// An integer literal, by its digits in base ten.
    Int(String),
    /// Any other literal.
    Other,
}

/// The right-hand side of an assignment.
#[derive(Debug, PartialEq, Eq)]
pub enum Value {
    Lit(Literal),
    /// An expression that is no literal.
    Other,
}

/// One segment of a path: its name, and whether generic or parenthesised
/// arguments follow the name.
#[derive(Debug, PartialEq, Eq)]
pub struct Segment {
    pub ident: String,
    pub arguments: bool,
}

/// What a declaration assigns to.
#[derive(Debug, PartialEq, Eq)]
pub enum Target {
    /// A path, with or without a leading `::`.
    Path { leading_colon: bool, segments: Vec<Segment> },
    /// Anything that is no path.
    Other,
}

/// One `target = value` of an identity declaration.
#[derive(Debug, PartialEq, Eq)]
pub struct Assignment {
    pub target: Target,
    pub value: Value,
}

/// One argument of a solver declaration.
#[derive(Debug, PartialEq, Eq)]
pub enum Argument {
    /// `name = literal`
    NameValue { name: Target, value: Literal },
    /// Any other argument.
    Other,
}

impl Target {
    /// Whether the target is a path of the one segment `name`.
    pub open spec fn names(&self, name: Seq<char>) -> bool {
        match self {
            Target::Path { leading_colon, segments } => segments@.len() == 1 && segments@[0].ident@
                == name,
            Target::Other => false,
        }
    }

    /// Whether the target is the bare name `name`: a path of that one
    /// segment, with no leading `::` and no arguments.
    pub open spec fn is_bare(&self, name: Seq<char>) -> bool {
        match self {
            Target::Path { leading_colon, segments } => !*leading_colon && segments@.len() == 1
                && !segments@[0].arguments && segments@[0].ident@ == name,
            Target::Other => false,
        }
    }

    /// The target that is the bare name `ident`.
    #[must_use]
    pub fn bare(ident: String) -> (r: Target)
        ensures
            r matches Target::Path { leading_colon, segments } && !leading_colon && segments@
                == seq![Segment { ident, arguments: false }],
    {
        let mut segments = Vec::new();
        segments.push(Segment { ident, arguments: false });
        Target::Path { leading_colon: false, segments }
    }

    pub fn is_name(&self, name: &str) -> (r: bool)
        ensures
            r == self.names(name@),
    {
        match self {
            Target::Path { leading_colon, segments } => segments.len() == 1 && same_text(
                segments[0].ident.as_str(),
                name,
            ),
            Target::Other => false,
        }
    }

    pub fn is_bare_name(&self, name: &str) -> (r: bool)
        ensures
            r == self.is_bare(name@),
    {
        match self {
            Target::Path { leading_colon, segments } => !*leading_colon && segments.len() == 1
                && !segments[0].arguments && same_text(segments[0].ident.as_str(), name),
            Target::Other => false,
        }
    }
}

impl Argument {
    /// Whether the argument assigns a literal to the bare name `name`.
    pub open spec fn names(&self, name: Seq<char>) -> bool {
        match self {
            Argument::NameValue { name: n, value } => n.is_bare(name),
            Argument::Other => false,
        }
    }
}

/// The number that a literal writes, if it writes one.
pub open spec fn literal_number(l: Literal) -> Option<u32> {
    match l {
        Literal::Str(s) => decimal_u32(s@),
        Literal::Int(s) => decimal_u32(s@),
        Literal::Other => None,
    }
}

/// The number of a declared literal, or the refusal it earns.
pub open spec fn literal_outcome(l: Literal, field: Field) -> Result<u32, BuildError> {
    match literal_number(l) {
        Some(n) => Ok(n),
        None => Err(BuildError::NotANumber(field)),
    }
}

/// The number of a declared value, or the refusal it earns.
pub open spec fn value_outcome(v: Value, field: Field) -> Result<u32, BuildError> {
    match v {
        Value::Lit(l) => literal_outcome(l, field),
        Value::Other => Err(BuildError::NotALiteral(field)),
    }
}

/// Reads the number of a string or integer literal.
pub fn parse_lit_num(l: &Literal, field: Field) -> (r: Result<u32, BuildError>)
    ensures
        r == literal_outcome(*l, field),
{
    let parsed = match l {
        Literal::Str(s) => parse_u32(s.as_str()),
        Literal::Int(s) => parse_u32(s.as_str()),
        Literal::Other => None,
    };
    match parsed {
        Some(n) => Ok(n),
        None => Err(BuildError::NotANumber(field)),
    }
}

/// Reads the number of a value, which must be a literal.
pub fn parse_expr_num(v: &Value, field: Field) -> (r: Result<u32, BuildError>)
    ensures
        r == value_outcome(*v, field),
{
    match v {
        Value::Lit(l) => parse_lit_num(l, field),
        Value::Other => Err(BuildError::NotALiteral(field)),
    }
}

/// Whether `i` is the first assignment to a path of the one segment
/// `name`.
pub open spec fn is_first_param(params: Seq<Assignment>, name: Seq<char>, i: int) -> bool {
    &&& 0 <= i < params.len()
    &&& params[i].target.names(name)
    &&& forall|j: int| 0 <= j < i ==> !(#[trigger] params[j]).target.names(name)
}

/// The value first assigned to `name`, if any is.
pub open spec fn param_value(params: Seq<Assignment>, name: Seq<char>) -> Option<Value> {
    if exists|i: int| is_first_param(params, name, i) {
        Some(params[choose|i: int| is_first_param(params, name, i)].value)
    } else {
        None
    }
}

/// Finds the value first assigned to `name`.
pub fn lookup_param<'a>(params: &'a Vec<Assignment>, name: &str) -> (r: Option<&'a Value>)
    ensures
        match r {
            Some(v) => param_value(params@, name@) == Some(*v),
            None => param_value(params@, name@) is None,
        },
{
    let mut i: usize = 0;
    while i < params.len()
        invariant
            i <= params.len(),
            forall|j: int| 0 <= j < i ==> !(#[trigger] params@[j]).target.names(name@),
        decreases params.len() - i,
    {
        if params[i].target.is_name(name) {
            proof {
                assert(is_first_param(params@, name@, i as int));
                let k = choose|k: int| is_first_param(params@, name@, k);
                assert(k == i) by {
                    if k < i {
                        assert(!params@[k].target.names(name@));
                    } else if i < k {
                        assert(!params@[i as int].target.names(name@));
                    }
                }
            }
            return Some(&params[i].value);
        }
        i = i + 1;
    }
    None
}

/// What an identity declaration comes to: its year and day, or the first
/// fault in this order: no year, no day, a bad year, a bad day.
pub open spec fn declared_identity(params: Seq<Assignment>) -> Result<(u32, u32), BuildError> {
    match (param_value(params, "year"@), param_value(params, "day"@)) {
        (None, _) => Err(BuildError::MissingYear),
        (Some(_), None) => Err(BuildError::MissingDay),
        (Some(y), Some(d)) => match (value_outcome(y, Field::Year), value_outcome(d, Field::Day)) {
            (Err(e), _) => Err(e),
            (Ok(_), Err(e)) => Err(e),
            (Ok(yn), Ok(dn)) => Ok((yn, dn)),
        },
    }
}

/// Builds the identity that the assignments `year = ..` and `day = ..`
/// declare.
pub fn declare_identity(params: &Vec<Assignment>) -> (r: Result<DayData, BuildError>)
    ensures
        match r {
            Ok(id) => declared_identity(params@) == Ok::<(u32, u32), BuildError>(
                (id.spec_year(), id.spec_day()),
            ),
            Err(e) => declared_identity(params@) == Err::<(u32, u32), BuildError>(e),
        },
{
    let year = match lookup_param(params, "year") {
        Some(v) => v,
        None => { return Err(BuildError::MissingYear); },
    };
    let day = match lookup_param(params, "day") {
        Some(v) => v,
        None => { return Err(BuildError::MissingDay); },
    };
    let y = match parse_expr_num(year, Field::Year) {
        Ok(n) => n,
        Err(e) => { return Err(e); },
    };
    let d = match parse_expr_num(day, Field::Day) {
        Ok(n) => n,
        Err(e) => { return Err(e); },
    };
    Ok(DayData::new(y, d))
}

/// Whether `i` is the first argument that assigns to the bare name `name`.
pub open spec fn is_first_argument(args: Seq<Argument>, name: Seq<char>, i: int) -> bool {
    &&& 0 <= i < args.len()
    &&& args[i].names(name)
    &&& forall|j: int| 0 <= j < i ==> !(#[trigger] args[j]).names(name)
}

/// The literal first assigned to `name` among the arguments, if any is.
pub open spec fn argument_value(args: Seq<Argument>, name: Seq<char>) -> Option<Literal> {
    if exists|i: int| is_first_argument(args, name, i) {
        Some(args[choose|i: int| is_first_argument(args, name, i)]->value)
    } else {
        None
    }
}

/// Finds the literal first assigned to `name` among the arguments.
pub fn lookup_argument<'a>(args: &'a Vec<Argument>, name: &str) -> (r: Option<&'a Literal>)
    ensures
        match r {
            Some(l) => argument_value(args@, name@) == Some(*l),
            None => argument_value(args@, name@) is None,
        },
{
    let mut i: usize = 0;
    while i < args.len()
        invariant
            i <= args.len(),
            forall|j: int| 0 <= j < i ==> !(#[trigger] args@[j]).names(name@),
        decreases args.len() - i,
    {
        match &args[i] {
            Argument::NameValue { name: n, value } => {
                if n.is_bare_name(name) {
                    proof {
                        assert(is_first_argument(args@, name@, i as int));
                        let k = choose|k: int| is_first_argument(args@, name@, k);
                        assert(k == i) by {
                            if k < i {
                                assert(!args@[k].names(name@));
                            } else if i < k {
                                assert(!args@[i as int].names(name@));
                            }
                        }
                    }
                    return Some(value);
                }
            },
            Argument::Other => {},
        }
        i = i + 1;
    }
    None
}

/// The part that a solver declaration names, or the first fault: no
/// `part = ..`, a literal that is no number, a number other than 1 and 2.
pub open spec fn declared_part(args: Seq<Argument>) -> Result<Part, BuildError> {
    match argument_value(args, "part"@) {
        None => Err(BuildError::MissingPart),
        Some(l) => match literal_outcome(l, Field::Part) {
            Err(e) => Err(e),
            Ok(n) => match Part::of_number(n) {
                Some(p) => Ok(p),
                None => Err(BuildError::InvalidPart(n)),
            },
        },
    }
}

/// Decides which part a solver is declared for.
pub fn solver_part(args: &Vec<Argument>) -> (r: Result<Part, BuildError>)
    ensures
        r == declared_part(args@),
{
    let lit = match lookup_argument(args, "part") {
        Some(l) => l,
        None => { return Err(BuildError::MissingPart); },
    };
    match parse_lit_num(lit, Field::Part) {
        Ok(n) => Part::from_number(n),
        Err(e) => Err(e),
    }
}

} // verus!
