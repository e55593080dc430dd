//! The types a module declares for its input and its two outputs, and the
//! rule that fills in the ones it leaves out.

use vstd::prelude::*;
use crate::error::BuildError;
use crate::text::same_text;

verus! {

/// One `type Name = ..;` of a module definition. What stands for the type
/// itself is up to the caller: nothing here looks inside it.
#[derive(Debug, PartialEq, Eq)]
pub struct TypeDecl<T> {
    pub name: String,
    pub ty: T,
}

/// A type of the table: one that the module declared, or the empty
/// "no output" type that stands in where it declared none.
#[derive(Debug, PartialEq, Eq)]
pub enum TypeChoice<'a, T> {
    Declared(&'a T),
    Unit,
}

/// The four types of a module, once the defaults are filled in.
#[derive(Debug, PartialEq, Eq)]
pub struct TypeTable<'a, T> {
    pub input: &'a T,
    pub output: TypeChoice<'a, T>,
    pub output1: TypeChoice<'a, T>,
    pub output2: TypeChoice<'a, T>,
}

impl<'a, T> Clone for TypeChoice<'a, T> {
    fn clone(&self) -> (r: Self)
        ensures
            r == *self,
    {
        match self {
            TypeChoice::Declared(t) => TypeChoice::Declared(*t),
            TypeChoice::Unit => TypeChoice::Unit,
        }
    }
}

/// Whether `i` is the first declaration of the name `name`.
pub open spec fn is_first_type<T>(decls: Seq<TypeDecl<T>>, name: Seq<char>, i: int) -> bool {
    &&& 0 <= i < decls.len()
    &&& decls[i].name@ == name
    &&& forall|j: int| 0 <= j < i ==> (#[trigger] decls[j]).name@ != name
}

/// The type first declared under `name`, if any is.
pub open spec fn type_named<T>(decls: Seq<TypeDecl<T>>, name: Seq<char>) -> Option<T> {
    if exists|i: int| is_first_type(decls, name, i) {
        Some(decls[choose|i: int| is_first_type(decls, name, i)].ty)
    } else {
        None
    }
}

/// The type declared under `name`, or `fallback` where none is.
pub open spec fn type_or<'a, T>(
    decls: Seq<TypeDecl<T>>,
    name: Seq<char>,
    fallback: TypeChoice<'a, T>,
) -> TypeChoice<'a, T> {
    match type_named(decls, name) {
        Some(t) => TypeChoice::Declared(&t),
        None => fallback,
    }
}

/// The table that a list of declarations comes to. `Input` must be
/// declared. `Output` falls back to the empty type, `Output1` and
/// `Output2` each fall back to `Output`.
pub open spec fn declared_types<'a, T>(decls: Seq<TypeDecl<T>>) -> Result<
    TypeTable<'a, T>,
    BuildError,
> {
    match type_named(decls, "Input"@) {
        None => Err(BuildError::MissingInput),
        Some(input) => {
            let output = type_or(decls, "Output"@, TypeChoice::Unit);
            Ok(
                TypeTable {
                    input: &input,
                    output,
                    output1: type_or(decls, "Output1"@, output),
                    output2: type_or(decls, "Output2"@, output),
                },
            )
        },
    }
}

/// Finds the type first declared under `name`.
pub fn lookup_type<'a, T>(decls: &'a Vec<TypeDecl<T>>, name: &str) -> (r: Option<&'a T>)
    ensures
        match r {
            Some(t) => type_named(decls@, name@) == Some(*t),
            None => type_named(decls@, name@) is None,
        },
{
    let mut i: usize = 0;
    while i < decls.len()
        invariant
            i <= decls.len(),
            forall|j: int| 0 <= j < i ==> (#[trigger] decls@[j]).name@ != name@,
        decreases decls.len() - i,
    {
        if same_text(decls[i].name.as_str(), name) {
            proof {
                assert(is_first_type(decls@, name@, i as int));
                let k = choose|k: int| is_first_type(decls@, name@, k);
                assert(k == i) by {
                    if k < i {
                        assert(decls@[k].name@ != name@);
                    } else if i < k {
                        assert(decls@[i as int].name@ != name@);
                    }
                }
            }
            return Some(&decls[i].ty);
        }
        i = i + 1;
    }
    None
}

/// Fills in the type table of a module from what it declares.
pub fn resolve_types<'a, T>(decls: &'a Vec<TypeDecl<T>>) -> (r: Result<TypeTable<'a, T>, BuildError>)
    ensures
        r == declared_types(decls@),
{
    let input = match lookup_type(decls, "Input") {
        Some(t) => t,
        None => { return Err(BuildError::MissingInput); },
    };
    let output = match lookup_type(decls, "Output") {
        Some(t) => TypeChoice::Declared(t),
        None => TypeChoice::Unit,
    };
    let output1 = match lookup_type(decls, "Output1") {
        Some(t) => TypeChoice::Declared(t),
        None => output.clone(),
    };
    let output2 = match lookup_type(decls, "Output2") {
        Some(t) => TypeChoice::Declared(t),
        None => output.clone(),
    };
    Ok(TypeTable { input, output, output1, output2 })
}

} // verus!
