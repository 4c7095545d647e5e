//! The errors that the operations of this crate report.
use crate::object::tagged::{Symbol, Tag};
use vstd::prelude::*;

verus! {

/// What an operation wanted to find in a value.
#[derive(Clone, Copy, Debug, PartialEq, Eq, Structural)]
pub enum Type {
    Int,
    Float,
    Symbol,
    String,
    Cons,
    Vec,
    /// A byte-compiled function, a subroutine, or a symbol that names one.
    Func,
    /// `nil` or a cons cell.
    List,
    /// An integer or a float.
    Number,
    /// An integer that is not negative.
    Natural,
}

/// A value did not have the expected variant.
#[derive(Clone, Copy, Debug, PartialEq, Eq, Structural)]
pub struct TypeError {
    pub expected: Type,
    pub found: Tag,
}

/// Wrong number of arguments in a call of the function `name`.
#[derive(Debug)]
pub struct ArgError {
    /// The number of arguments the callee would have taken.
    pub expected: usize,
    /// The number of arguments it was given.
    pub actual: usize,
    /// The callee.
    pub name: String,
}

/// Every way in which an operation of this crate can fail.
#[derive(Debug)]
pub enum Error {
    /// A value did not match the expected variant.
    Type(TypeError),
    /// Wrong arity in a function call.
    Arg(ArgError),
    /// An index past the end of a vector or string.
    OutOfBounds { idx: usize, len: usize },
    /// The symbol has no value.
    VoidVariable { sym: Symbol },
    /// The symbol has no function.
    VoidFunction { sym: Symbol },
    /// A vector was written while a reader held it.
    Borrowed,
    /// A list that had to end turned out to be circular.
    Circular,
    /// Anything else that a built-in reports.
    Misc { message: String },
}

/// The mathematical content of an [`Error`]: text as sequences of
/// characters, counts as integers.
#[allow(inconsistent_fields)]
pub enum ErrorView {
    Type { expected: Type, found: Tag },
    Arg { expected: int, actual: int, name: Seq<char> },
    OutOfBounds { idx: int, len: int },
    VoidVariable { sym: Symbol },
    VoidFunction { sym: Symbol },
    Borrowed,
    Circular,
    Misc { message: Seq<char> },
}

impl View for Error {
    type V = ErrorView;

    open spec fn view(&self) -> ErrorView {
        match *self {
            Error::Type(e) => ErrorView::Type { expected: e.expected, found: e.found },
            Error::Arg(e) => ErrorView::Arg {
                expected: e.expected as int,
                actual: e.actual as int,
                name: e.name@,
            },
            Error::OutOfBounds { idx, len } => ErrorView::OutOfBounds {
                idx: idx as int,
                len: len as int,
            },
            Error::VoidVariable { sym } => ErrorView::VoidVariable { sym },
            Error::VoidFunction { sym } => ErrorView::VoidFunction { sym },
            Error::Borrowed => ErrorView::Borrowed,
            Error::Circular => ErrorView::Circular,
            Error::Misc { message } => ErrorView::Misc { message: message@ },
        }
    }
}

/// The failure of an operation that hands back nothing, if it failed.
pub open spec fn failure(r: Result<(), Error>) -> Option<ErrorView> {
    match r {
        Ok(_) => None,
        Err(e) => Some(e@),
    }
}

impl Error {
    /// The error for a value of variant `found` where `expected` was needed.
    pub fn type_error(expected: Type, found: Tag) -> (e: Error)
        ensures
            e@ == (ErrorView::Type { expected, found }),
    {
        Error::Type(TypeError { expected, found })
    }
}

} // verus!
