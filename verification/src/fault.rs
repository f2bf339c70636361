//! How an evaluation can end without a value.
use crate::float::FloatQuery;
use vstd::prelude::*;

verus! {

/// The kinds of failure.
#[derive(Clone, Copy, PartialEq, Eq, Debug, Structural)]
pub enum ErrorKind {
    /// An identifier is bound neither locally nor globally.
    UnboundIdentifier,
    /// A reserved identifier was to be bound.
    ReservedIdentifier,
    /// `if`, `def`, `lambda` or `defmacro` with the wrong number or shape of
    /// sub-forms.
    MalformedSpecialForm,
    /// A parameter list that is no list of identifiers, or whose catch-all
    /// marker does not stand before the last parameter.
    MalformedParameterList,
    /// The arguments of a call do not match the parameters in number.
    ArityMismatch,
    /// An operand of a primitive has the wrong type.
    TypeMismatch,
    /// The head of a list is nothing that can be called.
    NotCallable,
    /// The text is no sequence of forms.
    ParseFailure,
    /// A file could not be read.
    IOFailure,
    /// An integer was divided by zero.
    DivisionByZero,
    /// The evaluation nests deeper than the context allows.
    DepthExceeded,
}

/// Why an evaluation gave no value: it failed, or it waits for a fact about
/// doubles.
#[derive(Clone, Copy, PartialEq, Eq, Debug, Structural)]
pub enum Fault {
    Error(ErrorKind),
    Pending(FloatQuery),
}

} // verus!
