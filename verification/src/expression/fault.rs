//! Failures of scalar expressions.

use vstd::prelude::*;

verus! {

/// A failure of parsing or evaluating an expression.
#[derive(Debug)]
pub enum ExpressionError {
    /// No column of that name is bound.
    UnknownColumn(String),
    /// The expression is nested too deeply.
    ExpressionTooDeep { limit: usize },
    /// An integer result is out of range.
    Overflow { operation: String },
    /// A value has the wrong type.
    Type { operation: String, expected: String, actual: String },
    /// A divisor is zero.
    DivideByZero,
    /// A value cannot be cast.
    Cast { message: String },
    /// A function is unknown, or its arguments are wrong.
    InvalidArgument { function: String, message: String },
    /// The text is no expression.
    Parse { message: String, position: usize },
}

/// The content of a failure.
pub enum ExpressionFault {
    UnknownColumn(Seq<char>),
    ExpressionTooDeep { limit: usize },
    Overflow { operation: Seq<char> },
    Type { operation: Seq<char>, expected: Seq<char>, actual: Seq<char> },
    DivideByZero,
    Cast { message: Seq<char> },
    InvalidArgument { function: Seq<char>, message: Seq<char> },
    Parse { message: Seq<char>, position: usize },
}

impl View for ExpressionError {
    type V = ExpressionFault;

    open spec fn view(&self) -> ExpressionFault {
        match *self {
            ExpressionError::UnknownColumn(name) => ExpressionFault::UnknownColumn(name@),
            ExpressionError::ExpressionTooDeep { limit } => ExpressionFault::ExpressionTooDeep {
                limit,
            },
            ExpressionError::Overflow { operation } => ExpressionFault::Overflow {
                operation: operation@,
            },
            ExpressionError::Type { operation, expected, actual } => ExpressionFault::Type {
                operation: operation@,
                expected: expected@,
                actual: actual@,
            },
            ExpressionError::DivideByZero => ExpressionFault::DivideByZero,
            ExpressionError::Cast { message } => ExpressionFault::Cast { message: message@ },
            ExpressionError::InvalidArgument { function, message } => {
                ExpressionFault::InvalidArgument { function: function@, message: message@ }
            },
            ExpressionError::Parse { message, position } => ExpressionFault::Parse {
                message: message@,
                position,
            },
        }
    }
}

pub(crate) fn parse_error(message: &str, position: usize) -> (e: ExpressionError)
    ensures
        e@ == (ExpressionFault::Parse { message: message@, position }),
{
    ExpressionError::Parse { message: message.to_owned(), position }
}

} // verus!
