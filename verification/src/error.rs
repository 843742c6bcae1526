//! What can go wrong, and the classes the failures fall into.

use crate::numerics::{Query, QueryModel};
use vstd::prelude::*;

verus! {

/// The classes of failure.
#[derive(Clone, Copy, Debug, PartialEq, Eq, Structural)]
pub enum ErrorKind {
    /// The tokens of a line or of a closure do not form what was expected.
    ParseError,
    /// An operator, a modifier or a table name is not known.
    UnknownIdentifier,
    /// A row, a column or a register lies beyond what exists.
    OutOfRange,
    /// An operand is of a type that the operator does not take, or a divisor
    /// is zero.
    TypeCoercionError,
    /// An operator of a postfix expression found fewer than two values.
    StackUnderflow,
    /// A postfix expression left more than one value.
    TooManyValues,
    /// A script names the accumulator, and the prescript bound none.
    MissingAccumulator,
    /// A script names a register beyond those that the prescript allocated.
    MissingRegisterRange,
    /// A closure of that name was never defined.
    UndefinedClosure,
}

/// The failures, one by one.
#[derive(Clone, Copy, Debug, PartialEq, Eq, Structural)]
pub enum Fault {
    /// A text was an operand of `*`, `/` or `%`.
    TextOperand,
    /// An empty cell was an operand of `%`.
    EmptyOperand,
    /// The right operand of `/` or `%` was zero or `false`.
    DivisionByZero,
    /// A row index lies beyond the rows of the table.
    RowOutOfBounds,
    /// A column index lies beyond the columns of the table.
    ColumnOutOfBounds,
    /// `~cell(` was not closed, held no comma, or its indices were no numbers.
    BadCellReference,
    /// An operator found fewer than two values on the stack.
    NotEnoughOperands,
    /// The expression left more than one value on the stack.
    TooManyValues,
    /// The range of an application does not lie within the table.
    RangeOutOfBounds,
    /// A command of a script names no place to keep its value.
    StorageNotSpecified,
    /// The place that a command names is neither `acc` nor `reg`.
    InvalidStorage,
    /// A command names the accumulator, and none was bound.
    AccumulatorNotDefined,
    /// `reg` is not followed by a number.
    RegisterNotSpecified,
    /// A command names a register that was not allocated.
    RegisterOutOfRange,
    /// A command is not followed by an expression.
    NoExpression,
    /// A script starts with a word that is no command.
    InvalidCommand,
    /// The accumulator's address is no pair of expressions that give numbers.
    BadAccumulator,
    /// A definition of a closure has fewer than three parts.
    BadDefinition,
    /// A line is too long for its columns to be counted.
    LineTooLong,
    /// A line holds a table's name and nothing else.
    NoOperator,
    /// The operator is not known.
    UnknownOperator,
    /// No table of that name exists.
    UnknownTable,
    /// `with` or `and` is not followed by a modifier.
    NoModifier,
    /// The modifier is not known.
    UnknownModifier,
    /// A modifier is not followed by a quoted literal.
    NoData,
    /// What stands where a quoted literal should does not start with a quote.
    LiteralExpected,
    /// `apply` is not followed by a closure's name.
    NoClosureName,
    /// No closure of that name was defined.
    UnknownClosure,
    /// `apply` lacks the row of a cell.
    NoRowIndex,
    /// `apply` lacks the column of a cell.
    NoColumnIndex,
    /// A coordinate of `apply` is no index.
    BadIndex,
}

impl Fault {
    /// The class that each failure falls into.
    pub open spec fn class(self) -> ErrorKind {
        match self {
            Fault::TextOperand | Fault::EmptyOperand | Fault::DivisionByZero => {
                ErrorKind::TypeCoercionError
            },
            Fault::RowOutOfBounds | Fault::ColumnOutOfBounds | Fault::RangeOutOfBounds => {
                ErrorKind::OutOfRange
            },
            Fault::NotEnoughOperands => ErrorKind::StackUnderflow,
            Fault::TooManyValues => ErrorKind::TooManyValues,
            Fault::AccumulatorNotDefined => ErrorKind::MissingAccumulator,
            Fault::RegisterOutOfRange => ErrorKind::MissingRegisterRange,
            Fault::UnknownClosure => ErrorKind::UndefinedClosure,
            Fault::UnknownOperator | Fault::UnknownTable | Fault::UnknownModifier => {
                ErrorKind::UnknownIdentifier
            },
            _ => ErrorKind::ParseError,
        }
    }

    /// The class that the failure falls into.
    pub fn kind(&self) -> (k: ErrorKind)
        ensures
            k == self.class(),
    {
        match self {
            Fault::TextOperand | Fault::EmptyOperand | Fault::DivisionByZero => {
                ErrorKind::TypeCoercionError
            },
            Fault::RowOutOfBounds | Fault::ColumnOutOfBounds | Fault::RangeOutOfBounds => {
                ErrorKind::OutOfRange
            },
            Fault::NotEnoughOperands => ErrorKind::StackUnderflow,
            Fault::TooManyValues => ErrorKind::TooManyValues,
            Fault::AccumulatorNotDefined => ErrorKind::MissingAccumulator,
            Fault::RegisterOutOfRange => ErrorKind::MissingRegisterRange,
            Fault::UnknownClosure => ErrorKind::UndefinedClosure,
            Fault::UnknownOperator | Fault::UnknownTable | Fault::UnknownModifier => {
                ErrorKind::UnknownIdentifier
            },
            _ => ErrorKind::ParseError,
        }
    }
}

/// Why an operation stopped before its end.
#[derive(Debug, PartialEq)]
pub enum Stop {
    /// It needs the answer to a question on numbers, and changed nothing.
    Ask(Query),
    /// It failed.
    Fail(Fault),
}

/// Why an operation stopped, as a model.
pub enum StopModel {
    Ask(QueryModel),
    Fail(Fault),
}

impl View for Stop {
    type V = StopModel;

    open spec fn view(&self) -> StopModel {
        match self {
            Stop::Ask(q) => StopModel::Ask(q@),
            Stop::Fail(f) => StopModel::Fail(*f),
        }
    }
}

/// An operation that stops with a question stops with `Ask`.
pub open spec fn asking<T>(r: Result<T, QueryModel>) -> Result<T, StopModel> {
    match r {
        Ok(v) => Ok(v),
        Err(q) => Err(StopModel::Ask(q)),
    }
}

/// An operation that stops with a question stops with `Ask`.
pub fn ask<T>(r: Result<T, Query>) -> (out: Result<T, Stop>)
    ensures
        match (r, out) {
            (Ok(a), Ok(b)) => a == b,
            (Err(q), Err(Stop::Ask(p))) => p == q,
            _ => false,
        },
{
    match r {
        Ok(v) => Ok(v),
        Err(q) => Err(Stop::Ask(q)),
    }
}

} // verus!
