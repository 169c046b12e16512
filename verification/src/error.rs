//! The fault taxonomy of the evaluation core. Every fault aborts the whole
//! run: the evaluator and executor propagate it to the driver, which alone
//! decides how to present it.

use vstd::prelude::*;

verus! {

/// A runtime fault of the interpreter.
#[derive(Debug)]
pub enum TungError {
    /// An identifier was looked up but is bound nowhere visible.
    VariableNotFound(String),
    /// A declaration re-used a name that is already bound.
    VariableAlreadyDeclared(String),
    /// An assignment targeted a name that was never declared.
    UndeclaredAssignment(String),
    /// The operator is not defined for the operand types; carries the
    /// operator and the two type names.
    UnsupportedOperation(String, String, String),
    /// Division, floor-division or remainder by zero.
    DivisionByZero,
    /// A call to a function name absent from the builtin registry.
    UnknownFunction(String),
    /// A parse-tree node of an unexpected kind reached the evaluator.
    InvalidExpression(String),
    /// A parse-tree node of an unexpected kind reached the executor.
    InvalidStatement(String),
    /// The executor's loop-iteration budget was exhausted.
    IterationLimit,
}

/// The mathematical abstraction of a [`TungError`].
pub enum ErrorModel {
    VariableNotFound(Seq<char>),
    VariableAlreadyDeclared(Seq<char>),
    UndeclaredAssignment(Seq<char>),
    UnsupportedOperation(Seq<char>, Seq<char>, Seq<char>),
    DivisionByZero,
    UnknownFunction(Seq<char>),
    InvalidExpression(Seq<char>),
    InvalidStatement(Seq<char>),
    IterationLimit,
}

impl TungError {
    /// The abstraction of this fault.
    pub open spec fn model(self) -> ErrorModel {
        match self {
            TungError::VariableNotFound(s) => ErrorModel::VariableNotFound(s@),
            TungError::VariableAlreadyDeclared(s) => ErrorModel::VariableAlreadyDeclared(s@),
            TungError::UndeclaredAssignment(s) => ErrorModel::UndeclaredAssignment(s@),
            TungError::UnsupportedOperation(op, l, r) =>
                ErrorModel::UnsupportedOperation(op@, l@, r@),
            TungError::DivisionByZero => ErrorModel::DivisionByZero,
            TungError::UnknownFunction(s) => ErrorModel::UnknownFunction(s@),
            TungError::InvalidExpression(s) => ErrorModel::InvalidExpression(s@),
            TungError::InvalidStatement(s) => ErrorModel::InvalidStatement(s@),
            TungError::IterationLimit => ErrorModel::IterationLimit,
        }
    }
}

} // verus!
