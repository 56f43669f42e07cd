use crate::value::{CelType, Val};
use vstd::prelude::*;

verus! {

/// Why an evaluation failed.
#[derive(Debug, PartialEq)]
pub enum ExecutionError {
    /// An identifier or a field that is not there.
    NoSuchKey(String),
    /// A built-in was given the wrong number of arguments.
    InvalidArgumentCount { expected: usize, actual: usize },
    /// A free function was called with a receiver.
    NotSupportedAsMethod { name: String, target: CelType },
    /// A method was called without a receiver.
    MissingArgumentOrTarget,
    /// A built-in rejected its input; `message` says why.
    FunctionError { function: String, message: String },
    /// A value whose variant cannot be a map key was used as one.
    UnsupportedKeyType(CelType),
}

/// Mathematical model of an error: its kind and what it names. The message of
/// a `FunctionError` is for people and is not part of the model.
pub enum ErrVal {
    NoSuchKey(Seq<char>),
    InvalidArgumentCount(nat, nat),
    NotSupportedAsMethod(Seq<char>, Val),
    MissingArgumentOrTarget,
    FunctionError(Seq<char>),
    UnsupportedKeyType(Val),
}

impl ExecutionError {
    pub open spec fn view(&self) -> ErrVal {
        match self {
            ExecutionError::NoSuchKey(k) => ErrVal::NoSuchKey(k@),
            ExecutionError::InvalidArgumentCount { expected, actual } => ErrVal::InvalidArgumentCount(
                *expected as nat,
                *actual as nat,
            ),
            ExecutionError::NotSupportedAsMethod { name, target } => ErrVal::NotSupportedAsMethod(
                name@,
                target.view(),
            ),
            ExecutionError::MissingArgumentOrTarget => ErrVal::MissingArgumentOrTarget,
            ExecutionError::FunctionError { function, .. } => ErrVal::FunctionError(function@),
            ExecutionError::UnsupportedKeyType(v) => ErrVal::UnsupportedKeyType(v.view()),
        }
    }

    pub fn no_such_key(key: &str) -> (r: ExecutionError)
        ensures
            r.view() == ErrVal::NoSuchKey(key@),
    {
        ExecutionError::NoSuchKey(key.to_owned())
    }

    pub fn invalid_argument_count(expected: usize, actual: usize) -> (r: ExecutionError)
        ensures
            r.view() == ErrVal::InvalidArgumentCount(expected as nat, actual as nat),
    {
        ExecutionError::InvalidArgumentCount { expected, actual }
    }

    pub fn not_supported_as_method(name: &str, target: CelType) -> (r: ExecutionError)
        ensures
            r.view() == ErrVal::NotSupportedAsMethod(name@, target.view()),
    {
        ExecutionError::NotSupportedAsMethod { name: name.to_owned(), target }
    }

    pub fn missing_argument_or_target() -> (r: ExecutionError)
        ensures
            r.view() == ErrVal::MissingArgumentOrTarget,
    {
        ExecutionError::MissingArgumentOrTarget
    }

    pub fn function_error(function: &str, message: &str) -> (r: ExecutionError)
        ensures
            r.view() == ErrVal::FunctionError(function@),
    {
        ExecutionError::FunctionError { function: function.to_owned(), message: message.to_owned() }
    }
}

} // verus!
