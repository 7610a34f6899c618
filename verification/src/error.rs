//! The two error families of the interpreter: syntax errors from the operator
//! resolver and runtime errors from the stack machine.

use vstd::prelude::*;

use crate::value::Val;
use crate::value::Value;

verus! {

/// A token that resolved to no operator and no literal form; carries the
/// offending token text.
#[derive(Debug, PartialEq, Eq)]
pub struct SyntaxError(pub Vec<char>);

/// An error raised while executing operators against a stack.
#[derive(Debug, PartialEq, Eq)]
pub enum RuntimeError {
    /// An operator needed more operands than the stack held.
    StackEmpty,
    /// A failure of the input stream.  The engine reads from an in-memory
    /// buffer, which cannot fail, so the engine itself never produces this.
    Io,
    /// Operand values plus the operator name, for type or shape mismatches.
    InvalidOperation(Vec<Value>, &'static str),
    /// The value plus the target type name, for failed coercions.
    InvalidCast(Value, &'static str),
    /// An attempted index or offset plus the collection size.
    OutOfBounds(usize, i64),
    /// A fold was attempted on an empty array.
    FoldingEmptyArray,
    /// Block applications were nested deeper than the engine's depth budget;
    /// a run that needs such nesting cannot be completed.
    NestingTooDeep,
}

/// The first error a run stops at: either a token that resolved to nothing or
/// a runtime failure.
#[derive(Debug, PartialEq, Eq)]
pub enum Error {
    Syntax(SyntaxError),
    Runtime(RuntimeError),
}

/// The mathematical model of a runtime error.
#[verifier::ext_equal]
pub ghost enum ErrVal {
    StackEmpty,
    Io,
    InvalidOperation(Seq<Val>, Seq<char>),
    InvalidCast(Val, Seq<char>),
    OutOfBounds(int, int),
    FoldingEmptyArray,
    NestingTooDeep,
}

/// The mathematical model of an error.
#[verifier::ext_equal]
pub ghost enum ErrorVal {
    Syntax(Seq<char>),
    Runtime(ErrVal),
}

impl View for SyntaxError {
    type V = Seq<char>;

    open spec fn view(&self) -> Seq<char> {
        self.0@
    }
}

impl View for RuntimeError {
    type V = ErrVal;

    open spec fn view(&self) -> ErrVal {
        match self {
            RuntimeError::StackEmpty => ErrVal::StackEmpty,
            RuntimeError::Io => ErrVal::Io,
            RuntimeError::InvalidOperation(vs, name) => ErrVal::InvalidOperation(
                crate::value::vals_of(vs@),
                name@,
            ),
            RuntimeError::InvalidCast(v, name) => ErrVal::InvalidCast(v@, name@),
            RuntimeError::OutOfBounds(len, at) => ErrVal::OutOfBounds(*len as int, *at as int),
            RuntimeError::FoldingEmptyArray => ErrVal::FoldingEmptyArray,
            RuntimeError::NestingTooDeep => ErrVal::NestingTooDeep,
        }
    }
}

impl View for Error {
    type V = ErrorVal;

    open spec fn view(&self) -> ErrorVal {
        match self {
            Error::Syntax(e) => ErrorVal::Syntax(e@),
            Error::Runtime(e) => ErrorVal::Runtime(e@),
        }
    }
}

/// The model of a value result.
pub open spec fn res_model(r: Result<Value, RuntimeError>) -> Result<Val, ErrVal> {
    match r {
        Ok(v) => Ok(v@),
        Err(e) => Err(e@),
    }
}

} // verus!
