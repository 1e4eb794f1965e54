//! Error kinds reported by the evaluator.

use vstd::prelude::*;

verus! {

/// An evaluation error. The message strings are informational only; the
/// abstract form (`ErrV`) keeps the kind, and the missing name for
/// `VariableNotFound`.
#[derive(Debug)]
pub enum LispError {
    /// Operand type mismatch, applying a non-callable value, or unquoting a
    /// value that is not a quote.
    TypeError(String),
    /// Arity violation, malformed special-form shape, empty application
    /// head, or empty `do` block.
    SyntaxError(String),
    /// The scope stack invariant was violated; unreachable under correct
    /// frame discipline.
    StackEmpty,
    /// An identifier was not bound in any live scope frame.
    VariableNotFound(String),
    /// Catch-all runtime failure: division or modulo by zero, arithmetic
    /// overflow, or the evaluation-depth limit.
    Runtime(String),
}

/// Abstract form of an error: the kind alone, plus the name that was not
/// found.
pub enum ErrV {
    TypeError,
    SyntaxError,
    StackEmpty,
    VariableNotFound(Seq<char>),
    Runtime,
}

impl View for LispError {
    type V = ErrV;

    open spec fn view(&self) -> ErrV {
        match self {
            LispError::TypeError(_) => ErrV::TypeError,
            LispError::SyntaxError(_) => ErrV::SyntaxError,
            LispError::StackEmpty => ErrV::StackEmpty,
            LispError::VariableNotFound(s) => ErrV::VariableNotFound(s@),
            LispError::Runtime(_) => ErrV::Runtime,
        }
    }
}

} // verus!
