use vstd::prelude::*;

verus! {

/// Failure taxonomy of the engine.
///
/// `LogicalError` marks a violated internal state-machine invariant: it is
/// fatal, never retried, and indicates a bug rather than bad input.
/// `Overflow` and `UnexpectedError` are data errors: malformed or overflowing
/// values met while accumulating or finalizing; they propagate unchanged to
/// the pipeline driver, which tears the pipeline down. `SemanticError` is a
/// name-resolution failure, `UnImplement` an operation outside the engine's
/// scope.
#[derive(Debug, Clone)]
pub enum ErrorCode {
    LogicalError(String),
    SemanticError(String),
    UnexpectedError(String),
    UnImplement(String),
    Overflow(String),
}

impl ErrorCode {
    /// The diagnostic text carried by the error.
    pub fn message(&self) -> (r: String)
        ensures
            r@ == self.spec_message(),
    {
        match self {
            ErrorCode::LogicalError(m) => m.clone(),
            ErrorCode::SemanticError(m) => m.clone(),
            ErrorCode::UnexpectedError(m) => m.clone(),
            ErrorCode::UnImplement(m) => m.clone(),
            ErrorCode::Overflow(m) => m.clone(),
        }
    }

    pub open spec fn spec_message(&self) -> Seq<char> {
        match self {
            ErrorCode::LogicalError(m) => m@,
            ErrorCode::SemanticError(m) => m@,
            ErrorCode::UnexpectedError(m) => m@,
            ErrorCode::UnImplement(m) => m@,
            ErrorCode::Overflow(m) => m@,
        }
    }
}

} // verus!
