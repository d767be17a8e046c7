//! Error values returned by query parsing, planning and execution.

use vstd::prelude::*;

verus! {

/// The single error type of the engine.
///
/// `ParseError` reports malformed query text, `TypeError` reports a query
/// that is well-formed but ill-typed (for example a nested aggregate),
/// `NotImplemented` names a feature outside the supported surface, and
/// `FatalError` reports a broken internal invariant.
#[derive(Debug, Clone)]
pub enum QueryError {
    ParseError(String),
    TypeError(String),
    NotImplemented(String),
    FatalError(String),
}

impl QueryError {
    /// The text carried by the error, whatever its kind.
    pub fn message(&self) -> (r: &String)
        ensures
            r@ == self.message_spec(),
    {
        match self {
            QueryError::ParseError(s) => s,
            QueryError::TypeError(s) => s,
            QueryError::NotImplemented(s) => s,
            QueryError::FatalError(s) => s,
        }
    }

    /// The text carried by the error, as a sequence of characters.
    pub open spec fn message_spec(self) -> Seq<char> {
        match self {
            QueryError::ParseError(s) => s@,
            QueryError::TypeError(s) => s@,
            QueryError::NotImplemented(s) => s@,
            QueryError::FatalError(s) => s@,
        }
    }

    /// True of errors that report an unsupported feature.
    pub fn is_not_implemented(&self) -> (r: bool)
        ensures
            r == self is NotImplemented,
    {
        matches!(self, QueryError::NotImplemented(_))
    }
}

} // verus!
