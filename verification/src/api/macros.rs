use vstd::prelude::*;

use crate::lexer::Span;

verus! {

/// The parts of an error report of the compiler: the underlying error's message, more details,
/// where in the program it happened, and what the compiler was doing.
pub struct CabinError {
    /// The message of the underlying error.
    pub base: Option<String>,
    /// Further details about the error.
    pub details: Option<String>,
    /// The span of the program at which the error happened.
    pub at: Option<Span>,
    /// What the compiler was doing when the error happened.
    pub process: Option<String>,
}

impl Default for CabinError {
    fn default() -> (res: Self)
        ensures
            res.base is None,
            res.details is None,
            res.at is None,
            res.process is None,
    {
        CabinError { base: None, details: None, at: None, process: None }
    }
}

} // verus!
