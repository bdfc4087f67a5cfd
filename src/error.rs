//! Errors that abort a run of the engine.
use vstd::prelude::*;

verus! {

/// Error raised by the engine; each one aborts a run.
#[derive(Clone, Copy, Debug, PartialEq, Eq, Structural)]
pub enum Problem {
    /// A loop-close was reached with no recorded loop-open to return to.
    UnmatchedLoopClose,
    /// A skipped loop reached the end of the program before its close.
    UnclosedLoop,
}

impl Problem {
    /// Human-readable description of the error.
    pub fn message(&self) -> (r: String)
        ensures
            *self == Problem::UnmatchedLoopClose ==> r@ == "Undeclared loop"@,
            *self == Problem::UnclosedLoop ==> r@ == "Unclosed loop!"@,
    {
        match self {
            Problem::UnmatchedLoopClose => String::from_str("Undeclared loop"),
            Problem::UnclosedLoop => String::from_str("Unclosed loop!"),
        }
    }
}

} // verus!
