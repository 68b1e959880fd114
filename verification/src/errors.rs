//! The error taxonomy of the solver.

use vstd::prelude::*;

verus! {

/// Everything that can go wrong in the core.
///
/// `MalformedFeedback` is recoverable: the round can be retried with fresh
/// input. `EmptyPool` signals contradictory feedback history and should be
/// treated as fatal by the caller. `VocabularyFormat` is reported at load
/// time, before a malformed entry can reach the word constructor.
#[derive(Clone, Copy, Debug, PartialEq, Eq, Structural)]
pub enum SolverError {
    /// The observed feedback string is not exactly 5 characters from
    /// `{g, y, .}`.
    MalformedFeedback,
    /// Guess selection was invoked with an empty pool.
    EmptyPool,
    /// A vocabulary line is not a 5-letter lowercase word.
    VocabularyFormat,
}

} // verus!
