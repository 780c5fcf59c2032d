//! The ways in which an operation of the keeper can fail.

use vstd::prelude::*;

verus! {

/// Why an operation did not do what was asked.
#[derive(Clone, Copy, Debug, PartialEq, Eq, Structural)]
pub enum EngineError {
    /// No row answers to the code or the event that was named.
    NotFound,
    /// The row is held by somebody else.
    Conflict,
    /// The rows are not in a state in which the operation applies.
    InvalidState,
    /// The store cannot take the row.
    StoreUnavailable,
}

} // verus!
