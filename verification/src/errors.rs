//! What can go wrong at the edge of the interpreter's core.

use vstd::prelude::*;

verus! {

/// A failure that ends a run and is handed to the caller.
#[derive(Debug, Clone, Copy, PartialEq, Eq, Structural)]
pub enum Error {
    /// The grid has no columns or no rows.
    ZeroDimensions,
    /// The grid does not hold one colour for each codel.
    LengthMismatch,
    /// The codel at which execution starts is black.
    InvalidStart,
    /// The program did not come to an end within the steps it was given.
    StepLimitExceeded,
}

} // verus!
