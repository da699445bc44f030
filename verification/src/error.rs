//! The failures the board engine reports to its caller.

use vstd::prelude::*;

verus! {

/// Why a board operation was rejected. Nothing is changed by a rejected
/// operation.
#[derive(Clone, Copy, Debug, PartialEq, Eq, Structural)]
pub enum Error {
    /// A coordinate or an index lies outside the grid.
    OutOfBounds,
    /// Mines were already placed on this board.
    AlreadyInitialized,
}

impl Error {
    /// The text shown to a player for this failure.
    pub fn message(&self) -> (text: &'static str)
        ensures
            text@ == match *self {
                Error::OutOfBounds => "requested coordinates are outside the grid"@,
                Error::AlreadyInitialized => "field already initialized"@,
            },
    {
        match self {
            Error::OutOfBounds => "requested coordinates are outside the grid",
            Error::AlreadyInitialized => "field already initialized",
        }
    }
}

} // verus!
