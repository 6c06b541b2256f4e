//! What can go wrong on a board.

use vstd::prelude::*;

verus! {

/// The ways in which a request to a board fails.
#[derive(Clone, Copy, Debug, PartialEq, Eq, Structural)]
pub enum BoardError {
    /// A coordinate names no cell of the board.
    OutOfBounds,
    /// The encoder did not produce an image.
    Encoding,
}

} // verus!
