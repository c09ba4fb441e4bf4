use vstd::prelude::*;

verus! {

/// What went wrong in a board operation.
#[derive(PartialEq, Eq, Structural, Copy, Clone, Debug)]
pub enum ErrorKind {
    /// A coordinate outside `[0, size)`.
    OutOfBounds,
    /// Placing onto a cell that already holds a stone.
    CellOccupied,
    /// Removing from a cell that holds no stone.
    CellEmpty,
    /// A step off the edge of the board.
    NoNeighbor,
}

#[derive(PartialEq, Debug)]
pub struct Error {
    pub kind: ErrorKind,
    pub message: String,
}

impl Error {
    pub fn create_with_detail(kind: ErrorKind, message: &str) -> (r: Error)
        ensures
            r.kind == kind,
            r.message@ == message@,
    {
        Error { kind, message: message.to_string() }
    }
}

} // verus!
