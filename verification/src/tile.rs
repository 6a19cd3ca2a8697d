use vstd::prelude::*;

verus! {

/// The occupancy state of one grid cell.
#[derive(Debug, Clone, Copy, PartialEq, Eq, Structural)]
pub enum Tile {
    Empty,
    X,
    O,
}

/// The outcome of a winner check: still open, a winning player's tile,
/// or a full board with no winner (draw). The draw marker is a result
/// value only; it is never stored in a cell.
#[derive(Debug, Clone, Copy, PartialEq, Eq, Structural)]
pub enum Outcome {
    Undecided,
    Win(Tile),
    Draw,
}

/// Why a placement was rejected.
#[derive(Debug, Clone, Copy, PartialEq, Eq, Structural)]
pub enum BoardErr {
    BlockedError,
    BoundsError,
}

} // verus!
