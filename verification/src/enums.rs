//! The closed sets of values the engine works with: directions, cell
//! contents, winners and the error taxonomies.

use vstd::prelude::*;

verus! {

/// The eight compass directions a piece can slide in.
#[derive(Clone, Copy, PartialEq, Eq, Structural, Debug)]
pub enum Direction {
    Up,
    UpRight,
    Right,
    DownRight,
    Down,
    DownLeft,
    Left,
    UpLeft,
}

/// The unit displacement `(dx, dy)` of a direction. `x` grows to the right,
/// `y` grows downwards; the displacement is never `(0, 0)`.
pub open spec fn dir_delta(d: Direction) -> (int, int) {
    match d {
        Direction::Up => (0, -1),
        Direction::UpRight => (1, -1),
        Direction::Right => (1, 0),
        Direction::DownRight => (1, 1),
        Direction::Down => (0, 1),
        Direction::DownLeft => (-1, 1),
        Direction::Left => (-1, 0),
        Direction::UpLeft => (-1, -1),
    }
}

impl Direction {
    /// The unit displacement of this direction.
    pub fn displacement(&self) -> (r: (i8, i8))
        ensures
            (r.0 as int, r.1 as int) == dir_delta(*self),
    {
        match self {
            Direction::Up => (0, -1),
            Direction::UpRight => (1, -1),
            Direction::Right => (1, 0),
            Direction::DownRight => (1, 1),
            Direction::Down => (0, 1),
            Direction::DownLeft => (-1, 1),
            Direction::Left => (-1, 0),
            Direction::UpLeft => (-1, -1),
        }
    }
}

/// What a cell of the board holds.
#[derive(Clone, Copy, PartialEq, Eq, Structural, Debug)]
pub enum Cell {
    White,
    Black,
    Neutron,
    Empty,
}

/// The outcome the board itself can report. `NeutronIsBlocked` is a raw
/// board-level signal; only the turn engine can turn it into a winner.
#[derive(Clone, Copy, PartialEq, Eq, Structural, Debug)]
pub enum Winner {
    White,
    Black,
    NeutronIsBlocked,
}

/// Why a board could not be built.
#[derive(Clone, Copy, PartialEq, Eq, Structural, Debug)]
pub enum BoardError {
    SizeOfOne,
    EvenSize,
}

/// Why a move was rejected.
#[derive(Clone, Copy, PartialEq, Eq, Structural, Debug)]
pub enum GameError {
    TryToMoveEmptyCell,
    DidNotMoved,
    Invalid,
}

/// Why a piece of player input was rejected.
#[derive(Clone, Copy, PartialEq, Eq, Structural, Debug)]
pub enum GameIOError {
    InvalidDirection,
}

} // verus!
