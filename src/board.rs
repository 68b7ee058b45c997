use vstd::prelude::*;

verus! {

/// A cell of the board.
#[derive(Clone, Copy, PartialEq, Eq, Structural, Debug)]
pub struct Position {
    pub x: usize,
    pub y: usize,
}

/// A wall of a room.
#[derive(Clone, Copy, PartialEq, Eq, Structural, Debug)]
pub enum Direction {
    North,
    East,
    South,
    West,
}

} // verus!
