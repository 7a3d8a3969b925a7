//! The four directions in which the tiles slide.

use vstd::prelude::*;

verus! {

#[derive(Debug, Clone, Copy, PartialEq, Eq, Structural)]
pub enum MoveDirection {
    Up,
    Down,
    Left,
    Right,
}

/// Every direction, in the order in which the solvers try them.
pub const ALL_DIRECTIONS: [MoveDirection; 4] = [
    MoveDirection::Left,
    MoveDirection::Right,
    MoveDirection::Up,
    MoveDirection::Down,
];

} // verus!
