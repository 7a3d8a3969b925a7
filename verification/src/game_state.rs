//! Whether a game goes on, was won or was lost.

use vstd::prelude::*;

verus! {

#[derive(Clone, Copy, Debug, PartialEq, Eq, Structural)]
pub enum GameState {
    InPlay,
    Won,
    Lost,
}

} // verus!
