//! A solver that keeps the direction with the highest score.

use std::time::Instant;
use vstd::prelude::*;

use crate::app_state::AppState;
use crate::clock::{nanos_since, now};
use crate::grid::{move_total_score, GridView};
use crate::move_direction::{MoveDirection, ALL_DIRECTIONS};
use crate::solver::{all_moves_defined, direction_order};

verus! {

pub struct GreedySolver {
    pub time_to_wait_nanos: u128,
    pub last_solved_at: Option<Instant>,
}

/// The direction kept after trying the first `n` directions by score alone:
/// each one that scores no lower than the one kept replaces it.
pub open spec fn best_scoring(g: GridView, n: nat) -> MoveDirection
    decreases n,
{
    if n <= 1 {
        direction_order()[0]
    } else {
        let best = best_scoring(g, (n - 1) as nat);
        let d = direction_order()[n - 1];
        if move_total_score(g, best) <= move_total_score(g, d) {
            d
        } else {
            best
        }
    }
}

impl GreedySolver {
    pub fn new() -> (s: Self)
        ensures
            s.time_to_wait_nanos == 1_000_000_000,
            s.last_solved_at is None,
    {
        let default_time_to_wait_nanos: u128 = 1_000_000_000;

        Self { time_to_wait_nanos: default_time_to_wait_nanos, last_solved_at: None }
    }

    /// Whether `elapsed_nanos` since the last solve is past the wait.
    pub fn waited_enough(&self, elapsed_nanos: u128) -> (r: bool)
        ensures
            r == (elapsed_nanos > self.time_to_wait_nanos),
    {
        elapsed_nanos > self.time_to_wait_nanos
    }

    /// Wait for a fixed amount of time since last solve.
    pub fn is_ready(&self) -> (r: bool)
        ensures
            self.last_solved_at is None ==> r,
    {
        match &self.last_solved_at {
            None => true,
            Some(last_solved_at) => self.waited_enough(nanos_since(last_solved_at)),
        }
    }

    /// For each direction, simulate applying this direction on a new grid
    /// and select the direction that yielded the highest score.
    pub fn solve(&mut self, state: &AppState) -> (answer: MoveDirection)
        requires
            all_moves_defined(state.grid@),
        ensures
            answer == best_scoring(state.grid@, 4),
            final(self).time_to_wait_nanos == old(self).time_to_wait_nanos,
            final(self).last_solved_at is Some,
    {
        let ghost g = state.grid@;
        let directions = ALL_DIRECTIONS;
        assert(directions@ == direction_order());
        let mut best_direction = directions[0];
        let mut best_score: i16 = 0;
        let mut i: usize = 0;
        while i < 4
            invariant
                directions@ == direction_order(),
                g == state.grid@,
                all_moves_defined(g),
                i <= 4,
                i > 0 ==> best_direction == best_scoring(g, i as nat),
                i > 0 ==> best_score as int == move_total_score(g, best_direction),
                i == 0 ==> best_direction == direction_order()[0],
            decreases 4 - i,
        {
            let direction = directions[i];
            let mut grid = state.grid.duplicate();
            assert(crate::grid::move_is_defined(g, direction));
            let score = grid.update(direction);
            if i == 0 || best_score <= score {
                best_direction = direction;
                best_score = score;
            }
            i = i + 1;
        }

        self.last_solved_at = Some(now());
        best_direction
    }
}

} // verus!
