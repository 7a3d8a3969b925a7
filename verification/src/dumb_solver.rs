//! A solver that picks a direction at random.

use std::time::Instant;
use vstd::prelude::*;

use crate::app_state::AppState;
use crate::clock::{nanos_since, now};
use crate::move_direction::{MoveDirection, ALL_DIRECTIONS};
use crate::random::choose_one;
use crate::solver::direction_order;

verus! {

pub struct DumbSolver {
    pub time_to_wait_nanos: u128,
    pub last_solved_at: Option<Instant>,
}

impl DumbSolver {
    pub fn new() -> (s: Self)
        ensures
            s.time_to_wait_nanos == 1_000_000_000,
            s.last_solved_at is None,
    {
        let default_time_to_wait_nanos: u128 = 1_000_000_000;

        Self { time_to_wait_nanos: default_time_to_wait_nanos, last_solved_at: None }
    }

    /// Whether `elapsed_nanos` since the last solve is past the wait.
    pub fn waited_enough(&self, elapsed_nanos: u128) -> (r: bool)
        ensures
            r == (elapsed_nanos > self.time_to_wait_nanos),
    {
        elapsed_nanos > self.time_to_wait_nanos
    }

    /// Wait for a fixed amount of time since last solve.
    pub fn is_ready(&self) -> (r: bool)
        ensures
            self.last_solved_at is None ==> r,
    {
        match &self.last_solved_at {
            None => true,
            Some(last_solved_at) => self.waited_enough(nanos_since(last_solved_at)),
        }
    }

    /// Randomly pick one out of 4 possible directions, not even looking at the AppState.
    pub fn solve(&mut self, _state: &AppState) -> (answer: MoveDirection)
        ensures
            direction_order().contains(answer),
            final(self).time_to_wait_nanos == old(self).time_to_wait_nanos,
            final(self).last_solved_at is Some,
    {
        let directions = ALL_DIRECTIONS;
        assert(directions@ == direction_order());
        let answer = choose_one(directions.as_slice()).unwrap();
        self.last_solved_at = Some(now());

        answer
    }
}

} // verus!
