//! Choosing a direction for the game to move in by itself.

use std::time::Instant;
use vstd::prelude::*;

use crate::app_state::AppState;
use crate::clock::{nanos_since, now};
use crate::grid::{move_is_defined, move_total_score, moved_grid, GridView};
use crate::move_direction::{MoveDirection, ALL_DIRECTIONS};
use crate::random::choose_one;

verus! {

/// How a solver picks its direction.
#[derive(Debug, Clone, Copy, PartialEq, Eq, Structural)]
pub enum SolveStrategy {
    /// Try each direction and keep the best outcome (`solve_by_greedy`).
    Greedy,
    /// Pick a direction at random (`solve_by_random`).
    Random,
}

/// `Solver` is responsible for determining the best `MoveDirection`, given an `AppState`.
/// Also, it maintains a timer so that it doesn't answer again too quickly.
///
/// This implements the Strategy pattern, although currently the strategy
/// does not need to change at runtime.
pub struct Solver {
    pub strategy: SolveStrategy,
    pub cooldown_nanos: u128,
    pub last_solved_at: Option<Instant>,
}

/// One second, in nanoseconds.
pub const DEFAULT_COOLDOWN_NANOS: u128 = 1_000_000_000;

impl Default for Solver {
    fn default() -> (s: Self)
        ensures
            s.strategy == SolveStrategy::Greedy,
            s.cooldown_nanos == DEFAULT_COOLDOWN_NANOS,
            s.last_solved_at is None,
    {
        Self { strategy: SolveStrategy::Greedy, cooldown_nanos: DEFAULT_COOLDOWN_NANOS, last_solved_at: None }
    }
}

/// The directions in the order in which the solvers try them.
pub open spec fn direction_order() -> Seq<MoveDirection> {
    seq![MoveDirection::Left, MoveDirection::Right, MoveDirection::Up, MoveDirection::Down]
}

/// What trying direction `d` on grid `g` gives: whether the result holds the
/// winning target, and the score.
pub open spec fn greedy_key(g: GridView, target: u16, d: MoveDirection) -> (bool, int) {
    (moved_grid(g, d).contains_value(target), move_total_score(g, d))
}

/// Whether key `a` ranks no higher than key `b`: a win ranks above no win,
/// then the higher score ranks higher.
pub open spec fn key_le(a: (bool, int), b: (bool, int)) -> bool {
    (!a.0 && b.0) || (a.0 == b.0 && a.1 <= b.1)
}

/// The direction the greedy solver keeps after trying the first `n` directions
/// of `direction_order()`: each one that ranks no lower than the one kept so
/// far replaces it, so among equals the last one tried wins.
pub open spec fn greedy_pick(g: GridView, target: u16, n: nat) -> MoveDirection
    decreases n,
{
    if n <= 1 {
        direction_order()[0]
    } else {
        let best = greedy_pick(g, target, (n - 1) as nat);
        let d = direction_order()[n - 1];
        if key_le(greedy_key(g, target, best), greedy_key(g, target, d)) {
            d
        } else {
            best
        }
    }
}

/// The direction the greedy solver picks for the grid `g` and the target.
pub open spec fn greedy_choice(g: GridView, target: u16) -> MoveDirection {
    greedy_pick(g, target, 4)
}

/// Whether every direction can be tried on the grid.
pub open spec fn all_moves_defined(g: GridView) -> bool {
    forall|d: MoveDirection| move_is_defined(g, d)
}

/// Tells whether every direction can be tried on the grid.
pub fn can_try_every_direction(grid: &crate::grid::Grid) -> (r: bool)
    ensures
        r == all_moves_defined(grid@),
{
    let directions = ALL_DIRECTIONS;
    assert(directions@ == direction_order());
    let mut i: usize = 0;
    while i < 4
        invariant
            directions@ == direction_order(),
            i <= 4,
            forall|k: int| 0 <= k < i ==> move_is_defined(grid@, #[trigger] direction_order()[k]),
        decreases 4 - i,
    {
        if grid.checked_move_score(directions[i]).is_none() {
            return false;
        }
        i = i + 1;
    }
    assert forall|d: MoveDirection| move_is_defined(grid@, d) by {
        match d {
            MoveDirection::Left => assert(direction_order()[0] == d),
            MoveDirection::Right => assert(direction_order()[1] == d),
            MoveDirection::Up => assert(direction_order()[2] == d),
            MoveDirection::Down => assert(direction_order()[3] == d),
        }
    }
    true
}

impl Solver {
    /// Whether `elapsed_nanos` since the last solve is past the cooldown.
    pub fn cooldown_passed(&self, elapsed_nanos: u128) -> (r: bool)
        ensures
            r == (elapsed_nanos > self.cooldown_nanos),
    {
        elapsed_nanos > self.cooldown_nanos
    }

    /// Wait for a fixed amount of time since last solve.
    pub fn is_ready(&self) -> (r: bool)
        ensures
            self.last_solved_at is None ==> r,
    {
        match &self.last_solved_at {
            None => true,
            Some(last_solved_at) => self.cooldown_passed(nanos_since(last_solved_at)),
        }
    }

    /// Use the assigned strategy to find the best `MoveDirection`,
    /// update the internal timer, and return the answer.
    pub fn solve(&mut self, state: &AppState) -> (answer: MoveDirection)
        requires
            old(self).strategy == SolveStrategy::Greedy ==> all_moves_defined(state.grid@),
        ensures
            old(self).strategy == SolveStrategy::Greedy ==> answer == greedy_choice(
                state.grid@,
                state.winning_target,
            ),
            final(self).strategy == old(self).strategy,
            final(self).cooldown_nanos == old(self).cooldown_nanos,
            final(self).last_solved_at is Some,
    {
        let answer = match self.strategy {
            SolveStrategy::Greedy => solve_by_greedy(state),
            SolveStrategy::Random => solve_by_random(state),
        };
        self.last_solved_at = Some(now());

        answer
    }
}

/// Randomly pick one out of 4 possible directions, not even looking at the `AppState`.
pub fn solve_by_random(_state: &AppState) -> (d: MoveDirection)
    ensures
        direction_order().contains(d),
{
    let directions = ALL_DIRECTIONS;
    assert(directions@ == direction_order());
    choose_one(directions.as_slice()).unwrap()
}

/// Try each direction, record the resulting score, and check if the resulting grid state won the game.
/// Return the direction that maximizes these 2 constraints, with the highest `won`, then the highest `score`.
pub fn solve_by_greedy(state: &AppState) -> (d: MoveDirection)
    requires
        all_moves_defined(state.grid@),
    ensures
        d == greedy_choice(state.grid@, state.winning_target),
{
    let ghost g = state.grid@;
    let ghost target = state.winning_target;
    let directions = ALL_DIRECTIONS;
    assert(directions@ == direction_order());
    let mut best = directions[0];
    let mut best_score: i16 = 0;
    let mut best_won = false;
    let mut i: usize = 0;
    while i < 4
        invariant
            directions@ == direction_order(),
            g == state.grid@,
            target == state.winning_target,
            all_moves_defined(g),
            i <= 4,
            i > 0 ==> best == greedy_pick(g, target, i as nat),
            i > 0 ==> (best_won, best_score as int) == greedy_key(g, target, best),
            i == 0 ==> best == direction_order()[0],
        decreases 4 - i,
    {
        let direction = directions[i];
        let mut grid = state.grid.duplicate();
        assert(move_is_defined(g, direction));
        let score = grid.update(direction);
        let won = grid.contains_value(state.winning_target);
        if i == 0 || (!best_won && won) || (best_won == won && best_score <= score) {
            best = direction;
            best_score = score;
            best_won = won;
        }
        i = i + 1;
    }
    best
}

/// The greedy choice ranks no lower than any direction: no direction both
/// wins where it does not, or wins as it does with a higher score.
/// The greedy choice wins whenever some direction wins, and among the
/// directions that win or lose as it does, none scores more, gains and
/// penalties compared as signed numbers.
pub proof fn lemma_greedy_choice_wins_then_scores(g: GridView, target: u16, d: MoveDirection)
    ensures
        moved_grid(g, d).contains_value(target) ==> moved_grid(g, greedy_choice(g, target)).contains_value(
            target,
        ),
        moved_grid(g, d).contains_value(target) == moved_grid(g, greedy_choice(g, target)).contains_value(
            target,
        ) ==> move_total_score(g, d) <= move_total_score(g, greedy_choice(g, target)),
{
    lemma_greedy_choice_is_best(g, target, d);
}

pub proof fn lemma_greedy_choice_is_best(g: GridView, target: u16, d: MoveDirection)
    ensures
        key_le(greedy_key(g, target, d), greedy_key(g, target, greedy_choice(g, target))),
{
    lemma_greedy_pick_is_best(g, target, 4);
    assert(direction_order().contains(d)) by {
        match d {
            MoveDirection::Left => assert(direction_order()[0] == d),
            MoveDirection::Right => assert(direction_order()[1] == d),
            MoveDirection::Up => assert(direction_order()[2] == d),
            MoveDirection::Down => assert(direction_order()[3] == d),
        }
    }
}

proof fn lemma_greedy_pick_is_best(g: GridView, target: u16, n: nat)
    requires
        1 <= n <= 4,
    ensures
        forall|k: int|
            0 <= k < n ==> key_le(
                greedy_key(g, target, #[trigger] direction_order()[k]),
                greedy_key(g, target, greedy_pick(g, target, n)),
            ),
    decreases n,
{
    if n > 1 {
        lemma_greedy_pick_is_best(g, target, (n - 1) as nat);
    }
}

} // verus!
