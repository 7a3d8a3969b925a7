use rusty_2048::app_state::AppState;
use rusty_2048::dumb_solver::DumbSolver;
use rusty_2048::greedy_solver::GreedySolver;
use rusty_2048::grid::Grid;
use rusty_2048::move_direction::{MoveDirection, ALL_DIRECTIONS};
use rusty_2048::solver::{solve_by_greedy, solve_by_random, SolveStrategy, Solver};

#[test]
fn test_solve_by_greedy() {
    // No winner. Simply pick the direction with highest score.
    {
        let snapshot = "\
         .   .    B   .
        *2   .    2  *8
         .   .   *4   .";
        let grid = Grid::from_snapshot(snapshot);
        let state = AppState::with_grid(grid);

        assert_eq!(solve_by_greedy(&state), MoveDirection::Right);
    }

    // Pick the direction that won but produced a lower score than a non-winner.
    {
        let snapshot = "\
         .   .      B   .
        *2   .    512  *8
        .    .     *4   .";
        let grid = Grid::from_snapshot(snapshot);
        let state = AppState::with_grid(grid);

        assert_eq!(solve_by_greedy(&state), MoveDirection::Down);
    }

    // Among 2 winners, pick the direction with the highest score.
    {
        let snapshot = "\
         2   .     *4   .
        *2   .    512  *8
         B   .     *4   .";
        let grid = Grid::from_snapshot(snapshot);
        let state = AppState::with_grid(grid);

        assert_eq!(solve_by_greedy(&state), MoveDirection::Up);
    }
}

#[test]
fn greedy_ties_go_to_the_last_direction_tried() {
    // Nothing merges anywhere: every direction scores 0, so Down (tried last) wins.
    let state = AppState::with_grid(Grid::from_snapshot("2 4\n4 2"));
    assert_eq!(solve_by_greedy(&state), MoveDirection::Down);
}

#[test]
fn solver_default_is_ready_and_greedy() {
    let mut solver = Solver::default();
    assert_eq!(solver.strategy, SolveStrategy::Greedy);
    assert!(solver.is_ready());
    let state = AppState::with_grid(Grid::from_snapshot("2 2\n. ."));
    let answer = solver.solve(&state);
    assert_eq!(answer, solve_by_greedy(&state));
    assert!(solver.last_solved_at.is_some());
    assert!(!solver.is_ready());
    assert!(solver.cooldown_passed(1_000_000_001));
    assert!(!solver.cooldown_passed(1_000_000_000));
}

#[test]
fn random_solvers_pick_a_direction() {
    let state = AppState::with_grid(Grid::from_snapshot("2 ."));
    let d = solve_by_random(&state);
    assert!(ALL_DIRECTIONS.contains(&d));
    let mut dumb = DumbSolver::new();
    assert!(dumb.is_ready());
    let d = dumb.solve(&state);
    assert!(ALL_DIRECTIONS.contains(&d));
    assert!(!dumb.is_ready());
}

#[test]
fn greedy_solver_keeps_the_highest_score() {
    let state = AppState::with_grid(Grid::from_snapshot("2 2 .\n. 4 4"));
    let mut solver = GreedySolver::new();
    assert!(solver.is_ready());
    // Left and Right score 12; Up and Down score 0; Right is the later of the best.
    assert_eq!(solver.solve(&state), MoveDirection::Right);
    assert!(solver.waited_enough(2_000_000_000));
}
