use rusty_2048::app::{handle_key_event, App, Command, Key, KeyAction};
use rusty_2048::app_state::AppState;
use rusty_2048::game_state::GameState;
use rusty_2048::grid::Grid;
use rusty_2048::move_direction::MoveDirection;
use rusty_2048::palette::{get_tile_color, TileColor};
use rusty_2048::tile::Tile;

fn count_non_empty(grid: &Grid) -> usize {
    grid.tiles().iter().filter(|t| !t.is_empty()).count()
}

#[test]
fn new_state_spawns_one_to_three_tiles() {
    let state = AppState::new(4, 5);
    assert_eq!(state.game_state, GameState::InPlay);
    assert_eq!(state.current_turn, 1);
    assert_eq!(state.current_score, 0);
    assert_eq!(state.best_score, 0);
    assert_eq!(state.winning_target, 2048);
    let spawned = count_non_empty(&state.grid);
    assert!((1..=3).contains(&spawned));
    assert_eq!(state.new_tile_positions.len(), spawned);
    for p in &state.new_tile_positions {
        assert!(!state.grid.get_tile(p).is_empty());
    }
}

#[test]
fn update_scores_moves_and_counts_turns() {
    let mut state = AppState::with_grid(Grid::from_snapshot("2 2 . .\n. . . .\n. . . .\n. . . ."));
    state.update(MoveDirection::Left);
    assert_eq!(state.current_score, 4);
    assert_eq!(state.best_score, 4);
    assert_eq!(state.current_turn, 2);
    assert_eq!(*state.grid.get_tile(&rusty_2048::vector2d::Vector2D::new(0, 0)), Tile::Number(4));
    assert!((1..=3).contains(&state.new_tile_positions.len()));
}

#[test]
fn negative_scores_stop_at_zero() {
    let mut state = AppState::with_grid(Grid::from_snapshot("8 B . .\n. . . .\n. . . .\n. . . ."));
    state.current_score = 3;
    state.best_score = 10;
    state.update(MoveDirection::Left);
    assert_eq!(state.current_score, 0);
    assert_eq!(state.best_score, 10);
}

#[test]
fn reaching_the_target_wins() {
    let mut state = AppState::with_grid(Grid::from_snapshot("1024 1024 . .\n. . . .\n. . . .\n. . . ."));
    state.update(MoveDirection::Left);
    assert_eq!(state.game_state, GameState::Won);
}

#[test]
fn finished_game_ignores_moves() {
    let mut state = AppState::with_grid(Grid::from_snapshot("2 2\n. ."));
    state.game_state = GameState::Lost;
    state.update(MoveDirection::Left);
    assert_eq!(state.current_turn, 1);
    assert_eq!(state.grid.generate_snapshot(), "2 2\n. .");
}

#[test]
fn restart_keeps_best_score() {
    let mut state = AppState::with_grid(Grid::from_snapshot("2 2\n. ."));
    state.best_score = 50;
    state.current_score = 20;
    state.current_turn = 7;
    state.game_state = GameState::Won;
    state.restart();
    assert_eq!(state.game_state, GameState::InPlay);
    assert_eq!(state.current_turn, 1);
    assert_eq!(state.current_score, 0);
    assert_eq!(state.best_score, 50);
    assert!((1..=3).contains(&count_non_empty(&state.grid)));
}

#[test]
fn can_update_refuses_what_would_overflow() {
    let state = AppState::with_grid(Grid::from_snapshot("2 2\n. ."));
    assert!(state.can_update(MoveDirection::Left));
    let mut full_turns = AppState::with_grid(Grid::from_snapshot("2 2\n. ."));
    full_turns.current_turn = u16::MAX;
    assert!(!full_turns.can_update(MoveDirection::Left));
    full_turns.game_state = GameState::Won;
    assert!(full_turns.can_update(MoveDirection::Left));
}

#[test]
fn undo_after_update_restores_the_state() {
    let state = AppState::with_grid(Grid::from_snapshot("2 2\n. ."));
    let mut app = App::with_state(state);
    let before = app.state.grid.generate_snapshot();
    app.handle_command(Command::Move(MoveDirection::Left));
    assert_eq!(app.state.current_turn, 2);
    app.handle_command(Command::Undo);
    assert_eq!(app.state.current_turn, 1);
    assert_eq!(app.state.grid.generate_snapshot(), before);
    // Nothing left to undo: nothing changes.
    app.handle_command(Command::Undo);
    assert_eq!(app.state.grid.generate_snapshot(), before);
}

#[test]
fn history_keeps_three_states() {
    let state = AppState::with_grid(Grid::from_snapshot("2 . . .\n. . . .\n. . . .\n. . . ."));
    let mut app = App::with_state(state);
    for _ in 0..5 {
        assert!(app.can_move_every_way());
        app.update(MoveDirection::Left);
    }
    assert_eq!(app.old_states.items().len(), 3);
    assert_eq!(app.old_states.items()[2].current_turn, 5);
}

#[test]
fn commands_exit_restart_and_toggle() {
    let state = AppState::with_grid(Grid::from_snapshot("2 2\n. ."));
    let mut app = App::with_state(state);
    app.handle_command(Command::ToggleSolver);
    assert!(app.solver_enabled);
    app.handle_command(Command::Move(MoveDirection::Left));
    app.handle_command(Command::Restart);
    assert_eq!(app.old_states.items().len(), 0);
    assert_eq!(app.state.current_turn, 1);
    assert!(!app.should_exit);
    app.handle_command(Command::Exit);
    assert!(app.should_exit);
}

#[test]
fn solver_input_moves_when_enabled() {
    let state = AppState::with_grid(Grid::from_snapshot("2 2\n. ."));
    let mut app = App::with_state(state);
    app.handle_solver_input();
    assert_eq!(app.state.current_turn, 1);
    app.toggle_solver();
    app.handle_solver_input();
    assert_eq!(app.state.current_turn, 2);
    assert_eq!(app.state.current_score, 4);
}

#[test]
fn tile_colors() {
    assert_eq!(get_tile_color(Tile::Empty), TileColor::Black);
    assert_eq!(get_tile_color(Tile::Multiplier(2)), TileColor::Green);
    assert_eq!(get_tile_color(Tile::Divider(2)), TileColor::Red);
    assert_eq!(get_tile_color(Tile::Bomb), TileColor::Red);
    assert_eq!(get_tile_color(Tile::Number(2)), TileColor::Indexed(3));
    assert_eq!(get_tile_color(Tile::Number(2048)), TileColor::Indexed(14));
    assert_eq!(get_tile_color(Tile::Number(4096)), TileColor::White);
}

#[test]
fn keys_map_to_actions() {
    assert_eq!(handle_key_event(Key::Char('q')), Some(KeyAction::Command(Command::Exit)));
    assert_eq!(handle_key_event(Key::Char('r')), Some(KeyAction::Command(Command::Restart)));
    assert_eq!(handle_key_event(Key::Char('g')), Some(KeyAction::ToggleGrid));
    assert_eq!(handle_key_event(Key::Backspace), Some(KeyAction::Command(Command::Undo)));
    assert_eq!(
        handle_key_event(Key::Char('w')),
        Some(KeyAction::Command(Command::Move(MoveDirection::Up)))
    );
    assert_eq!(
        handle_key_event(Key::Left),
        Some(KeyAction::Command(Command::Move(MoveDirection::Left)))
    );
    assert_eq!(handle_key_event(Key::Char('z')), Some(KeyAction::Command(Command::ToggleSolver)));
    assert_eq!(handle_key_event(Key::Char('x')), None);
    assert_eq!(handle_key_event(Key::Other), None);
}

#[test]
fn spawn_n_spawns_as_many_as_asked_or_as_fit() {
    let mut state = AppState::with_grid(Grid::from_snapshot(
        "2 2 2
         2 . 2
         2 2 .",
    ));
    state.spawn_n(3);
    assert_eq!(state.new_tile_positions.len(), 2);
    assert_eq!(count_non_empty(&state.grid), 9);

    let mut state = AppState::with_grid(Grid::new(3, 3));
    state.spawn_n(1);
    assert_eq!(state.new_tile_positions.len(), 1);
    assert_eq!(count_non_empty(&state.grid), 1);
    state.spawn_n(3);
    assert_eq!(state.new_tile_positions.len(), 4);
    assert_eq!(count_non_empty(&state.grid), 4);
    for p in &state.new_tile_positions {
        assert!(!state.grid.get_tile(p).is_empty());
    }
}
