//! The rules and data of a 2048 sliding-tile game with multiplier, divider and
//! bomb tiles, with the contracts that Verus proves of them.

pub mod app;
pub mod app_settings;
pub mod app_state;
pub mod bounded_stack;
pub mod clock;
pub mod dumb_solver;
pub mod game_state;
pub mod greedy_solver;
pub mod grid;
pub mod move_direction;
pub mod palette;
pub mod my_error;
pub mod random;
pub mod row;
pub mod snapshot;
pub mod solver;
pub mod text;
pub mod tile;
pub mod vector2d;
