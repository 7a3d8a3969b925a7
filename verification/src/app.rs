//! A game session: the current state, the states to go back to, the exit
//! request and the automatic player.

use vstd::prelude::*;

use crate::app_state::AppState;
use crate::bounded_stack::{pushed, BoundedStack};
use crate::move_direction::{MoveDirection, ALL_DIRECTIONS};
use crate::row::empties;
use crate::solver::{all_moves_defined, direction_order, greedy_choice, Solver, SolveStrategy};

verus! {

/// How many earlier states a session keeps to go back to.
pub const DEFAULT_OLD_STATES_STACK_CAPACITY: usize = 3;

/// What the player asks of a session.
#[derive(Debug, Clone, Copy, PartialEq, Eq, Structural)]
pub enum Command {
    /// Close the app.
    Exit,
    /// Start a new game.
    Restart,
    /// Go back to the state before the last move.
    Undo,
    /// Move all tiles toward a direction.
    Move(MoveDirection),
    /// Toggle auto-play on or off.
    ToggleSolver,
}

/// A key that the player pressed, as far as the game tells keys apart.
#[derive(Debug, Clone, Copy, PartialEq, Eq, Structural)]
pub enum Key {
    Char(char),
    Up,
    Down,
    Left,
    Right,
    Backspace,
    Other,
}

/// What a key asks for: a command of the session, or showing or hiding the
/// grid lines, which only the display keeps.
#[derive(Debug, Clone, Copy, PartialEq, Eq, Structural)]
pub enum KeyAction {
    Command(Command),
    ToggleGrid,
}

/// The action of each key: `q` exits, `r` restarts, `g` toggles the grid,
/// backspace undoes, `w a s d` and the arrows move, `z` toggles the solver;
/// every other key does nothing.
pub open spec fn key_action(key: Key) -> Option<KeyAction> {
    match key {
        Key::Char('q') => Some(KeyAction::Command(Command::Exit)),
        Key::Char('r') => Some(KeyAction::Command(Command::Restart)),
        Key::Char('g') => Some(KeyAction::ToggleGrid),
        Key::Backspace => Some(KeyAction::Command(Command::Undo)),
        Key::Char('w') | Key::Up => Some(KeyAction::Command(Command::Move(MoveDirection::Up))),
        Key::Char('s') | Key::Down => Some(KeyAction::Command(Command::Move(MoveDirection::Down))),
        Key::Char('a') | Key::Left => Some(KeyAction::Command(Command::Move(MoveDirection::Left))),
        Key::Char('d') | Key::Right => Some(KeyAction::Command(Command::Move(MoveDirection::Right))),
        Key::Char('z') => Some(KeyAction::Command(Command::ToggleSolver)),
        _ => None,
    }
}

/// The arrow key for a direction.
pub open spec fn arrow_key(d: MoveDirection) -> Key {
    match d {
        MoveDirection::Up => Key::Up,
        MoveDirection::Down => Key::Down,
        MoveDirection::Left => Key::Left,
        MoveDirection::Right => Key::Right,
    }
}

/// The letter key for a direction, in the `w a s d` layout: `w` up, `a` left,
/// `s` down, `d` right.
pub open spec fn letter_key(d: MoveDirection) -> Key {
    match d {
        MoveDirection::Up => Key::Char('w'),
        MoveDirection::Left => Key::Char('a'),
        MoveDirection::Down => Key::Char('s'),
        MoveDirection::Right => Key::Char('d'),
    }
}

/// A key asks for a move in direction `d` exactly when it is the arrow key or
/// the letter key of `d`: the two keys of a direction ask for the same move.
pub proof fn lemma_move_keys(key: Key, d: MoveDirection)
    ensures
        key_action(arrow_key(d)) == Some(KeyAction::Command(Command::Move(d))),
        key_action(letter_key(d)) == key_action(arrow_key(d)),
        key_action(key) == Some(KeyAction::Command(Command::Move(d))) <==> (key == arrow_key(d) || key
            == letter_key(d)),
{
}

/// Listen to specific key input events: the action that `key` asks for.
pub fn handle_key_event(key: Key) -> (r: Option<KeyAction>)
    ensures
        r == key_action(key),
{
    match key {
        Key::Char('q') => Some(KeyAction::Command(Command::Exit)),
        Key::Char('r') => Some(KeyAction::Command(Command::Restart)),
        Key::Char('g') => Some(KeyAction::ToggleGrid),
        Key::Backspace => Some(KeyAction::Command(Command::Undo)),
        Key::Char('w') | Key::Up => Some(KeyAction::Command(Command::Move(MoveDirection::Up))),
        Key::Char('s') | Key::Down => Some(KeyAction::Command(Command::Move(MoveDirection::Down))),
        Key::Char('a') | Key::Left => Some(KeyAction::Command(Command::Move(MoveDirection::Left))),
        Key::Char('d') | Key::Right => Some(KeyAction::Command(Command::Move(MoveDirection::Right))),
        Key::Char('z') => Some(KeyAction::Command(Command::ToggleSolver)),
        _ => None,
    }
}

/// `App` initializes, saves and restores its `AppState`, agnostic of the
/// business logic inside `AppState`, and answers the player's commands and the
/// solver's moves.
pub struct App {
    pub should_exit: bool,
    pub state: AppState,
    pub old_states: BoundedStack<AppState>,
    pub solver_enabled: bool,
    pub solver: Solver,
}

/// Whether `after` is `before` after a move in direction `d`: the state before
/// the move kept on top of the history, and the state moved.
pub open spec fn updated(before: &App, after: &App, d: MoveDirection) -> bool {
    &&& after.old_states@.len() > 0
    &&& after.old_states@.last().same_as(&before.state)
    &&& after.old_states@ == pushed(before.old_states@, before.old_states.limit(), after.old_states@.last())
    &&& after.old_states.limit() == before.old_states.limit()
    &&& moved_state(&before.state, &after.state, d)
    &&& after.should_exit == before.should_exit
    &&& after.solver_enabled == before.solver_enabled
    &&& after.solver == before.solver
}

/// Whether `after` is the state `before` after `AppState::update` in direction `d`.
pub open spec fn moved_state(before: &AppState, after: &AppState, d: MoveDirection) -> bool {
    &&& after.grid@.wf()
    &&& before.game_state != crate::game_state::GameState::InPlay ==> after.same_as(before)
    &&& before.game_state == crate::game_state::GameState::InPlay ==> {
        let moved = crate::grid::moved_grid(before.grid@, d);
        let score = crate::grid::move_total_score(before.grid@, d);
        &&& after.current_score == crate::app_state::scored(before.current_score, score)
        &&& after.best_score == if after.current_score > before.best_score {
            after.current_score
        } else {
            before.best_score
        }
        &&& after.current_turn == before.current_turn + 1
        &&& after.winning_target == before.winning_target
        &&& crate::app_state::spawned_some(moved, after.grid@, after.new_tile_positions@)
        &&& after.game_state == if after.grid@.is_dead() {
            crate::game_state::GameState::Lost
        } else if moved.contains_value(before.winning_target) {
            crate::game_state::GameState::Won
        } else {
            crate::game_state::GameState::InPlay
        }
    }
}

/// Whether `after` is `before` after a restart: no history, and a new game
/// that keeps the best score and the target.
pub open spec fn restarted(before: &App, after: &App) -> bool {
    &&& after.old_states@ == Seq::<AppState>::empty()
    &&& after.old_states.limit() == before.old_states.limit()
    &&& after.state.game_state == crate::game_state::GameState::InPlay
    &&& after.state.current_turn == 1
    &&& after.state.current_score == 0
    &&& after.state.best_score == before.state.best_score
    &&& after.state.winning_target == before.state.winning_target
    &&& crate::app_state::spawned_some(
        before.state.grid@.with_tiles(empties(before.state.grid@.tiles.len())),
        after.state.grid@,
        after.state.new_tile_positions@,
    )
    &&& after.should_exit == before.should_exit
    &&& after.solver_enabled == before.solver_enabled
    &&& after.solver == before.solver
}

/// Whether `after` is `before` after an undo: the newest kept state back in
/// place and off the history, or nothing changed when none is kept.
pub open spec fn undone(before: &App, after: &App) -> bool {
    &&& before.old_states@.len() == 0 ==> after.state == before.state && after.old_states@
        == before.old_states@
    &&& before.old_states@.len() > 0 ==> after.state == before.old_states@.last()
        && after.old_states@ == before.old_states@.drop_last()
    &&& after.old_states.limit() == before.old_states.limit()
    &&& after.should_exit == before.should_exit
    &&& after.solver_enabled == before.solver_enabled
    &&& after.solver == before.solver
}

/// Whether `after` is `before` after the solver moved in direction `d`: the
/// move, with the solver's timer restarted.
pub open spec fn moved_by_solver(before: &App, after: &App, d: MoveDirection) -> bool {
    &&& after.old_states@.len() > 0
    &&& after.old_states@.last().same_as(&before.state)
    &&& after.old_states@ == pushed(before.old_states@, before.old_states.limit(), after.old_states@.last())
    &&& after.old_states.limit() == before.old_states.limit()
    &&& moved_state(&before.state, &after.state, d)
    &&& after.should_exit == before.should_exit
    &&& after.solver_enabled == before.solver_enabled
    &&& after.solver.strategy == before.solver.strategy
    &&& after.solver.cooldown_nanos == before.solver.cooldown_nanos
    &&& after.solver.last_solved_at is Some
}

impl App {
    /// The grids of the current state and of every kept state have as many
    /// tiles as their dimensions give.
    pub open spec fn wf(&self) -> bool {
        &&& self.state.grid@.wf()
        &&& forall|k: int| 0 <= k < self.old_states@.len() ==> (#[trigger] self.old_states@[k]).grid@.wf()
    }

    /// Whether the session's state can take a move in any direction.
    pub open spec fn can_move(&self) -> bool {
        forall|d: MoveDirection| #[trigger] self.state.update_is_defined(d)
    }

    /// Tells whether the session's state can take a move in any direction.
    pub fn can_move_every_way(&self) -> (r: bool)
        ensures
            r == self.can_move(),
    {
        let directions = ALL_DIRECTIONS;
        assert(directions@ == direction_order());
        let mut i: usize = 0;
        while i < 4
            invariant
                directions@ == direction_order(),
                i <= 4,
                forall|k: int| 0 <= k < i ==> self.state.update_is_defined(#[trigger] direction_order()[k]),
            decreases 4 - i,
        {
            if !self.state.can_update(directions[i]) {
                return false;
            }
            i = i + 1;
        }
        assert forall|d: MoveDirection| #[trigger] self.state.update_is_defined(d) by {
            match d {
                MoveDirection::Left => assert(direction_order()[0] == d),
                MoveDirection::Right => assert(direction_order()[1] == d),
                MoveDirection::Up => assert(direction_order()[2] == d),
                MoveDirection::Down => assert(direction_order()[3] == d),
            }
        }
        true
    }

    /// A new session on the given state, with no history and the solver off.
    pub fn with_state(state: AppState) -> (app: Self)
        requires
            state.grid@.wf(),
        ensures
            app.wf(),
            app.state == state,
            !app.should_exit,
            app.old_states@ == Seq::<AppState>::empty(),
            app.old_states.limit() == DEFAULT_OLD_STATES_STACK_CAPACITY,
            !app.solver_enabled,
            app.solver.strategy == SolveStrategy::Greedy,
            app.solver.last_solved_at is None,
    {
        Self {
            should_exit: false,
            state,
            old_states: BoundedStack::new(DEFAULT_OLD_STATES_STACK_CAPACITY),
            solver_enabled: false,
            solver: Solver::default(),
        }
    }

    pub fn exit(&mut self)
        ensures
            final(self).should_exit,
            final(self).state == old(self).state,
            final(self).old_states == old(self).old_states,
            final(self).solver_enabled == old(self).solver_enabled,
            final(self).solver == old(self).solver,
    {
        self.should_exit = true;
    }

    fn save_state_to_history(&mut self)
        requires
            old(self).wf(),
        ensures
            final(self).wf(),
            final(self).old_states@.len() > 0,
            final(self).old_states@.last().same_as(&old(self).state),
            final(self).old_states@ == pushed(
                old(self).old_states@,
                old(self).old_states.limit(),
                final(self).old_states@.last(),
            ),
            final(self).old_states.limit() == old(self).old_states.limit(),
            final(self).state == old(self).state,
            final(self).should_exit == old(self).should_exit,
            final(self).solver_enabled == old(self).solver_enabled,
            final(self).solver == old(self).solver,
    {
        let copy = self.state.duplicate();
        let ghost kept = copy;
        self.old_states.push(copy);
        assert(self.old_states@.last() == kept);
        assert forall|k: int| 0 <= k < self.old_states@.len() implies (#[trigger] self.old_states@[k]).grid@.wf() by {
            if k < self.old_states@.len() - 1 {
                if old(self).old_states@.len() == old(self).old_states.limit() {
                    assert(self.old_states@[k] == old(self).old_states@[k + 1]);
                } else {
                    assert(self.old_states@[k] == old(self).old_states@[k]);
                }
            }
        }
    }

    /// Revert to the previous state if possible.
    pub fn undo(&mut self)
        requires
            old(self).wf(),
        ensures
            final(self).wf(),
            undone(old(self), final(self)),
    {
        if let Some(prev_state) = self.old_states.pop() {
            self.state = prev_state;
        }
        assert forall|k: int| 0 <= k < self.old_states@.len() implies (#[trigger] self.old_states@[k]).grid@.wf() by {
            assert(self.old_states@[k] == old(self).old_states@[k]);
        }
    }

    /// Start a new game, forgetting the states kept to go back to.
    pub fn restart(&mut self)
        requires
            old(self).wf(),
        ensures
            final(self).wf(),
            restarted(old(self), final(self)),
    {
        self.old_states.clear();
        self.state.restart();
    }

    pub fn toggle_solver(&mut self)
        requires
            old(self).wf(),
        ensures
            final(self).wf(),
            final(self).solver_enabled == !old(self).solver_enabled,
            final(self).state == old(self).state,
            final(self).old_states == old(self).old_states,
            final(self).should_exit == old(self).should_exit,
            final(self).solver == old(self).solver,
    {
        self.solver_enabled = !self.solver_enabled;
    }

    /// Keep the current state to go back to, then move in `direction`.
    pub fn update(&mut self, direction: MoveDirection)
        requires
            old(self).wf(),
            old(self).state.update_is_defined(direction),
        ensures
            final(self).wf(),
            updated(old(self), final(self), direction),
    {
        self.save_state_to_history();
        self.state.update(direction);
    }

    /// Let the solver move, when it is on and ready. A solver that has not
    /// solved before is always ready; after that, its cooldown decides.
    pub fn handle_solver_input(&mut self)
        requires
            old(self).wf(),
            old(self).can_move(),
            old(self).solver.strategy == SolveStrategy::Greedy ==> all_moves_defined(old(self).state.grid@),
        ensures
            final(self).wf(),
            !old(self).solver_enabled ==> *final(self) == *old(self),
            old(self).solver_enabled ==> (*final(self) == *old(self) && old(self).solver.last_solved_at is Some)
                || exists|d: MoveDirection|
                {
                    &&& old(self).solver.strategy == SolveStrategy::Greedy ==> d == greedy_choice(
                        old(self).state.grid@,
                        old(self).state.winning_target,
                    )
                    &&& #[trigger] moved_by_solver(old(self), final(self), d)
                },
    {
        if self.solver_enabled && self.solver.is_ready() {
            let ghost before = *self;
            let direction = self.solver.solve(&self.state);
            assert(self.state.update_is_defined(direction));
            self.update(direction);
            assert(moved_by_solver(&before, self, direction));
        }
    }

    /// Answer one command of the player.
    pub fn handle_command(&mut self, command: Command)
        requires
            old(self).wf(),
            command matches Command::Move(d) ==> old(self).state.update_is_defined(d),
        ensures
            final(self).wf(),
            command == Command::Exit ==> {
                &&& final(self).should_exit
                &&& final(self).state == old(self).state
                &&& final(self).old_states == old(self).old_states
                &&& final(self).solver_enabled == old(self).solver_enabled
                &&& final(self).solver == old(self).solver
            },
            command == Command::Restart ==> restarted(old(self), final(self)),
            command == Command::Undo ==> undone(old(self), final(self)),
            (command matches Command::Move(d) ==> updated(old(self), final(self), d)),
            command == Command::ToggleSolver ==> {
                &&& final(self).solver_enabled == !old(self).solver_enabled
                &&& final(self).state == old(self).state
                &&& final(self).old_states == old(self).old_states
                &&& final(self).should_exit == old(self).should_exit
                &&& final(self).solver == old(self).solver
            },
    {
        match command {
            Command::Exit => self.exit(),
            Command::Restart => self.restart(),
            Command::Undo => self.undo(),
            Command::Move(direction) => self.update(direction),
            Command::ToggleSolver => self.toggle_solver(),
        }
    }
}

/// Undo after a move gives back the state from before the move, and the
/// history from before it (less its oldest state, when it was full).
pub proof fn lemma_undo_reverts_update(before: &App, moved: &App, back: &App, d: MoveDirection)
    requires
        updated(before, moved, d),
        undone(moved, back),
    ensures
        back.state.same_as(&before.state),
        back.old_states@ == if before.old_states@.len() == before.old_states.limit() {
            before.old_states@.drop_first()
        } else {
            before.old_states@
        },
{
    let pushed_item = moved.old_states@.last();
    assert(pushed(before.old_states@, before.old_states.limit(), pushed_item).drop_last() =~= if before.old_states@.len()
        == before.old_states.limit() {
        before.old_states@.drop_first()
    } else {
        before.old_states@
    });
}

} // verus!
