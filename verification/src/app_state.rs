//! The state of one game: its grid, scores, turn and outcome.

use vstd::math::min;
use vstd::prelude::*;

use crate::game_state::GameState;
use crate::grid::{
    empty_count, index_of, is_spawnable, move_is_defined, move_total_score, moved_grid, on_line, Grid,
    GridView,
};
use crate::row::empties;
use crate::move_direction::MoveDirection;
use crate::random::random_range_inclusive;
use crate::tile::{as_i16, Tile};
use crate::vector2d::Vector2D;

verus! {

/// The number that wins the game.
pub const DEFAULT_WINNING_TARGET: u16 = 2048;

/// `AppState` manages the data that make up the business logic of this game.
#[derive(Clone, Debug)]
pub struct AppState {
    pub game_state: GameState,
    pub current_turn: u16,
    pub current_score: u16,
    pub best_score: u16,
    pub winning_target: u16,
    pub grid: Grid,
    pub new_tile_positions: Vec<Vector2D<usize>>,
}

/// Whether `after` is `before` with a new tile spawned at each position of
/// `added`: each of them inside the grid, empty before and holding a tile that
/// a spawn creates after, no two of them the same, and every other tile as it was.
pub open spec fn spawned(before: GridView, after: GridView, added: Seq<Vector2D<usize>>) -> bool {
    &&& after.rows == before.rows
    &&& after.cols == before.cols
    &&& after.tiles.len() == before.tiles.len()
    &&& forall|k: int|
        0 <= k < added.len() ==> {
            &&& before.contains(#[trigger] added[k])
            &&& before.cell(added[k]) == Tile::Empty
            &&& is_spawnable(after.cell(added[k]))
        }
    &&& forall|a: int, b: int|
        #![trigger added[a], added[b]]
        0 <= a < b < added.len() ==> index_of(before.cols as int, added[a]) != index_of(
            before.cols as int,
            added[b],
        )
    &&& forall|i: int|
        0 <= i < before.tiles.len() && !on_line(before, added, i) ==> #[trigger] after.tiles[i]
            == before.tiles[i]
}

/// Whether a spawn of one to three tiles on `before` produced `after` and the
/// positions `added`: at most three, and at least one when there was room.
pub open spec fn spawned_some(before: GridView, after: GridView, added: Seq<Vector2D<usize>>) -> bool {
    &&& spawned(before, after, added)
    &&& added.len() <= 3
    &&& before.has_empty() ==> added.len() >= 1
}

/// The score after adding `score` to `current`: the sum as `i16`, held
/// between 0 and `i16::MAX`.
pub open spec fn scored(current: u16, score: int) -> int {
    let sum = as_i16(current as int) + score;
    if sum < 0 {
        0
    } else if sum > 0x7fff {
        0x7fff
    } else {
        sum
    }
}

/// Whether adding `score` to `current` stays within `i16`.
pub open spec fn score_fits(current: u16, score: int) -> bool {
    i16::MIN <= as_i16(current as int) + score <= i16::MAX
}

/// A turn's score moves the current score by exactly its own amount, gain or
/// penalty, and the result is held between 0 and `i16::MAX`.
pub proof fn lemma_scored_adds_the_score(current: u16, score: int)
    requires
        current <= i16::MAX,
    ensures
        0 <= scored(current, score) <= i16::MAX,
        0 <= current + score <= i16::MAX ==> scored(current, score) == current + score,
        current + score < 0 ==> scored(current, score) == 0,
        current + score > i16::MAX ==> scored(current, score) == i16::MAX,
        score <= 0 ==> scored(current, score) <= current,
        score >= 0 ==> scored(current, score) >= current,
{
}

impl AppState {
    /// Whether `other` holds the same values: the same fields, the same tiles
    /// and the same new tile positions.
    pub open spec fn same_as(&self, other: &AppState) -> bool {
        &&& self.game_state == other.game_state
        &&& self.current_turn == other.current_turn
        &&& self.current_score == other.current_score
        &&& self.best_score == other.best_score
        &&& self.winning_target == other.winning_target
        &&& self.grid@ == other.grid@
        &&& self.new_tile_positions@ == other.new_tile_positions@
    }

    /// Whether a move in direction `d` stays within what it is written for: a
    /// finished game does nothing; a game in play needs a defined grid move, a
    /// score sum within `i16` and a turn counter below `u16::MAX`.
    pub open spec fn update_is_defined(&self, d: MoveDirection) -> bool {
        self.game_state == GameState::InPlay ==> {
            &&& move_is_defined(self.grid@, d)
            &&& score_fits(self.current_score, move_total_score(self.grid@, d))
            &&& self.current_turn < u16::MAX
        }
    }

    /// Tells whether `update` may be called with `direction`: the checks
    /// whose failure would make the move panic.
    pub fn can_update(&self, direction: MoveDirection) -> (r: bool)
        ensures
            r == self.update_is_defined(direction),
    {
        if self.game_state != GameState::InPlay {
            return true;
        }
        if self.current_turn == u16::MAX {
            return false;
        }
        match self.grid.checked_move_score(direction) {
            None => false,
            Some(score) => {
                let current_score = self.current_score;
                let current = current_score as i16;
                assert(current as int == as_i16(current_score as int)) by (bit_vector)
                    requires
                        current == current_score as i16,
                ;
                current.checked_add(score).is_some()
            },
        }
    }

    pub fn new(num_rows: usize, num_cols: usize) -> (app: Self)
        requires
            num_rows * num_cols <= usize::MAX,
        ensures
            app.game_state == GameState::InPlay,
            app.current_turn == 1,
            app.current_score == 0,
            app.best_score == 0,
            app.winning_target == DEFAULT_WINNING_TARGET,
            app.grid@.wf(),
            app.grid@.rows == num_rows,
            app.grid@.cols == num_cols,
            spawned_some(
                GridView { rows: num_rows as nat, cols: num_cols as nat, tiles: empties((num_rows * num_cols) as nat) },
                app.grid@,
                app.new_tile_positions@,
            ),
    {
        let mut app = Self {
            game_state: GameState::InPlay,
            current_turn: 1,
            current_score: 0,
            best_score: 0,
            winning_target: DEFAULT_WINNING_TARGET,
            grid: Grid::new(num_rows, num_cols),
            new_tile_positions: Vec::new(),
        };

        assert(app.grid@ == GridView {
            rows: num_rows as nat,
            cols: num_cols as nat,
            tiles: empties((num_rows * num_cols) as nat),
        });
        app.spawn_tiles();
        assert(app.new_tile_positions@.skip(0) =~= app.new_tile_positions@);
        app
    }

    /// This is used for unit testing.
    pub fn with_grid(grid: Grid) -> (app: Self)
        ensures
            app.game_state == GameState::InPlay,
            app.current_turn == 1,
            app.current_score == 0,
            app.best_score == 0,
            app.winning_target == DEFAULT_WINNING_TARGET,
            app.grid@ == grid@,
            app.new_tile_positions@ == Seq::<Vector2D<usize>>::empty(),
    {
        Self {
            game_state: GameState::InPlay,
            current_turn: 1,
            current_score: 0,
            best_score: 0,
            winning_target: DEFAULT_WINNING_TARGET,
            grid,
            new_tile_positions: Vec::new(),
        }
    }

    /// A state with the same values.
    pub fn duplicate(&self) -> (app: Self)
        ensures
            app.same_as(self),
    {
        let mut positions: Vec<Vector2D<usize>> = Vec::new();
        let mut i: usize = 0;
        while i < self.new_tile_positions.len()
            invariant
                i <= self.new_tile_positions@.len(),
                positions@ == self.new_tile_positions@.subrange(0, i as int),
            decreases self.new_tile_positions@.len() - i,
        {
            let p = self.new_tile_positions[i];
            positions.push(Vector2D::new(p.x, p.y));
            i = i + 1;
        }
        assert(positions@ =~= self.new_tile_positions@);
        Self {
            game_state: self.game_state,
            current_turn: self.current_turn,
            current_score: self.current_score,
            best_score: self.best_score,
            winning_target: self.winning_target,
            grid: self.grid.duplicate(),
            new_tile_positions: positions,
        }
    }

    /// Spawn anywhere between 1 - 3 new tiles if possible.
    fn spawn_tiles(&mut self)
        requires
            old(self).grid@.wf(),
        ensures
            final(self).game_state == old(self).game_state,
            final(self).current_turn == old(self).current_turn,
            final(self).current_score == old(self).current_score,
            final(self).best_score == old(self).best_score,
            final(self).winning_target == old(self).winning_target,
            final(self).grid@.wf(),
            final(self).new_tile_positions@.len() >= old(self).new_tile_positions@.len(),
            final(self).new_tile_positions@.subrange(0, old(self).new_tile_positions@.len() as int)
                == old(self).new_tile_positions@,
            spawned_some(
                old(self).grid@,
                final(self).grid@,
                final(self).new_tile_positions@.skip(old(self).new_tile_positions@.len() as int),
            ),
    {
        let num_spawns = random_range_inclusive(1, 3);
        proof {
            crate::grid::lemma_empty_count_positive(self.grid@.tiles);
        }
        self.spawn_n(num_spawns);
    }

    /// Spawn `n` new tiles, one after another, each on a random empty cell, or
    /// as many as there are empty cells when there are fewer. The positions
    /// are added to `new_tile_positions`.
    pub fn spawn_n(&mut self, n: i32)
        requires
            old(self).grid@.wf(),
            0 <= n,
        ensures
            final(self).game_state == old(self).game_state,
            final(self).current_turn == old(self).current_turn,
            final(self).current_score == old(self).current_score,
            final(self).best_score == old(self).best_score,
            final(self).winning_target == old(self).winning_target,
            final(self).grid@.wf(),
            final(self).new_tile_positions@.len() >= old(self).new_tile_positions@.len(),
            final(self).new_tile_positions@.subrange(0, old(self).new_tile_positions@.len() as int)
                == old(self).new_tile_positions@,
            spawned(
                old(self).grid@,
                final(self).grid@,
                final(self).new_tile_positions@.skip(old(self).new_tile_positions@.len() as int),
            ),
            final(self).new_tile_positions@.len() - old(self).new_tile_positions@.len() == min(
                n as int,
                empty_count(old(self).grid@.tiles) as int,
            ),
    {
        let ghost g0 = self.grid@;
        let ghost base = self.new_tile_positions@;
        let mut k: i32 = 0;
        while k < n
            invariant
                0 <= k <= n,
                self.grid@.wf(),
                self.game_state == old(self).game_state,
                self.current_turn == old(self).current_turn,
                self.current_score == old(self).current_score,
                self.best_score == old(self).best_score,
                self.winning_target == old(self).winning_target,
                self.new_tile_positions@.len() >= base.len(),
                self.new_tile_positions@.subrange(0, base.len() as int) == base,
                self.new_tile_positions@.len() - base.len() <= k,
                spawned(g0, self.grid@, self.new_tile_positions@.skip(base.len() as int)),
                empty_count(self.grid@.tiles) + (self.new_tile_positions@.len() - base.len()) == empty_count(
                    g0.tiles,
                ),
                self.new_tile_positions@.len() - base.len() == min(k as int, empty_count(g0.tiles) as int),
            decreases n - k,
        {
            let ghost before = self.grid@;
            let ghost added = self.new_tile_positions@.skip(base.len() as int);
            proof {
                crate::grid::lemma_empty_count_positive(before.tiles);
            }
            if let Some(position) = self.grid.spawn_random_tile_at_random_location() {
                self.new_tile_positions.push(position);
                proof {
                    crate::grid::lemma_index_in_bounds(g0.rows as int, g0.cols as int, position);
                    crate::grid::lemma_empty_count_fill(
                        before.tiles,
                        index_of(g0.cols as int, position),
                        self.grid@.cell(position),
                    );
                    assert(self.grid@.tiles == before.tiles.update(
                        index_of(g0.cols as int, position),
                        self.grid@.cell(position),
                    ));
                    let added2 = self.new_tile_positions@.skip(base.len() as int);
                    assert(added2 =~= added.push(position));
                    // The new position was empty, so no earlier spawn used it.
                    assert forall|a: int| 0 <= a < added.len() implies index_of(g0.cols as int, #[trigger] added[a])
                        != index_of(g0.cols as int, position) by {
                        if index_of(g0.cols as int, added[a]) == index_of(g0.cols as int, position) {
                            assert(is_spawnable(before.cell(added[a])));
                        }
                    }
                    assert(!on_line(g0, added, index_of(g0.cols as int, position)));
                    assert forall|i: int|
                        0 <= i < g0.tiles.len() && !on_line(g0, added2, i) implies #[trigger] self.grid@.tiles[i]
                        == g0.tiles[i] by {
                        if on_line(g0, added, i) {
                            let j = choose|j: int| 0 <= j < added.len() && index_of(g0.cols as int, #[trigger] added[j]) == i;
                            assert(added2[j] == added[j]);
                        }
                        if i == index_of(g0.cols as int, position) {
                            assert(added2[added.len() as int] == position);
                        }
                    }
                    assert forall|kk: int| 0 <= kk < added2.len() implies {
                        &&& g0.contains(#[trigger] added2[kk])
                        &&& g0.cell(added2[kk]) == Tile::Empty
                        &&& is_spawnable(self.grid@.cell(added2[kk]))
                    } by {
                        if kk < added.len() {
                            assert(added2[kk] == added[kk]);
                            lemma_index_in_bounds_at(g0, added[kk]);
                            assert(self.grid@.cell(added[kk]) == before.cell(added[kk]));
                        } else {
                            assert(added2[kk] == position);
                        }
                    }
                    assert forall|a: int, b: int|
                        #![trigger added2[a], added2[b]]
                        0 <= a < b < added2.len() implies index_of(g0.cols as int, added2[a]) != index_of(
                            g0.cols as int,
                            added2[b],
                        ) by {
                        if b == added.len() {
                            assert(added2[a] == added[a]);
                            assert(added2[b] == position);
                        } else {
                            assert(added2[a] == added[a] && added2[b] == added[b]);
                        }
                    }
                    assert(self.new_tile_positions@.subrange(0, base.len() as int) =~= base);
                }
            }
            k = k + 1;
        }
    }

    /// Reset to an initial state for a new game.
    pub fn restart(&mut self)
        requires
            old(self).grid@.wf(),
        ensures
            final(self).game_state == GameState::InPlay,
            final(self).current_turn == 1,
            final(self).current_score == 0,
            final(self).best_score == old(self).best_score,
            final(self).winning_target == old(self).winning_target,
            final(self).grid@.wf(),
            spawned_some(
                old(self).grid@.with_tiles(empties(old(self).grid@.tiles.len())),
                final(self).grid@,
                final(self).new_tile_positions@,
            ),
    {
        self.game_state = GameState::InPlay;
        self.current_turn = 1;
        self.current_score = 0;

        self.grid.clear();
        self.new_tile_positions.clear();
        self.spawn_tiles();
        assert(self.new_tile_positions@.skip(0) =~= self.new_tile_positions@);
    }

    /// This is the big logic update function, called after any gameplay event
    /// that may affect the game state.
    pub fn update(&mut self, direction: MoveDirection)
        requires
            old(self).grid@.wf(),
            old(self).update_is_defined(direction),
        ensures
            final(self).grid@.wf(),
            old(self).game_state != GameState::InPlay ==> *final(self) == *old(self),
            old(self).game_state == GameState::InPlay ==> {
                let moved = moved_grid(old(self).grid@, direction);
                let score = move_total_score(old(self).grid@, direction);
                &&& final(self).current_score == scored(old(self).current_score, score)
                &&& final(self).best_score == if final(self).current_score > old(self).best_score {
                    final(self).current_score
                } else {
                    old(self).best_score
                }
                &&& final(self).current_turn == old(self).current_turn + 1
                &&& final(self).winning_target == old(self).winning_target
                &&& spawned_some(moved, final(self).grid@, final(self).new_tile_positions@)
                &&& final(self).game_state == if final(self).grid@.is_dead() {
                    GameState::Lost
                } else if moved.contains_value(old(self).winning_target) {
                    GameState::Won
                } else {
                    GameState::InPlay
                }
            },
    {
        if matches!(self.game_state, GameState::Won | GameState::Lost) {
            return;
        }

        let score = self.grid.update(direction);
        self.update_scores(score);
        self.current_turn += 1;
        self.new_tile_positions.clear();
        self.check_if_won();

        self.spawn_tiles();
        assert(self.new_tile_positions@.skip(0) =~= self.new_tile_positions@);
        self.check_if_lost();
    }

    /// Update both `current_score` and `best_score`.
    fn update_scores(&mut self, score: i16)
        requires
            score_fits(old(self).current_score, score as int),
        ensures
            final(self).current_score == scored(old(self).current_score, score as int),
            final(self).best_score == if final(self).current_score > old(self).best_score {
                final(self).current_score
            } else {
                old(self).best_score
            },
            final(self).game_state == old(self).game_state,
            final(self).current_turn == old(self).current_turn,
            final(self).winning_target == old(self).winning_target,
            final(self).grid == old(self).grid,
            final(self).new_tile_positions == old(self).new_tile_positions,
    {
        let current_score = self.current_score;
        let current = current_score as i16;
        assert(current as int == as_i16(current_score as int)) by (bit_vector)
            requires
                current == current_score as i16,
        ;
        let updated_score = current + score;
        let updated_score = if updated_score < 0 {
            0
        } else if updated_score > i16::MAX {
            i16::MAX
        } else {
            updated_score
        };
        self.current_score = updated_score as u16;

        if self.current_score > self.best_score {
            self.best_score = self.current_score;
        }
    }

    fn check_if_won(&mut self)
        ensures
            final(self).game_state == if old(self).grid@.contains_value(old(self).winning_target) {
                GameState::Won
            } else {
                old(self).game_state
            },
            final(self).current_turn == old(self).current_turn,
            final(self).current_score == old(self).current_score,
            final(self).best_score == old(self).best_score,
            final(self).winning_target == old(self).winning_target,
            final(self).grid == old(self).grid,
            final(self).new_tile_positions == old(self).new_tile_positions,
    {
        if self.grid.contains_value(self.winning_target) {
            self.game_state = GameState::Won;
        }
    }

    fn check_if_lost(&mut self)
        requires
            old(self).grid@.wf(),
            crate::grid::walkable(old(self).grid@),
        ensures
            final(self).game_state == if old(self).grid@.is_dead() {
                GameState::Lost
            } else {
                old(self).game_state
            },
            final(self).current_turn == old(self).current_turn,
            final(self).current_score == old(self).current_score,
            final(self).best_score == old(self).best_score,
            final(self).winning_target == old(self).winning_target,
            final(self).grid == old(self).grid,
            final(self).new_tile_positions == old(self).new_tile_positions,
    {
        if self.grid.is_dead() {
            self.game_state = GameState::Lost;
        }
    }
}

proof fn lemma_index_in_bounds_at(g: GridView, p: Vector2D<usize>)
    requires
        g.contains(p),
    ensures
        0 <= index_of(g.cols as int, p) < g.rows * g.cols,
{
    crate::grid::lemma_index_in_bounds(g.rows as int, g.cols as int, p);
}

} // verus!
