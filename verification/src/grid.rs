//! The grid of tiles and the moves that slide and merge them.

use vstd::prelude::*;

use crate::move_direction::MoveDirection;
use crate::random::{choose_one, random_range_inclusive};
use crate::row::{
    filled_places, lemma_filled_places, lemma_move_never_adds_tiles, lemma_moved_is_slid,
    empties, is_slid, lemma_merged_len, lemma_merges_defined_prefix, lemma_non_empty_len,
    lemma_move_of_stuck_line, lemma_slid_when_sorted, lemma_swap_keeps_non_empty, merged, merged_score,
    merges_defined, move_defined, move_line_checked, move_score, moved, non_empty,
    pair_count, slid,
};
use crate::tile::{mergeable, Tile};
use crate::vector2d::Vector2D;

verus! {

/*
    +-------> x
    |
    |
    V
    y

    For example, in this map with num_rows=2, num_cols=4, '4' is at position x=2, y=0.

        .   .   4   .
        .  32   .  16
*/

/// Grid is responsible for operations on its Tiles.
///
/// Its tiles are stored row after row: the tile at `(x, y)` is at index
/// `x + y * num_cols`.
#[derive(Clone, Debug)]
pub struct Grid {
    pub num_rows: usize,
    pub num_cols: usize,
    tiles: Vec<Tile>,
}

/// What a grid holds: its dimensions and its tiles, row after row.
pub struct GridView {
    pub rows: nat,
    pub cols: nat,
    pub tiles: Seq<Tile>,
}

impl View for Grid {
    type V = GridView;

    closed spec fn view(&self) -> GridView {
        GridView { rows: self.num_rows as nat, cols: self.num_cols as nat, tiles: self.tiles@ }
    }
}

impl GridView {
    /// The number of tiles matches the dimensions.
    pub open spec fn wf(self) -> bool {
        self.tiles.len() == self.rows * self.cols
    }

    /// Whether `p` lies inside the grid.
    pub open spec fn contains(self, p: Vector2D<usize>) -> bool {
        in_grid(self.rows as int, self.cols as int, p)
    }

    /// The tile at `p`.
    pub open spec fn cell(self, p: Vector2D<usize>) -> Tile {
        self.tiles[index_of(self.cols as int, p)]
    }

    /// The same dimensions with other tiles.
    pub open spec fn with_tiles(self, tiles: Seq<Tile>) -> GridView {
        GridView { rows: self.rows, cols: self.cols, tiles }
    }
}

/// The index of the tile at `p` in a grid with `cols` columns.
pub open spec fn index_of(cols: int, p: Vector2D<usize>) -> int {
    p.x + p.y * cols
}

/// Whether `p` lies inside a grid of `rows` rows and `cols` columns.
pub open spec fn in_grid(rows: int, cols: int, p: Vector2D<usize>) -> bool {
    p.x < cols && p.y < rows
}

/// Two positions inside a grid have the same index only if they are the same.
pub proof fn lemma_index_injective(rows: int, cols: int, p: Vector2D<usize>, q: Vector2D<usize>)
    requires
        in_grid(rows, cols, p),
        in_grid(rows, cols, q),
        index_of(cols, p) == index_of(cols, q),
    ensures
        p.x == q.x,
        p.y == q.y,
{
    let (px, py, qx, qy) = (p.x as int, p.y as int, q.x as int, q.y as int);
    assert(px == qx && py == qy) by (nonlinear_arith)
        requires
            0 <= px < cols,
            0 <= qx < cols,
            0 <= py,
            0 <= qy,
            px + py * cols == qx + qy * cols,
    {
        if py < qy {
            assert(py * cols + cols <= qy * cols);
        } else if qy < py {
            assert(qy * cols + cols <= py * cols);
        }
    }
}

/// A position inside the grid has an index below the number of tiles.
pub proof fn lemma_index_in_bounds(rows: int, cols: int, p: Vector2D<usize>)
    requires
        in_grid(rows, cols, p),
    ensures
        0 <= index_of(cols, p) < rows * cols,
{
    let (px, py) = (p.x as int, p.y as int);
    assert(0 <= px + py * cols < rows * cols) by (nonlinear_arith)
        requires
            0 <= px < cols,
            0 <= py < rows,
    {
        assert(py * cols + cols <= rows * cols);
    }
}

impl Grid {
    /// The dimensions as a pair of integers.
    pub fn dimensions(&self) -> (r: (usize, usize))
        ensures
            r.0 == self@.rows,
            r.1 == self@.cols,
    {
        (self.num_rows, self.num_cols)
    }

    /// Create a Grid with no tiles.
    pub fn new(num_rows: usize, num_cols: usize) -> (g: Self)
        requires
            num_rows * num_cols <= usize::MAX,
        ensures
            g@.wf(),
            g@.rows == num_rows,
            g@.cols == num_cols,
            g@.tiles == empties((num_rows * num_cols) as nat),
    {
        let g = Self { num_rows, num_cols, tiles: vec![Tile::new_empty(); num_rows * num_cols] };
        assert(g@.tiles =~= empties((num_rows * num_cols) as nat));
        g
    }

    /// Create a Grid with the given dimensions and tiles, stored row after row.
    pub fn from_tiles(num_rows: usize, num_cols: usize, tiles: Vec<Tile>) -> (g: Self)
        ensures
            g@ == (GridView { rows: num_rows as nat, cols: num_cols as nat, tiles: tiles@ }),
    {
        Self { num_rows, num_cols, tiles }
    }

    /// The tiles, row after row.
    pub fn tiles(&self) -> (r: &Vec<Tile>)
        ensures
            r@ == self@.tiles,
    {
        &self.tiles
    }

    /// A grid with the same dimensions and tiles.
    pub fn duplicate(&self) -> (g: Self)
        ensures
            g@ == self@,
    {
        let mut tiles: Vec<Tile> = Vec::new();
        let mut i: usize = 0;
        while i < self.tiles.len()
            invariant
                i <= self.tiles@.len(),
                tiles@ == self.tiles@.subrange(0, i as int),
            decreases self.tiles@.len() - i,
        {
            tiles.push(self.tiles[i]);
            i = i + 1;
        }
        assert(tiles@ =~= self.tiles@);
        Self { num_rows: self.num_rows, num_cols: self.num_cols, tiles }
    }

    /// Set all tiles to empty.
    pub fn clear(&mut self)
        ensures
            final(self)@ == old(self)@.with_tiles(empties(old(self)@.tiles.len())),
    {
        let mut i: usize = 0;
        while i < self.tiles.len()
            invariant
                i <= self.tiles@.len(),
                self.tiles@.len() == old(self).tiles@.len(),
                self.num_rows == old(self).num_rows,
                self.num_cols == old(self).num_cols,
                forall|j: int| 0 <= j < i ==> #[trigger] self.tiles@[j] == Tile::Empty,
            decreases self.tiles@.len() - i,
        {
            self.tiles.set(i, Tile::new_empty());
            i = i + 1;
        }
        assert(self@.tiles =~= empties(old(self)@.tiles.len()));
    }

    pub fn get_tile(&self, position: &Vector2D<usize>) -> (t: &Tile)
        requires
            self@.wf(),
            self@.contains(*position),
        ensures
            *t == self@.cell(*position),
    {
        let index = self.get_1d_index(position);
        &self.tiles[index]
    }

    fn set_tile(&mut self, position: &Vector2D<usize>, tile: Tile)
        requires
            old(self)@.wf(),
            old(self)@.contains(*position),
        ensures
            final(self)@ == old(self)@.with_tiles(
                old(self)@.tiles.update(index_of(old(self)@.cols as int, *position), tile),
            ),
    {
        let index = self.get_1d_index(position);
        self.tiles.set(index, tile);
    }

    /// Swap the contents of the tiles at the 2 given positions.
    fn swap_tiles(&mut self, a_position: &Vector2D<usize>, b_position: &Vector2D<usize>)
        requires
            old(self)@.wf(),
            old(self)@.contains(*a_position),
            old(self)@.contains(*b_position),
        ensures
            final(self)@ == old(self)@.with_tiles(
                old(self)@.tiles.update(
                    index_of(old(self)@.cols as int, *a_position),
                    old(self)@.cell(*b_position),
                ).update(index_of(old(self)@.cols as int, *b_position), old(self)@.cell(*a_position)),
            ),
    {
        let a_index = self.get_1d_index(a_position);
        let b_index = self.get_1d_index(b_position);
        let a_tile = self.tiles[a_index];
        let b_tile = self.tiles[b_index];
        self.tiles.set(a_index, b_tile);
        self.tiles.set(b_index, a_tile);
    }

    fn get_1d_index(&self, position: &Vector2D<usize>) -> (index: usize)
        requires
            self@.wf(),
            self@.contains(*position),
        ensures
            index == index_of(self@.cols as int, *position),
            index < self@.tiles.len(),
    {
        proof {
            lemma_index_in_bounds(self.num_rows as int, self.num_cols as int, *position);
            assert(self.tiles@.len() == self.tiles.len());
        }
        position.x + position.y * self.num_cols
    }

    fn get_2d_position(&self, index: usize) -> (p: Vector2D<usize>)
        requires
            self@.cols > 0,
        ensures
            p.x == (index as int) % (self@.cols as int),
            p.y == (index as int) / (self@.cols as int),
    {
        let x = index % self.num_cols;
        let y = index / self.num_cols;
        Vector2D::new(x, y)
    }
}

/// The number of lines that a move in direction `d` slides tiles along: the
/// rows for a move left or right, the columns for a move up or down.
pub open spec fn line_count(d: MoveDirection, rows: int, cols: int) -> int {
    match d {
        MoveDirection::Left | MoveDirection::Right => rows,
        MoveDirection::Up | MoveDirection::Down => cols,
    }
}

/// The number of tiles on each line of a move in direction `d`.
pub open spec fn line_length(d: MoveDirection, rows: int, cols: int) -> int {
    match d {
        MoveDirection::Left | MoveDirection::Right => cols,
        MoveDirection::Up | MoveDirection::Down => rows,
    }
}

/// The position of the `j`-th tile of line `r` of a move in direction `d`,
/// counted from the side toward which the tiles slide.
pub open spec fn line_position(d: MoveDirection, rows: int, cols: int, r: int, j: int) -> Vector2D<usize> {
    match d {
        MoveDirection::Left => Vector2D { x: j as usize, y: r as usize },
        MoveDirection::Right => Vector2D { x: (cols - 1 - j) as usize, y: r as usize },
        MoveDirection::Up => Vector2D { x: r as usize, y: j as usize },
        MoveDirection::Down => Vector2D { x: r as usize, y: (rows - 1 - j) as usize },
    }
}

/// The unit step from one tile of a line to the next, away from the side
/// toward which the tiles slide.
pub open spec fn direction_offset(d: MoveDirection) -> Vector2D<i8> {
    match d {
        MoveDirection::Left => Vector2D { x: 1, y: 0 },
        MoveDirection::Right => Vector2D { x: -1i8, y: 0 },
        MoveDirection::Up => Vector2D { x: 0, y: 1 },
        MoveDirection::Down => Vector2D { x: 0, y: -1i8 },
    }
}

/// Whether `o` is one of the four unit steps.
pub open spec fn is_unit_offset(o: Vector2D<i8>) -> bool {
    ||| (o.x == 1 && o.y == 0)
    ||| (o.x == -1 && o.y == 0)
    ||| (o.x == 0 && o.y == 1)
    ||| (o.x == 0 && o.y == -1)
}

/// How many positions, `start` included, the unit step `o` visits from
/// `start` before it leaves the grid.
pub open spec fn steps_in_grid(rows: int, cols: int, start: Vector2D<usize>, o: Vector2D<i8>) -> int {
    if o.x == 1 {
        cols - start.x
    } else if o.x == -1 {
        start.x + 1
    } else if o.y == 1 {
        rows - start.y
    } else {
        start.y + 1
    }
}

/// Whether the dimensions suit the line walks, which count with `i8`
/// coordinates: both at least 1 and at most `i8::MAX`.
pub open spec fn walkable(g: GridView) -> bool {
    1 <= g.rows <= i8::MAX && 1 <= g.cols <= i8::MAX
}

impl Grid {
    /// Given a `direction`, return  a vector containing positions that would be
    /// the starting position of each directional row in `generate_positional_rows`.
    pub fn generate_starting_positions(&self, direction: MoveDirection) -> (r: Vec<Vector2D<usize>>)
        requires
            direction == MoveDirection::Right ==> self@.cols >= 1,
            direction == MoveDirection::Down ==> self@.rows >= 1,
        ensures
            r@.len() == line_count(direction, self@.rows as int, self@.cols as int),
            forall|k: int|
                0 <= k < r@.len() ==> #[trigger] r@[k] == line_position(
                    direction,
                    self@.rows as int,
                    self@.cols as int,
                    k,
                    0,
                ),
    {
        let ghost rows = self@.rows as int;
        let ghost cols = self@.cols as int;
        let mut starts: Vec<Vector2D<usize>> = Vec::new();
        match direction {
            MoveDirection::Left | MoveDirection::Right => {
                let x = if direction == MoveDirection::Left {
                    0
                } else {
                    self.num_cols - 1
                };
                let mut y: usize = 0;
                while y < self.num_rows
                    invariant
                        rows == self@.rows,
                        cols == self@.cols,
                        direction == MoveDirection::Left || direction == MoveDirection::Right,
                        x == (if direction == MoveDirection::Left { 0 } else { cols - 1 }),
                        y <= rows,
                        starts@.len() == y,
                        forall|k: int|
                            0 <= k < y ==> #[trigger] starts@[k] == line_position(direction, rows, cols, k, 0),
                    decreases rows - y,
                {
                    starts.push(Vector2D::new(x, y));
                    y = y + 1;
                }
            },
            MoveDirection::Up | MoveDirection::Down => {
                let y = if direction == MoveDirection::Up {
                    0
                } else {
                    self.num_rows - 1
                };
                let mut x: usize = 0;
                while x < self.num_cols
                    invariant
                        rows == self@.rows,
                        cols == self@.cols,
                        direction == MoveDirection::Up || direction == MoveDirection::Down,
                        y == (if direction == MoveDirection::Up { 0 } else { rows - 1 }),
                        x <= cols,
                        starts@.len() == x,
                        forall|k: int|
                            0 <= k < x ==> #[trigger] starts@[k] == line_position(direction, rows, cols, k, 0),
                    decreases cols - x,
                {
                    starts.push(Vector2D::new(x, y));
                    x = x + 1;
                }
            },
        }
        starts
    }

    /// Given a `direction` enum, return a unit vector in 2D space representing the
    /// opposite direction to expand towards.
    fn generate_direction_offset(&self, direction: MoveDirection) -> (o: Vector2D<i8>)
        ensures
            o == direction_offset(direction),
    {
        match direction {
            MoveDirection::Left => Vector2D::new(1, 0),
            MoveDirection::Right => Vector2D::new(-1, 0),
            MoveDirection::Up => Vector2D::new(0, 1),
            MoveDirection::Down => Vector2D::new(0, -1),
        }
    }

    /// Check if the given position (containing signed values) is valid.
    fn is_valid_position(&self, pos: &Vector2D<i8>) -> (r: bool)
        ensures
            r == (0 <= pos.x < (self.num_cols as i8) && 0 <= pos.y < (self.num_rows as i8)),
    {
        let num_rows = self.num_rows as i8;
        let num_cols = self.num_cols as i8;

        0 <= pos.x && pos.x < num_cols && 0 <= pos.y && pos.y < num_rows
    }

    /// Return a vector containing all positions in a `positional_row`,
    /// given a starting position and `offset` as a direction vector to keep checking
    /// for next positions to add to this `positional_row`.
    ///
    /// This implementation converts the input usize to i8 to allow signed operations,
    /// with the reasonable assumption that the grid dimensions (`num_rows` and `num_cols` from user input)
    /// would not exceed i8::MAX.
    fn generate_positional_row(&self, starting_position: &Vector2D<usize>, offset: Vector2D<i8>) -> (row: Vec<Vector2D<usize>>)
        requires
            walkable(self@),
            self@.contains(*starting_position),
            is_unit_offset(offset),
        ensures
            row@.len() == steps_in_grid(self@.rows as int, self@.cols as int, *starting_position, offset),
            forall|j: int|
                0 <= j < row@.len() ==> #[trigger] row@[j] == (Vector2D {
                    x: (starting_position.x + j * offset.x) as usize,
                    y: (starting_position.y + j * offset.y) as usize,
                }),
    {
        let ghost rows = self@.rows as int;
        let ghost cols = self@.cols as int;
        let ghost start = *starting_position;
        let ghost steps = steps_in_grid(rows, cols, start, offset);
        assert((self.num_rows as i8) as int == rows && (self.num_cols as i8) as int == cols);
        let mut row: Vec<Vector2D<usize>> = Vec::new();
        let mut pos = Vector2D::new(starting_position.x as i8, starting_position.y as i8);
        while self.is_valid_position(&pos)
            invariant
                rows == self@.rows,
                cols == self@.cols,
                (self.num_rows as i8) as int == rows,
                (self.num_cols as i8) as int == cols,
                walkable(self@),
                self@.contains(start),
                is_unit_offset(offset),
                steps == steps_in_grid(rows, cols, start, offset),
                row@.len() <= steps,
                pos.x == start.x + row@.len() * offset.x,
                pos.y == start.y + row@.len() * offset.y,
                forall|j: int|
                    0 <= j < row@.len() ==> #[trigger] row@[j] == (Vector2D {
                        x: (start.x + j * offset.x) as usize,
                        y: (start.y + j * offset.y) as usize,
                    }),
            decreases steps - row@.len(),
        {
            let valid_position = Vector2D::new(pos.x as usize, pos.y as usize);
            row.push(valid_position);
            pos.add_assign(offset);
        }
        row
    }

    /// Given a `direction`, return a vector containing `positional_rows`, which are vectors containing positions.
    ///
    /// A `positional_row` is a vector containing the positions in order in a horizontal or vertical group of tiles.
    /// The ordering is most natural to understand in the case with direction = LEFT, so that
    /// the first item in the vector corresponds to the first (leftmost) item in a physical horizontal row.
    pub fn generate_positional_rows(&self, direction: MoveDirection) -> (lines: Vec<Vec<Vector2D<usize>>>)
        requires
            walkable(self@),
        ensures
            lines@.len() == line_count(direction, self@.rows as int, self@.cols as int),
            forall|r: int|
                0 <= r < lines@.len() ==> (#[trigger] lines@[r])@.len() == line_length(
                    direction,
                    self@.rows as int,
                    self@.cols as int,
                ),
            forall|r: int, j: int|
                0 <= r < lines@.len() && 0 <= j < lines@[r]@.len() ==> #[trigger] lines@[r]@[j]
                    == line_position(direction, self@.rows as int, self@.cols as int, r, j),
    {
        let ghost rows = self@.rows as int;
        let ghost cols = self@.cols as int;
        let starting_positions = self.generate_starting_positions(direction);
        let offset = self.generate_direction_offset(direction);
        let mut lines: Vec<Vec<Vector2D<usize>>> = Vec::new();
        let mut k: usize = 0;
        while k < starting_positions.len()
            invariant
                rows == self@.rows,
                cols == self@.cols,
                walkable(self@),
                offset == direction_offset(direction),
                starting_positions@.len() == line_count(direction, rows, cols),
                forall|i: int|
                    0 <= i < starting_positions@.len() ==> #[trigger] starting_positions@[i]
                        == line_position(direction, rows, cols, i, 0),
                k <= starting_positions@.len(),
                lines@.len() == k,
                forall|r: int| 0 <= r < k ==> (#[trigger] lines@[r])@.len() == line_length(direction, rows, cols),
                forall|r: int, j: int|
                    0 <= r < k && 0 <= j < lines@[r]@.len() ==> #[trigger] lines@[r]@[j]
                        == line_position(direction, rows, cols, r, j),
            decreases starting_positions@.len() - k,
        {
            let start = &starting_positions[k];
            let row = self.generate_positional_row(start, offset);
            assert forall|j: int| 0 <= j < row@.len() implies #[trigger] row@[j] == line_position(direction, rows, cols, k as int, j) by {
                assert(row@[j] == (Vector2D {
                    x: (start.x + j * offset.x) as usize,
                    y: (start.y + j * offset.y) as usize,
                }));
                match direction {
                    MoveDirection::Left => {
                        assert(start.x + j * offset.x == j);
                    },
                    MoveDirection::Right => {
                        assert(start.x + j * offset.x == cols - 1 - j);
                    },
                    MoveDirection::Up => {
                        assert(start.y + j * offset.y == j);
                    },
                    MoveDirection::Down => {
                        assert(start.y + j * offset.y == rows - 1 - j);
                    },
                }
            }
            lines.push(row);
            k = k + 1;
        }
        lines
    }
}

/// Whether `row` lists positions inside the grid, no two of them the same.
pub open spec fn is_line(g: GridView, row: Seq<Vector2D<usize>>) -> bool {
    &&& forall|j: int| 0 <= j < row.len() ==> g.contains(#[trigger] row[j])
    &&& forall|a: int, b: int|
        #![trigger row[a], row[b]]
        0 <= a < b < row.len() ==> index_of(g.cols as int, row[a]) != index_of(g.cols as int, row[b])
}

/// The tiles at the positions of `row`, in its order.
pub open spec fn values_along(g: GridView, row: Seq<Vector2D<usize>>) -> Seq<Tile> {
    Seq::new(row.len(), |j: int| g.cell(row[j]))
}

/// Whether index `i` is the index of some position of `row`.
pub open spec fn on_line(g: GridView, row: Seq<Vector2D<usize>>, i: int) -> bool {
    exists|j: int| 0 <= j < row.len() && index_of(g.cols as int, #[trigger] row[j]) == i
}

/// Whether `h` has the dimensions of `g` and the same tiles off the positions of `row`.
pub open spec fn same_off_line(g: GridView, h: GridView, row: Seq<Vector2D<usize>>) -> bool {
    &&& h.rows == g.rows
    &&& h.cols == g.cols
    &&& h.tiles.len() == g.tiles.len()
    &&& forall|i: int| 0 <= i < g.tiles.len() && !on_line(g, row, i) ==> #[trigger] h.tiles[i] == g.tiles[i]
}

/// Writing tiles at two positions of a line writes them along it, and nowhere else.
proof fn lemma_set_pair_along(g: GridView, row: Seq<Vector2D<usize>>, i: int, j: int, ti: Tile, tj: Tile)
    requires
        g.wf(),
        is_line(g, row),
        0 <= i < row.len(),
        0 <= j < row.len(),
        i != j,
    ensures
        ({
            let h = g.with_tiles(
                g.tiles.update(index_of(g.cols as int, row[i]), ti).update(index_of(g.cols as int, row[j]), tj),
            );
            &&& values_along(h, row) == values_along(g, row).update(i, ti).update(j, tj)
            &&& same_off_line(g, h, row)
        }),
{
    let h = g.with_tiles(
        g.tiles.update(index_of(g.cols as int, row[i]), ti).update(index_of(g.cols as int, row[j]), tj),
    );
    assert(g.contains(row[i]) && g.contains(row[j]));
    lemma_index_in_bounds(g.rows as int, g.cols as int, row[i]);
    lemma_index_in_bounds(g.rows as int, g.cols as int, row[j]);
    assert forall|k: int| 0 <= k < row.len() implies #[trigger] values_along(h, row)[k]
        == values_along(g, row).update(i, ti).update(j, tj)[k] by {
        assert(g.contains(row[k]));
        lemma_index_in_bounds(g.rows as int, g.cols as int, row[k]);
        if k != i && k != j {
            if k < i {
                assert(index_of(g.cols as int, row[k]) != index_of(g.cols as int, row[i]));
            } else {
                assert(index_of(g.cols as int, row[i]) != index_of(g.cols as int, row[k]));
            }
            if k < j {
                assert(index_of(g.cols as int, row[k]) != index_of(g.cols as int, row[j]));
            } else {
                assert(index_of(g.cols as int, row[j]) != index_of(g.cols as int, row[k]));
            }
        }
        if k == i {
            if i < j {
                assert(index_of(g.cols as int, row[i]) != index_of(g.cols as int, row[j]));
            } else {
                assert(index_of(g.cols as int, row[j]) != index_of(g.cols as int, row[i]));
            }
        }
    }
    assert(values_along(h, row) =~= values_along(g, row).update(i, ti).update(j, tj));
    assert forall|x: int| 0 <= x < g.tiles.len() && !on_line(g, row, x) implies #[trigger] h.tiles[x]
        == g.tiles[x] by {
        if index_of(g.cols as int, row[i]) == x {
            assert(on_line(g, row, x));
        }
        if index_of(g.cols as int, row[j]) == x {
            assert(on_line(g, row, x));
        }
    }
}

impl Grid {
    /// Move all tiles in this row as far as possible,
    /// by repeatedly swapping an empty tile with the next non-empty tile.
    ///
    /// Time complexity is O(n^2), where n is number of elements in `positional_row`.
    fn shift(&mut self, positional_row: &[Vector2D<usize>])
        requires
            old(self)@.wf(),
            is_line(old(self)@, positional_row@),
        ensures
            values_along(final(self)@, positional_row@) == slid(values_along(old(self)@, positional_row@)),
            same_off_line(old(self)@, final(self)@, positional_row@),
    {
        let ghost g0 = self@;
        let ghost s0 = values_along(g0, positional_row@);
        let ghost row = positional_row@;
        let n = positional_row.len();
        let mut i: usize = 0;
        while i < n
            invariant
                n == row.len(),
                row == positional_row@,
                i <= n,
                self@.wf(),
                is_line(self@, row),
                same_off_line(g0, self@, row),
                non_empty(values_along(self@, row)) == non_empty(s0),
                forall|a: int, b: int|
                    #![trigger values_along(self@, row)[a], values_along(self@, row)[b]]
                    0 <= a < i && a < b < n && values_along(self@, row)[a] == Tile::Empty
                        ==> values_along(self@, row)[b] == Tile::Empty,
            decreases n - i,
        {
            let ghost c = values_along(self@, row);
            let current_pos = &positional_row[i];
            let current_is_empty = self.get_tile(current_pos).is_empty();
            assert(c[i as int] == self@.cell(row[i as int]));
            if current_is_empty {
                let mut j = i + 1;
                while j < n && self.get_tile(&positional_row[j]).is_empty()
                    invariant
                        n == row.len(),
                        row == positional_row@,
                        i < j <= n,
                        self@.wf(),
                        is_line(self@, row),
                        c == values_along(self@, row),
                        forall|m: int| i < m < j ==> #[trigger] c[m] == Tile::Empty,
                    decreases n - j,
                {
                    assert(c[j as int] == self@.cell(row[j as int]));
                    j = j + 1;
                }
                if j < n {
                    assert(c[j as int] == self@.cell(row[j as int]));
                    let ghost before = self@;
                    self.swap_tiles(current_pos, &positional_row[j]);
                    proof {
                        lemma_set_pair_along(before, row, i as int, j as int, c[j as int], c[i as int]);
                        lemma_swap_keeps_non_empty(c, i as int, j as int);
                        let d = values_along(self@, row);
                        assert(d == c.update(i as int, c[j as int]).update(j as int, c[i as int]));
                        assert forall|a: int| 0 <= a < i implies #[trigger] c[a] != Tile::Empty by {
                            if c[a] == Tile::Empty {
                                assert(c[j as int] == Tile::Empty);
                            }
                        }
                        assert forall|a: int, b: int|
                            #![trigger d[a], d[b]]
                            0 <= a < i + 1 && a < b < n && d[a] == Tile::Empty implies d[b]
                            == Tile::Empty by {
                            assert(d[a] != Tile::Empty);
                        }
                        assert forall|x: int|
                            0 <= x < g0.tiles.len() && !on_line(g0, row, x) implies #[trigger] self@.tiles[x]
                            == g0.tiles[x] by {
                            assert(!on_line(before, row, x));
                        }
                    }
                } else {
                    proof {
                        assert forall|a: int, b: int|
                            #![trigger c[a], c[b]]
                            0 <= a < i + 1 && a < b < n && c[a] == Tile::Empty implies c[b]
                            == Tile::Empty by {
                            if b > i {
                                assert(c[b] == Tile::Empty);
                            }
                        }
                    }
                }
            } else {
                proof {
                    assert forall|a: int, b: int|
                        #![trigger c[a], c[b]]
                        0 <= a < i + 1 && a < b < n && c[a] == Tile::Empty implies c[b] == Tile::Empty by {
                        if a == i {
                        } else if c[a] == Tile::Empty {
                            assert(c[i as int] == Tile::Empty);
                        }
                    }
                }
            }
            i = i + 1;
        }
        proof {
            let c = values_along(self@, row);
            assert(is_slid(c)) by {
                assert forall|a: int, b: int|
                    #![trigger c[a], c[b]]
                    0 <= a < b < c.len() && c[a] == Tile::Empty implies c[b] == Tile::Empty by {
                }
            }
            lemma_slid_when_sorted(c);
            assert(slid(c) =~= slid(s0));
        }
    }
}

impl Grid {
    /// Merge all adjacent tiles in this row wherever possible, and
    /// return the total score from these merges.
    fn merge(&mut self, positional_row: &[Vector2D<usize>]) -> (score: i16)
        requires
            old(self)@.wf(),
            is_line(old(self)@, positional_row@),
            merges_defined(values_along(old(self)@, positional_row@), pair_count(positional_row@.len())),
        ensures
            values_along(final(self)@, positional_row@) == merged(
                values_along(old(self)@, positional_row@),
                pair_count(positional_row@.len()),
            ),
            score == merged_score(values_along(old(self)@, positional_row@), pair_count(positional_row@.len())),
            same_off_line(old(self)@, final(self)@, positional_row@),
    {
        let ghost g0 = self@;
        let ghost s0 = values_along(g0, positional_row@);
        let ghost row = positional_row@;
        let n = positional_row.len();
        let mut total: i16 = 0;
        let mut k: usize = 0;
        while k + 1 < n
            invariant
                n == row.len(),
                row == positional_row@,
                k <= pair_count(n as nat),
                self@.wf(),
                is_line(self@, row),
                same_off_line(g0, self@, row),
                s0.len() == n,
                merges_defined(s0, pair_count(n as nat)),
                values_along(self@, row) == merged(s0, k as nat),
                total == merged_score(s0, k as nat),
            decreases n - k,
        {
            let ghost before = self@;
            let ghost c = values_along(self@, row);
            proof {
                lemma_merges_defined_prefix(s0, pair_count(n as nat), (k + 1) as nat);
                lemma_merged_len(s0, k as nat);
            }
            let a_pos = &positional_row[k];
            let b_pos = &positional_row[k + 1];
            let a_index = self.get_1d_index(a_pos);
            let b_index = self.get_1d_index(b_pos);
            let mut a_tile = self.tiles[a_index];
            let mut b_tile = self.tiles[b_index];
            assert(a_tile == c[k as int] && b_tile == c[k + 1]);
            let score = Tile::merge_tiles(&mut a_tile, &mut b_tile);
            self.tiles.set(a_index, a_tile);
            self.tiles.set(b_index, b_tile);
            total = total + score;
            proof {
                lemma_set_pair_along(before, row, k as int, k + 1, a_tile, b_tile);
                assert(self@ == before.with_tiles(
                    before.tiles.update(a_index as int, a_tile).update(b_index as int, b_tile),
                ));
                assert forall|x: int|
                    0 <= x < g0.tiles.len() && !on_line(g0, row, x) implies #[trigger] self@.tiles[x]
                    == g0.tiles[x] by {
                    assert(!on_line(before, row, x));
                }
            }
            k = k + 1;
        }
        total
    }
}

/// The tiles along line `r` of a move in direction `d`, counted from the side
/// toward which they slide.
pub open spec fn line_values(g: GridView, d: MoveDirection, r: int) -> Seq<Tile> {
    Seq::new(
        line_length(d, g.rows as int, g.cols as int) as nat,
        |j: int| g.cell(line_position(d, g.rows as int, g.cols as int, r, j)),
    )
}

/// The sum of the scores of the moves of the first `k` lines.
pub open spec fn lines_score(g: GridView, d: MoveDirection, k: nat) -> int
    decreases k,
{
    if k == 0 {
        0
    } else {
        lines_score(g, d, (k - 1) as nat) + move_score(line_values(g, d, k - 1))
    }
}

/// Whether the moves of the first `k` lines are each defined and every running
/// total of their scores fits in an `i16`.
pub open spec fn lines_defined(g: GridView, d: MoveDirection, k: nat) -> bool
    decreases k,
{
    if k == 0 {
        true
    } else {
        &&& lines_defined(g, d, (k - 1) as nat)
        &&& move_defined(line_values(g, d, k - 1))
        &&& i16::MIN <= lines_score(g, d, k) <= i16::MAX
    }
}

/// Whether a move of the grid in direction `d` stays within what it is written
/// for: consistent dimensions that the `i8` line walks can count, merges that
/// are defined, and scores whose running totals fit in an `i16`.
pub open spec fn move_is_defined(g: GridView, d: MoveDirection) -> bool {
    &&& g.wf()
    &&& walkable(g)
    &&& lines_defined(g, d, line_count(d, g.rows as int, g.cols as int) as nat)
}

/// The score of a move of the grid in direction `d`: the sum over its lines.
pub open spec fn move_total_score(g: GridView, d: MoveDirection) -> int {
    lines_score(g, d, line_count(d, g.rows as int, g.cols as int) as nat)
}

/// The line of a move in direction `d` that the tile at `(x, y)` lies on, and
/// its place on that line.
pub open spec fn line_of(d: MoveDirection, rows: int, cols: int, x: int, y: int) -> (int, int) {
    match d {
        MoveDirection::Left => (y, x),
        MoveDirection::Right => (y, cols - 1 - x),
        MoveDirection::Up => (x, y),
        MoveDirection::Down => (x, rows - 1 - y),
    }
}

/// The grid after a move in direction `d`: each line moved on its own.
pub open spec fn moved_grid(g: GridView, d: MoveDirection) -> GridView {
    g.with_tiles(
        Seq::new(
            g.tiles.len(),
            |i: int|
                {
                    let (r, j) = line_of(
                        d,
                        g.rows as int,
                        g.cols as int,
                        i % (g.cols as int),
                        i / (g.cols as int),
                    );
                    moved(line_values(g, d, r))[j]
                },
        ),
    )
}

/// The positions of the lines lie inside the grid.
pub proof fn lemma_line_position_in_grid(d: MoveDirection, rows: int, cols: int, r: int, j: int)
    requires
        1 <= rows,
        1 <= cols,
        0 <= r < line_count(d, rows, cols),
        0 <= j < line_length(d, rows, cols),
    ensures
        in_grid(rows, cols, line_position(d, rows, cols, r, j)),
{
}

/// No position lies on two lines, or twice on one.
pub proof fn lemma_line_position_injective(
    d: MoveDirection,
    rows: int,
    cols: int,
    r: int,
    j: int,
    r2: int,
    j2: int,
)
    requires
        1 <= rows <= usize::MAX,
        1 <= cols <= usize::MAX,
        0 <= r < line_count(d, rows, cols),
        0 <= j < line_length(d, rows, cols),
        0 <= r2 < line_count(d, rows, cols),
        0 <= j2 < line_length(d, rows, cols),
        line_position(d, rows, cols, r, j) == line_position(d, rows, cols, r2, j2),
    ensures
        r == r2,
        j == j2,
{
}

/// Every tile of the grid lies on a line, at the place that `line_of` gives.
pub proof fn lemma_line_of_inverse(d: MoveDirection, rows: int, cols: int, x: int, y: int)
    requires
        0 <= x < cols <= usize::MAX,
        0 <= y < rows <= usize::MAX,
    ensures
        ({
            let (r, j) = line_of(d, rows, cols, x, y);
            &&& 0 <= r < line_count(d, rows, cols)
            &&& 0 <= j < line_length(d, rows, cols)
            &&& line_position(d, rows, cols, r, j) == Vector2D { x: x as usize, y: y as usize }
        }),
{
}

/// The place of the `j`-th tile of line `r` in the row-by-row order of the
/// tiles, and the way back from that index to the line and the place on it.
proof fn lemma_line_slot(d: MoveDirection, rows: int, cols: int, r: int, j: int)
    requires
        1 <= rows <= usize::MAX,
        1 <= cols <= usize::MAX,
        0 <= r < line_count(d, rows, cols),
        0 <= j < line_length(d, rows, cols),
    ensures
        ({
            let p = line_position(d, rows, cols, r, j);
            let i = index_of(cols, p);
            &&& 0 <= i < rows * cols
            &&& position_of(cols, i) == p
            &&& line_of(d, rows, cols, i % cols, i / cols) == (r, j)
        }),
{
    let p = line_position(d, rows, cols, r, j);
    let i = index_of(cols, p);
    lemma_line_position_in_grid(d, rows, cols, r, j);
    lemma_index_in_bounds(rows, cols, p);
    lemma_position_of(rows, cols, i);
    lemma_index_injective(rows, cols, p, position_of(cols, i));
    lemma_line_of_inverse(d, rows, cols, i % cols, i / cols);
    let (r2, j2) = line_of(d, rows, cols, i % cols, i / cols);
    lemma_line_position_injective(d, rows, cols, r, j, r2, j2);
}

/// The sum, over the first `k` lines of a move in direction `d`, of the
/// number of tiles on each line.
pub open spec fn lines_filled(g: GridView, d: MoveDirection, k: nat) -> nat
    decreases k,
{
    if k == 0 {
        0
    } else {
        lines_filled(g, d, (k - 1) as nat) + non_empty(line_values(g, d, k - 1)).len()
    }
}

/// The indices of the tiles that lie on the lines below `k`.
spec fn filled_below(g: GridView, d: MoveDirection, k: int) -> Set<int> {
    Set::new(
        |i: int|
            0 <= i < g.tiles.len() && g.tiles[i] != Tile::Empty && line_of(
                d,
                g.rows as int,
                g.cols as int,
                i % (g.cols as int),
                i / (g.cols as int),
            ).0 < k,
    )
}

/// The indices of the tiles that lie on line `r`.
spec fn filled_on(g: GridView, d: MoveDirection, r: int) -> Set<int> {
    Set::new(
        |i: int|
            0 <= i < g.tiles.len() && g.tiles[i] != Tile::Empty && line_of(
                d,
                g.rows as int,
                g.cols as int,
                i % (g.cols as int),
                i / (g.cols as int),
            ).0 == r,
    )
}

/// Line `r` holds as many tiles in the grid as its values show.
proof fn lemma_filled_on(g: GridView, d: MoveDirection, r: int)
    requires
        g.wf(),
        walkable(g),
        0 <= r < line_count(d, g.rows as int, g.cols as int),
    ensures
        filled_on(g, d, r).finite(),
        filled_on(g, d, r).len() == non_empty(line_values(g, d, r)).len(),
{
    let rows = g.rows as int;
    let cols = g.cols as int;
    let s = line_values(g, d, r);
    let a = filled_places(s);
    let f = |j: int| index_of(cols, line_position(d, rows, cols, r, j));
    lemma_filled_places(s);
    assert forall|j1: int, j2: int| a.contains(j1) && a.contains(j2) && #[trigger] f(j1) == #[trigger] f(j2)
        implies j1 == j2 by {
        lemma_line_position_in_grid(d, rows, cols, r, j1);
        lemma_line_position_in_grid(d, rows, cols, r, j2);
        lemma_index_injective(
            rows,
            cols,
            line_position(d, rows, cols, r, j1),
            line_position(d, rows, cols, r, j2),
        );
        lemma_line_position_injective(d, rows, cols, r, j1, r, j2);
    }
    assert(vstd::relations::injective_on(f, a));
    assert forall|i: int| a.map(f).contains(i) <==> filled_on(g, d, r).contains(i) by {
        if a.map(f).contains(i) {
            let j = choose|j: int| a.contains(j) && f(j) == i;
            lemma_line_slot(d, rows, cols, r, j);
        }
        if filled_on(g, d, r).contains(i) {
            lemma_position_of(rows, cols, i);
            lemma_line_of_inverse(d, rows, cols, i % cols, i / cols);
            let j = line_of(d, rows, cols, i % cols, i / cols).1;
            assert(line_position(d, rows, cols, r, j) == position_of(cols, i));
            assert(s[j] == g.tiles[i]);
            assert(a.contains(j));
            assert(f(j) == i);
        }
    }
    assert(a.map(f) =~= filled_on(g, d, r));
    vstd::set_lib::lemma_map_size(a, filled_on(g, d, r), f);
}

/// The lines below `k` hold as many tiles in the grid as their values show.
proof fn lemma_filled_below(g: GridView, d: MoveDirection, k: int)
    requires
        g.wf(),
        walkable(g),
        0 <= k <= line_count(d, g.rows as int, g.cols as int),
    ensures
        filled_below(g, d, k).finite(),
        filled_below(g, d, k).len() == lines_filled(g, d, k as nat),
    decreases k,
{
    if k == 0 {
        assert(filled_below(g, d, k) =~= Set::<int>::empty());
    } else {
        lemma_filled_below(g, d, k - 1);
        lemma_filled_on(g, d, k - 1);
        assert(filled_below(g, d, k) =~= filled_below(g, d, k - 1) + filled_on(g, d, k - 1));
        assert(filled_below(g, d, k - 1).disjoint(filled_on(g, d, k - 1)));
        vstd::set_lib::lemma_set_disjoint_lens(filled_below(g, d, k - 1), filled_on(g, d, k - 1));
    }
}

/// The lines of a move hold all the tiles of the grid.
proof fn lemma_lines_hold_all_tiles(g: GridView, d: MoveDirection)
    requires
        g.wf(),
        walkable(g),
    ensures
        non_empty(g.tiles).len() == lines_filled(
            g,
            d,
            line_count(d, g.rows as int, g.cols as int) as nat,
        ),
{
    let rows = g.rows as int;
    let cols = g.cols as int;
    let count = line_count(d, rows, cols);
    lemma_filled_below(g, d, count);
    lemma_filled_places(g.tiles);
    assert forall|i: int| filled_places(g.tiles).contains(i) <==> filled_below(g, d, count).contains(i) by {
        if 0 <= i < g.tiles.len() {
            lemma_position_of(rows, cols, i);
            lemma_line_of_inverse(d, rows, cols, i % cols, i / cols);
        }
    }
    assert(filled_places(g.tiles) =~= filled_below(g, d, count));
}

/// The lines of a grid after a move are the lines of the grid before it, each moved.
proof fn lemma_moved_line(g: GridView, d: MoveDirection, r: int)
    requires
        g.wf(),
        walkable(g),
        0 <= r < line_count(d, g.rows as int, g.cols as int),
    ensures
        line_values(moved_grid(g, d), d, r) == moved(line_values(g, d, r)),
{
    let rows = g.rows as int;
    let cols = g.cols as int;
    let h = moved_grid(g, d);
    lemma_move_never_adds_tiles(line_values(g, d, r));
    assert forall|j: int| 0 <= j < line_length(d, rows, cols) implies #[trigger] line_values(h, d, r)[j]
        == moved(line_values(g, d, r))[j] by {
        lemma_line_slot(d, rows, cols, r, j);
    }
    assert(line_values(h, d, r) =~= moved(line_values(g, d, r)));
}

/// Moving every line leaves no line with more tiles than it had.
proof fn lemma_lines_filled_shrink(g: GridView, h: GridView, d: MoveDirection, k: nat)
    requires
        h.rows == g.rows,
        h.cols == g.cols,
        k <= line_count(d, g.rows as int, g.cols as int),
        forall|r: int|
            0 <= r < line_count(d, g.rows as int, g.cols as int) ==> non_empty(
                #[trigger] line_values(h, d, r),
            ).len() <= non_empty(line_values(g, d, r)).len(),
    ensures
        lines_filled(h, d, k) <= lines_filled(g, d, k),
    decreases k,
{
    if k > 0 {
        lemma_lines_filled_shrink(g, h, d, (k - 1) as nat);
    }
}

/// A move leaves every line packed toward the side it moves to, and never
/// adds a tile to the grid. The lines are those that
/// `Grid::generate_positional_rows` lists for the direction, each counted from
/// the side toward which the tiles slide, and `Grid::update` gives the grid
/// `moved_grid(g, d)`.
pub proof fn lemma_move_packs_lines(g: GridView, d: MoveDirection)
    requires
        g.wf(),
        walkable(g),
    ensures
        moved_grid(g, d).rows == g.rows,
        moved_grid(g, d).cols == g.cols,
        moved_grid(g, d).wf(),
        forall|r: int|
            0 <= r < line_count(d, g.rows as int, g.cols as int) ==> {
                &&& #[trigger] line_values(moved_grid(g, d), d, r) == moved(line_values(g, d, r))
                &&& is_slid(line_values(moved_grid(g, d), d, r))
            },
        non_empty(moved_grid(g, d).tiles).len() <= non_empty(g.tiles).len(),
{
    let h = moved_grid(g, d);
    let count = line_count(d, g.rows as int, g.cols as int);
    assert forall|r: int| 0 <= r < count implies {
        &&& #[trigger] line_values(h, d, r) == moved(line_values(g, d, r))
        &&& is_slid(line_values(h, d, r))
        &&& non_empty(line_values(h, d, r)).len() <= non_empty(line_values(g, d, r)).len()
    } by {
        lemma_moved_line(g, d, r);
        lemma_moved_is_slid(line_values(g, d, r));
        lemma_move_never_adds_tiles(line_values(g, d, r));
    }
    lemma_lines_filled_shrink(g, h, d, count as nat);
    lemma_lines_hold_all_tiles(g, d);
    lemma_lines_hold_all_tiles(h, d);
}

pub proof fn lemma_lines_defined_prefix(g: GridView, d: MoveDirection, k: nat, m: nat)
    requires
        m <= k,
        lines_defined(g, d, k),
    ensures
        lines_defined(g, d, m),
    decreases k - m,
{
    if m < k {
        lemma_lines_defined_prefix(g, d, (k - 1) as nat, m);
    }
}

/// A line of the move is a line in the sense of `is_line`, and a position of
/// another line lies off it.
proof fn lemma_move_line(g: GridView, d: MoveDirection, r: int, row: Seq<Vector2D<usize>>)
    requires
        g.wf(),
        walkable(g),
        0 <= r < line_count(d, g.rows as int, g.cols as int),
        row.len() == line_length(d, g.rows as int, g.cols as int),
        forall|j: int| 0 <= j < row.len() ==> #[trigger] row[j] == line_position(d, g.rows as int, g.cols as int, r, j),
    ensures
        is_line(g, row),
        values_along(g, row) == line_values(g, d, r),
        forall|r2: int, j2: int|
            0 <= r2 < line_count(d, g.rows as int, g.cols as int) && r2 != r && 0 <= j2 < line_length(
                d,
                g.rows as int,
                g.cols as int,
            ) ==> !on_line(
                g,
                row,
                index_of(g.cols as int, #[trigger] line_position(d, g.rows as int, g.cols as int, r2, j2)),
            ),
{
    let rows = g.rows as int;
    let cols = g.cols as int;
    assert forall|j: int| 0 <= j < row.len() implies g.contains(#[trigger] row[j]) by {
        lemma_line_position_in_grid(d, rows, cols, r, j);
    }
    assert forall|a: int, b: int|
        #![trigger row[a], row[b]]
        0 <= a < b < row.len() implies index_of(cols, row[a]) != index_of(cols, row[b]) by {
        lemma_line_position_in_grid(d, rows, cols, r, a);
        lemma_line_position_in_grid(d, rows, cols, r, b);
        if index_of(cols, row[a]) == index_of(cols, row[b]) {
            lemma_index_injective(rows, cols, row[a], row[b]);
            lemma_line_position_injective(d, rows, cols, r, a, r, b);
        }
    }
    assert(values_along(g, row) =~= line_values(g, d, r));
    assert forall|r2: int, j2: int|
        0 <= r2 < line_count(d, rows, cols) && r2 != r && 0 <= j2 < line_length(d, rows, cols)
            implies !on_line(g, row, index_of(cols, #[trigger] line_position(d, rows, cols, r2, j2))) by {
        let p = line_position(d, rows, cols, r2, j2);
        if on_line(g, row, index_of(cols, p)) {
            let j = choose|j: int| 0 <= j < row.len() && index_of(cols, #[trigger] row[j]) == index_of(cols, p);
            lemma_line_position_in_grid(d, rows, cols, r, j);
            lemma_line_position_in_grid(d, rows, cols, r2, j2);
            lemma_index_injective(rows, cols, row[j], p);
            lemma_line_position_injective(d, rows, cols, r, j, r2, j2);
        }
    }
}

impl Grid {
    /// Given a direction from player input, update the grid and return a total score value
    /// resulting from all tiles merged.
    ///
    /// Example:
    ///
    /// Starting with this grid:
    /// ```ignore
    /// . 2 . 2 2 . 2 .
    /// ```
    ///
    /// After a LEFT, the grid should become:
    /// ```ignore
    /// 4 4 . . . . . .
    /// ```
    ///
    /// In this case, the score returned is (2 + 2) + (2 + 2) = 8.
    pub fn update(&mut self, direction: MoveDirection) -> (score: i16)
        requires
            move_is_defined(old(self)@, direction),
        ensures
            final(self)@ == moved_grid(old(self)@, direction),
            score == move_total_score(old(self)@, direction),
    {
        let ghost g0 = self@;
        let ghost rows = g0.rows as int;
        let ghost cols = g0.cols as int;
        let ghost d = direction;
        let ghost count = line_count(d, rows, cols);
        let ghost len = line_length(d, rows, cols);
        let lines = self.generate_positional_rows(direction);
        let mut total: i16 = 0;
        let mut r: usize = 0;
        while r < lines.len()
            invariant
                rows == g0.rows,
                cols == g0.cols,
                g0.wf(),
                walkable(g0),
                lines_defined(g0, d, count as nat),
                count == line_count(d, rows, cols),
                len == line_length(d, rows, cols),
                lines@.len() == count,
                forall|k: int| 0 <= k < count ==> (#[trigger] lines@[k])@.len() == len,
                forall|k: int, j: int|
                    0 <= k < count && 0 <= j < len ==> #[trigger] lines@[k]@[j] == line_position(
                        d,
                        rows,
                        cols,
                        k,
                        j,
                    ),
                r <= count,
                self@.rows == rows,
                self@.cols == cols,
                self@.wf(),
                forall|k: int, j: int|
                    r <= k < count && 0 <= j < len ==> #[trigger] self@.cell(line_position(d, rows, cols, k, j))
                        == g0.cell(line_position(d, rows, cols, k, j)),
                forall|k: int, j: int|
                    0 <= k < r && 0 <= j < len ==> #[trigger] self@.cell(line_position(d, rows, cols, k, j))
                        == moved(line_values(g0, d, k))[j],
                total == lines_score(g0, d, r as nat),
            decreases count - r,
        {
            let ghost before = self@;
            let row = lines[r].as_slice();
            let ghost lv = line_values(g0, d, r as int);
            proof {
                assert forall|j: int| 0 <= j < row@.len() implies #[trigger] row@[j] == line_position(d, rows, cols, r as int, j) by {
                    assert(lines@[r as int]@[j] == line_position(d, rows, cols, r as int, j));
                }
                lemma_move_line(before, d, r as int, row@);
                assert(values_along(before, row@) =~= lv);
                lemma_lines_defined_prefix(g0, d, count as nat, (r + 1) as nat);
                lemma_non_empty_len(lv);
            }
            self.shift(row);
            let ghost after_shift = self@;
            proof {
                lemma_move_line(after_shift, d, r as int, row@);
            }
            let score = self.merge(row);
            let ghost after_merge = self@;
            proof {
                lemma_move_line(after_merge, d, r as int, row@);
            }
            self.shift(row);
            total = total + score;
            proof {
                assert(values_along(self@, row@) == moved(lv));
                assert forall|k: int, j: int|
                    r + 1 <= k < count && 0 <= j < len implies #[trigger] self@.cell(line_position(d, rows, cols, k, j))
                        == g0.cell(line_position(d, rows, cols, k, j)) by {
                    let p = line_position(d, rows, cols, k, j);
                    lemma_line_position_in_grid(d, rows, cols, k, j);
                    lemma_index_in_bounds(rows, cols, p);
                    assert(!on_line(before, row@, index_of(cols, p)));
                    assert(!on_line(after_shift, row@, index_of(cols, p)));
                    assert(!on_line(after_merge, row@, index_of(cols, p)));
                    assert(before.cell(p) == g0.cell(p));
                }
                assert forall|k: int, j: int|
                    0 <= k < r + 1 && 0 <= j < len implies #[trigger] self@.cell(line_position(d, rows, cols, k, j))
                        == moved(line_values(g0, d, k))[j] by {
                    let p = line_position(d, rows, cols, k, j);
                    if k < r {
                        lemma_line_position_in_grid(d, rows, cols, k, j);
                        lemma_index_in_bounds(rows, cols, p);
                        assert(!on_line(before, row@, index_of(cols, p)));
                        assert(!on_line(after_shift, row@, index_of(cols, p)));
                        assert(!on_line(after_merge, row@, index_of(cols, p)));
                        assert(before.cell(p) == moved(line_values(g0, d, k))[j]);
                    } else {
                        assert(row@[j] == p);
                        assert(values_along(self@, row@)[j] == self@.cell(p));
                    }
                }
            }
            r = r + 1;
        }
        proof {
            let target = moved_grid(g0, d);
            assert forall|i: int| 0 <= i < self@.tiles.len() implies #[trigger] self@.tiles[i] == target.tiles[i] by {
                let x = i % cols;
                let y = i / cols;
                vstd::arithmetic::div_mod::lemma_fundamental_div_mod(i, cols);
                assert(0 <= x < cols);
                assert(0 <= y < rows) by (nonlinear_arith)
                    requires
                        0 <= i < rows * cols,
                        y == i / cols,
                        cols > 0,
                        i == cols * y + x,
                        0 <= x < cols,
                {
                    if y >= rows {
                        assert(cols * y >= cols * rows);
                    }
                }
                lemma_line_of_inverse(d, rows, cols, x, y);
                let (k, j) = line_of(d, rows, cols, x, y);
                let p = line_position(d, rows, cols, k, j);
                assert(p.x == x && p.y == y);
                assert(x + y * cols == i) by (nonlinear_arith)
                    requires
                        i == cols * y + x,
                ;
                assert(self@.cell(p) == moved(line_values(g0, d, k))[j]);
            }
            assert(self@.tiles =~= target.tiles);
        }
        total
    }
}

impl GridView {
    /// The tile at column `x` and row `y`.
    pub open spec fn at(self, x: int, y: int) -> Tile {
        self.tiles[x + y * (self.cols as int)]
    }

    /// Whether the tile at `(x, y)` and its right neighbour lie in the grid and merge.
    pub open spec fn merges_right(self, x: int, y: int) -> bool {
        0 <= x && x + 1 < self.cols && 0 <= y < self.rows && mergeable(self.at(x, y), self.at(x + 1, y))
    }

    /// Whether the tile at `(x, y)` and its lower neighbour lie in the grid and merge.
    pub open spec fn merges_down(self, x: int, y: int) -> bool {
        0 <= x < self.cols && 0 <= y && y + 1 < self.rows && mergeable(self.at(x, y), self.at(x, y + 1))
    }

    /// Whether some two adjacent tiles of the grid merge.
    pub open spec fn has_mergeable_neighbours(self) -> bool {
        exists|x: int, y: int| self.merges_right(x, y) || self.merges_down(x, y)
    }

    /// Whether some tile of the grid is empty.
    pub open spec fn has_empty(self) -> bool {
        exists|i: int| 0 <= i < self.tiles.len() && #[trigger] self.tiles[i] == Tile::Empty
    }

    /// Whether the grid is dead: no empty tile and no two adjacent tiles that merge.
    pub open spec fn is_dead(self) -> bool {
        !self.has_empty() && !self.has_mergeable_neighbours()
    }

    /// Whether some tile of the grid is the number `target`.
    pub open spec fn contains_value(self, target: u16) -> bool {
        exists|i: int| 0 <= i < self.tiles.len() && #[trigger] self.tiles[i] == Tile::Number(target)
    }
}

/// The indices of the empty tiles among the first `n` of `t`, in order.
pub open spec fn empty_indices(t: Seq<Tile>, n: nat) -> Seq<int>
    decreases n,
{
    if n == 0 {
        Seq::empty()
    } else if t[n - 1] == Tile::Empty {
        empty_indices(t, (n - 1) as nat).push(n - 1)
    } else {
        empty_indices(t, (n - 1) as nat)
    }
}

/// The number of empty tiles in `t`.
pub open spec fn empty_count(t: Seq<Tile>) -> nat
    decreases t.len(),
{
    if t.len() == 0 {
        0
    } else {
        empty_count(t.drop_last()) + if t.last() == Tile::Empty {
            1nat
        } else {
            0nat
        }
    }
}

/// Some tile of `t` is empty exactly when the count of empty tiles is not 0.
pub proof fn lemma_empty_count_positive(t: Seq<Tile>)
    ensures
        empty_count(t) > 0 <==> exists|i: int| 0 <= i < t.len() && #[trigger] t[i] == Tile::Empty,
    decreases t.len(),
{
    if t.len() > 0 {
        let d = t.drop_last();
        lemma_empty_count_positive(d);
        if exists|i: int| 0 <= i < d.len() && #[trigger] d[i] == Tile::Empty {
            let i = choose|i: int| 0 <= i < d.len() && #[trigger] d[i] == Tile::Empty;
            assert(t[i] == Tile::Empty);
        }
        if exists|i: int| 0 <= i < t.len() && #[trigger] t[i] == Tile::Empty {
            let i = choose|i: int| 0 <= i < t.len() && #[trigger] t[i] == Tile::Empty;
            if i < t.len() - 1 {
                assert(d[i] == Tile::Empty);
            }
        }
    }
}

/// Filling one empty tile of `t` leaves one empty tile fewer.
pub proof fn lemma_empty_count_fill(t: Seq<Tile>, i: int, v: Tile)
    requires
        0 <= i < t.len(),
        t[i] == Tile::Empty,
        v != Tile::Empty,
    ensures
        empty_count(t.update(i, v)) + 1 == empty_count(t),
    decreases t.len(),
{
    let u = t.update(i, v);
    if i == t.len() - 1 {
        assert(u.drop_last() =~= t.drop_last());
    } else {
        assert(u.drop_last() =~= t.drop_last().update(i, v));
        lemma_empty_count_fill(t.drop_last(), i, v);
    }
}

/// The position of the tile at index `i` in a grid with `cols` columns.
pub open spec fn position_of(cols: int, i: int) -> Vector2D<usize> {
    Vector2D { x: (i % cols) as usize, y: (i / cols) as usize }
}

/// The positions of the empty tiles of the grid, row after row.
pub open spec fn empty_positions(g: GridView) -> Seq<Vector2D<usize>> {
    empty_indices(g.tiles, g.tiles.len()).map_values(|i: int| position_of(g.cols as int, i))
}

/// The tile that a spawn creates from the roll `x` (drawn from 0 to 99) and the
/// power (drawn from 1 to 3): a 2 below 70, a multiplier below 80, a divider
/// below 90, else a bomb.
pub open spec fn rolled_tile(x: int, power: u8) -> Tile {
    if x < 70 {
        Tile::Number(2)
    } else if x < 80 {
        Tile::Multiplier(power)
    } else if x < 90 {
        Tile::Divider(power)
    } else {
        Tile::Bomb
    }
}

/// Whether `t` is a tile that a spawn can create.
pub open spec fn is_spawnable(t: Tile) -> bool {
    ||| t == Tile::Number(2)
    ||| t == Tile::Bomb
    ||| (t matches Tile::Multiplier(p) && 1 <= p <= 3)
    ||| (t matches Tile::Divider(p) && 1 <= p <= 3)
}

pub proof fn lemma_empty_indices(t: Seq<Tile>, n: nat)
    requires
        n <= t.len(),
    ensures
        empty_indices(t, n).len() <= n,
        forall|k: int|
            0 <= k < empty_indices(t, n).len() ==> 0 <= #[trigger] empty_indices(t, n)[k] < n
                && t[empty_indices(t, n)[k]] == Tile::Empty,
        forall|i: int| 0 <= i < n && t[i] == Tile::Empty ==> #[trigger] empty_indices(t, n).contains(i),
    decreases n,
{
    if n > 0 {
        lemma_empty_indices(t, (n - 1) as nat);
        let e = empty_indices(t, (n - 1) as nat);
        assert forall|i: int| 0 <= i < n && t[i] == Tile::Empty implies #[trigger] empty_indices(t, n).contains(i) by {
            if i < n - 1 {
                assert(e.contains(i));
                let k = choose|k: int| 0 <= k < e.len() && e[k] == i;
                assert(empty_indices(t, n)[k] == i);
            } else {
                assert(empty_indices(t, n)[e.len() as int] == i);
            }
        }
    }
}

/// The position of an index inside the grid lies inside the grid, at that index.
pub proof fn lemma_position_of(rows: int, cols: int, i: int)
    requires
        0 <= i < rows * cols,
        0 < cols <= usize::MAX,
        rows <= usize::MAX,
    ensures
        0 <= i % cols < cols,
        0 <= i / cols < rows,
        in_grid(rows, cols, position_of(cols, i)),
        index_of(cols, position_of(cols, i)) == i,
{
    let x = i % cols;
    let y = i / cols;
    vstd::arithmetic::div_mod::lemma_fundamental_div_mod(i, cols);
    assert(0 <= y < rows) by (nonlinear_arith)
        requires
            0 <= i < rows * cols,
            y == i / cols,
            cols > 0,
            i == cols * y + x,
            0 <= x < cols,
    {
        if y >= rows {
            assert(cols * y >= cols * rows);
        }
    }
    assert(x + y * cols == i) by (nonlinear_arith)
        requires
            i == cols * y + x,
    ;
}

impl Grid {
    /// Return a vector containing positions of all empty tiles.
    pub fn collect_empty_positions(&self) -> (r: Vec<Vector2D<usize>>)
        requires
            self@.wf(),
        ensures
            r@ == empty_positions(self@),
    {
        let ghost cols = self@.cols as int;
        let mut positions: Vec<Vector2D<usize>> = Vec::new();
        let mut index: usize = 0;
        while index < self.tiles.len()
            invariant
                cols == self@.cols,
                self@.wf(),
                index <= self@.tiles.len(),
                positions@ == empty_indices(self@.tiles, index as nat).map_values(
                    |i: int| position_of(cols, i),
                ),
            decreases self@.tiles.len() - index,
        {
            if self.tiles[index].is_empty() {
                assert(cols > 0) by (nonlinear_arith)
                    requires
                        index < self@.rows * cols,
                        cols >= 0,
                        self@.rows >= 0,
                ;
                let p = self.get_2d_position(index);
                positions.push(p);
                assert(positions@ =~= empty_indices(self@.tiles, (index + 1) as nat).map_values(
                    |i: int| position_of(cols, i),
                ));
            } else {
                assert(positions@ =~= empty_indices(self@.tiles, (index + 1) as nat).map_values(
                    |i: int| position_of(cols, i),
                ));
            }
            index = index + 1;
        }
        positions
    }

    /// Return a randomly chosen empty tile position, if possible.
    pub fn get_random_empty_position(&self) -> (r: Option<Vector2D<usize>>)
        requires
            self@.wf(),
        ensures
            r is None <==> empty_positions(self@).len() == 0,
            r matches Some(p) ==> empty_positions(self@).contains(p),
    {
        let positions = self.collect_empty_positions();
        choose_one(positions.as_slice())
    }

    /// The tile that a spawn creates from the roll `x` and the power, as
    /// `spawn_random_tile_at_random_location` draws them.
    pub fn rolled_tile(x: i32, power: u8) -> (t: Tile)
        ensures
            t == rolled_tile(x as int, power),
    {
        if x < 70 {
            Tile::new_number(2)
        } else if x < 80 {
            Tile::new_multiplier(power)
        } else if x < 90 {
            Tile::new_divider(power)
        } else {
            Tile::new_bomb()
        }
    }

    /// If possible, choose a random empty position and creates a random tile there,
    /// and return that position.
    ///
    /// The type of tile created follows this probability distrubition:
    /// - 70% chance to create a number, always with value = 2.
    /// - 10% chance to create a multiplier, with 1 <= power <= 3.
    /// - 10% chance to create a divider, with 1 <= power <= 3.
    /// - 10% chance to create a bomb.
    pub fn spawn_random_tile_at_random_location(&mut self) -> (r: Option<Vector2D<usize>>)
        requires
            old(self)@.wf(),
        ensures
            r is None <==> !old(self)@.has_empty(),
            r is None ==> final(self)@ == old(self)@,
            r matches Some(p) ==> {
                &&& old(self)@.contains(p)
                &&& old(self)@.cell(p) == Tile::Empty
                &&& is_spawnable(final(self)@.cell(p))
                &&& final(self)@ == old(self)@.with_tiles(
                    old(self)@.tiles.update(index_of(old(self)@.cols as int, p), final(self)@.cell(p)),
                )
            },
    {
        let ghost g = self@;
        proof {
            lemma_empty_indices(g.tiles, g.tiles.len());
            if g.has_empty() {
                let i = choose|i: int| 0 <= i < g.tiles.len() && g.tiles[i] == Tile::Empty;
                assert(empty_indices(g.tiles, g.tiles.len()).contains(i));
            }
        }
        if let Some(position) = self.get_random_empty_position() {
            let x = random_range_inclusive(0, 99);
            let power = random_range_inclusive(1, 3) as u8;
            let tile = Self::rolled_tile(x, power);
            proof {
                let e = empty_indices(g.tiles, g.tiles.len());
                let k = choose|k: int| 0 <= k < empty_positions(g).len() && empty_positions(g)[k] == position;
                assert(g.cols > 0) by (nonlinear_arith)
                    requires
                        0 <= e[k] < g.rows * g.cols,
                ;
                lemma_position_of(g.rows as int, g.cols as int, e[k]);
            }
            self.set_tile(&position, tile);
            proof {
                lemma_index_in_bounds(g.rows as int, g.cols as int, position);
            }
            Some(position)
        } else {
            proof {
                if g.has_empty() {
                    let i = choose|i: int| 0 <= i < g.tiles.len() && g.tiles[i] == Tile::Empty;
                    assert(empty_indices(g.tiles, g.tiles.len()).contains(i));
                }
            }
            None
        }
    }

    /// Check if a tile with the given value exists.
    pub fn contains_value(&self, target: u16) -> (r: bool)
        ensures
            r == self@.contains_value(target),
    {
        let mut i: usize = 0;
        while i < self.tiles.len()
            invariant
                i <= self@.tiles.len(),
                forall|k: int| 0 <= k < i ==> #[trigger] self@.tiles[k] != Tile::Number(target),
            decreases self@.tiles.len() - i,
        {
            if self.tiles[i].get_value() == Some(target) {
                return true;
            }
            i = i + 1;
        }
        false
    }
}

/// Whether the tiles at positions `j` and `j + 1` of `row` merge.
pub open spec fn pair_mergeable(g: GridView, row: Seq<Vector2D<usize>>, j: int) -> bool {
    mergeable(g.cell(row[j]), g.cell(row[j + 1]))
}

impl Grid {
    /// Check if the given row contains any mergeable adjacent tiles.
    fn contains_mergeable(&self, positional_row: &[Vector2D<usize>]) -> (r: bool)
        requires
            self@.wf(),
            forall|j: int| 0 <= j < positional_row@.len() ==> self@.contains(#[trigger] positional_row@[j]),
        ensures
            r == exists|j: int|
                0 <= j && j + 1 < positional_row@.len() && #[trigger] pair_mergeable(self@, positional_row@, j),
    {
        let ghost row = positional_row@;
        let n = positional_row.len();
        let mut k: usize = 0;
        while k + 1 < n
            invariant
                row == positional_row@,
                n == row.len(),
                k == 0 || k < n,
                self@.wf(),
                forall|j: int| 0 <= j < row.len() ==> self@.contains(#[trigger] row[j]),
                forall|j: int| 0 <= j < k && j + 1 < row.len() ==> !#[trigger] pair_mergeable(self@, row, j),
            decreases row.len() - k,
        {
            let a_tile = self.get_tile(&positional_row[k]);
            let b_tile = self.get_tile(&positional_row[k + 1]);
            if Tile::are_mergeable(a_tile, b_tile) {
                assert(pair_mergeable(self@, row, k as int));
                return true;
            }
            k = k + 1;
        }
        false
    }

    /// Check if there are any 2 adjacent tiles on the grid that can be merged.
    fn has_possible_merges(&self) -> (r: bool)
        requires
            self@.wf(),
            walkable(self@),
        ensures
            r == self@.has_mergeable_neighbours(),
    {
        let ghost g = self@;
        let ghost rows = g.rows as int;
        let ghost cols = g.cols as int;
        let horizontal_positional_rows = self.generate_positional_rows(MoveDirection::Left);
        let vertical_positional_rows = self.generate_positional_rows(MoveDirection::Up);
        let mut k: usize = 0;
        while k < horizontal_positional_rows.len()
            invariant
                g == self@,
                rows == g.rows,
                cols == g.cols,
                g.wf(),
                walkable(g),
                horizontal_positional_rows@.len() == rows,
                forall|r: int| 0 <= r < rows ==> (#[trigger] horizontal_positional_rows@[r])@.len() == cols,
                forall|r: int, j: int|
                    0 <= r < rows && 0 <= j < cols ==> #[trigger] horizontal_positional_rows@[r]@[j]
                        == line_position(MoveDirection::Left, rows, cols, r, j),
                k <= rows,
                forall|x: int, y: int| 0 <= y < k ==> !#[trigger] g.merges_right(x, y),
            decreases rows - k,
        {
            let row = horizontal_positional_rows[k].as_slice();
            proof {
                assert forall|j: int| 0 <= j < row@.len() implies g.contains(#[trigger] row@[j]) by {
                    assert(row@[j] == line_position(MoveDirection::Left, rows, cols, k as int, j));
                }
            }
            let found = self.contains_mergeable(row);
            if found {
                proof {
                    let j = choose|j: int|
                        0 <= j && j + 1 < row@.len() && #[trigger] pair_mergeable(g, row@, j);
                    assert(row@[j] == line_position(MoveDirection::Left, rows, cols, k as int, j));
                    assert(row@[j + 1] == line_position(MoveDirection::Left, rows, cols, k as int, j + 1));
                    assert(g.merges_right(j, k as int));
                }
                return true;
            }
            proof {
                assert forall|x: int, y: int| 0 <= y < k + 1 implies !#[trigger] g.merges_right(x, y) by {
                    if y == k && g.merges_right(x, y) {
                        assert(row@[x] == line_position(MoveDirection::Left, rows, cols, k as int, x));
                        assert(row@[x + 1] == line_position(MoveDirection::Left, rows, cols, k as int, x + 1));
                        assert(pair_mergeable(g, row@, x));
                    }
                }
            }
            k = k + 1;
        }
        let mut k: usize = 0;
        while k < vertical_positional_rows.len()
            invariant
                g == self@,
                rows == g.rows,
                cols == g.cols,
                g.wf(),
                walkable(g),
                vertical_positional_rows@.len() == cols,
                forall|r: int| 0 <= r < cols ==> (#[trigger] vertical_positional_rows@[r])@.len() == rows,
                forall|r: int, j: int|
                    0 <= r < cols && 0 <= j < rows ==> #[trigger] vertical_positional_rows@[r]@[j]
                        == line_position(MoveDirection::Up, rows, cols, r, j),
                k <= cols,
                forall|x: int, y: int| !#[trigger] g.merges_right(x, y),
                forall|x: int, y: int| 0 <= x < k ==> !#[trigger] g.merges_down(x, y),
            decreases cols - k,
        {
            let row = vertical_positional_rows[k].as_slice();
            proof {
                assert forall|j: int| 0 <= j < row@.len() implies g.contains(#[trigger] row@[j]) by {
                    assert(row@[j] == line_position(MoveDirection::Up, rows, cols, k as int, j));
                }
            }
            let found = self.contains_mergeable(row);
            if found {
                proof {
                    let j = choose|j: int|
                        0 <= j && j + 1 < row@.len() && #[trigger] pair_mergeable(g, row@, j);
                    assert(row@[j] == line_position(MoveDirection::Up, rows, cols, k as int, j));
                    assert(row@[j + 1] == line_position(MoveDirection::Up, rows, cols, k as int, j + 1));
                    assert(g.merges_down(k as int, j));
                }
                return true;
            }
            proof {
                assert forall|x: int, y: int| 0 <= x < k + 1 implies !#[trigger] g.merges_down(x, y) by {
                    if x == k && g.merges_down(x, y) {
                        assert(row@[y] == line_position(MoveDirection::Up, rows, cols, k as int, y));
                        assert(row@[y + 1] == line_position(MoveDirection::Up, rows, cols, k as int, y + 1));
                        assert(pair_mergeable(g, row@, y));
                    }
                }
            }
            k = k + 1;
        }
        proof {
            assert forall|x: int, y: int| !(#[trigger] g.merges_right(x, y) || g.merges_down(x, y)) by {
                if g.merges_down(x, y) {
                    assert(0 <= x < cols);
                }
            }
        }
        false
    }

    /// Check if the grid is in a dead state, which would mean game over.
    ///
    /// A dead grid holds true these 2 conditions:
    /// 1. There is no empty tile.
    /// 2. There is no possible merge anywhere.
    pub fn is_dead(&self) -> (r: bool)
        requires
            self@.wf(),
            walkable(self@),
        ensures
            r == self@.is_dead(),
    {
        let mut has_empty_tiles = false;
        let mut i: usize = 0;
        while i < self.tiles.len()
            invariant
                i <= self@.tiles.len(),
                has_empty_tiles == exists|k: int| 0 <= k < i && #[trigger] self@.tiles[k] == Tile::Empty,
            decreases self@.tiles.len() - i,
        {
            if self.tiles[i].is_empty() {
                has_empty_tiles = true;
            }
            i = i + 1;
        }
        let is_merge_possible = self.has_possible_merges();

        !has_empty_tiles && !is_merge_possible
    }
}

/// A dead grid cannot be changed: a move in any direction leaves every tile
/// where it is and scores nothing.
pub proof fn lemma_dead_grid_is_stuck(g: GridView, d: MoveDirection)
    requires
        g.wf(),
        walkable(g),
        g.is_dead(),
    ensures
        move_is_defined(g, d),
        moved_grid(g, d) == g,
        move_total_score(g, d) == 0,
{
    let rows = g.rows as int;
    let cols = g.cols as int;
    let count = line_count(d, rows, cols);
    let len = line_length(d, rows, cols);
    assert forall|r: int| 0 <= r < count implies moved(#[trigger] line_values(g, d, r)) == line_values(g, d, r)
        && move_score(line_values(g, d, r)) == 0 && move_defined(line_values(g, d, r)) by {
        lemma_dead_line(g, d, r);
    }
    lemma_dead_lines(g, d, count as nat);
    assert forall|i: int| 0 <= i < g.tiles.len() implies #[trigger] moved_grid(g, d).tiles[i] == g.tiles[i] by {
        let x = i % cols;
        let y = i / cols;
        lemma_position_of(rows, cols, i);
        lemma_line_of_inverse(d, rows, cols, x, y);
        let (r, j) = line_of(d, rows, cols, x, y);
        assert(moved(line_values(g, d, r)) == line_values(g, d, r));
        assert(line_position(d, rows, cols, r, j) == position_of(cols, i));
    }
    assert(moved_grid(g, d).tiles =~= g.tiles);
}

proof fn lemma_dead_line(g: GridView, d: MoveDirection, r: int)
    requires
        g.wf(),
        walkable(g),
        g.is_dead(),
        0 <= r < line_count(d, g.rows as int, g.cols as int),
    ensures
        moved(line_values(g, d, r)) == line_values(g, d, r),
        move_score(line_values(g, d, r)) == 0,
        move_defined(line_values(g, d, r)),
{
    let rows = g.rows as int;
    let cols = g.cols as int;
    let s = line_values(g, d, r);
    assert forall|j: int| 0 <= j < s.len() implies #[trigger] s[j] != Tile::Empty by {
        let p = line_position(d, rows, cols, r, j);
        lemma_line_position_in_grid(d, rows, cols, r, j);
        lemma_index_in_bounds(rows, cols, p);
        if s[j] == Tile::Empty {
            assert(g.tiles[index_of(cols, p)] == Tile::Empty);
        }
    }
    assert forall|j: int| 0 <= j && j + 1 < s.len() implies !mergeable(#[trigger] s[j], s[j + 1]) by {
        match d {
            MoveDirection::Left => {
                assert(!g.merges_right(j, r));
                assert(s[j] == g.at(j, r) && s[j + 1] == g.at(j + 1, r));
            },
            MoveDirection::Right => {
                assert(!g.merges_right(cols - 2 - j, r));
                assert(s[j] == g.at(cols - 1 - j, r) && s[j + 1] == g.at(cols - 2 - j, r));
            },
            MoveDirection::Up => {
                assert(!g.merges_down(r, j));
                assert(s[j] == g.at(r, j) && s[j + 1] == g.at(r, j + 1));
            },
            MoveDirection::Down => {
                assert(!g.merges_down(r, rows - 2 - j));
                assert(s[j] == g.at(r, rows - 1 - j) && s[j + 1] == g.at(r, rows - 2 - j));
            },
        }
    }
    lemma_move_of_stuck_line(s);
}

proof fn lemma_dead_lines(g: GridView, d: MoveDirection, k: nat)
    requires
        k <= line_count(d, g.rows as int, g.cols as int),
        forall|r: int|
            0 <= r < line_count(d, g.rows as int, g.cols as int) ==> move_score(
                #[trigger] line_values(g, d, r),
            ) == 0 && move_defined(line_values(g, d, r)),
    ensures
        lines_score(g, d, k) == 0,
        lines_defined(g, d, k),
    decreases k,
{
    if k > 0 {
        lemma_dead_lines(g, d, (k - 1) as nat);
        assert(move_score(line_values(g, d, k - 1)) == 0);
    }
}

/// Once the move of a line fails its checks, the move of the grid does.
proof fn lemma_lines_defined_stops(g: GridView, d: MoveDirection, k: nat, m: nat)
    requires
        k <= m,
        !lines_defined(g, d, k),
    ensures
        !lines_defined(g, d, m),
    decreases m - k,
{
    if k < m {
        lemma_lines_defined_stops(g, d, k, (m - 1) as nat);
    }
}

impl Grid {
    /// The tiles at the positions of `positional_row`, in its order.
    fn tiles_along(&self, positional_row: &[Vector2D<usize>]) -> (r: Vec<Tile>)
        requires
            self@.wf(),
            forall|j: int| 0 <= j < positional_row@.len() ==> self@.contains(#[trigger] positional_row@[j]),
        ensures
            r@ == values_along(self@, positional_row@),
    {
        let mut values: Vec<Tile> = Vec::new();
        let mut j: usize = 0;
        while j < positional_row.len()
            invariant
                self@.wf(),
                forall|k: int| 0 <= k < positional_row@.len() ==> self@.contains(#[trigger] positional_row@[k]),
                j <= positional_row@.len(),
                values@ == values_along(self@, positional_row@).subrange(0, j as int),
            decreases positional_row@.len() - j,
        {
            let tile = self.get_tile(&positional_row[j]);
            values.push(*tile);
            assert(values@ =~= values_along(self@, positional_row@).subrange(0, j + 1));
            j = j + 1;
        }
        assert(values@ =~= values_along(self@, positional_row@));
        values
    }

    /// The score that a move in `direction` would give, computed with every
    /// check that `update` needs; `None` exactly when `update` may not be
    /// called for that direction.
    pub fn checked_move_score(&self, direction: MoveDirection) -> (r: Option<i16>)
        ensures
            r is Some <==> move_is_defined(self@, direction),
            r matches Some(score) ==> score == move_total_score(self@, direction),
    {
        let ghost g = self@;
        let ghost d = direction;
        assert(g.rows == self.num_rows && g.cols == self.num_cols && g.tiles.len() == self.tiles.len());
        if self.num_rows < 1 || self.num_rows > 127 || self.num_cols < 1 || self.num_cols > 127 {
            assert(!walkable(g));
            return None;
        }
        match self.num_rows.checked_mul(self.num_cols) {
            None => {
                assert(!g.wf());
                return None;
            },
            Some(n) => {
                if n != self.tiles.len() {
                    assert(!g.wf());
                    return None;
                }
            },
        }
        let ghost rows = g.rows as int;
        let ghost cols = g.cols as int;
        let ghost count = line_count(d, rows, cols);
        let ghost len = line_length(d, rows, cols);
        let lines = self.generate_positional_rows(direction);
        let mut total: i16 = 0;
        let mut r: usize = 0;
        while r < lines.len()
            invariant
                g == self@,
                d == direction,
                rows == g.rows,
                cols == g.cols,
                g.wf(),
                walkable(g),
                count == line_count(d, rows, cols),
                len == line_length(d, rows, cols),
                lines@.len() == count,
                forall|k: int| 0 <= k < count ==> (#[trigger] lines@[k])@.len() == len,
                forall|k: int, j: int|
                    0 <= k < count && 0 <= j < len ==> #[trigger] lines@[k]@[j] == line_position(d, rows, cols, k, j),
                r <= count,
                lines_defined(g, d, r as nat),
                total == lines_score(g, d, r as nat),
            decreases count - r,
        {
            let row = lines[r].as_slice();
            proof {
                assert forall|j: int| 0 <= j < row@.len() implies #[trigger] row@[j] == line_position(d, rows, cols, r as int, j) by {
                    assert(lines@[r as int]@[j] == line_position(d, rows, cols, r as int, j));
                }
                lemma_move_line(g, d, r as int, row@);
            }
            let values = self.tiles_along(row);
            assert(line_values(g, d, ((r + 1) - 1) as int) == line_values(g, d, r as int));
            assert(lines_score(g, d, (r + 1) as nat) == lines_score(g, d, r as nat) + move_score(line_values(g, d, r as int)));
            match move_line_checked(&values) {
                None => {
                    proof {
                        assert(values@ == line_values(g, d, r as int));
                        assert(!move_defined(line_values(g, d, r as int)));
                        assert(!lines_defined(g, d, (r + 1) as nat));
                        lemma_lines_defined_stops(g, d, (r + 1) as nat, count as nat);
                    }
                    return None;
                },
                Some(score) => {
                    match total.checked_add(score) {
                        None => {
                            proof {
                                assert(values@ == line_values(g, d, r as int));
                                assert(!lines_defined(g, d, (r + 1) as nat));
                                lemma_lines_defined_stops(g, d, (r + 1) as nat, count as nat);
                            }
                            return None;
                        },
                        Some(t) => {
                            total = t;
                        },
                    }
                },
            }
            r = r + 1;
        }
        Some(total)
    }
}

} // verus!
