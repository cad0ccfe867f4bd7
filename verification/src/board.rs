//! The board: a rectangular grid of cells, the neighbour count, the
//! one-generation rule and the rendering.

use vstd::prelude::*;
use vstd::string::*;
use crate::cell::{Cell, display_token};
use crate::point::Point;

verus! {

/// Whether all rows of a grid have the same length.
pub open spec fn rectangular(g: Seq<Seq<Cell>>) -> bool {
    forall|i: int, j: int| 0 <= i < g.len() && 0 <= j < g.len() ==> g[i].len() == g[j].len()
}

/// What a board asks of its grid: at least one row and one column, rows of
/// equal length, and both dimensions small enough for a `Point`.
pub open spec fn well_formed(g: Seq<Seq<Cell>>) -> bool {
    &&& 1 <= g.len() <= i32::MAX
    &&& 1 <= g[0].len() <= i32::MAX
    &&& rectangular(g)
}

/// Whether the cell at column `x`, row `y` is alive. A position outside the
/// grid counts as dead: the grid does not wrap around.
pub open spec fn alive_at(g: Seq<Seq<Cell>>, x: int, y: int) -> bool {
    0 <= y < g.len() && 0 <= x < g[y].len() && g[y][x] == Cell::Alive
}

/// One for a living cell at `(x, y)`, zero otherwise.
pub open spec fn alive_count(g: Seq<Seq<Cell>>, x: int, y: int) -> int {
    if alive_at(g, x, y) {
        1
    } else {
        0
    }
}

/// The number of living cells among the eight positions around `(x, y)`.
pub open spec fn neighbors(g: Seq<Seq<Cell>>, x: int, y: int) -> int {
    alive_count(g, x - 1, y - 1) + alive_count(g, x, y - 1) + alive_count(g, x + 1, y - 1)
        + alive_count(g, x - 1, y) + alive_count(g, x + 1, y) + alive_count(g, x - 1, y + 1)
        + alive_count(g, x, y + 1) + alive_count(g, x + 1, y + 1)
}

/// The rule of the game: a living cell stays alive with two or three living
/// neighbours, a dead cell comes alive with exactly three.
pub open spec fn rule(was_alive: bool, n: int) -> bool {
    n == 3 || (was_alive && n == 2)
}

/// The state of the cell at `(x, y)` one generation later.
pub open spec fn next_cell(g: Seq<Seq<Cell>>, x: int, y: int) -> Cell {
    if rule(alive_at(g, x, y), neighbors(g, x, y)) {
        Cell::Alive
    } else {
        Cell::Dead
    }
}

/// The first `n` cells of row `y` one generation later.
pub open spec fn next_row(g: Seq<Seq<Cell>>, y: int, n: nat) -> Seq<Cell> {
    Seq::new(n, |x: int| next_cell(g, x, y))
}

/// The grid one generation later: every cell computed from `g` alone.
pub open spec fn next_grid(g: Seq<Seq<Cell>>) -> Seq<Seq<Cell>> {
    Seq::new(g.len(), |y: int| next_row(g, y, g[y].len()))
}

/// The contribution of the `k`-th position of the three by three block
/// around `(x, y)`, counted row by row; the centre contributes nothing.
pub open spec fn block_term(g: Seq<Seq<Cell>>, x: int, y: int, k: int) -> int {
    if k == 4 {
        0
    } else {
        alive_count(g, x + k % 3 - 1, y + k / 3 - 1)
    }
}

/// The sum of the first `k` contributions of the block around `(x, y)`.
pub open spec fn block_sum(g: Seq<Seq<Cell>>, x: int, y: int, k: nat) -> int
    decreases k,
{
    if k == 0 {
        0
    } else {
        block_sum(g, x, y, (k - 1) as nat) + block_term(g, x, y, k - 1)
    }
}

/// The display text of one row: the display tokens of its cells, in order.
pub open spec fn render_row(row: Seq<Cell>) -> Seq<char>
    decreases row.len(),
{
    if row.len() == 0 {
        Seq::empty()
    } else {
        render_row(row.drop_last()) + display_token(row.last())
    }
}

/// The display text of a grid: each row's text followed by a newline, from
/// the top row down.
pub open spec fn render_grid(g: Seq<Seq<Cell>>) -> Seq<char>
    decreases g.len(),
{
    if g.len() == 0 {
        Seq::empty()
    } else {
        render_grid(g.drop_last()) + render_row(g.last()) + seq!['\n']
    }
}

/// The whole block around a position sums to its neighbour count.
pub proof fn lemma_block_sum_is_neighbors(g: Seq<Seq<Cell>>, x: int, y: int)
    ensures
        block_sum(g, x, y, 9) == neighbors(g, x, y),
{
    reveal_with_fuel(block_sum, 10);
}

/// A position has between zero and eight living neighbours.
pub proof fn lemma_neighbors_bounds(g: Seq<Seq<Cell>>, x: int, y: int)
    ensures
        0 <= neighbors(g, x, y) <= 8,
{
}

/// The rows of cells that a vector of rows holds.
pub open spec fn rows_of(grid: Seq<Vec<Cell>>) -> Seq<Seq<Cell>> {
    Seq::new(grid.len(), |i: int| grid[i]@)
}

/// Positions off the grid never count: a position on the border of a
/// rectangular grid has at most five living neighbours, and one in a
/// corner at most three.
pub proof fn lemma_border_neighbors(g: Seq<Seq<Cell>>, x: int, y: int)
    requires
        well_formed(g),
        0 <= y < g.len(),
        0 <= x < g[0].len(),
    ensures
        x == 0 || y == 0 || x == g[0].len() - 1 || y == g.len() - 1 ==> neighbors(g, x, y) <= 5,
        (x == 0 || x == g[0].len() - 1) && (y == 0 || y == g.len() - 1) ==> neighbors(g, x, y)
            <= 3,
{
    assert(forall|r: int| 0 <= r < g.len() ==> (#[trigger] g[r]).len() == g[0].len());
}

/// A grid of cells with a fixed size. A board is never changed: a step
/// gives a new board.
#[derive(PartialEq, Debug)]
pub struct Board {
    pub grid: Vec<Vec<Cell>>,
}

impl View for Board {
    type V = Seq<Seq<Cell>>;

    open spec fn view(&self) -> Seq<Seq<Cell>> {
        rows_of(self.grid@)
    }
}

impl Board {
    /// Whether the grid meets what a board asks of it.
    pub open spec fn wf(&self) -> bool {
        well_formed(self@)
    }

    /// The number of columns.
    pub open spec fn width(&self) -> int {
        self@[0].len() as int
    }

    /// The number of rows.
    pub open spec fn height(&self) -> int {
        self@.len() as int
    }

    /// Whether a point lies on the board.
    pub open spec fn contains(&self, point: Point) -> bool {
        0 <= point.x < self.width() && 0 <= point.y < self.height()
    }

    /// The board over the given grid, which is taken as it is.
    pub fn from(grid: Vec<Vec<Cell>>) -> (board: Board)
        ensures
            board.grid == grid,
    {
        Board { grid }
    }

    /// Whether the grid has at least one row and one column, rows of equal
    /// length, and dimensions that a `Point` can hold.
    pub fn is_well_formed(&self) -> (ok: bool)
        ensures
            ok == self.wf(),
    {
        let height = self.grid.len();
        if height == 0 || height > 0x7fff_ffff {
            return false;
        }
        let width = self.grid[0].len();
        if width == 0 || width > 0x7fff_ffff {
            return false;
        }
        let mut y: usize = 1;
        while y < height
            invariant
                1 <= y <= height,
                height == self.grid@.len(),
                width == self.grid@[0]@.len(),
                forall|i: int| 0 <= i < y ==> (#[trigger] self@[i]).len() == width,
            decreases height - y,
        {
            if self.grid[y].len() != width {
                assert(self@[y as int].len() != self@[0].len());
                return false;
            }
            y += 1;
        }
        true
    }

    /// The cell at a point of the board.
    pub fn get_cell(&self, point: Point) -> (cell: Cell)
        requires
            self.wf(),
            self.contains(point),
        ensures
            cell == self@[point.y as int][point.x as int],
    {
        assert(self@[point.y as int].len() == self@[0].len());
        self.grid[point.y as usize][point.x as usize]
    }

    /// Whether the cell at a point of the board is alive.
    pub fn is_alive(&self, point: Point) -> (alive: bool)
        requires
            self.wf(),
            self.contains(point),
        ensures
            alive == (self@[point.y as int][point.x as int] == Cell::Alive),
            alive == alive_at(self@, point.x as int, point.y as int),
    {
        assert(self@[point.y as int].len() == self@[0].len());
        self.get_cell(point) == Cell::Alive
    }

    /// Whether a point lies on the board: both coordinates at least zero,
    /// the column below the width and the row below the height.
    pub fn in_range(&self, point: Point) -> (inside: bool)
        requires
            self.wf(),
        ensures
            inside == self.contains(point),
            inside == (0 <= point.x < self.width() && 0 <= point.y < self.height()),
    {
        let Point { x, y } = point;
        let lower_limit = y < 0 || x < 0;
        let upper_limit = y >= (self.grid.len() as i32) || x >= (self.grid[0].len() as i32);
        !lower_limit && !upper_limit
    }

    /// Whether a living cell stands at column `x`, row `y`; positions off
    /// the board hold none.
    fn lives_at(&self, x: i64, y: i64) -> (alive: bool)
        requires
            self.wf(),
        ensures
            alive == alive_at(self@, x as int, y as int),
    {
        if x < -0x8000_0000 || x > 0x7fff_ffff || y < -0x8000_0000 || y > 0x7fff_ffff {
            return false;
        }
        let point = Point::from(x as i32, y as i32);
        if self.in_range(point) {
            self.is_alive(point)
        } else {
            assert(0 <= y < self@.len() ==> self@[y as int].len() == self@[0].len());
            false
        }
    }

    /// The number of living cells among the eight positions around a
    /// point. Positions off the board count as dead; the point itself need
    /// not lie on the board.
    pub fn count_neighbors(&self, cell_loc: Point) -> (count: i32)
        requires
            self.wf(),
        ensures
            count == neighbors(self@, cell_loc.x as int, cell_loc.y as int),
            0 <= count <= 8,
    {
        let x = cell_loc.x as i64;
        let y = cell_loc.y as i64;
        let mut count: i32 = 0;
        let mut k: i64 = 0;
        while k < 9
            invariant
                0 <= k <= 9,
                self.wf(),
                x == cell_loc.x,
                y == cell_loc.y,
                count == block_sum(self@, x as int, y as int, k as nat),
                0 <= count <= k,
            decreases 9 - k,
        {
            if k != 4 && self.lives_at(x + k % 3 - 1, y + k / 3 - 1) {
                count += 1;
            }
            k += 1;
        }
        proof {
            lemma_block_sum_is_neighbors(self@, x as int, y as int);
        }
        count
    }

    /// The board one generation later. Every cell is computed from this
    /// board, which stays as it was; the new board has the same size.
    pub fn simulate_step(&self) -> (next: Board)
        requires
            self.wf(),
        ensures
            next@ == next_grid(self@),
            next.wf(),
            next.width() == self.width(),
            next.height() == self.height(),
    {
        let height = self.grid.len();
        let mut grid: Vec<Vec<Cell>> = Vec::new();
        let mut y: usize = 0;
        while y < height
            invariant
                0 <= y <= height,
                height == self.grid@.len(),
                self.wf(),
                grid@.len() == y,
                forall|i: int| 0 <= i < y ==> (#[trigger] grid@[i])@ == next_row(self@, i, self@[i].len()),
            decreases height - y,
        {
            let width = self.grid[y].len();
            assert(self@[y as int].len() == self@[0].len());
            let mut row: Vec<Cell> = Vec::new();
            let mut x: usize = 0;
            while x < width
                invariant
                    0 <= x <= width,
                    y < height,
                    height == self.grid@.len(),
                    width == self@[y as int].len(),
                    width == self@[0].len(),
                    self.wf(),
                    row@ == next_row(self@, y as int, x as nat),
                decreases width - x,
            {
                let cell_loc = Point::from_usize(x, y);
                let count = self.count_neighbors(cell_loc);
                let was_alive = self.is_alive(cell_loc);
                let is_alive = count == 3 || (was_alive && count == 2);
                row.push(Cell::alive(is_alive));
                assert(row@ =~= next_row(self@, y as int, (x + 1) as nat));
                x += 1;
            }
            grid.push(row);
            y += 1;
        }
        let next = Board::from(grid);
        proof {
            assert(next@ =~= next_grid(self@));
            lemma_step_keeps_shape(self@);
        }
        next
    }

    /// The display text of the board: one line for each row, from the top
    /// down, each the display tokens of its cells and a newline.
    pub fn render(&self) -> (text: String)
        ensures
            text@ == render_grid(self@),
    {
        let mut text = String::new();
        let mut y: usize = 0;
        while y < self.grid.len()
            invariant
                0 <= y <= self.grid@.len(),
                text@ == render_grid(self@.take(y as int)),
            decreases self.grid@.len() - y,
        {
            let row = &self.grid[y];
            let ghost before = text@;
            let mut x: usize = 0;
            while x < row.len()
                invariant
                    0 <= x <= row@.len(),
                    text@ == before + render_row(row@.take(x as int)),
                decreases row@.len() - x,
            {
                let token = row[x].to_string();
                text.append(token.as_str());
                proof {
                    assert(row@.take(x + 1).drop_last() =~= row@.take(x as int));
                    assert(text@ =~= before + render_row(row@.take(x + 1)));
                }
                x += 1;
            }
            text.append("\n");
            proof {
                reveal_strlit("\n");
                assert("\n"@ =~= seq!['\n']);
                assert(row@.take(x as int) =~= row@);
                assert(self@.take(y + 1).drop_last() =~= self@.take(y as int));
                assert(self@.take(y + 1).last() == row@);
            }
            y += 1;
        }
        assert(self@.take(y as int) =~= self@);
        text
    }
}

/// A step keeps the shape of the grid: as many rows, and each row as long
/// as it was; so a rectangular grid stays rectangular, and a well-formed
/// one well-formed.
pub proof fn lemma_step_keeps_shape(g: Seq<Seq<Cell>>)
    ensures
        next_grid(g).len() == g.len(),
        forall|y: int| 0 <= y < g.len() ==> (#[trigger] next_grid(g)[y]).len() == g[y].len(),
        rectangular(g) ==> rectangular(next_grid(g)),
        well_formed(g) ==> well_formed(next_grid(g)),
{
}

/// A grid without a living cell has none one generation later.
pub proof fn lemma_dead_stays_dead(g: Seq<Seq<Cell>>)
    requires
        forall|x: int, y: int| !alive_at(g, x, y),
    ensures
        forall|x: int, y: int| !alive_at(next_grid(g), x, y),
{
    assert forall|x: int, y: int| !alive_at(next_grid(g), x, y) by {
        if 0 <= y < g.len() && 0 <= x < g[y].len() {
            assert(neighbors(g, x, y) == 0);
            assert(next_grid(g)[y][x] == next_cell(g, x, y));
        }
    }
}

/// A step is a function of the grid: boards with equal grids have equal
/// successors.
pub proof fn lemma_step_deterministic(a: Board, b: Board)
    requires
        a@ == b@,
    ensures
        next_grid(a@) == next_grid(b@),
{
}

} // verus!
