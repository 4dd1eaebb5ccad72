//! The maze store: the grid of one level, its walkability query and the one
//! mutation it allows, the eating of a dot.

use vstd::prelude::*;
use crate::tile::TileType;

verus! {

/// The model of a maze: its rows from top to bottom, each row from left to
/// right. Row 0 is the top row, column 0 the leftmost column.
pub type Grid = Seq<Seq<TileType>>;

/// Every row is as long as the first one.
pub open spec fn rectangular(grid: Grid) -> bool {
    forall|r: int| 0 <= r < grid.len() ==> (#[trigger] grid[r]).len() == grid[0].len()
}

/// The number of columns of a rectangular grid; 0 for a grid without rows.
pub open spec fn width(grid: Grid) -> nat {
    if grid.len() == 0 {
        0
    } else {
        grid[0].len()
    }
}

/// `row` is the first row whose length differs from that of row 0.
pub open spec fn first_ragged_row(grid: Grid, row: int) -> bool {
    &&& 0 < row < grid.len()
    &&& grid[row].len() != grid[0].len()
    &&& forall|r: int| 0 <= r < row ==> (#[trigger] grid[r]).len() == grid[0].len()
}

/// The tile in column `x` of row `y`, for every pair of integers: `None`
/// wherever the grid has no cell.
pub open spec fn tile_in(grid: Grid, x: int, y: int) -> Option<TileType> {
    if 0 <= y < grid.len() && 0 <= x < grid[y].len() {
        Some(grid[y][x])
    } else {
        None
    }
}

/// Whether an actor may stand at column `x` of row `y`. What lies outside
/// the grid is a boundary, and not walkable.
pub open spec fn walkable_in(grid: Grid, x: int, y: int) -> bool {
    match tile_in(grid, x, y) {
        Some(tile) => tile.walkable(),
        None => false,
    }
}

/// Whether a dot lies at column `x` of row `y`.
pub open spec fn dot_in(grid: Grid, x: int, y: int) -> bool {
    tile_in(grid, x, y) == Some(TileType::Dot)
}

/// The grid after an attempt to eat at column `x` of row `y`: a dot there
/// becomes open path, and nothing else ever changes.
pub open spec fn eat_in(grid: Grid, x: int, y: int) -> Grid {
    if dot_in(grid, x, y) {
        grid.update(y, grid[y].update(x, TileType::Path))
    } else {
        grid
    }
}

/// The rows of a nested vector, as a grid.
pub open spec fn grid_of(cells: Vec<Vec<TileType>>) -> Grid {
    cells@.map_values(|row: Vec<TileType>| row@)
}

/// Why a level could not be loaded.
#[derive(Clone, Copy, Debug, PartialEq, Eq, Structural)]
pub enum LoadError {
    /// Row `row` holds `found` tiles where the first row holds `expected`.
    RaggedRow { row: usize, expected: usize, found: usize },
}

/// The grid of one level. It is rectangular from the moment it is made, and
/// no operation resizes it.
#[derive(Debug)]
pub struct Maze {
    cells: Vec<Vec<TileType>>,
}

impl View for Maze {
    type V = Grid;

    closed spec fn view(&self) -> Grid {
        grid_of(self.cells)
    }
}

impl Maze {
    /// What holds of every maze: it is rectangular.
    #[verifier::type_invariant]
    pub open spec fn well_formed(&self) -> bool {
        rectangular(self@)
    }

    /// Takes over `cells` as the grid, unless its rows differ in length:
    /// then the error names the first row that differs from row 0.
    pub fn new(cells: Vec<Vec<TileType>>) -> (made: Result<Maze, LoadError>)
        ensures
            match made {
                Ok(maze) => maze@ == grid_of(cells) && rectangular(maze@),
                Err(LoadError::RaggedRow { row, expected, found }) => {
                    &&& first_ragged_row(grid_of(cells), row as int)
                    &&& expected == grid_of(cells)[0].len()
                    &&& found == grid_of(cells)[row as int].len()
                },
            },
    {
        let rows = cells.len();
        if rows > 0 {
            let expected = cells[0].len();
            let mut row: usize = 1;
            while row < rows
                invariant
                    rows == cells.len(),
                    0 < row <= rows,
                    expected == cells[0].len(),
                    forall|r: int| 0 <= r < row ==> (#[trigger] grid_of(cells)[r]).len() == expected,
                decreases rows - row,
            {
                let found = cells[row].len();
                if found != expected {
                    return Err(LoadError::RaggedRow { row, expected, found });
                }
                row += 1;
            }
        }
        Ok(Maze { cells })
    }

    /// The number of rows.
    pub fn rows(&self) -> (n: usize)
        ensures
            n == self@.len(),
    {
        self.cells.len()
    }

    /// The number of columns, which every row has.
    pub fn cols(&self) -> (n: usize)
        ensures
            n == width(self@),
            forall|r: int| 0 <= r < self@.len() ==> (#[trigger] self@[r]).len() == n,
    {
        proof {
            use_type_invariant(self);
        }
        if self.cells.len() == 0 {
            0
        } else {
            self.cells[0].len()
        }
    }

    /// The tile at column `x` of row `y`, if the grid has such a cell.
    pub fn tile_at(&self, x: usize, y: usize) -> (tile: Option<TileType>)
        ensures
            tile == tile_in(self@, x as int, y as int),
    {
        if y < self.cells.len() && x < self.cells[y].len() {
            Some(self.cells[y][x])
        } else {
            None
        }
    }

    /// Whether an actor may stand at column `x` of row `y`. Every pair of
    /// indices has an answer: outside the grid it is `false`.
    pub fn is_walkable(&self, x: usize, y: usize) -> (walkable: bool)
        ensures
            walkable == walkable_in(self@, x as int, y as int),
            walkable ==> y < self@.len() && x < width(self@),
    {
        proof {
            use_type_invariant(self);
        }
        match self.tile_at(x, y) {
            Some(tile) => tile.is_walkable(),
            None => false,
        }
    }

    /// Eats the dot at column `x` of row `y`, if one lies there: the cell
    /// becomes open path and the result is `true`. Anywhere else, and
    /// outside the grid, nothing changes and the result is `false`.
    pub fn consume_dot_at(&mut self, x: usize, y: usize) -> (eaten: bool)
        ensures
            eaten == dot_in(old(self)@, x as int, y as int),
            final(self)@ == eat_in(old(self)@, x as int, y as int),
            rectangular(final(self)@),
    {
        proof {
            use_type_invariant(&*self);
        }
        if y < self.cells.len() && x < self.cells[y].len() {
            if self.cells[y][x] == TileType::Dot {
                let mut cells: Vec<Vec<TileType>> = Vec::new();
                std::mem::swap(&mut cells, &mut self.cells);
                cells[y][x] = TileType::Path;
                assert(grid_of(cells) =~~= eat_in(old(self)@, x as int, y as int));
                self.cells = cells;
                true
            } else {
                false
            }
        } else {
            false
        }
    }
}

/// The query is total: wherever the grid has no cell, to the left of it or
/// above it as much as beyond its last row or column, there is no tile,
/// nothing is walkable and there is nothing to eat.
pub proof fn lemma_nothing_outside(grid: Grid, x: int, y: int)
    requires
        !(0 <= y < grid.len() && 0 <= x < grid[y].len()),
    ensures
        tile_in(grid, x, y) is None,
        !walkable_in(grid, x, y),
        !dot_in(grid, x, y),
        eat_in(grid, x, y) == grid,
{
}

/// Inside the grid, walkability is a matter of the tile's kind alone: walls
/// are not walkable, and open path, dots and cherries are.
pub proof fn lemma_walkable_by_kind(grid: Grid, x: int, y: int)
    requires
        0 <= y < grid.len(),
        0 <= x < grid[y].len(),
    ensures
        walkable_in(grid, x, y) == (grid[y][x] != TileType::Wall),
{
}

/// Eating is idempotent. After an attempt to eat at a cell no dot lies
/// there, so a second attempt at the same cell finds nothing to eat and
/// changes nothing; and where the first attempt ate, the cell is open path.
pub proof fn lemma_eating_twice(grid: Grid, x: int, y: int)
    ensures
        dot_in(grid, x, y) ==> tile_in(eat_in(grid, x, y), x, y) == Some(TileType::Path),
        !dot_in(eat_in(grid, x, y), x, y),
        eat_in(eat_in(grid, x, y), x, y) == eat_in(grid, x, y),
{
}

/// Eating keeps the shape of the grid: the number of rows, the length of
/// each row, and with them the rectangle.
pub proof fn lemma_eating_keeps_shape(grid: Grid, x: int, y: int)
    ensures
        eat_in(grid, x, y).len() == grid.len(),
        forall|r: int|
            0 <= r < grid.len() ==> (#[trigger] eat_in(grid, x, y)[r]).len() == grid[r].len(),
        rectangular(grid) ==> rectangular(eat_in(grid, x, y)),
{
    let after = eat_in(grid, x, y);
    assert forall|r: int| 0 <= r < grid.len() implies (#[trigger] after[r]).len()
        == grid[r].len() by {}
    if rectangular(grid) {
        assert forall|r: int| 0 <= r < after.len() implies (#[trigger] after[r]).len()
            == after[0].len() by {
            assert(grid[r].len() == grid[0].len());
        }
    }
}

/// Eating at one cell leaves every other cell as it was, and changes what
/// is walkable nowhere: the dot that goes was walkable, and so is the open
/// path that it leaves.
pub proof fn lemma_eating_elsewhere(grid: Grid, x: int, y: int, col: int, row: int)
    ensures
        col != x || row != y ==> tile_in(eat_in(grid, x, y), col, row) == tile_in(grid, col, row),
        walkable_in(eat_in(grid, x, y), col, row) == walkable_in(grid, col, row),
{
}

} // verus!
