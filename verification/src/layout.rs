//! The coordinate mapper: where the cells of a grid lie in the world, and
//! which cell a world position falls into.
//!
//! The world is measured in whole units. Its x axis grows to the right and
//! its y axis grows upward, while rows are counted from the top: the row
//! index grows as the world y falls.

use vstd::prelude::*;
use vstd::arithmetic::div_mod::lemma_fundamental_div_mod_converse;

verus! {

/// A position in the world, in whole world units.
#[derive(Clone, Copy, Debug, PartialEq, Eq, Structural)]
pub struct WorldPoint {
    pub x: i32,
    pub y: i32,
}

/// How a grid is laid out in the world: the pitch of its cells and the
/// offsets that fix its origin.
#[derive(Clone, Copy, Debug)]
pub struct GridLayout {
    cell_size: i32,
    x_origin: i32,
    y_origin: i32,
    rows_offset: i32,
}

impl GridLayout {
    /// The pitch of the grid: the side of one cell, in world units.
    pub closed spec fn cell(&self) -> int {
        self.cell_size as int
    }

    /// What is added to a world x before it is divided by the pitch.
    pub closed spec fn x_shift(&self) -> int {
        self.x_origin as int
    }

    /// What is added to a world y before it is divided by the pitch.
    pub closed spec fn y_shift(&self) -> int {
        self.y_origin as int
    }

    /// The row index from which the scaled world y is subtracted.
    pub closed spec fn row_shift(&self) -> int {
        self.rows_offset as int
    }

    /// A layout is valid when its cells have a positive size.
    #[verifier::type_invariant]
    pub open spec fn valid(&self) -> bool {
        self.cell() > 0
    }

    /// The column that a world x falls into: `floor((x + x_shift) / cell)`.
    pub open spec fn col_at(&self, x: int) -> int {
        (x + self.x_shift()) / self.cell()
    }

    /// The row that a world y falls into:
    /// `floor(row_shift - (y + y_shift) / cell)`, written over one
    /// denominator.
    pub open spec fn row_at(&self, y: int) -> int {
        (self.row_shift() * self.cell() - (y + self.y_shift())) / self.cell()
    }

    /// The world x at which the tiles of column `col` are drawn: the middle
    /// of the column, the lower of the two where the pitch is even.
    pub open spec fn cell_x(&self, col: int) -> int {
        col * self.cell() - self.x_shift() + (self.cell() - 1) / 2
    }

    /// The world y at which the tiles of row `row` are drawn: the middle of
    /// the row, the lower of the two where the pitch is even.
    pub open spec fn cell_y(&self, row: int) -> int {
        (self.row_shift() - row) * self.cell() - self.y_shift() - self.cell() / 2
    }

    /// The cell that a world position falls into, or `None` where an index
    /// would be negative or too large for an index.
    pub open spec fn cell_of(&self, p: WorldPoint) -> Option<(int, int)> {
        let col = self.col_at(p.x as int);
        let row = self.row_at(p.y as int);
        if 0 <= col <= usize::MAX && 0 <= row <= usize::MAX {
            Some((col, row))
        } else {
            None
        }
    }

    /// Whether the place at which cell (`col`, `row`) is drawn is a world
    /// position.
    pub open spec fn places(&self, col: int, row: int) -> bool {
        &&& i32::MIN <= self.cell_x(col) <= i32::MAX
        &&& i32::MIN <= self.cell_y(row) <= i32::MAX
    }

    /// A layout with the given pitch and offsets, or `None` if the pitch is
    /// not positive.
    pub fn new(cell_size: i32, x_origin: i32, y_origin: i32, rows_offset: i32) -> (made: Option<
        GridLayout,
    >)
        ensures
            made is Some == (cell_size > 0),
            made matches Some(layout) ==> {
                &&& layout.valid()
                &&& layout.cell() == cell_size
                &&& layout.x_shift() == x_origin
                &&& layout.y_shift() == y_origin
                &&& layout.row_shift() == rows_offset
            },
    {
        if cell_size > 0 {
            Some(GridLayout { cell_size, x_origin, y_origin, rows_offset })
        } else {
            None
        }
    }

    /// The layout of the classic level: cells of 32 units, thirteen rows,
    /// the first tile drawn at (-600, 300).
    pub fn standard() -> (layout: GridLayout)
        ensures
            layout.valid(),
            layout.cell() == 32,
            layout.x_shift() == 615,
            layout.y_shift() == 100,
            layout.row_shift() == 13,
    {
        GridLayout { cell_size: 32, x_origin: 615, y_origin: 100, rows_offset: 13 }
    }

    /// The world position at which cell (`col`, `row`) is drawn, or `None`
    /// if that place lies outside the world's coordinates.
    pub fn cell_to_world(&self, col: usize, row: usize) -> (place: Option<WorldPoint>)
        ensures
            place is Some == self.places(col as int, row as int),
            place matches Some(p) ==> p.x == self.cell_x(col as int) && p.y == self.cell_y(
                row as int,
            ),
    {
        proof {
            use_type_invariant(self);
        }
        let cell: i128 = self.cell_size as i128;
        let across: i128 = col as i128;
        let down: i128 = self.rows_offset as i128 - row as i128;
        assert(0 <= across * cell <= 0x1_0000_0000_0000_0000 * 0x8000_0000) by (nonlinear_arith)
            requires
                0 <= across <= 0x1_0000_0000_0000_0000,
                0 < cell <= 0x8000_0000,
        ;
        assert(-0x2_0000_0000_0000_0000 * 0x8000_0000 <= down * cell <= 0x8000_0000 * 0x8000_0000)
            by (nonlinear_arith)
            requires
                -0x2_0000_0000_0000_0000 <= down <= 0x8000_0000,
                0 < cell <= 0x8000_0000,
        ;
        let x: i128 = across * cell - self.x_origin as i128 + (cell - 1) / 2;
        let y: i128 = down * cell - self.y_origin as i128 - cell / 2;
        if i32::MIN as i128 <= x && x <= i32::MAX as i128 && i32::MIN as i128 <= y && y
            <= i32::MAX as i128 {
            Some(WorldPoint { x: x as i32, y: y as i32 })
        } else {
            None
        }
    }
}

/// The quotient of `n` by a positive `d`, rounded toward minus infinity.
fn floor_div(n: i64, d: i64) -> (q: i64)
    requires
        d > 0,
    ensures
        q == n / d,
{
    if n >= 0 {
        n / d
    } else {
        let m: i64 = -1 - n;
        let below: i64 = m / d;
        proof {
            let r: int = m as int % d as int;
            assert(m as int == d * (m as int / d as int) + r) by {
                vstd::arithmetic::div_mod::lemma_fundamental_div_mod(m as int, d as int);
            }
            assert(n as int == (-1 - below) * d + (d - 1 - r)) by (nonlinear_arith)
                requires
                    n == -1 - m,
                    m == d * below + r,
            ;
            lemma_fundamental_div_mod_converse(n as int, d as int, -1 - below, d - 1 - r);
        }
        -1 - below
    }
}

/// `n` as an index, if it is one.
fn index_of(n: i64) -> (index: Option<usize>)
    ensures
        index is Some == (0 <= n <= usize::MAX),
        index matches Some(i) ==> i == n,
{
    if n < 0 {
        None
    } else {
        let wide: u64 = n as u64;
        if wide > usize::MAX as u64 {
            None
        } else {
            Some(wide as usize)
        }
    }
}

/// The cell that a world position falls into: column
/// `floor((x + x_shift) / cell)` and row
/// `floor(row_shift - (y + y_shift) / cell)`. A position left of column 0 or
/// above row 0 is in no cell, and the answer is `None`; so it is where an
/// index would not fit the machine's index type.
pub fn world_to_grid(world_position: WorldPoint, layout: &GridLayout) -> (cell: Option<
    (usize, usize),
>)
    ensures
        match cell {
            Some((col, row)) => layout.cell_of(world_position) == Some((col as int, row as int)),
            None => layout.cell_of(world_position) is None,
        },
{
    proof {
        use_type_invariant(layout);
    }
    let cell: i64 = layout.cell_size as i64;
    let shift: i64 = layout.rows_offset as i64;
    assert(-0x8000_0000 * 0x8000_0000 <= shift * cell <= 0x8000_0000 * 0x8000_0000)
        by (nonlinear_arith)
        requires
            -0x8000_0000 <= shift <= 0x8000_0000,
            0 < cell <= 0x8000_0000,
    ;
    let col: i64 = floor_div(world_position.x as i64 + layout.x_origin as i64, cell);
    let row: i64 = floor_div(
        shift * cell - (world_position.y as i64 + layout.y_origin as i64),
        cell,
    );
    match (index_of(col), index_of(row)) {
        (Some(c), Some(r)) => Some((c, r)),
        _ => None,
    }
}

/// Drawing a cell and asking where its picture lies gives the cell back:
/// the place of cell (`col`, `row`) falls into column `col` and row `row`,
/// for every layout and every pair of indices.
pub proof fn lemma_cell_round_trip(layout: GridLayout, col: int, row: int)
    requires
        layout.valid(),
    ensures
        layout.col_at(layout.cell_x(col)) == col,
        layout.row_at(layout.cell_y(row)) == row,
{
    let c = layout.cell();
    let x = layout.cell_x(col) + layout.x_shift();
    lemma_fundamental_div_mod_converse(x, c, col, (c - 1) / 2);
    let y = layout.row_shift() * c - (layout.cell_y(row) + layout.y_shift());
    assert(y == row * c + c / 2) by (nonlinear_arith)
        requires
            y == layout.row_shift() * c - ((layout.row_shift() - row) * c - c / 2),
    ;
    lemma_fundamental_div_mod_converse(y, c, row, c / 2);
}

/// The round trip on machine values: where a cell has a place in the world,
/// that place is in the cell.
pub proof fn lemma_place_is_in_cell(layout: GridLayout, col: usize, row: usize, place: WorldPoint)
    requires
        layout.valid(),
        place.x == layout.cell_x(col as int),
        place.y == layout.cell_y(row as int),
    ensures
        layout.cell_of(place) == Some((col as int, row as int)),
{
    lemma_cell_round_trip(layout, col as int, row as int);
}

/// The extent of a cell: a world position falls into column `col` exactly
/// if its x lies in the `cell` units that start at `col * cell - x_shift`,
/// and into row `row` exactly if its y lies in the `cell` units that end at
/// `(row_shift - row) * cell - y_shift`.
pub proof fn lemma_cell_extent(layout: GridLayout, col: int, row: int, x: int, y: int)
    requires
        layout.valid(),
    ensures
        layout.col_at(x) == col <==> col * layout.cell() <= x + layout.x_shift() < (col + 1)
            * layout.cell(),
        layout.row_at(y) == row <==> (layout.row_shift() - row - 1) * layout.cell() < y
            + layout.y_shift() <= (layout.row_shift() - row) * layout.cell(),
{
    let c = layout.cell();
    let n = x + layout.x_shift();
    vstd::arithmetic::div_mod::lemma_fundamental_div_mod(n, c);
    vstd::arithmetic::div_mod::lemma_mod_bound(n, c);
    if col * c <= n < (col + 1) * c {
        assert((col + 1) * c == col * c + c) by (nonlinear_arith);
        lemma_fundamental_div_mod_converse(n, c, col, n - col * c);
    }
    if n / c == col {
        assert(c * col == col * c) by (nonlinear_arith);
        assert((col + 1) * c == col * c + c) by (nonlinear_arith);
    }
    let m = layout.row_shift() * c - (y + layout.y_shift());
    vstd::arithmetic::div_mod::lemma_fundamental_div_mod(m, c);
    vstd::arithmetic::div_mod::lemma_mod_bound(m, c);
    assert((layout.row_shift() - row) * c == layout.row_shift() * c - row * c) by (nonlinear_arith);
    assert((layout.row_shift() - row - 1) * c == layout.row_shift() * c - row * c - c)
        by (nonlinear_arith);
    if row * c <= m < row * c + c {
        lemma_fundamental_div_mod_converse(m, c, row, m - row * c);
    }
    if m / c == row {
        assert(c * row == row * c) by (nonlinear_arith);
    }
}

} // verus!
