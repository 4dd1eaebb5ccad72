//! The display synchronizer: which tile visuals a renderer has to show for a
//! grid. A refresh discards every visual shown before and shows this list
//! in its place.

use vstd::prelude::*;
use crate::layout::{GridLayout, WorldPoint};
use crate::maze::{tile_in, width, Grid, Maze};
use crate::tile::TileType;

verus! {

/// One tile to draw: the cell it stands for, what lies there and where in
/// the world its picture goes.
#[derive(Clone, Copy, Debug, PartialEq, Eq, Structural)]
pub struct TileVisual {
    pub col: usize,
    pub row: usize,
    pub kind: TileType,
    pub position: WorldPoint,
}

/// The visual of the cell at column `col` of row `row`.
pub open spec fn visual_at(grid: Grid, layout: GridLayout, col: int, row: int) -> TileVisual {
    TileVisual {
        col: col as usize,
        row: row as usize,
        kind: grid[row][col],
        position: WorldPoint { x: layout.cell_x(col) as i32, y: layout.cell_y(row) as i32 },
    }
}

/// The visuals that are shown: those of every tile but open path.
pub open spec fn drawn() -> spec_fn(TileVisual) -> bool {
    |visual: TileVisual| visual.kind.visible()
}

/// The visuals of the first `cols` cells of row `row`, from left to right.
pub open spec fn row_visuals_upto(grid: Grid, layout: GridLayout, row: int, cols: int) -> Seq<
    TileVisual,
> {
    Seq::new(cols as nat, |col: int| visual_at(grid, layout, col, row)).filter(drawn())
}

/// The visuals of row `row`, from left to right.
pub open spec fn row_visuals(grid: Grid, layout: GridLayout, row: int) -> Seq<TileVisual> {
    row_visuals_upto(grid, layout, row, grid[row].len() as int)
}

/// The visuals of the first `rows` rows, row after row from the top.
pub open spec fn visuals_upto(grid: Grid, layout: GridLayout, rows: int) -> Seq<TileVisual> {
    Seq::new(rows as nat, |row: int| row_visuals(grid, layout, row)).flatten()
}

/// The visuals of a grid: one for each cell that is not open path, in
/// row-major order.
pub open spec fn visuals(grid: Grid, layout: GridLayout) -> Seq<TileVisual> {
    visuals_upto(grid, layout, grid.len() as int)
}

/// Every cell of the first `rows` rows that is drawn has a place in the
/// world.
pub open spec fn displayable_upto(grid: Grid, layout: GridLayout, rows: int) -> bool {
    forall|col: int, row: int|
        0 <= row < rows && row < grid.len() && 0 <= col < grid[row].len()
            && grid[row][col].visible() ==> #[trigger] layout.places(col, row)
}

/// Every cell that is drawn has a place in the world.
pub open spec fn displayable(grid: Grid, layout: GridLayout) -> bool {
    displayable_upto(grid, layout, grid.len() as int)
}

/// The visuals to show for the maze as it is now, replacing all that were
/// shown before: one for each wall, dot and cherry, none for open path, in
/// row-major order. `None` if a cell that is drawn has no place in the
/// world's coordinates.
pub fn refresh_map_display(maze: &Maze, layout: &GridLayout) -> (shown: Option<Vec<TileVisual>>)
    ensures
        shown is Some == displayable(maze@, *layout),
        shown matches Some(list) ==> list@ == visuals(maze@, *layout),
{
    let rows: usize = maze.rows();
    let cols: usize = maze.cols();
    let mut list: Vec<TileVisual> = Vec::new();
    let mut row: usize = 0;
    assert(visuals_upto(maze@, *layout, 0) =~= Seq::empty());
    while row < rows
        invariant
            rows == maze@.len(),
            cols == width(maze@),
            forall|r: int| 0 <= r < maze@.len() ==> (#[trigger] maze@[r]).len() == cols,
            row <= rows,
            list@ == visuals_upto(maze@, *layout, row as int),
            displayable_upto(maze@, *layout, row as int),
        decreases rows - row,
    {
        let ghost above = list@;
        let mut col: usize = 0;
        assert(row_visuals_upto(maze@, *layout, row as int, 0) =~= Seq::empty()) by {
            reveal(Seq::filter);
        }
        while col < cols
            invariant
                rows == maze@.len(),
                row < rows,
                cols == maze@[row as int].len(),
                col <= cols,
                above == visuals_upto(maze@, *layout, row as int),
                list@ == above + row_visuals_upto(maze@, *layout, row as int, col as int),
                displayable_upto(maze@, *layout, row as int),
                forall|c: int|
                    0 <= c < col && maze@[row as int][c].visible() ==> #[trigger] layout.places(
                        c,
                        row as int,
                    ),
            decreases cols - col,
        {
            let ghost cells = Seq::new(
                col as nat,
                |c: int| visual_at(maze@, *layout, c, row as int),
            );
            let ghost next = visual_at(maze@, *layout, col as int, row as int);
            proof {
                assert(Seq::new((col + 1) as nat, |c: int| visual_at(maze@, *layout, c, row as int))
                    =~= cells.push(next));
                cells.lemma_filter_push(next, drawn());
            }
            match maze.tile_at(col, row) {
                Some(kind) => {
                    if kind.is_visible() {
                        match layout.cell_to_world(col, row) {
                            Some(position) => {
                                list.push(TileVisual { col, row, kind, position });
                            },
                            None => {
                                return None;
                            },
                        }
                    }
                },
                None => {},
            }
            col += 1;
        }
        proof {
            let done = Seq::new(row as nat, |r: int| row_visuals(maze@, *layout, r));
            let this = row_visuals(maze@, *layout, row as int);
            assert(Seq::new((row + 1) as nat, |r: int| row_visuals(maze@, *layout, r))
                =~= done.push(this));
            done.lemma_flatten_push(this);
        }
        row += 1;
    }
    Some(list)
}

/// The indices of the grid's cells are machine indices, as those of every
/// maze are.
pub open spec fn indexable(grid: Grid) -> bool {
    &&& grid.len() <= usize::MAX
    &&& forall|r: int| 0 <= r < grid.len() ==> (#[trigger] grid[r]).len() <= usize::MAX
}

/// `visual` stands for a cell of the grid that is drawn, and is what that
/// cell looks like.
pub open spec fn shows(visual: TileVisual, grid: Grid, layout: GridLayout) -> bool {
    &&& visual.row < grid.len()
    &&& visual.col < grid[visual.row as int].len()
    &&& visual.kind.visible()
    &&& visual == visual_at(grid, layout, visual.col as int, visual.row as int)
}

/// The cell of `first` comes before that of `second` in reading order: it
/// is in a row further up, or further left in the same row.
pub open spec fn before(first: TileVisual, second: TileVisual) -> bool {
    first.row < second.row || (first.row == second.row && first.col < second.col)
}

proof fn lemma_row_upto(grid: Grid, layout: GridLayout, row: int, cols: int)
    requires
        indexable(grid),
        0 <= row < grid.len(),
        0 <= cols <= grid[row].len(),
    ensures
        forall|i: int|
            0 <= i < row_visuals_upto(grid, layout, row, cols).len() ==> {
                let visual = #[trigger] row_visuals_upto(grid, layout, row, cols)[i];
                shows(visual, grid, layout) && visual.row == row && visual.col < cols
            },
        forall|i: int, j: int|
            0 <= i < j < row_visuals_upto(grid, layout, row, cols).len() ==> (
            #[trigger] row_visuals_upto(grid, layout, row, cols)[i]).col < (
            #[trigger] row_visuals_upto(grid, layout, row, cols)[j]).col,
        forall|col: int|
            0 <= col < cols && grid[row][col].visible() ==> row_visuals_upto(
                grid,
                layout,
                row,
                cols,
            ).contains(#[trigger] visual_at(grid, layout, col, row)),
    decreases cols,
{
    let now = row_visuals_upto(grid, layout, row, cols);
    if cols == 0 {
        assert(now =~= Seq::empty()) by {
            reveal(Seq::filter);
        }
    } else {
        lemma_row_upto(grid, layout, row, cols - 1);
        let cells = Seq::new((cols - 1) as nat, |col: int| visual_at(grid, layout, col, row));
        let next = visual_at(grid, layout, cols - 1, row);
        let earlier = row_visuals_upto(grid, layout, row, cols - 1);
        assert(Seq::new(cols as nat, |col: int| visual_at(grid, layout, col, row)) =~= cells.push(
            next,
        ));
        cells.lemma_filter_push(next, drawn());
        assert(now == if next.kind.visible() {
            earlier.push(next)
        } else {
            earlier
        });
        assert forall|col: int| 0 <= col < cols && grid[row][col].visible() implies now.contains(
            #[trigger] visual_at(grid, layout, col, row),
        ) by {
            if col < cols - 1 {
                let at = choose|i: int|
                    0 <= i < earlier.len() && earlier[i] == visual_at(grid, layout, col, row);
                assert(now[at] == visual_at(grid, layout, col, row));
            } else {
                assert(now[now.len() - 1] == next);
            }
        }
    }
}

proof fn lemma_visuals_upto(grid: Grid, layout: GridLayout, rows: int)
    requires
        indexable(grid),
        0 <= rows <= grid.len(),
    ensures
        forall|i: int|
            0 <= i < visuals_upto(grid, layout, rows).len() ==> {
                let visual = #[trigger] visuals_upto(grid, layout, rows)[i];
                shows(visual, grid, layout) && visual.row < rows
            },
        forall|i: int, j: int|
            0 <= i < j < visuals_upto(grid, layout, rows).len() ==> before(
                #[trigger] visuals_upto(grid, layout, rows)[i],
                #[trigger] visuals_upto(grid, layout, rows)[j],
            ),
        forall|col: int, row: int|
            0 <= row < rows && 0 <= col < grid[row].len() && grid[row][col].visible()
                ==> visuals_upto(grid, layout, rows).contains(
                #[trigger] visual_at(grid, layout, col, row),
            ),
    decreases rows,
{
    let now = visuals_upto(grid, layout, rows);
    if rows == 0 {
        assert(now =~= Seq::empty());
    } else {
        lemma_visuals_upto(grid, layout, rows - 1);
        lemma_row_upto(grid, layout, rows - 1, grid[rows - 1].len() as int);
        let above = visuals_upto(grid, layout, rows - 1);
        let last = row_visuals(grid, layout, rows - 1);
        let done = Seq::new((rows - 1) as nat, |row: int| row_visuals(grid, layout, row));
        assert(Seq::new(rows as nat, |row: int| row_visuals(grid, layout, row)) =~= done.push(
            last,
        ));
        done.lemma_flatten_push(last);
        assert(now == above + last);
        assert forall|i: int| 0 <= i < now.len() implies {
            let visual = #[trigger] now[i];
            shows(visual, grid, layout) && visual.row < rows
        } by {
            if i < above.len() {
                assert(now[i] == above[i]);
            } else {
                assert(now[i] == last[i - above.len()]);
            }
        }
        assert forall|i: int, j: int| 0 <= i < j < now.len() implies before(
            #[trigger] now[i],
            #[trigger] now[j],
        ) by {
            if j < above.len() {
                assert(now[i] == above[i] && now[j] == above[j]);
            } else if i < above.len() {
                assert(now[i] == above[i] && now[j] == last[j - above.len()]);
            } else {
                assert(now[i] == last[i - above.len()] && now[j] == last[j - above.len()]);
            }
        }
        assert forall|col: int, row: int|
            0 <= row < rows && 0 <= col < grid[row].len()
                && grid[row][col].visible() implies now.contains(
            #[trigger] visual_at(grid, layout, col, row),
        ) by {
            let wanted = visual_at(grid, layout, col, row);
            if row < rows - 1 {
                let at = choose|i: int| 0 <= i < above.len() && above[i] == wanted;
                assert(now[at] == wanted);
            } else {
                let at = choose|i: int| 0 <= i < last.len() && last[i] == wanted;
                assert(now[above.len() + at] == wanted);
            }
        }
    }
}

/// No visual is stale: each visual of a grid stands for a cell of that
/// grid, one that is not open path, and carries that cell's kind and place.
pub proof fn lemma_visual_shows_cell(grid: Grid, layout: GridLayout, i: int)
    requires
        indexable(grid),
        0 <= i < visuals(grid, layout).len(),
    ensures
        shows(visuals(grid, layout)[i], grid, layout),
{
    lemma_visuals_upto(grid, layout, grid.len() as int);
}

/// No cell is forgotten: each cell of a grid that is not open path has its
/// visual among the visuals of the grid.
pub proof fn lemma_cell_is_shown(grid: Grid, layout: GridLayout, col: int, row: int)
    requires
        indexable(grid),
        0 <= row < grid.len(),
        0 <= col < grid[row].len(),
        grid[row][col].visible(),
    ensures
        visuals(grid, layout).contains(visual_at(grid, layout, col, row)),
{
    lemma_visuals_upto(grid, layout, grid.len() as int);
}

/// The visuals come in reading order, so no cell is shown twice: of two
/// visuals, the earlier one stands for a cell further up, or further left
/// in the same row.
pub proof fn lemma_visuals_in_reading_order(grid: Grid, layout: GridLayout, i: int, j: int)
    requires
        indexable(grid),
        0 <= i < j < visuals(grid, layout).len(),
    ensures
        before(visuals(grid, layout)[i], visuals(grid, layout)[j]),
{
    lemma_visuals_upto(grid, layout, grid.len() as int);
}

/// Open path is never shown: where the cell at column `col` of row `row` is
/// open path, as it is once its dot was eaten, no visual of the grid stands
/// for that cell.
pub proof fn lemma_path_is_not_shown(grid: Grid, layout: GridLayout, col: int, row: int, i: int)
    requires
        indexable(grid),
        tile_in(grid, col, row) == Some(TileType::Path),
        0 <= i < visuals(grid, layout).len(),
    ensures
        !(visuals(grid, layout)[i].col == col && visuals(grid, layout)[i].row == row),
{
    lemma_visuals_upto(grid, layout, grid.len() as int);
}

/// A grid of open path alone shows nothing.
pub proof fn lemma_all_path_shows_nothing(grid: Grid, layout: GridLayout)
    requires
        indexable(grid),
        forall|col: int, row: int|
            0 <= row < grid.len() && 0 <= col < grid[row].len() ==> #[trigger] tile_in(
                grid,
                col,
                row,
            ) == Some(TileType::Path),
    ensures
        visuals(grid, layout).len() == 0,
{
    if visuals(grid, layout).len() > 0 {
        lemma_visual_shows_cell(grid, layout, 0);
        let first = visuals(grid, layout)[0];
        assert(tile_in(grid, first.col as int, first.row as int) == Some(TileType::Path));
    }
}

} // verus!
