//! The grid loader: reads the text of a level description into a maze.
//!
//! A level is plain text, one line per row and one character per column.
//! A line ends at a line feed, or at a carriage return followed
//! by a line feed; the last line may go without. There is no header: the size
//! of the grid is that of the text.

use vstd::prelude::*;
use crate::maze::{first_ragged_row, grid_of, rectangular, Grid, LoadError, Maze};
use crate::tile::TileType;

verus! {

/// The first index from `start` on that holds a line feed, or the length
/// of the text if there is none.
pub open spec fn line_end(text: Seq<char>, start: int) -> int
    decreases text.len() - start,
{
    if start < 0 || start >= text.len() || text[start] == '\n' {
        start
    } else {
        line_end(text, start + 1)
    }
}

/// The line that starts at `start` and ends before the line feed at `end`,
/// or at the end of the text: a carriage return just before the line feed
/// belongs to the line's end, not to the line.
pub open spec fn line_at(text: Seq<char>, start: int, end: int) -> Seq<char> {
    if start < end < text.len() && text[end - 1] == '\r' {
        text.subrange(start, end - 1)
    } else {
        text.subrange(start, end)
    }
}

/// The tiles that the characters of one line stand for.
pub open spec fn tiles(line: Seq<char>) -> Seq<TileType> {
    line.map_values(|c: char| TileType::of_char(c))
}

/// The rows of the lines that start at `start` or later.
pub open spec fn rows_from(text: Seq<char>, start: int) -> Grid
    decreases text.len() + 1 - start,
    via rows_from_decreases
{
    if start < 0 || start >= text.len() {
        Seq::empty()
    } else {
        let end = line_end(text, start);
        seq![tiles(line_at(text, start, end))] + rows_from(text, end + 1)
    }
}

#[via_fn]
proof fn rows_from_decreases(text: Seq<char>, start: int) {
    if 0 <= start < text.len() {
        lemma_line_end(text, start);
    }
}

/// The rows of a level description, from the top.
pub open spec fn level_rows(text: Seq<char>) -> Grid {
    rows_from(text, 0)
}

/// A line ends where the first line feed stands, and not before.
pub proof fn lemma_line_end(text: Seq<char>, start: int)
    requires
        0 <= start <= text.len(),
    ensures
        start <= line_end(text, start) <= text.len(),
        line_end(text, start) < text.len() ==> text[line_end(text, start)] == '\n',
        forall|k: int| start <= k < line_end(text, start) ==> text[k] != '\n',
    decreases text.len() - start,
{
    if start < text.len() && text[start] != '\n' {
        lemma_line_end(text, start + 1);
    }
}

/// Reads the rows of a level description: `W` is a wall, `D` a dot, `C` a
/// cherry and every other character open path.
pub fn parse_rows(source: &str) -> (cells: Vec<Vec<TileType>>)
    ensures
        grid_of(cells) == level_rows(source@),
{
    let ghost text = source@;
    let ghost mut start: int = 0;
    let mut rows: Vec<Vec<TileType>> = Vec::new();
    let mut line: Vec<TileType> = Vec::new();
    let mut after_return = false;
    assert(grid_of(rows) + rows_from(text, 0) =~= level_rows(text));
    assert(tiles(text.subrange(0, 0)) =~= line@);
    for c in it: source.chars()
        invariant
            it.seq() == text,
            0 <= start <= it.index() <= text.len(),
            level_rows(text) == grid_of(rows) + rows_from(text, start),
            line_end(text, start) == line_end(text, it.index()),
            line@ == tiles(text.subrange(start, it.index())),
            after_return == (start < it.index() && text[it.index() - 1] == '\r'),
    {
        let ghost at = it.index();
        assert(c == text[at]);
        if c == '\n' {
            if after_return {
                line.pop();
                assert(line@ =~= tiles(text.subrange(start, at - 1)));
            }
            assert(line@ == tiles(line_at(text, start, at)));
            let ghost above = grid_of(rows);
            assert(above.push(line@) + rows_from(text, at + 1) =~= above + rows_from(text, start));
            rows.push(line);
            assert(grid_of(rows) =~= above.push(rows[rows.len() - 1]@));
            line = Vec::new();
            after_return = false;
            proof {
                start = at + 1;
            }
            assert(line@ =~= tiles(text.subrange(start, at + 1)));
        } else {
            line.push(TileType::from_char(c));
            after_return = c == '\r';
            assert(line@ =~= tiles(text.subrange(start, at + 1)));
        }
    }
    if line.len() > 0 {
        assert(line_end(text, start) == text.len());
        assert(rows_from(text, text.len() as int + 1) =~= Seq::empty());
        let ghost above = grid_of(rows);
        assert(above.push(line@) =~= above + rows_from(text, start));
        rows.push(line);
        assert(grid_of(rows) =~= above.push(rows[rows.len() - 1]@));
    } else {
        assert(start == text.len());
    }
    rows
}

/// Loads the maze that a level description holds. A description
/// whose lines differ in length is no maze: the error names the first line
/// that is not as long as the first.
pub fn load_maze(source: &str) -> (loaded: Result<Maze, LoadError>)
    ensures
        match loaded {
            Ok(maze) => maze@ == level_rows(source@) && rectangular(maze@),
            Err(LoadError::RaggedRow { row, expected, found }) => {
                &&& first_ragged_row(level_rows(source@), row as int)
                &&& expected == level_rows(source@)[0].len()
                &&& found == level_rows(source@)[row as int].len()
            },
        },
{
    Maze::new(parse_rows(source))
}

} // verus!
