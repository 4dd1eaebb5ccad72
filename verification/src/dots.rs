//! The dot-consumption rule: once in every step of the game the player eats
//! the dot it stands on, if there is one.

use vstd::prelude::*;
use crate::layout::{world_to_grid, GridLayout, WorldPoint};
use crate::maze::{dot_in, eat_in, rectangular, Grid, Maze};

verus! {

/// The cell in which the player stands, if there is a player and it stands
/// in a cell.
pub open spec fn player_cell(layout: GridLayout, player: Option<WorldPoint>) -> Option<(int, int)> {
    match player {
        Some(position) => layout.cell_of(position),
        None => None,
    }
}

/// Whether the player stands on a dot.
pub open spec fn dot_under(grid: Grid, layout: GridLayout, player: Option<WorldPoint>) -> bool {
    match player_cell(layout, player) {
        Some((col, row)) => dot_in(grid, col, row),
        None => false,
    }
}

/// The grid after one step of the rule: the dot on which the player stands
/// is eaten, and nothing else changes.
pub open spec fn after_step(grid: Grid, layout: GridLayout, player: Option<WorldPoint>) -> Grid {
    match player_cell(layout, player) {
        Some((col, row)) => eat_in(grid, col, row),
        None => grid,
    }
}

/// One step of the rule, for the player at world position `player` (`None`
/// while there is no player). The result tells whether a dot was eaten: the
/// visuals of the dots are then out of date and have to be discarded. A
/// player outside the grid eats nothing.
pub fn pacman_eat_dots(maze: &mut Maze, layout: &GridLayout, player: Option<WorldPoint>) -> (eaten:
    bool)
    ensures
        eaten == dot_under(old(maze)@, *layout, player),
        final(maze)@ == after_step(old(maze)@, *layout, player),
        rectangular(final(maze)@),
{
    proof {
        use_type_invariant(&*maze);
    }
    match player {
        Some(position) => match world_to_grid(position, layout) {
            Some((col, row)) => maze.consume_dot_at(col, row),
            None => false,
        },
        None => false,
    }
}

} // verus!
