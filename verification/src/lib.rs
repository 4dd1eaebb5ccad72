//! The maze of a Pac-Man-style arcade game: the grid of tiles, the rule that
//! decides where an actor may walk, the rule by which the player eats dots,
//! and the list of tile visuals that a renderer has to show for a grid.
//!
//! Everything here works on plain values. World positions are whole world
//! units; an engine that keeps them as floating-point numbers rounds them
//! before it asks.

pub mod display;
pub mod dots;
pub mod layout;
pub mod loader;
pub mod maze;
pub mod tile;
