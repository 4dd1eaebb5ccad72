//! Tile kinds and the rules that depend on the kind alone.

use vstd::prelude::*;

verus! {

/// The category of one grid cell.
#[derive(Clone, Copy, Debug, PartialEq, Eq, Structural)]
pub enum TileType {
    Wall,
    Path,
    Dot,
    Cherry,
}

impl TileType {
    /// The tile that one character of a level description stands for:
    /// `W`, `D` and `C` are wall, dot and cherry, every other character is
    /// open path.
    pub open spec fn of_char(c: char) -> TileType {
        if c == 'W' {
            TileType::Wall
        } else if c == 'D' {
            TileType::Dot
        } else if c == 'C' {
            TileType::Cherry
        } else {
            TileType::Path
        }
    }

    /// An actor may stand on every tile but a wall.
    pub open spec fn walkable(self) -> bool {
        self != TileType::Wall
    }

    /// A tile is drawn unless it is open path.
    pub open spec fn visible(self) -> bool {
        self != TileType::Path
    }

    /// The symbolic name under which the tile's picture is asked for.
    pub open spec fn sprite(self) -> Option<Seq<char>> {
        match self {
            TileType::Wall => Some("wall"@),
            TileType::Dot => Some("dot"@),
            TileType::Cherry => Some("cherry"@),
            TileType::Path => None,
        }
    }

    /// The tile that one character of a level description stands for.
    pub fn from_char(c: char) -> (tile: TileType)
        ensures
            tile == TileType::of_char(c),
    {
        if c == 'W' {
            TileType::Wall
        } else if c == 'D' {
            TileType::Dot
        } else if c == 'C' {
            TileType::Cherry
        } else {
            TileType::Path
        }
    }

    /// Whether an actor may stand on the tile.
    pub fn is_walkable(&self) -> (b: bool)
        ensures
            b == self.walkable(),
    {
        match self {
            TileType::Wall => false,
            _ => true,
        }
    }

    /// Whether the tile is drawn.
    pub fn is_visible(&self) -> (b: bool)
        ensures
            b == self.visible(),
    {
        match self {
            TileType::Path => false,
            _ => true,
        }
    }

    /// The name of the tile's picture, or `None` for a tile that is not drawn.
    pub fn sprite_name(&self) -> (name: Option<&'static str>)
        ensures
            name is Some == self.visible(),
            match name {
                Some(s) => self.sprite() == Some(s@),
                None => self.sprite() is None,
            },
    {
        match self {
            TileType::Wall => Some("wall"),
            TileType::Dot => Some("dot"),
            TileType::Cherry => Some("cherry"),
            TileType::Path => None,
        }
    }
}

} // verus!
