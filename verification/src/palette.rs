//! The colour that each tile is drawn with.

use vstd::prelude::*;

use crate::tile::Tile;

verus! {

/// A terminal colour: a named one, or an entry of the 256-colour palette.
#[derive(Debug, Clone, Copy, PartialEq, Eq, Structural)]
pub enum TileColor {
    Black,
    Green,
    Red,
    White,
    Indexed(u8),
}

/// The colour of a tile: black when empty, green for a multiplier, red for a
/// divider or a bomb, a palette entry for each power of 2 up to 2048, and
/// white for any other number.
pub open spec fn color_of(tile: Tile) -> TileColor {
    match tile {
        Tile::Empty => TileColor::Black,
        Tile::Multiplier(_) => TileColor::Green,
        Tile::Divider(_) | Tile::Bomb => TileColor::Red,
        Tile::Number(v) => if v == 1 {
            TileColor::Indexed(8)
        } else if v == 2 {
            TileColor::Indexed(3)
        } else if v == 4 {
            TileColor::Indexed(4)
        } else if v == 8 {
            TileColor::Indexed(5)
        } else if v == 16 {
            TileColor::Indexed(6)
        } else if v == 32 {
            TileColor::Indexed(7)
        } else if v == 64 {
            TileColor::Indexed(9)
        } else if v == 128 {
            TileColor::Indexed(10)
        } else if v == 256 {
            TileColor::Indexed(11)
        } else if v == 512 {
            TileColor::Indexed(12)
        } else if v == 1024 {
            TileColor::Indexed(13)
        } else if v == 2048 {
            TileColor::Indexed(14)
        } else {
            TileColor::White
        },
    }
}

/// Return a color that appropriately represents the tile.
pub fn get_tile_color(tile: Tile) -> (c: TileColor)
    ensures
        c == color_of(tile),
{
    match tile {
        Tile::Empty => TileColor::Black,
        Tile::Multiplier(_) => TileColor::Green,
        Tile::Divider(_) | Tile::Bomb => TileColor::Red,
        Tile::Number(1) => TileColor::Indexed(8),
        Tile::Number(2) => TileColor::Indexed(3),
        Tile::Number(4) => TileColor::Indexed(4),
        Tile::Number(8) => TileColor::Indexed(5),
        Tile::Number(16) => TileColor::Indexed(6),
        Tile::Number(32) => TileColor::Indexed(7),
        Tile::Number(64) => TileColor::Indexed(9),
        Tile::Number(128) => TileColor::Indexed(10),
        Tile::Number(256) => TileColor::Indexed(11),
        Tile::Number(512) => TileColor::Indexed(12),
        Tile::Number(1024) => TileColor::Indexed(13),
        Tile::Number(2048) => TileColor::Indexed(14),
        Tile::Number(_) => TileColor::White,
    }
}

} // verus!
