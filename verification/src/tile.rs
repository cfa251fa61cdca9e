//! Tile kinds of the static grid and their numeric codes in grid files.

use vstd::prelude::*;

verus! {

/// One cell of the level's tile grid.
///
/// `Wall` is the only solid kind; `Floor`, `Target` and `Blank` never block
/// movement. `Target` cells are the ones every box must reach to win.
#[derive(Clone, Copy, Debug, PartialEq, Eq, Structural)]
pub enum TileType {
    Floor,
    Wall,
    Target,
    Blank,
}

impl TileType {
    /// What `from_code` yields for every code.
    pub open spec fn spec_from_code(code: u32) -> Option<TileType> {
        if code == 0 || code == 2 || code == 3 {
            Some(TileType::Floor)
        } else if code == 1 {
            Some(TileType::Wall)
        } else if code == 4 {
            Some(TileType::Target)
        } else if code == 5 {
            Some(TileType::Blank)
        } else {
            None
        }
    }

    /// Decode a tile code read from a grid file. Codes 2 and 3 mark start
    /// positions in one file variant and stand on floor, so they decode to
    /// `Floor` as well; anything above 5 is unknown.
    pub fn from_code(code: u32) -> (t: Option<TileType>)
        ensures
            t == Self::spec_from_code(code),
    {
        match code {
            0 | 2 | 3 => Some(TileType::Floor),
            1 => Some(TileType::Wall),
            4 => Some(TileType::Target),
            5 => Some(TileType::Blank),
            _ => None,
        }
    }

    /// The representative code `to_code` picks for each tile kind.
    pub open spec fn spec_to_code(self) -> u32 {
        match self {
            TileType::Floor => 0,
            TileType::Wall => 1,
            TileType::Target => 4,
            TileType::Blank => 5,
        }
    }

    /// Encode a tile for the grid-file writer. `Floor` always writes 0, the
    /// canonical floor code, never the start-marker variants 2 and 3.
    pub fn to_code(self) -> (code: u32)
        ensures
            code == self.spec_to_code(),
    {
        match self {
            TileType::Floor => 0,
            TileType::Wall => 1,
            TileType::Target => 4,
            TileType::Blank => 5,
        }
    }

    /// Whether this tile blocks movement.
    pub fn is_solid(self) -> (solid: bool)
        ensures
            solid == (self == TileType::Wall),
    {
        match self {
            TileType::Wall => true,
            _ => false,
        }
    }
}

/// Decoding a valid code and re-encoding the result yields a code that
/// decodes to the same tile kind: the grid-file writer loses no tile
/// information, even though codes 2 and 3 collapse to 0.
pub proof fn lemma_tile_code_round_trip(code: u32)
    requires
        code <= 5,
    ensures
        TileType::spec_from_code(TileType::spec_from_code(code)->Some_0.spec_to_code())
            == TileType::spec_from_code(code),
{
}

} // verus!
