//! Tiles, the smallest unit of world matter, and the byte that stores one.

use vstd::prelude::*;

verus! {

/// The depth of every region's tile volume. Stored volumes carry it, so a
/// volume written under another depth is refused when it is read back.
pub const REGION_DEPTH: u32 = 16;

/// The material of a tile.
#[derive(Clone, Copy, PartialEq, Eq, Structural, Debug)]
pub enum TileType {
    Air,
    Grass,
    Sand,
    Soil,
    Stone,
    Water,
}

/// One cell of a region's volume.
#[derive(Clone, Copy, PartialEq, Eq, Structural, Debug)]
pub struct Tile {
    pub solid: bool,
    pub tile_type: TileType,
}

/// The number that stands for a material in a stored tile.
pub open spec fn tile_type_code(tile_type: TileType) -> int {
    match tile_type {
        TileType::Air => 0,
        TileType::Grass => 1,
        TileType::Sand => 2,
        TileType::Soil => 3,
        TileType::Stone => 4,
        TileType::Water => 5,
    }
}

/// The material that a number stands for; `Water` for the highest.
pub open spec fn tile_type_of_code(code: int) -> TileType {
    if code == 0 {
        TileType::Air
    } else if code == 1 {
        TileType::Grass
    } else if code == 2 {
        TileType::Sand
    } else if code == 3 {
        TileType::Soil
    } else if code == 4 {
        TileType::Stone
    } else {
        TileType::Water
    }
}

/// The byte that stores a tile: twice the material's number, plus one when
/// the tile is solid.
pub open spec fn tile_byte(tile: Tile) -> u8 {
    (2 * tile_type_code(tile.tile_type) + if tile.solid { 1int } else { 0int }) as u8
}

/// Whether a byte stores a tile.
pub open spec fn is_tile_byte(byte: u8) -> bool {
    byte < 12
}

/// The tile that a byte stores.
pub open spec fn tile_of_byte(byte: u8) -> Tile {
    Tile { solid: byte % 2 == 1, tile_type: tile_type_of_code(byte as int / 2) }
}

/// The tile that terrain generation places at height `z` of a column in a
/// volume of the given depth: solid stone up to half the depth, air above.
pub open spec fn placeholder_tile(z: int, depth: int) -> Tile {
    if z > depth / 2 {
        Tile { solid: false, tile_type: TileType::Air }
    } else {
        Tile { solid: true, tile_type: TileType::Stone }
    }
}

impl TileType {
    /// The material's number in a stored tile.
    pub fn to_code(&self) -> (code: u8)
        ensures
            code == tile_type_code(*self),
    {
        match self {
            TileType::Air => 0,
            TileType::Grass => 1,
            TileType::Sand => 2,
            TileType::Soil => 3,
            TileType::Stone => 4,
            TileType::Water => 5,
        }
    }
}

impl Tile {
    /// Encodes the tile as one byte.
    pub fn to_byte(&self) -> (byte: u8)
        ensures
            byte == tile_byte(*self),
            is_tile_byte(byte),
            tile_of_byte(byte) == *self,
    {
        let code: u8 = self.tile_type.to_code();
        if self.solid {
            2 * code + 1
        } else {
            2 * code
        }
    }

    /// Decodes a byte; `None` exactly when the byte stores no tile.
    pub fn from_byte(byte: u8) -> (tile: Option<Tile>)
        ensures
            tile.is_some() <==> is_tile_byte(byte),
            tile matches Some(t) ==> t == tile_of_byte(byte) && tile_byte(t) == byte,
    {
        if byte >= 12 {
            return None;
        }
        let code: u8 = byte / 2;
        let tile_type = if code == 0 {
            TileType::Air
        } else if code == 1 {
            TileType::Grass
        } else if code == 2 {
            TileType::Sand
        } else if code == 3 {
            TileType::Soil
        } else if code == 4 {
            TileType::Stone
        } else {
            TileType::Water
        };
        Some(Tile { solid: byte % 2 == 1, tile_type })
    }
}

} // verus!
