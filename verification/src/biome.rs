//! Biome categories and their display names.

use vstd::prelude::*;
use vstd::string::*;

verus! {

/// The terrain category of a region. It is assigned once, when the region is
/// generated.
#[derive(Clone, Copy, PartialEq, Eq, Structural, Debug, Hash)]
pub enum BiomeType {
    Arid,
    Grassland,
    Ocean,
    Rocky,
}

/// The display name of a biome.
pub open spec fn biome_name(biome: BiomeType) -> Seq<char> {
    match biome {
        BiomeType::Arid => "Arid"@,
        BiomeType::Grassland => "Grassland"@,
        BiomeType::Ocean => "Oceanic"@,
        BiomeType::Rocky => "Rocky"@,
    }
}

/// The byte that stands for a biome in a stored map.
pub open spec fn biome_code(biome: BiomeType) -> u8 {
    match biome {
        BiomeType::Arid => 0,
        BiomeType::Grassland => 1,
        BiomeType::Ocean => 2,
        BiomeType::Rocky => 3,
    }
}

/// Whether a byte stands for a biome.
pub open spec fn is_biome_code(code: u8) -> bool {
    code < 4
}

/// The biome that a byte stands for; `Rocky` for the highest code.
pub open spec fn biome_of_code(code: u8) -> BiomeType {
    if code == 0 {
        BiomeType::Arid
    } else if code == 1 {
        BiomeType::Grassland
    } else if code == 2 {
        BiomeType::Ocean
    } else {
        BiomeType::Rocky
    }
}

/// The name under which a biome is shown to the player.
pub fn get_biome_name(biome: &BiomeType) -> (name: String)
    ensures
        name@ == biome_name(*biome),
{
    match biome {
        BiomeType::Arid => String::from_str("Arid"),
        BiomeType::Grassland => String::from_str("Grassland"),
        BiomeType::Ocean => String::from_str("Oceanic"),
        BiomeType::Rocky => String::from_str("Rocky"),
    }
}

impl BiomeType {
    /// Encodes the biome as one byte.
    pub fn to_code(&self) -> (code: u8)
        ensures
            code == biome_code(*self),
            is_biome_code(code),
            biome_of_code(code) == *self,
    {
        match self {
            BiomeType::Arid => 0,
            BiomeType::Grassland => 1,
            BiomeType::Ocean => 2,
            BiomeType::Rocky => 3,
        }
    }

    /// Decodes a byte; `None` exactly when the byte stands for no biome.
    pub fn from_code(code: u8) -> (biome: Option<BiomeType>)
        ensures
            biome.is_some() <==> is_biome_code(code),
            biome matches Some(b) ==> b == biome_of_code(code) && biome_code(b) == code,
    {
        if code == 0 {
            Some(BiomeType::Arid)
        } else if code == 1 {
            Some(BiomeType::Grassland)
        } else if code == 2 {
            Some(BiomeType::Ocean)
        } else if code == 3 {
            Some(BiomeType::Rocky)
        } else {
            None
        }
    }
}

} // verus!
