//! The biome classifier: which noise fields a world seed gives, and which
//! biome a sampled point of the world gets.
//!
//! Noise is sampled outside this crate. What the classifier asks of a sample
//! is three comparisons, held in a `TerrainSample`; the classification of a
//! sample uses nothing else.

use crate::biome::BiomeType;
use crate::error::MapError;
use crate::grid::{grid_evicted, grid_shaped};
use crate::map::{
    grid_ids_random, percent_complete, seed_code, seed_to_code, MapModel, WorldMap, UNSET_SEED,
};
use crate::region::RegionModel;
use vstd::prelude::*;

verus! {

/// The modulus of the arid noise field's seed.
pub const SEED_MOD_ARID: u32 = 2_196_648_173;

/// The modulus of the grassland noise field's seed.
pub const SEED_MOD_GRASSLAND: u32 = 4_288_859_287;

/// The modulus of the ocean noise field's seed.
pub const SEED_MOD_OCEAN: u32 = 1_880_045_689;

/// The modulus of the rocky noise field's seed.
pub const SEED_MOD_ROCKY: u32 = 688_937_993;

/// The constant by which a biome's noise field is set apart from the terrain
/// field and from the fields of the other biomes.
pub open spec fn biome_modulus(biome: BiomeType) -> u32 {
    match biome {
        BiomeType::Arid => SEED_MOD_ARID,
        BiomeType::Grassland => SEED_MOD_GRASSLAND,
        BiomeType::Ocean => SEED_MOD_OCEAN,
        BiomeType::Rocky => SEED_MOD_ROCKY,
    }
}

/// What the noise fields say of one point of the world.
#[derive(Clone, Copy, PartialEq, Eq, Structural, Debug)]
pub struct TerrainSample {
    /// The terrain's elevation is at or below sea level.
    pub below_sea_level: bool,
    /// The elevation differs from the average of its neighbourhood by more
    /// than a valley allows.
    pub too_steep: bool,
    /// The grassland field's value is within the grassland coverage.
    pub grass_covered: bool,
}

/// The biome of a sampled point, first match first: ocean at or below sea
/// level, else rocky where the terrain is too steep, else grassland where
/// grass covers it, else arid.
pub open spec fn biome_of_sample(sample: TerrainSample) -> BiomeType {
    if sample.below_sea_level {
        BiomeType::Ocean
    } else if sample.too_steep {
        BiomeType::Rocky
    } else if sample.grass_covered {
        BiomeType::Grassland
    } else {
        BiomeType::Arid
    }
}

/// The seeds of the noise fields of one world seed.
pub ghost struct NoiseSeeds {
    pub terrain: u32,
    pub arid: u32,
    pub grassland: u32,
    pub ocean: u32,
    pub rocky: u32,
}

/// The seeds that a world seed gives: the terrain field takes the seed's 32
/// bits, each biome's field their remainder by the biome's modulus.
pub open spec fn noise_seeds(seed: i32) -> NoiseSeeds {
    let terrain = seed_code(seed);
    NoiseSeeds {
        terrain,
        arid: (terrain % SEED_MOD_ARID) as u32,
        grassland: (terrain % SEED_MOD_GRASSLAND) as u32,
        ocean: (terrain % SEED_MOD_OCEAN) as u32,
        rocky: (terrain % SEED_MOD_ROCKY) as u32,
    }
}

impl NoiseSeeds {
    /// The seed of a biome's noise field.
    pub open spec fn of_biome(self, biome: BiomeType) -> u32 {
        match biome {
            BiomeType::Arid => self.arid,
            BiomeType::Grassland => self.grassland,
            BiomeType::Ocean => self.ocean,
            BiomeType::Rocky => self.rocky,
        }
    }
}

/// Whether `biome` is what the classifier with the given seeds makes of the
/// point at `(map_x, map_y)`: the classification of an answer that `sample`
/// gives for the terrain seed, the grassland seed and the offset.
pub open spec fn classified_point<S: Fn(u32, u32, u32, u32) -> TerrainSample>(
    sample: S,
    seeds: NoiseSeeds,
    map_x: u32,
    map_y: u32,
    biome: BiomeType,
) -> bool {
    exists|sampled: TerrainSample| #[trigger]
        call_ensures(sample, (seeds.terrain, seeds.grassland, map_x, map_y), sampled) && biome
            == biome_of_sample(sampled)
}

/// The classifier of one world seed.
#[derive(Clone, Copy, Debug)]
pub struct RegionsGenerator {
    seed: i32,
    terrain_seed: u32,
    arid_seed: u32,
    grassland_seed: u32,
    ocean_seed: u32,
    rocky_seed: u32,
}

impl View for RegionsGenerator {
    type V = NoiseSeeds;

    closed spec fn view(&self) -> NoiseSeeds {
        NoiseSeeds {
            terrain: self.terrain_seed,
            arid: self.arid_seed,
            grassland: self.grassland_seed,
            ocean: self.ocean_seed,
            rocky: self.rocky_seed,
        }
    }
}

impl RegionsGenerator {
    /// The world seed that the classifier was made for.
    pub closed spec fn world_seed(&self) -> i32 {
        self.seed
    }

    /// The classifier of a world seed.
    pub fn new(seed: i32) -> (generator: RegionsGenerator)
        ensures
            generator.world_seed() == seed,
            generator@ == noise_seeds(seed),
    {
        let terrain_seed: u32 = seed_to_code(seed);
        RegionsGenerator {
            seed,
            terrain_seed,
            arid_seed: Self::register_biome_type(terrain_seed, BiomeType::Arid),
            grassland_seed: Self::register_biome_type(terrain_seed, BiomeType::Grassland),
            ocean_seed: Self::register_biome_type(terrain_seed, BiomeType::Ocean),
            rocky_seed: Self::register_biome_type(terrain_seed, BiomeType::Rocky),
        }
    }

    /// The seed of a biome's noise field under the terrain seed `seed`.
    fn register_biome_type(seed: u32, biome: BiomeType) -> (biome_seed: u32)
        ensures
            biome_seed == seed % biome_modulus(biome),
    {
        seed % Self::get_biome_seed(biome)
    }

    /// The modulus of a biome's noise seed.
    pub fn get_biome_seed(biome: BiomeType) -> (modulus: u32)
        ensures
            modulus == biome_modulus(biome),
            modulus > 0,
    {
        match biome {
            BiomeType::Arid => SEED_MOD_ARID,
            BiomeType::Grassland => SEED_MOD_GRASSLAND,
            BiomeType::Ocean => SEED_MOD_OCEAN,
            BiomeType::Rocky => SEED_MOD_ROCKY,
        }
    }

    /// The world seed that the classifier was made for.
    pub fn get_seed(&self) -> (seed: i32)
        ensures
            seed == self.world_seed(),
    {
        self.seed
    }

    /// The seed of the terrain elevation field.
    pub fn get_terrain_seed(&self) -> (seed: u32)
        ensures
            seed == self@.terrain,
    {
        self.terrain_seed
    }

    /// The seed of a biome's noise field.
    pub fn get_noise_seed(&self, biome: BiomeType) -> (seed: u32)
        ensures
            seed == self@.of_biome(biome),
    {
        match biome {
            BiomeType::Arid => self.arid_seed,
            BiomeType::Grassland => self.grassland_seed,
            BiomeType::Ocean => self.ocean_seed,
            BiomeType::Rocky => self.rocky_seed,
        }
    }

    /// The biome of a sampled point.
    pub fn classify(sample: TerrainSample) -> (biome: BiomeType)
        ensures
            biome == biome_of_sample(sample),
    {
        if sample.below_sea_level {
            BiomeType::Ocean
        } else if sample.too_steep {
            BiomeType::Rocky
        } else if sample.grass_covered {
            BiomeType::Grassland
        } else {
            BiomeType::Arid
        }
    }

    /// The biome of the region at `(map_x, map_y)`: `sample` is asked for
    /// the point once, with the terrain seed, the grassland seed and the
    /// offset, and its answer is classified.
    pub fn get_biome_at_point<S>(&self, sample: &S, map_x: u32, map_y: u32) -> (biome: BiomeType) where
        S: Fn(u32, u32, u32, u32) -> TerrainSample,

        requires
            call_requires(sample, (self@.terrain, self@.grassland, map_x, map_y)),
        ensures
            classified_point(sample, self@, map_x, map_y, biome),
    {
        let sampled = sample(self.terrain_seed, self.grassland_seed, map_x, map_y);
        Self::classify(sampled)
    }
}

/// Whether each region of the grid has the biome that the classifier of the
/// world seed makes of an answer of `sample` for the region's offset.
pub open spec fn sampled_by<S: Fn(u32, u32, u32, u32) -> TerrainSample>(
    grid: Seq<Seq<RegionModel>>,
    sample: S,
    seed: i32,
) -> bool {
    forall|x: int, y: int|
        0 <= x < grid.len() && 0 <= y < grid[x].len() ==> classified_point(
            sample,
            noise_seeds(seed),
            x as u32,
            y as u32,
            (#[trigger] grid[x][y]).biome,
        )
}

/// Generates the regions of the map with the classifier of the map's seed:
/// each region gets the biome that `RegionsGenerator` makes, for the map's
/// seed, of what `sample` answers for the region's offset. In all else this
/// is `WorldMap::generate_regions`.
pub fn generate_classified_regions<S, F>(
    map: &mut WorldMap,
    sample: &S,
    progress_callback: F,
) -> (generated: Result<(), MapError>) where
    S: Fn(u32, u32, u32, u32) -> TerrainSample,
    F: Fn(i32),

    requires
        old(map).wf(),
        forall|x: u32, y: u32|
            x < old(map)@.width && y < old(map)@.height ==> call_requires(
                sample,
                (
                    noise_seeds(old(map)@.seed).terrain,
                    noise_seeds(old(map)@.seed).grassland,
                    x,
                    y,
                ),
            ),
        forall|done: int|
            1 <= done <= old(map)@.width * old(map)@.height ==> call_requires(
                progress_callback,
                (#[trigger] percent_complete(done, old(map)@.width * old(map)@.height) as i32,),
            ),
    ensures
        match generated {
            Ok(_) => {
                &&& old(map)@.seed != UNSET_SEED
                &&& final(map)@ == (MapModel { regions: final(map)@.regions, ..old(map)@ })
                &&& grid_shaped(final(map)@.regions, old(map)@.width as nat, old(map)@.height as nat)
                &&& grid_evicted(final(map)@.regions)
                &&& grid_ids_random(final(map)@.regions)
                &&& sampled_by(final(map)@.regions, sample, old(map)@.seed)
                &&& final(map).wf()
            },
            Err(e) => e == MapError::UnsetSeed && old(map)@.seed == UNSET_SEED && final(map)@
                == old(map)@,
        },
{
    let ghost world_seed = map@.seed;
    let classify = |seed: i32, x: u32, y: u32| -> (biome: BiomeType)
        requires
            call_requires(
                sample,
                (noise_seeds(seed).terrain, noise_seeds(seed).grassland, x, y),
            ),
        ensures
            classified_point(sample, noise_seeds(seed), x, y, biome),
        { RegionsGenerator::new(seed).get_biome_at_point(sample, x, y) };
    let generated = map.generate_regions(classify, progress_callback);
    proof {
        if generated is Ok {
            let grid = map@.regions;
            assert forall|x: int, y: int| 0 <= x < grid.len() && 0 <= y < grid[x].len() implies classified_point(
                sample,
                noise_seeds(world_seed),
                x as u32,
                y as u32,
                (#[trigger] grid[x][y]).biome,
            ) by {
                assert(call_ensures(classify, (world_seed, x as u32, y as u32), grid[x][y].biome));
            }
        }
    }
    generated
}

} // verus!
