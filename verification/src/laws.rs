//! What holds of the map, its regions and the store, whatever their values.

use crate::biome::BiomeType;
use crate::classifier::{classified_point, noise_seeds, TerrainSample};
use crate::error::MapError;
use crate::grid::{grid_evicted, grid_shaped, grid_writes, lemma_grid_paged_out_frame};
use crate::paths::map_key;
use crate::map::{classified_by, lemma_stored_map, map_loaded, MapModel};
use crate::region::RegionModel;
use crate::tile::{Tile, TileType, REGION_DEPTH};
use crate::volume::{lemma_stored_volume, placeholder_volume, stored_volume};
use vstd::prelude::*;

verus! {

/// Classifying a point twice gives the same biome, where the noise fields
/// give one answer for one seed and offset: the classifier is a function of
/// the world seed and the offset, whenever and in whatever order it is
/// asked.
pub proof fn law_classification_deterministic<S: Fn(u32, u32, u32, u32) -> TerrainSample>(
    sample: S,
    seed: i32,
    map_x: u32,
    map_y: u32,
    first: BiomeType,
    second: BiomeType,
)
    requires
        classified_point(sample, noise_seeds(seed), map_x, map_y, first),
        classified_point(sample, noise_seeds(seed), map_x, map_y, second),
        forall|at: (u32, u32, u32, u32), a: TerrainSample, b: TerrainSample|
            call_ensures(sample, at, a) && call_ensures(sample, at, b) ==> a == b,
    ensures
        first == second,
{
}

/// Two generations under one seed and one classifier give the same biomes,
/// region by region, where the classifier gives one biome for one seed and
/// offset. The order in which the regions were classified plays no part.
pub proof fn law_generation_deterministic<C: Fn(i32, u32, u32) -> BiomeType>(
    classify: C,
    seed: i32,
    first: Seq<Seq<RegionModel>>,
    second: Seq<Seq<RegionModel>>,
    width: u32,
    height: u32,
)
    requires
        grid_shaped(first, width as nat, height as nat),
        grid_shaped(second, width as nat, height as nat),
        classified_by(first, classify, seed),
        classified_by(second, classify, seed),
        forall|at: (i32, u32, u32), a: BiomeType, b: BiomeType|
            call_ensures(classify, at, a) && call_ensures(classify, at, b) ==> a == b,
    ensures
        forall|x: int, y: int|
            0 <= x < width && 0 <= y < height ==> (#[trigger] first[x][y]).biome
                == second[x][y].biome,
{
    assert forall|x: int, y: int| 0 <= x < width && 0 <= y < height implies (#[trigger] first[x][y]).biome
        == second[x][y].biome by {
        assert(first[x].len() == height);
        assert(second[x].len() == height);
        assert(call_ensures(classify, (seed, x as u32, y as u32), first[x][y].biome));
        assert(call_ensures(classify, (seed, x as u32, y as u32), second[x][y].biome));
    }
}

/// Saving a map, into a store that takes its blobs, and loading it by its
/// identifier gives the map back: the
/// same identifier, dimensions, region size and seed, and region by region
/// the same identifier and biome, with the tiles of every region absent,
/// whether they were resident before the save or not.
pub proof fn law_save_load_round_trip(map: MapModel, store: Map<Seq<char>, Seq<u8>>)
    requires
        map.valid(),
    ensures
        map_loaded(map.saved(store), map.id_text()) == Ok::<MapModel, MapError>(map.evicted()),
        map.evicted().id == map.id,
        map.evicted().width == map.width,
        map.evicted().height == map.height,
        map.evicted().region_size == map.region_size,
        map.evicted().seed == map.seed,
        grid_evicted(map.evicted().regions),
        map.evicted().regions.len() == map.regions.len(),
        forall|x: int, y: int|
            0 <= x < map.regions.len() && 0 <= y < map.regions[x].len() ==> {
                &&& map.evicted().regions[x].len() == map.regions[x].len()
                &&& (#[trigger] map.evicted().regions[x][y]).biome == map.regions[x][y].biome
                &&& map.evicted().regions[x][y].id == map.regions[x][y].id
            },
{
    lemma_stored_map(map);
}

/// Saving a map writes the map's blob and the blobs of its regions with
/// resident tiles, and nothing else: every other blob of the store is
/// afterwards what it was.
pub proof fn law_save_writes_only_its_blobs(
    map: MapModel,
    store: Map<Seq<char>, Seq<u8>>,
    key: Seq<char>,
)
    requires
        key != map_key(map.id_text()),
        !grid_writes(map.dir(), map.regions, key),
    ensures
        map.saved(store).contains_key(key) == store.contains_key(key),
        store.contains_key(key) ==> map.saved(store)[key] == store[key],
        map.saved(store).contains_key(map_key(map.id_text())),
        map.saved(store)[map_key(map.id_text())] == map.blob(),
{
    lemma_grid_paged_out_frame(store, map.dir(), map.regions, key);
}

/// A region whose tiles are resident is paged in as it is, whatever the
/// store holds: the store is not read.
pub proof fn law_resident_region_is_not_reloaded(
    region: RegionModel,
    store: Map<Seq<char>, Seq<u8>>,
    dir: Seq<char>,
)
    requires
        region.tiles is Some,
    ensures
        region.paged_in(store, dir) == Ok::<RegionModel, MapError>(region),
{
}

/// Paging a region in a second time, with nothing paged out in between,
/// gives the region that the first time gave.
pub proof fn law_paging_in_idempotent(
    region: RegionModel,
    store: Map<Seq<char>, Seq<u8>>,
    dir: Seq<char>,
)
    requires
        region.paged_in(store, dir) is Ok,
    ensures
        region.paged_in(store, dir)->Ok_0.paged_in(store, dir) == region.paged_in(store, dir),
{
}

/// The same of a map's region: after `load_region` succeeded at an offset,
/// a second `load_region` there finds the region as the first left it.
pub proof fn law_load_region_idempotent(
    map: MapModel,
    store: Map<Seq<char>, Seq<u8>>,
    x: u32,
    y: u32,
)
    requires
        map.valid(),
        map.cell_paged_in(store, x, y) is Ok,
    ensures
        map.with_region(x, y, map.cell_paged_in(store, x, y)->Ok_0).cell_paged_in(store, x, y)
            == map.cell_paged_in(store, x, y),
{
    let loaded = map.cell_paged_in(store, x, y)->Ok_0;
    let after = map.with_region(x, y, loaded);
    assert(map.regions[x as int].len() == map.height);
    assert(after.regions[x as int][y as int] == loaded);
    assert(loaded.id == map.regions[x as int][y as int].id);
}

/// Paging out a region without resident tiles changes neither the region
/// nor the store.
pub proof fn law_unload_of_absent_tiles_is_no_op(
    region: RegionModel,
    store: Map<Seq<char>, Seq<u8>>,
    dir: Seq<char>,
)
    requires
        region.tiles is None,
    ensures
        region.evicted() == region,
        region.paged_out(store, dir) == store,
{
}

/// Tiles survive paging: a region that is paged out, into a store that
/// takes its blob, and then reads its tiles back has, tile by tile, the
/// volume that it had.
pub proof fn law_tiles_survive_paging(
    region: RegionModel,
    store: Map<Seq<char>, Seq<u8>>,
    dir: Seq<char>,
)
    requires
        region.valid(),
        region.tiles is Some,
    ensures
        region.evicted().tiles_loaded(region.paged_out(store, dir), dir) == Ok::<
            RegionModel,
            MapError,
        >(region),
        region.evicted().paged_in(region.paged_out(store, dir), dir) == Ok::<
            RegionModel,
            MapError,
        >(region),
{
    lemma_stored_volume(region.tiles->0, region.width, region.height, REGION_DEPTH);
}

/// On a map whose regions were generated, an offset beyond the width or the
/// height is out of bounds for `get_biome_at_offset` and for `load_region`,
/// and an offset within both is not: there the biome is given, and the
/// region is handed out with its tiles resident, unless it has none and the
/// store has no blob of it (`NotFound`) or one that is no volume of the
/// region's dimensions (`SerializationFailure`).
pub proof fn law_bounds(map: MapModel, store: Map<Seq<char>, Seq<u8>>, x: u32, y: u32)
    requires
        map.valid(),
        map.generated(),
    ensures
        (x >= map.width || y >= map.height) ==> {
            &&& map.biome_at(x, y) == Err::<BiomeType, MapError>(MapError::OutOfBounds { x, y })
            &&& map.cell_paged_in(store, x, y) == Err::<RegionModel, MapError>(
                MapError::OutOfBounds { x, y },
            )
        },
        (x < map.width && y < map.height) ==> {
            let region = map.regions[x as int][y as int];
            let key = region.blob_key(map.dir());
            let stored = stored_volume(store[key], region.width, region.height, REGION_DEPTH);
            &&& map.biome_at(x, y) == Ok::<BiomeType, MapError>(region.biome)
            &&& map.cell_paged_in(store, x, y) == if region.tiles is Some {
                Ok::<RegionModel, MapError>(region)
            } else if !store.contains_key(key) {
                Err::<RegionModel, MapError>(MapError::NotFound)
            } else if stored is None {
                Err::<RegionModel, MapError>(MapError::SerializationFailure)
            } else {
                Ok::<RegionModel, MapError>(region.holding(stored->0))
            }
        },
{
}

/// The fill that terrain generation places: in a volume of depth `depth`,
/// a tile at height `z` is solid stone where `z` is at most half the depth,
/// and air that is not solid above.
pub proof fn law_placeholder_fill(width: nat, height: nat, depth: nat, x: int, y: int, z: int)
    requires
        0 <= x < width,
        0 <= y < height,
        0 <= z < depth,
    ensures
        z <= depth / 2 ==> placeholder_volume(width, height, depth)[x][y][z] == (Tile {
            solid: true,
            tile_type: TileType::Stone,
        }),
        z > depth / 2 ==> placeholder_volume(width, height, depth)[x][y][z] == (Tile {
            solid: false,
            tile_type: TileType::Air,
        }),
{
}

} // verus!
