//! The map: a grid of regions under one seed, generated as a whole, paged
//! region by region, and saved to and loaded from the blob store.

use crate::biome::{is_biome_code, BiomeType};
use crate::error::MapError;
use crate::grid::{
    column_view, decode_grid, encode_grid, get_u128, grid_bytes, grid_evicted, grid_fits,
    grid_paged_out, grid_persists,
    grid_regions_sized, grid_shaped, grid_view, grid_without_tiles, lemma_grid_biome_byte,
    lemma_grid_bytes, lemma_grid_bytes_injective, lemma_grid_bytes_without_tiles, put_u128,
    unload_grid, REGION_RECORD_LEN,
};
use crate::ident::{fresh_id, id_text, id_to_text, is_random_id};
use crate::paths::{map_blob_key, map_dir, map_key, map_storage_dir};
use crate::region::{Region, RegionModel};
use crate::storage::Storage;
use crate::tile::REGION_DEPTH;
use crate::volume::{get_u32, placeholder_volume, put_u32, FORMAT_VERSION};
use vstd::bytes::*;
use vstd::prelude::*;

verus! {

/// The seed of a map whose seed was not set yet.
pub const UNSET_SEED: i32 = -1;

/// The number of bytes before the first region of a stored map.
pub const MAP_HEADER_LEN: usize = 33;

/// The four-byte number that stores a seed: the seed itself, or, for a
/// negative one, the seed plus two to the power of 32.
pub open spec fn seed_code(seed: i32) -> u32 {
    if seed >= 0 {
        seed as u32
    } else {
        (seed + 0x1_0000_0000) as u32
    }
}

/// The seed that a four-byte number stores.
pub open spec fn seed_of_code(code: u32) -> i32 {
    if code < 0x8000_0000 {
        code as i32
    } else {
        (code - 0x1_0000_0000) as i32
    }
}

/// What a map is: its identifier, the dimensions of its grid, the size of
/// its regions, its seed, and the regions, column by column.
#[verifier::ext_equal]
pub ghost struct MapModel {
    pub id: u128,
    pub width: u32,
    pub height: u32,
    pub region_size: u32,
    pub seed: i32,
    pub regions: Seq<Seq<RegionModel>>,
}

impl MapModel {
    /// Whether the regions were generated.
    pub open spec fn generated(self) -> bool {
        self.regions.len() > 0
    }

    /// The dimensions are at least one; the grid is empty or fully
    /// populated; every region is valid and of the map's region size.
    pub open spec fn valid(self) -> bool {
        &&& self.width >= 1
        &&& self.height >= 1
        &&& self.region_size >= 1
        &&& self.generated() ==> grid_shaped(self.regions, self.width as nat, self.height as nat)
        &&& grid_regions_sized(self.regions, self.region_size)
    }

    /// Whether `(x, y)` names a region of the grid.
    pub open spec fn has_cell(self, x: u32, y: u32) -> bool {
        self.generated() && x < self.width && y < self.height
    }

    /// The same map with the tiles of every region paged out.
    pub open spec fn evicted(self) -> MapModel {
        MapModel { regions: grid_without_tiles(self.regions), ..self }
    }

    /// The same map with `region` at `(x, y)`.
    pub open spec fn with_region(self, x: u32, y: u32, region: RegionModel) -> MapModel {
        MapModel {
            regions: self.regions.update(
                x as int,
                self.regions[x as int].update(y as int, region),
            ),
            ..self
        }
    }

    /// The text of the map's identifier.
    pub open spec fn id_text(self) -> Seq<char> {
        id_text(self.id)
    }

    /// The namespace of the map's blobs.
    pub open spec fn dir(self) -> Seq<char> {
        map_dir(self.id_text())
    }

    /// The 33 bytes that open a stored map: the format version, the
    /// identifier in sixteen bytes, then width, height, region size and seed
    /// in four bytes each, least significant byte first.
    pub open spec fn header(self) -> Seq<u8> {
        seq![FORMAT_VERSION] + spec_u128_to_le_bytes(self.id) + spec_u32_to_le_bytes(self.width)
            + spec_u32_to_le_bytes(self.height) + spec_u32_to_le_bytes(self.region_size)
            + spec_u32_to_le_bytes(seed_code(self.seed))
    }

    /// The blob of the map: its header and its grid. The tiles of the
    /// regions are no part of it.
    pub open spec fn blob(self) -> Seq<u8> {
        self.header() + grid_bytes(self.regions)
    }

    /// Whether a store that takes blobs of up to `limit` bytes takes all
    /// that saving the map writes: the blobs of the resident tiles and the
    /// map's blob.
    pub open spec fn persists(self, limit: nat) -> bool {
        grid_persists(self.regions, limit) && self.blob().len() <= limit
    }

    /// The store after the map was saved into it: every region was paged
    /// out, in grid order, and then the map's blob was written.
    pub open spec fn saved(self, store: Map<Seq<char>, Seq<u8>>) -> Map<Seq<char>, Seq<u8>> {
        grid_paged_out(store, self.dir(), self.regions).insert(
            map_key(self.id_text()),
            self.blob(),
        )
    }

    /// The biome of the region at `(x, y)`; `OutOfBounds` where the grid has
    /// no such region.
    pub open spec fn biome_at(self, x: u32, y: u32) -> Result<BiomeType, MapError> {
        if self.has_cell(x, y) {
            Ok(self.regions[x as int][y as int].biome)
        } else {
            Err(MapError::OutOfBounds { x, y })
        }
    }

    /// The region at `(x, y)` after it was paged in from the store.
    pub open spec fn cell_paged_in(self, store: Map<Seq<char>, Seq<u8>>, x: u32, y: u32) -> Result<
        RegionModel,
        MapError,
    > {
        if self.has_cell(x, y) {
            self.regions[x as int][y as int].paged_in(store, self.dir())
        } else {
            Err(MapError::OutOfBounds { x, y })
        }
    }
}

/// The share of the work that is done, as a whole percentage, rounded down.
pub open spec fn percent_complete(completed: int, total: int) -> int {
    completed * 100 / total
}

/// Whether each region of the grid has a biome that `classify` gives for the
/// seed and the region's offset.
pub open spec fn classified_by<C: Fn(i32, u32, u32) -> BiomeType>(
    grid: Seq<Seq<RegionModel>>,
    classify: C,
    seed: i32,
) -> bool {
    forall|x: int, y: int|
        0 <= x < grid.len() && 0 <= y < grid[x].len() ==> call_ensures(
            classify,
            (seed, x as u32, y as u32),
            (#[trigger] grid[x][y]).biome,
        )
}

/// Whether every region of the grid has the identifier of a random UUID.
pub open spec fn grid_ids_random(grid: Seq<Seq<RegionModel>>) -> bool {
    forall|x: int, y: int|
        0 <= x < grid.len() && 0 <= y < grid[x].len() ==> is_random_id((#[trigger] grid[x][y]).id)
}

/// What loading the map with the given identifier text from a store gives:
/// `NotFound` where the store has no blob of that map,
/// `SerializationFailure` where the blob is that of no valid map.
pub open spec fn map_loaded(store: Map<Seq<char>, Seq<u8>>, id: Seq<char>) -> Result<
    MapModel,
    MapError,
> {
    if !store.contains_key(map_key(id)) {
        Err(MapError::NotFound)
    } else {
        match stored_map(store[map_key(id)]) {
            Some(map) => Ok(map),
            None => Err(MapError::SerializationFailure),
        }
    }
}

/// Whether `bytes` is the blob of `map`, a valid map without resident tiles.
pub open spec fn is_map_blob(map: MapModel, bytes: Seq<u8>) -> bool {
    map.valid() && grid_evicted(map.regions) && map.blob() == bytes
}

/// The map that a blob stores, all tiles paged out; `None` where the blob is
/// that of no valid map.
pub open spec fn stored_map(bytes: Seq<u8>) -> Option<MapModel> {
    if exists|map: MapModel| is_map_blob(map, bytes) {
        Some(choose|map: MapModel| is_map_blob(map, bytes))
    } else {
        None
    }
}

/// How the blob of a valid map is laid out.
pub proof fn lemma_blob_layout(map: MapModel)
    requires
        map.valid(),
    ensures
        map.blob().len() == MAP_HEADER_LEN + (if map.generated() {
            map.width * (REGION_RECORD_LEN * map.height)
        } else {
            0
        }),
        map.generated() ==> map.width * (REGION_RECORD_LEN * map.height) > 0,
        map.blob()[0] == FORMAT_VERSION,
        map.blob().subrange(1, 17) == spec_u128_to_le_bytes(map.id),
        map.blob().subrange(17, 21) == spec_u32_to_le_bytes(map.width),
        map.blob().subrange(21, 25) == spec_u32_to_le_bytes(map.height),
        map.blob().subrange(25, 29) == spec_u32_to_le_bytes(map.region_size),
        map.blob().subrange(29, 33) == spec_u32_to_le_bytes(seed_code(map.seed)),
        map.blob().subrange(MAP_HEADER_LEN as int, map.blob().len() as int) == grid_bytes(
            map.regions,
        ),
{
    lemma_auto_spec_u32_to_from_le_bytes();
    lemma_auto_spec_u128_to_from_le_bytes();
    let blob = map.blob();
    if map.generated() {
        lemma_grid_bytes(map.regions, map.width as nat, map.height as nat);
        assert(map.width * (REGION_RECORD_LEN * map.height) > 0) by (nonlinear_arith)
            requires
                map.width >= 1,
                map.height >= 1,
                REGION_RECORD_LEN == 17,
        ;
    } else {
        assert(map.regions =~= Seq::empty());
    }
    assert(blob.subrange(1, 17) =~= spec_u128_to_le_bytes(map.id));
    assert(blob.subrange(17, 21) =~= spec_u32_to_le_bytes(map.width));
    assert(blob.subrange(21, 25) =~= spec_u32_to_le_bytes(map.height));
    assert(blob.subrange(25, 29) =~= spec_u32_to_le_bytes(map.region_size));
    assert(blob.subrange(29, 33) =~= spec_u32_to_le_bytes(seed_code(map.seed)));
    assert(blob.subrange(MAP_HEADER_LEN as int, blob.len() as int) =~= grid_bytes(map.regions));
}

/// No two valid maps without resident tiles have the same blob.
pub proof fn lemma_map_blob_unique(a: MapModel, b: MapModel, bytes: Seq<u8>)
    requires
        is_map_blob(a, bytes),
        is_map_blob(b, bytes),
    ensures
        a == b,
{
    lemma_blob_layout(a);
    lemma_blob_layout(b);
    lemma_auto_spec_u32_to_from_le_bytes();
    lemma_auto_spec_u128_to_from_le_bytes();
    assert(spec_u128_from_le_bytes(spec_u128_to_le_bytes(a.id)) == a.id);
    assert(spec_u128_from_le_bytes(spec_u128_to_le_bytes(b.id)) == b.id);
    assert(spec_u32_from_le_bytes(spec_u32_to_le_bytes(a.width)) == a.width);
    assert(spec_u32_from_le_bytes(spec_u32_to_le_bytes(b.width)) == b.width);
    assert(spec_u32_from_le_bytes(spec_u32_to_le_bytes(a.height)) == a.height);
    assert(spec_u32_from_le_bytes(spec_u32_to_le_bytes(b.height)) == b.height);
    assert(spec_u32_from_le_bytes(spec_u32_to_le_bytes(a.region_size)) == a.region_size);
    assert(spec_u32_from_le_bytes(spec_u32_to_le_bytes(b.region_size)) == b.region_size);
    assert(spec_u32_from_le_bytes(spec_u32_to_le_bytes(seed_code(a.seed))) == seed_code(a.seed));
    assert(spec_u32_from_le_bytes(spec_u32_to_le_bytes(seed_code(b.seed))) == seed_code(b.seed));
    assert(seed_of_code(seed_code(a.seed)) == a.seed);
    assert(seed_of_code(seed_code(b.seed)) == b.seed);
    if a.generated() {
        lemma_grid_bytes_injective(
            a.regions,
            b.regions,
            a.width as nat,
            a.height as nat,
            a.region_size,
        );
    } else {
        assert(a.regions =~= b.regions);
    }
}

/// The blob of a valid map stores that map with all tiles paged out.
pub proof fn lemma_stored_map(map: MapModel)
    requires
        map.valid(),
    ensures
        map.evicted().valid(),
        map.evicted().blob() == map.blob(),
        stored_map(map.blob()) == Some(map.evicted()),
{
    let bare = map.evicted();
    lemma_grid_bytes_without_tiles(map.regions);
    assert(grid_evicted(bare.regions));
    assert(bare.valid()) by {
        if bare.generated() {
            assert(grid_shaped(bare.regions, bare.width as nat, bare.height as nat)) by {
                assert forall|x: int| 0 <= x < bare.width implies (#[trigger] bare.regions[x]).len()
                    == bare.height by {
                    assert(map.regions[x].len() == map.height);
                }
            }
        }
        assert forall|x: int, y: int|
            0 <= x < bare.regions.len() && 0 <= y < bare.regions[x].len() implies {
            &&& (#[trigger] bare.regions[x][y]).width == bare.region_size
            &&& bare.regions[x][y].height == bare.region_size
            &&& bare.regions[x][y].valid()
        } by {
            assert(map.regions[x][y].width == map.region_size);
        }
    }
    assert(is_map_blob(bare, map.blob()));
    let chosen = choose|m: MapModel| is_map_blob(m, map.blob());
    lemma_map_blob_unique(chosen, bare, map.blob());
}

/// The top-level world object: a grid of regions generated from one seed.
#[derive(PartialEq, Debug)]
pub struct WorldMap {
    id: u128,
    width: u32,
    height: u32,
    region_size: u32,
    regions: Vec<Vec<Region>>,
    seed: i32,
}

impl View for WorldMap {
    type V = MapModel;

    closed spec fn view(&self) -> MapModel {
        MapModel {
            id: self.id,
            width: self.width,
            height: self.height,
            region_size: self.region_size,
            seed: self.seed,
            regions: grid_view(self.regions@),
        }
    }
}

/// The four-byte number that stores a seed.
pub(crate) fn seed_to_code(seed: i32) -> (code: u32)
    ensures
        code == seed_code(seed),
        seed_of_code(code) == seed,
{
    if seed >= 0 {
        seed as u32
    } else {
        ((seed as i64) + 0x1_0000_0000) as u32
    }
}

/// The seed that a four-byte number stores.
fn seed_from_code(code: u32) -> (seed: i32)
    ensures
        seed == seed_of_code(code),
        seed_code(seed) == code,
{
    if code < 0x8000_0000 {
        code as i32
    } else {
        ((code as i64) - 0x1_0000_0000) as i32
    }
}

impl WorldMap {
    /// Whether the map is valid.
    pub open spec fn wf(&self) -> bool {
        self@.valid()
    }

    /// A map of `width` by `height` regions of `region_size` tiles a side,
    /// with a new identifier, no seed and no regions yet.
    /// `InvalidDimensions` exactly when one of the three is zero.
    pub fn new(width: u32, height: u32, region_size: u32) -> (made: Result<WorldMap, MapError>)
        ensures
            match made {
                Ok(map) => {
                    &&& width >= 1 && height >= 1 && region_size >= 1
                    &&& map@ == (MapModel {
                        id: map@.id,
                        width,
                        height,
                        region_size,
                        seed: UNSET_SEED,
                        regions: Seq::empty(),
                    })
                    &&& is_random_id(map@.id)
                    &&& map.wf()
                },
                Err(e) => e == MapError::InvalidDimensions && (width == 0 || height == 0
                    || region_size == 0),
            },
    {
        if width == 0 || height == 0 || region_size == 0 {
            return Err(MapError::InvalidDimensions);
        }
        let map = WorldMap {
            id: fresh_id(),
            width,
            height,
            region_size,
            regions: Vec::new(),
            seed: UNSET_SEED,
        };
        assert(map@.regions =~= Seq::empty());
        Ok(map)
    }

    /// Sets the seed from which regions are generated.
    pub fn set_seed(&mut self, seed: i32)
        ensures
            final(self)@ == (MapModel { seed, ..old(self)@ }),
    {
        self.seed = seed;
    }

    /// The map's identifier.
    pub fn get_id(&self) -> (id: u128)
        ensures
            id == self@.id,
    {
        self.id
    }

    /// The number of columns of the region grid.
    pub fn get_width(&self) -> (width: u32)
        ensures
            width == self@.width,
    {
        self.width
    }

    /// The number of regions in a column of the grid.
    pub fn get_height(&self) -> (height: u32)
        ensures
            height == self@.height,
    {
        self.height
    }

    /// The edge length of a region's tile plane.
    pub fn get_region_size(&self) -> (region_size: u32)
        ensures
            region_size == self@.region_size,
    {
        self.region_size
    }

    /// The seed, or `UNSET_SEED` where none was set.
    pub fn get_seed(&self) -> (seed: i32)
        ensures
            seed == self@.seed,
    {
        self.seed
    }

    /// Whether the regions were generated.
    pub fn is_generated(&self) -> (generated: bool)
        ensures
            generated == self@.generated(),
    {
        self.regions.len() > 0
    }

    /// The namespace of the map's blobs in the store.
    pub fn storage_dir(&self) -> (dir: String)
        ensures
            dir@ == self@.dir(),
    {
        let text = id_to_text(self.id);
        map_storage_dir(&text)
    }

    /// The name of the map's blob in the store.
    pub fn storage_key(&self) -> (key: String)
        ensures
            key@ == map_key(self@.id_text()),
    {
        let text = id_to_text(self.id);
        map_blob_key(&text)
    }

    /// Writes the map as a blob: header and grid, without tiles.
    pub fn encode(&self) -> (bytes: Vec<u8>)
        ensures
            bytes@ == self@.blob(),
    {
        let mut bytes: Vec<u8> = Vec::new();
        bytes.push(FORMAT_VERSION);
        assert(bytes@ == seq![FORMAT_VERSION]);
        put_u128(&mut bytes, self.id);
        put_u32(&mut bytes, self.width);
        put_u32(&mut bytes, self.height);
        put_u32(&mut bytes, self.region_size);
        put_u32(&mut bytes, seed_to_code(self.seed));
        encode_grid(&self.regions, &mut bytes);
        bytes
    }

    /// Reads a blob back as a map without resident tiles. It succeeds
    /// exactly on the blobs of valid maps: any other version, a dimension of
    /// zero, a missing or surplus byte, or a byte that stands for no biome
    /// gives `SerializationFailure`.
    pub fn decode(bytes: &Vec<u8>) -> (decoded: Result<WorldMap, MapError>)
        ensures
            match decoded {
                Ok(map) => stored_map(bytes@) == Some(map@) && is_map_blob(map@, bytes@),
                Err(e) => e == MapError::SerializationFailure && stored_map(bytes@) is None,
            },
    {
        proof {
            lemma_auto_spec_u32_to_from_le_bytes();
            lemma_auto_spec_u128_to_from_le_bytes();
            assert forall|s: MapModel| is_map_blob(s, bytes@) implies ({
                &&& bytes@.len() == MAP_HEADER_LEN + (if s.generated() {
                    s.width * (REGION_RECORD_LEN * s.height)
                } else {
                    0
                })
                &&& s.generated() ==> s.width * (REGION_RECORD_LEN * s.height) > 0
                &&& bytes@[0] == FORMAT_VERSION
                &&& s.width >= 1 && s.height >= 1 && s.region_size >= 1
                &&& s.width == spec_u32_from_le_bytes(bytes@.subrange(17, 21))
                &&& s.height == spec_u32_from_le_bytes(bytes@.subrange(21, 25))
                &&& s.region_size == spec_u32_from_le_bytes(bytes@.subrange(25, 29))
            }) by {
                lemma_blob_layout(s);
                assert(spec_u32_from_le_bytes(spec_u32_to_le_bytes(s.width)) == s.width);
                assert(spec_u32_from_le_bytes(spec_u32_to_le_bytes(s.height)) == s.height);
                assert(spec_u32_from_le_bytes(spec_u32_to_le_bytes(s.region_size))
                    == s.region_size);
            }
        }
        if bytes.len() < MAP_HEADER_LEN {
            return Err(MapError::SerializationFailure);
        }
        if bytes[0] != FORMAT_VERSION {
            return Err(MapError::SerializationFailure);
        }
        let id = get_u128(bytes, 1);
        let width = get_u32(bytes, 17);
        let height = get_u32(bytes, 21);
        let region_size = get_u32(bytes, 25);
        let seed = seed_from_code(get_u32(bytes, 29));
        if width == 0 || height == 0 || region_size == 0 {
            proof {
                assert forall|s: MapModel| is_map_blob(s, bytes@) implies false by {
                    assert(s.width == width);
                    assert(s.height == height);
                    assert(s.region_size == region_size);
                }
            }
            return Err(MapError::SerializationFailure);
        }
        assert({
            &&& 0 < width * (REGION_RECORD_LEN * height) <= 0xffff_ffff * (17 * 0xffff_ffff)
            &&& REGION_RECORD_LEN * height <= 17 * 0xffff_ffff
        }) by (nonlinear_arith)
            requires
                1 <= width <= 0xffff_ffff,
                1 <= height <= 0xffff_ffff,
                REGION_RECORD_LEN == 17,
        ;
        let payload: usize = bytes.len() - MAP_HEADER_LEN;
        let regions = if payload == 0 {
            let empty: Vec<Vec<Region>> = Vec::new();
            assert(grid_view(empty@) =~= Seq::empty());
            empty
        } else {
            let stored: u128 = (width as u128) * ((REGION_RECORD_LEN as u128) * (height as u128));
            if (payload as u128) != stored {
                proof {
                    assert forall|s: MapModel| is_map_blob(s, bytes@) implies false by {
                        assert(s.width == width);
                        assert(s.height == height);
                        assert(s.generated());
                    }
                }
                return Err(MapError::SerializationFailure);
            }
            match decode_grid(bytes, MAP_HEADER_LEN, width, height, region_size) {
                Some(regions) => regions,
                None => {
                    proof {
                        let (x, y) = choose|x: int, y: int|
                            0 <= x < width && 0 <= y < height && !is_biome_code(
                                #[trigger] bytes[MAP_HEADER_LEN + x * (REGION_RECORD_LEN * height)
                                    + REGION_RECORD_LEN * y + 16],
                            );
                        assert forall|s: MapModel| is_map_blob(s, bytes@) implies false by {
                            lemma_blob_layout(s);
                            lemma_grid_biome_byte(
                                s.regions,
                                width as nat,
                                height as nat,
                                x,
                                y,
                            );
                            let at = x * (REGION_RECORD_LEN * height) + REGION_RECORD_LEN * y + 16;
                            assert(grid_bytes(s.regions)[at] == bytes@[MAP_HEADER_LEN + at]);
                        }
                    }
                    return Err(MapError::SerializationFailure);
                },
            }
        };
        let map = WorldMap { id, width, height, region_size, regions, seed };
        proof {
            assert(map@.blob() =~= bytes@) by {
                assert(bytes@ =~= seq![bytes@[0]] + bytes@.subrange(1, 17) + bytes@.subrange(17, 21)
                    + bytes@.subrange(21, 25) + bytes@.subrange(25, 29) + bytes@.subrange(29, 33)
                    + bytes@.subrange(33, bytes@.len() as int));
            }
            assert(is_map_blob(map@, bytes@));
            let chosen = choose|m: MapModel| is_map_blob(m, bytes@);
            lemma_map_blob_unique(chosen, map@, bytes@);
        }
        Ok(map)
    }

    /// Generates the regions, in place of any that were there: column after
    /// column, and in each column from the first row to the last, each
    /// region gets a new identifier, no tiles, and the biome that `classify`
    /// gives for the map's seed and the region's offset. After each region
    /// `progress_callback` is told the percentage of regions done so far,
    /// rounded down; it is told no other value.
    /// `UnsetSeed`, with the map unchanged, exactly when the seed was not set.
    pub fn generate_regions<C, F>(&mut self, classify: C, progress_callback: F) -> (generated:
        Result<(), MapError>) where C: Fn(i32, u32, u32) -> BiomeType, F: Fn(i32)
        requires
            old(self).wf(),
            forall|x: u32, y: u32|
                x < old(self)@.width && y < old(self)@.height ==> call_requires(
                    classify,
                    (old(self)@.seed, x, y),
                ),
            forall|done: int|
                1 <= done <= old(self)@.width * old(self)@.height ==> call_requires(
                    progress_callback,
                    (#[trigger] percent_complete(
                        done,
                        old(self)@.width * old(self)@.height,
                    ) as i32,),
                ),
        ensures
            match generated {
                Ok(_) => {
                    &&& old(self)@.seed != UNSET_SEED
                    &&& final(self)@ == (MapModel { regions: final(self)@.regions, ..old(self)@ })
                    &&& grid_shaped(
                        final(self)@.regions,
                        old(self)@.width as nat,
                        old(self)@.height as nat,
                    )
                    &&& grid_evicted(final(self)@.regions)
                    &&& grid_ids_random(final(self)@.regions)
                    &&& classified_by(final(self)@.regions, classify, old(self)@.seed)
                    &&& final(self).wf()
                },
                Err(e) => e == MapError::UnsetSeed && old(self)@.seed == UNSET_SEED && final(self)@
                    == old(self)@,
            },
    {
        if self.seed == UNSET_SEED {
            return Err(MapError::UnsetSeed);
        }
        let width = self.width;
        let height = self.height;
        let size = self.region_size;
        let seed = self.seed;
        assert(0 < width * height <= 0xffff_ffff * 0xffff_ffff) by (nonlinear_arith)
            requires
                1 <= width <= 0xffff_ffff,
                1 <= height <= 0xffff_ffff,
        ;
        let total: u64 = (width as u64) * (height as u64);
        let mut completed: u64 = 0;
        let mut grid: Vec<Vec<Region>> = Vec::new();
        let mut x: u32 = 0;
        assert(0 * height == 0);
        while x < width
            invariant
                x <= width,
                1 <= height,
                total == width * height,
                completed == x * height,
                grid@.len() == x,
                grid_shaped(grid_view(grid@), x as nat, height as nat),
                grid_regions_sized(grid_view(grid@), size),
                grid_evicted(grid_view(grid@)),
                grid_ids_random(grid_view(grid@)),
                classified_by(grid_view(grid@), classify, seed),
                forall|i: u32, j: u32|
                    i < width && j < height ==> call_requires(classify, (seed, i, j)),
                forall|done: int|
                    1 <= done <= width * height ==> call_requires(
                        progress_callback,
                        (#[trigger] percent_complete(done, width * height) as i32,),
                    ),
            decreases width - x,
        {
            let mut column: Vec<Region> = Vec::new();
            let mut y: u32 = 0;
            while y < height
                invariant
                    x < width,
                    y <= height,
                    total == width * height,
                    completed == x * height + y,
                    column@.len() == y,
                    forall|k: int|
                        0 <= k < y ==> {
                            &&& (#[trigger] column[k])@.width == size
                            &&& column[k]@.height == size
                            &&& column[k]@.tiles is None
                            &&& is_random_id(column[k]@.id)
                            &&& call_ensures(classify, (seed, x, k as u32), column[k]@.biome)
                        },
                    forall|i: u32, j: u32|
                        i < width && j < height ==> call_requires(classify, (seed, i, j)),
                    forall|done: int|
                        1 <= done <= width * height ==> call_requires(
                            progress_callback,
                            (#[trigger] percent_complete(done, width * height) as i32,),
                        ),
                decreases height - y,
            {
                let biome = classify(seed, x, y);
                column.push(Region::new(size, biome));
                assert(x * height + y + 1 <= width * height) by (nonlinear_arith)
                    requires
                        x < width,
                        y < height,
                ;
                completed += 1;
                let percent = progress_percent(completed, total);
                assert(percent == percent_complete(completed as int, width * height) as i32);
                progress_callback(percent);
                y += 1;
            }
            let ghost before = grid_view(grid@);
            grid.push(column);
            proof {
                let after = grid_view(grid@);
                assert((x + 1) * height == x * height + height) by (nonlinear_arith);
                assert forall|i: int| 0 <= i < x + 1 implies (#[trigger] after[i]).len()
                    == height by {
                    if i < x {
                        assert(after[i] == before[i]);
                    }
                }
                assert forall|i: int, j: int|
                    0 <= i < after.len() && 0 <= j < after[i].len() implies {
                    &&& (#[trigger] after[i][j]).width == size
                    &&& after[i][j].height == size
                    &&& after[i][j].valid()
                    &&& after[i][j].tiles is None
                    &&& is_random_id(after[i][j].id)
                    &&& call_ensures(classify, (seed, i as u32, j as u32), after[i][j].biome)
                } by {
                    if i < x {
                        assert(after[i] == before[i]);
                        assert(before[i][j].tiles is None);
                        assert(is_random_id(before[i][j].id));
                        assert(call_ensures(
                            classify,
                            (seed, i as u32, j as u32),
                            before[i][j].biome,
                        ));
                    } else {
                        assert(after[i][j] == column[j]@);
                    }
                }
            }
            x += 1;
        }
        self.regions = grid;
        Ok(())
    }

    /// The biome of the region at `(x, y)`; its tiles are not touched.
    /// `OutOfBounds` exactly when the grid has no such region.
    pub fn get_biome_at_offset(&self, x: u32, y: u32) -> (biome: Result<BiomeType, MapError>)
        requires
            self.wf(),
        ensures
            biome == self@.biome_at(x, y),
    {
        match self.get_region(x, y) {
            Ok(region) => Ok(region.get_biome()),
            Err(e) => Err(e),
        }
    }

    /// The biomes of the regions, column by column, as the overview of the
    /// map shows them. It is empty where no regions were generated.
    pub fn biome_grid(&self) -> (biomes: Vec<Vec<BiomeType>>)
        requires
            self.wf(),
        ensures
            biomes@.len() == self@.regions.len(),
            forall|x: int|
                0 <= x < biomes@.len() ==> (#[trigger] biomes[x])@.len() == self@.regions[x].len(),
            forall|x: int, y: int|
                0 <= x < biomes@.len() && 0 <= y < biomes[x]@.len() ==> biomes[x][y]
                    == (#[trigger] self@.regions[x][y]).biome,
    {
        let mut biomes: Vec<Vec<BiomeType>> = Vec::new();
        let mut x: usize = 0;
        while x < self.regions.len()
            invariant
                x <= self.regions.len(),
                biomes@.len() == x,
                forall|i: int|
                    0 <= i < x ==> (#[trigger] biomes[i])@.len() == self@.regions[i].len(),
                forall|i: int, j: int|
                    0 <= i < x && 0 <= j < biomes[i]@.len() ==> biomes[i][j]
                        == (#[trigger] self@.regions[i][j]).biome,
            decreases self.regions.len() - x,
        {
            let mut column: Vec<BiomeType> = Vec::new();
            let mut y: usize = 0;
            assert(self@.regions[x as int] == column_view(self.regions[x as int]@));
            while y < self.regions[x].len()
                invariant
                    x < self.regions.len(),
                    y <= self.regions[x as int].len(),
                    column@.len() == y,
                    self@.regions[x as int] == column_view(self.regions[x as int]@),
                    forall|j: int|
                        0 <= j < y ==> column[j] == (#[trigger] self@.regions[x as int][j]).biome,
                decreases self.regions[x as int].len() - y,
            {
                column.push(self.regions[x][y].get_biome());
                y += 1;
            }
            biomes.push(column);
            x += 1;
        }
        biomes
    }

    /// The region at `(x, y)`, as it is: nothing is read from the store.
    /// `OutOfBounds` exactly when the grid has no such region.
    pub fn get_region(&self, x: u32, y: u32) -> (region: Result<&Region, MapError>)
        requires
            self.wf(),
        ensures
            match region {
                Ok(r) => self@.has_cell(x, y) && r@ == self@.regions[x as int][y as int],
                Err(e) => !self@.has_cell(x, y) && e == (MapError::OutOfBounds { x, y }),
            },
    {
        if self.regions.len() == 0 || x >= self.width || y >= self.height {
            return Err(MapError::OutOfBounds { x, y });
        }
        assert(self@.regions[x as int].len() == self.height);
        assert(self@.regions[x as int][y as int] == self.regions[x as int][y as int]@);
        Ok(&self.regions[x as usize][y as usize])
    }

    /// Pages the region at `(x, y)` in and hands it out for use, its tiles
    /// resident. A region whose tiles are resident is handed out as it is,
    /// and the store is not read. One without tiles gets them from its blob.
    /// `OutOfBounds` exactly when the grid has no such region, `NotFound`
    /// when the store has no blob of a region without tiles,
    /// `SerializationFailure` when that blob is no volume of the region's
    /// dimensions; the map is then unchanged. What the caller does to the
    /// region through the handle is done to the map's region.
    pub fn load_region(&mut self, store: &Storage, x: u32, y: u32) -> (handle: Result<
        &mut Region,
        MapError,
    >)
        requires
            old(self).wf(),
        ensures
            match handle {
                Ok(region) => {
                    &&& old(self)@.cell_paged_in(store@, x, y) == Ok::<RegionModel, MapError>(
                        (*region)@,
                    )
                    &&& (*region)@.tiles is Some
                    &&& region.wf()
                    &&& final(self)@ =~~= old(self)@.with_region(x, y, (*final(region))@)
                },
                Err(e) => {
                    &&& old(self)@.cell_paged_in(store@, x, y) == Err::<RegionModel, MapError>(e)
                    &&& final(self)@ =~~= old(self)@
                },
            },
    {
        if self.regions.len() == 0 || x >= self.width || y >= self.height {
            return Err(MapError::OutOfBounds { x, y });
        }
        let dir = self.storage_dir();
        assert(self@.regions[x as int].len() == self.height);
        assert(self@.regions[x as int][y as int] == self.regions[x as int][y as int]@);
        assert(self@.regions[x as int][y as int].valid());
        let region = &mut self.regions[x as usize][y as usize];
        match region.page_in(store, &dir) {
            Ok(_) => Ok(region),
            Err(e) => Err(e),
        }
    }

    /// Fills the tiles of the region at `(x, y)`, in place of any that were
    /// resident: this is how a region that was never stored gets its first
    /// tiles. Every column is solid stone up to half the depth and air
    /// above. `OutOfBounds`, with the map unchanged, exactly when the grid
    /// has no such region.
    pub fn generate_region_tiles(&mut self, x: u32, y: u32) -> (generated: Result<(), MapError>)
        requires
            old(self).wf(),
        ensures
            final(self).wf(),
            match generated {
                Ok(_) => old(self)@.has_cell(x, y) && final(self)@ =~~= old(self)@.with_region(
                    x,
                    y,
                    old(self)@.regions[x as int][y as int].holding(
                        placeholder_volume(
                            old(self)@.region_size as nat,
                            old(self)@.region_size as nat,
                            REGION_DEPTH as nat,
                        ),
                    ),
                ),
                Err(e) => !old(self)@.has_cell(x, y) && e == (MapError::OutOfBounds { x, y })
                    && final(self)@ =~~= old(self)@,
            },
    {
        if self.regions.len() == 0 || x >= self.width || y >= self.height {
            return Err(MapError::OutOfBounds { x, y });
        }
        assert(self@.regions[x as int].len() == self.height);
        assert(self@.regions[x as int][y as int] == self.regions[x as int][y as int]@);
        self.regions[x as usize][y as usize].generate_tiles();
        proof {
            let after = self@;
            let before = old(self)@;
            assert forall|i: int, j: int|
                0 <= i < after.regions.len() && 0 <= j < after.regions[i].len() implies {
                &&& (#[trigger] after.regions[i][j]).width == after.region_size
                &&& after.regions[i][j].height == after.region_size
                &&& after.regions[i][j].valid()
            } by {
                if i == x && j == y {
                } else {
                    assert(after.regions[i][j] == before.regions[i][j]);
                }
            }
            assert forall|i: int| 0 <= i < after.width implies (#[trigger] after.regions[i]).len()
                == after.height by {
                assert(before.regions[i].len() == before.height);
            }
        }
        Ok(())
    }

    /// Saves the map: every region is paged out, in grid order, and then the
    /// map's blob is written under the map's name. No region has resident
    /// tiles afterwards. Where the store does not take one of the blobs, it
    /// is `WriteFailed` and nothing has happened: every region is as it was,
    /// resident tiles are still resident, and no blob was written.
    pub fn save(&mut self, store: &mut Storage) -> (saved: Result<(), MapError>)
        requires
            old(self).wf(),
        ensures
            final(self).wf(),
            final(store).limit() == old(store).limit(),
            if old(self)@.persists(old(store).limit()) {
                &&& saved is Ok
                &&& final(self)@ == old(self)@.evicted()
                &&& final(store)@ == old(self)@.saved(old(store)@)
            } else {
                &&& saved == Err::<(), MapError>(MapError::WriteFailed)
                &&& final(self)@ == old(self)@
                &&& final(store)@ == old(store)@
            },
    {
        proof {
            lemma_stored_map(self@);
        }
        let limit = store.get_limit();
        let bytes = self.encode();
        if bytes.len() > limit || !grid_fits(&self.regions, limit) {
            return Err(MapError::WriteFailed);
        }
        let dir = self.storage_dir();
        unload_grid(&mut self.regions, store, &dir);
        let key = self.storage_key();
        store.write(key, bytes)
    }

    /// Loads the map with the given identifier text from the store, in place
    /// of this map. No region of the loaded map has resident tiles.
    /// `NotFound` when the store has no blob of that map,
    /// `SerializationFailure` when the blob is that of no valid map; this map
    /// is then unchanged.
    pub fn load(&mut self, store: &Storage, id: String) -> (loaded: Result<(), MapError>)
        ensures
            match map_loaded(store@, id@) {
                Ok(map) => loaded is Ok && final(self)@ == map && final(self).wf() && grid_evicted(
                    final(self)@.regions,
                ),
                Err(e) => loaded == Err::<(), MapError>(e) && final(self)@ == old(self)@,
            },
    {
        let key = map_blob_key(&id);
        let bytes = match store.read(&key) {
            Ok(bytes) => bytes,
            Err(e) => {
                return Err(e);
            },
        };
        match WorldMap::decode(&bytes) {
            Ok(map) => {
                *self = map;
                Ok(())
            },
            Err(e) => Err(e),
        }
    }
}

/// The percentage of the work that is done, rounded down.
pub fn progress_percent(completed: u64, total: u64) -> (percent: i32)
    requires
        0 < total,
        completed <= total,
    ensures
        percent == percent_complete(completed as int, total as int),
        0 <= percent <= 100,
{
    assert(0 <= completed * 100 / (total as int) <= 100) by (nonlinear_arith)
        requires
            0 < total,
            0 <= completed <= total,
    ;
    (((completed as u128) * 100) / (total as u128)) as i32
}

} // verus!
