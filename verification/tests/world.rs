use roguelike::biome::BiomeType;
use roguelike::error::MapError;
use roguelike::map::{progress_percent, WorldMap, MAP_HEADER_LEN, UNSET_SEED};
use roguelike::paths::{id_string, region_blob_key};
use roguelike::storage::Storage;
use roguelike::tile::{Tile, TileType, REGION_DEPTH};
use roguelike::volume::generate_volume;
use noise::{Fbm, NoiseFn, Perlin};
use roguelike::classifier::{generate_classified_regions, RegionsGenerator, TerrainSample};
use std::cell::RefCell;

fn neighbor_average(noise: &Fbm<Perlin>, x: f64, y: f64) -> f64 {
    let mut angle = 0.0f64;
    let mut total = 0.0f64;
    let mut count = 0.0f64;
    while angle <= 2.0 * std::f64::consts::PI {
        total += noise.get([x + 0.1 * angle.cos(), y + 0.1 * angle.sin()]);
        count += 1.0;
        angle += 1.570796;
    }
    total / count
}

fn sample(terrain_seed: u32, grassland_seed: u32, map_x: u32, map_y: u32) -> TerrainSample {
    let terrain = Fbm::<Perlin>::new(terrain_seed);
    let grassland = Fbm::<Perlin>::new(grassland_seed);
    let x = 0.1 * (map_x as f64);
    let y = 0.1 * (map_y as f64);
    let height = terrain.get([x, y]);
    let steepness = (height - neighbor_average(&terrain, x, y)).abs();
    TerrainSample {
        below_sea_level: height <= 0.0,
        too_steep: steepness > 0.1,
        grass_covered: grassland.get([x, y]) <= 0.5,
    }
}

fn by_noise(seed: i32, x: u32, y: u32) -> BiomeType {
    RegionsGenerator::new(seed).get_biome_at_point(&sample, x, y)
}

fn by_offset(_seed: i32, x: u32, y: u32) -> BiomeType {
    if x % 3 == 0 || y % 2 == 0 {
        BiomeType::Arid
    } else if x % 4 == 0 {
        BiomeType::Grassland
    } else {
        BiomeType::Rocky
    }
}

fn by_seed(seed: i32, x: u32, y: u32) -> BiomeType {
    match (seed as i64 + x as i64 + 2 * y as i64).rem_euclid(4) {
        0 => BiomeType::Arid,
        1 => BiomeType::Grassland,
        2 => BiomeType::Ocean,
        _ => BiomeType::Rocky,
    }
}

fn generated(width: u32, height: u32, size: u32, seed: i32) -> WorldMap {
    let mut map = WorldMap::new(width, height, size).unwrap();
    map.set_seed(seed);
    assert_eq!(map.generate_regions(by_seed, |_| {}), Ok(()));
    map
}

#[test]
fn new_map_has_dimensions_and_no_seed() {
    let map = WorldMap::new(24, 12, 32).unwrap();
    assert_eq!(map.get_width(), 24);
    assert_eq!(map.get_height(), 12);
    assert_eq!(map.get_region_size(), 32);
    assert_eq!(map.get_seed(), -1);
    assert_eq!(UNSET_SEED, -1);
    assert!(!map.is_generated());
}

#[test]
fn map_with_a_zero_dimension_is_refused() {
    assert_eq!(WorldMap::new(0, 4, 8).err(), Some(MapError::InvalidDimensions));
    assert_eq!(WorldMap::new(4, 0, 8).err(), Some(MapError::InvalidDimensions));
    assert_eq!(WorldMap::new(4, 4, 0).err(), Some(MapError::InvalidDimensions));
    assert_eq!(WorldMap::new(0, 0, 0).err(), Some(MapError::InvalidDimensions));
    assert!(WorldMap::new(1, 1, 1).is_ok());
}

#[test]
fn set_seed_stores_the_seed() {
    let mut map = WorldMap::new(2, 2, 2).unwrap();
    map.set_seed(42);
    assert_eq!(map.get_seed(), 42);
    map.set_seed(i32::MIN);
    assert_eq!(map.get_seed(), i32::MIN);
    assert_eq!(map.get_width(), 2);
}

#[test]
fn generation_without_a_seed_is_refused() {
    let mut map = WorldMap::new(2, 2, 2).unwrap();
    assert_eq!(map.generate_regions(by_offset, |_| {}), Err(MapError::UnsetSeed));
    assert!(!map.is_generated());
    map.set_seed(5);
    map.set_seed(-1);
    assert_eq!(map.generate_regions(by_offset, |_| {}), Err(MapError::UnsetSeed));
    map.set_seed(0);
    assert_eq!(map.generate_regions(by_offset, |_| {}), Ok(()));
    assert!(map.is_generated());
}

#[test]
fn generation_populates_every_cell() {
    let mut map = WorldMap::new(5, 3, 4).unwrap();
    map.set_seed(9);
    assert_eq!(map.generate_regions(by_offset, |_| {}), Ok(()));
    let mut count = 0;
    for x in 0..5 {
        for y in 0..3 {
            let region = map.get_region(x, y).unwrap();
            assert_eq!(region.get_width(), 4);
            assert_eq!(region.get_height(), 4);
            assert!(!region.is_resident());
            assert_eq!(region.get_biome(), by_offset(9, x, y));
            assert_eq!(map.get_biome_at_offset(x, y), Ok(by_offset(9, x, y)));
            count += 1;
        }
    }
    assert_eq!(count, 15);
    assert!(map.get_region(5, 0).is_err());
    assert!(map.get_region(0, 3).is_err());
}

#[test]
fn classifier_is_asked_in_column_major_order_with_the_seed() {
    let asked: RefCell<Vec<(i32, u32, u32)>> = RefCell::new(Vec::new());
    let mut map = WorldMap::new(2, 3, 1).unwrap();
    map.set_seed(77);
    let result = map.generate_regions(
        |seed, x, y| {
            asked.borrow_mut().push((seed, x, y));
            BiomeType::Ocean
        },
        |_| {},
    );
    assert_eq!(result, Ok(()));
    assert_eq!(
        *asked.borrow(),
        vec![(77, 0, 0), (77, 0, 1), (77, 0, 2), (77, 1, 0), (77, 1, 1), (77, 1, 2)]
    );
}

#[test]
fn progress_is_the_whole_percentage_of_cells_done() {
    let told: RefCell<Vec<i32>> = RefCell::new(Vec::new());
    let mut map = WorldMap::new(4, 4, 8).unwrap();
    map.set_seed(42);
    assert_eq!(map.generate_regions(by_offset, |p| told.borrow_mut().push(p)), Ok(()));
    assert_eq!(
        *told.borrow(),
        vec![6, 12, 18, 25, 31, 37, 43, 50, 56, 62, 68, 75, 81, 87, 93, 100]
    );
}

#[test]
fn progress_percent_rounds_down() {
    assert_eq!(progress_percent(0, 16), 0);
    assert_eq!(progress_percent(1, 16), 6);
    assert_eq!(progress_percent(8, 16), 50);
    assert_eq!(progress_percent(15, 16), 93);
    assert_eq!(progress_percent(16, 16), 100);
    assert_eq!(progress_percent(1, 3), 33);
    assert_eq!(progress_percent(2, 3), 66);
    assert_eq!(progress_percent(1, 1), 100);
    assert_eq!(progress_percent(199, 200), 99);
    assert_eq!(progress_percent(u64::MAX - 1, u64::MAX), 99);
    assert_eq!(progress_percent(u64::MAX, u64::MAX), 100);
}

#[test]
fn region_identifiers_are_distinct() {
    let map = generated(3, 3, 2, 1);
    let mut ids: Vec<u128> = Vec::new();
    for x in 0..3 {
        for y in 0..3 {
            ids.push(map.get_region(x, y).unwrap().get_id());
        }
    }
    ids.sort();
    ids.dedup();
    assert_eq!(ids.len(), 9);
}

#[test]
fn generating_again_replaces_the_grid() {
    let mut map = generated(2, 2, 2, 1);
    let first = map.get_region(1, 1).unwrap().get_id();
    map.set_seed(2);
    assert_eq!(map.generate_regions(by_seed, |_| {}), Ok(()));
    assert_ne!(map.get_region(1, 1).unwrap().get_id(), first);
    assert_eq!(map.get_biome_at_offset(1, 1), Ok(by_seed(2, 1, 1)));
    assert!(map.get_region(2, 0).is_err());
    assert!(map.get_region(0, 2).is_err());
}

#[test]
fn same_seed_gives_the_same_biomes() {
    let first = generated(6, 5, 2, 1234);
    let second = generated(6, 5, 2, 1234);
    for x in 0..6 {
        for y in 0..5 {
            assert_eq!(first.get_biome_at_offset(x, y), second.get_biome_at_offset(x, y));
        }
    }
}

#[test]
fn offsets_beyond_the_grid_are_out_of_bounds() {
    let store = Storage::new();
    let mut map = generated(4, 3, 2, 5);
    for (x, y) in [(4, 0), (0, 3), (4, 3), (u32::MAX, 0), (0, u32::MAX), (100, 100)] {
        assert_eq!(map.get_biome_at_offset(x, y), Err(MapError::OutOfBounds { x, y }));
        assert_eq!(map.load_region(&store, x, y).err(), Some(MapError::OutOfBounds { x, y }));
        assert_eq!(map.get_region(x, y).err(), Some(MapError::OutOfBounds { x, y }));
    }
    for x in 0..4 {
        for y in 0..3 {
            assert!(map.get_biome_at_offset(x, y).is_ok());
            assert_eq!(map.load_region(&store, x, y).err(), Some(MapError::NotFound));
            assert_eq!(map.generate_region_tiles(x, y), Ok(()));
            assert!(map.load_region(&store, x, y).unwrap().is_resident());
        }
    }
    assert_eq!(map.generate_region_tiles(4, 0), Err(MapError::OutOfBounds { x: 4, y: 0 }));
    assert_eq!(map.generate_region_tiles(0, 3), Err(MapError::OutOfBounds { x: 0, y: 3 }));
}

#[test]
fn map_without_regions_has_no_cell() {
    let store = Storage::new();
    let mut map = WorldMap::new(4, 4, 8).unwrap();
    assert_eq!(map.get_biome_at_offset(0, 0), Err(MapError::OutOfBounds { x: 0, y: 0 }));
    assert_eq!(
        map.load_region(&store, 1, 2).err(),
        Some(MapError::OutOfBounds { x: 1, y: 2 })
    );
}

#[test]
fn example_scenario() {
    let mut store = Storage::new();
    let mut map = WorldMap::new(4, 4, 8).unwrap();
    map.set_seed(42);
    assert_eq!(map.generate_regions(by_noise, |_| {}), Ok(()));
    let mut cells = 0;
    for x in 0..4 {
        for y in 0..4 {
            assert!(map.get_region(x, y).is_ok());
            cells += 1;
        }
    }
    assert_eq!(cells, 16);
    assert_eq!(map.get_biome_at_offset(0, 0), Ok(BiomeType::Ocean));
    assert_eq!(map.get_biome_at_offset(0, 3), Ok(BiomeType::Rocky));
    assert_eq!(map.get_biome_at_offset(2, 2), Ok(BiomeType::Grassland));

    let dir = map.storage_dir();
    assert_eq!(map.load_region(&store, 2, 2).err(), Some(MapError::NotFound));
    assert!(!map.get_region(2, 2).unwrap().is_resident());
    assert_eq!(map.generate_region_tiles(2, 2), Ok(()));
    let generated_volume = {
        let region = map.load_region(&store, 2, 2).unwrap();
        assert!(region.is_resident());
        let volume = region.get_tiles().unwrap().clone();
        assert_eq!(region.unload(&mut store, &dir), Ok(()));
        assert!(!region.is_resident());
        volume
    };
    assert!(!map.get_region(2, 2).unwrap().is_resident());
    let region = map.load_region(&store, 2, 2).unwrap();
    assert!(region.is_resident());
    let reloaded = region.get_tiles().unwrap();
    assert_eq!(reloaded.len(), 8);
    for x in 0..8 {
        assert_eq!(reloaded[x].len(), 8);
        for y in 0..8 {
            assert_eq!(reloaded[x][y].len(), 16);
            for z in 0..16 {
                assert_eq!(reloaded[x][y][z], generated_volume[x][y][z]);
            }
        }
    }
    assert_eq!(*reloaded, generate_volume(8, 8, REGION_DEPTH));
}

#[test]
fn changed_tiles_survive_the_paging_cycle() {
    let mut store = Storage::new();
    let mut map = generated(2, 2, 3, 11);
    let dir = map.storage_dir();
    let mut volume = generate_volume(3, 3, REGION_DEPTH);
    volume[1][2][4] = Tile { solid: false, tile_type: TileType::Water };
    volume[0][0][15] = Tile { solid: true, tile_type: TileType::Grass };
    let key = region_blob_key(&dir, map.get_region(1, 0).unwrap().get_id());
    assert_eq!(store.write(key, roguelike::volume::encode_volume(&volume, 3, 3, REGION_DEPTH)), Ok(()));
    let region = map.load_region(&store, 1, 0).unwrap();
    assert_eq!(*region.get_tiles().unwrap(), volume);
    assert_eq!(region.unload(&mut store, &dir), Ok(()));
    let again = map.load_region(&store, 1, 0).unwrap();
    assert_eq!(*again.get_tiles().unwrap(), volume);
    assert_eq!(again.get_tile(1, 2, 4), Some(Tile { solid: false, tile_type: TileType::Water }));
}

#[test]
fn load_region_twice_does_not_read_the_store_again() {
    let mut store = Storage::new();
    let mut map = generated(3, 3, 2, 3);
    let dir = map.storage_dir();
    let key = region_blob_key(&dir, map.get_region(1, 1).unwrap().get_id());
    assert_eq!(map.generate_region_tiles(1, 1), Ok(()));
    assert_eq!(store.write(key.clone(), vec![0xde, 0xad]), Ok(()));
    {
        let region = map.load_region(&store, 1, 1).unwrap();
        assert_eq!(*region.get_tiles().unwrap(), generate_volume(2, 2, REGION_DEPTH));
    }
    let empty = Storage::new();
    let region = map.load_region(&empty, 1, 1).unwrap();
    assert_eq!(*region.get_tiles().unwrap(), generate_volume(2, 2, REGION_DEPTH));
}

#[test]
fn load_region_refuses_a_corrupt_blob_and_keeps_the_map() {
    let mut store = Storage::new();
    let mut map = generated(2, 2, 2, 3);
    let dir = map.storage_dir();
    let id = map.get_region(0, 1).unwrap().get_id();
    assert_eq!(store.write(region_blob_key(&dir, id), vec![1, 0, 0]), Ok(()));
    assert_eq!(map.load_region(&store, 0, 1).err(), Some(MapError::SerializationFailure));
    let region = map.get_region(0, 1).unwrap();
    assert!(!region.is_resident());
    assert_eq!(region.get_id(), id);
    assert_eq!(map.load_region(&store, 1, 1).err(), Some(MapError::NotFound));
}

#[test]
fn load_region_without_a_blob_is_not_found_and_keeps_the_map() {
    let store = Storage::new();
    let mut map = generated(2, 2, 2, 3);
    let before = map.encode();
    let id = map.get_region(1, 0).unwrap().get_id();
    assert_eq!(map.load_region(&store, 1, 0).err(), Some(MapError::NotFound));
    assert_eq!(map.load_region(&store, 1, 0).err(), Some(MapError::NotFound));
    let region = map.get_region(1, 0).unwrap();
    assert!(!region.is_resident());
    assert_eq!(region.get_id(), id);
    assert_eq!(map.encode(), before);
    for x in 0..2 {
        for y in 0..2 {
            assert!(!map.get_region(x, y).unwrap().is_resident());
        }
    }
}

#[test]
fn load_region_handle_changes_the_map_s_region() {
    let store = Storage::new();
    let mut map = generated(2, 2, 2, 3);
    assert_eq!(map.generate_region_tiles(0, 0), Ok(()));
    assert!(map.get_region(0, 0).unwrap().is_resident());
    assert!(!map.get_region(0, 1).unwrap().is_resident());
    assert!(!map.get_region(1, 0).unwrap().is_resident());
    map.load_region(&store, 0, 0).unwrap().dispose_tiles();
    assert!(!map.get_region(0, 0).unwrap().is_resident());
    assert_eq!(map.load_region(&store, 0, 0).err(), Some(MapError::NotFound));
}

#[test]
fn get_biome_at_offset_does_not_load_tiles() {
    let mut store = Storage::new();
    let mut map = generated(2, 2, 2, 3);
    let dir = map.storage_dir();
    assert_eq!(map.generate_region_tiles(1, 1), Ok(()));
    assert_eq!(map.load_region(&store, 1, 1).unwrap().unload(&mut store, &dir), Ok(()));
    assert_eq!(map.get_biome_at_offset(1, 1), Ok(by_seed(3, 1, 1)));
    assert!(!map.get_region(1, 1).unwrap().is_resident());
}

#[test]
fn save_pages_every_region_out_and_writes_the_map() {
    let mut store = Storage::new();
    let mut map = generated(3, 2, 2, 8);
    assert_eq!(map.generate_region_tiles(0, 0), Ok(()));
    assert_eq!(map.generate_region_tiles(2, 1), Ok(()));
    assert_eq!(map.save(&mut store), Ok(()));
    for x in 0..3 {
        for y in 0..2 {
            assert!(!map.get_region(x, y).unwrap().is_resident());
        }
    }
    let dir = map.storage_dir();
    let mut expected = vec![
        region_blob_key(&dir, map.get_region(0, 0).unwrap().get_id()),
        region_blob_key(&dir, map.get_region(2, 1).unwrap().get_id()),
        map.storage_key(),
    ];
    expected.sort();
    let mut names = store.keys();
    names.sort();
    assert_eq!(names, expected);
    assert_eq!(store.read(&map.storage_key()), Ok(map.encode()));
    assert_eq!(map.encode().len(), MAP_HEADER_LEN + 17 * 6);
}

#[test]
fn save_then_load_reconstructs_the_map() {
    let mut store = Storage::new();
    let mut map = generated(4, 3, 5, -77);
    assert_eq!(map.generate_region_tiles(1, 1), Ok(()));
    assert_eq!(map.generate_region_tiles(3, 2), Ok(()));
    let mut before: Vec<(u128, BiomeType)> = Vec::new();
    for x in 0..4 {
        for y in 0..3 {
            let region = map.get_region(x, y).unwrap();
            before.push((region.get_id(), region.get_biome()));
        }
    }
    assert_eq!(map.save(&mut store), Ok(()));

    let mut loaded = WorldMap::new(1, 1, 1).unwrap();
    assert_eq!(loaded.load(&store, id_string(map.get_id())), Ok(()));
    assert_eq!(loaded.get_id(), map.get_id());
    assert_eq!(loaded.get_width(), 4);
    assert_eq!(loaded.get_height(), 3);
    assert_eq!(loaded.get_region_size(), 5);
    assert_eq!(loaded.get_seed(), -77);
    let mut after: Vec<(u128, BiomeType)> = Vec::new();
    for x in 0..4 {
        for y in 0..3 {
            let region = loaded.get_region(x, y).unwrap();
            assert!(!region.is_resident());
            assert_eq!(region.get_width(), 5);
            assert_eq!(region.get_height(), 5);
            after.push((region.get_id(), region.get_biome()));
        }
    }
    assert_eq!(before, after);
    assert!(loaded.get_region(4, 0).is_err());
    let region = loaded.load_region(&store, 1, 1).unwrap();
    assert_eq!(*region.get_tiles().unwrap(), generate_volume(5, 5, REGION_DEPTH));
    assert_eq!(loaded.load_region(&store, 0, 0).err(), Some(MapError::NotFound));
}

#[test]
fn map_saved_before_generation_loads_without_regions() {
    let mut store = Storage::new();
    let mut map = WorldMap::new(7, 9, 11).unwrap();
    assert_eq!(map.save(&mut store), Ok(()));
    assert_eq!(store.keys(), vec![map.storage_key()]);
    let mut loaded = generated(2, 2, 2, 5);
    assert_eq!(loaded.load(&store, id_string(map.get_id())), Ok(()));
    assert_eq!(loaded.get_width(), 7);
    assert_eq!(loaded.get_height(), 9);
    assert_eq!(loaded.get_region_size(), 11);
    assert_eq!(loaded.get_seed(), -1);
    assert!(!loaded.is_generated());
    assert_eq!(loaded.get_biome_at_offset(0, 0), Err(MapError::OutOfBounds { x: 0, y: 0 }));
}

#[test]
fn load_of_an_unknown_map_is_not_found() {
    let store = Storage::new();
    let mut map = generated(2, 2, 2, 5);
    let id = map.get_id();
    assert_eq!(
        map.load(&store, String::from("67e55044-10b1-426f-9247-bb680e5fe0c8")),
        Err(MapError::NotFound)
    );
    assert_eq!(map.load(&store, id_string(id)), Err(MapError::NotFound));
    assert_eq!(map.get_id(), id);
    assert_eq!(map.get_width(), 2);
    assert!(map.is_generated());
}

#[test]
fn load_of_a_corrupt_map_is_refused_and_keeps_the_map() {
    let mut store = Storage::new();
    let mut map = generated(2, 2, 2, 5);
    assert_eq!(map.save(&mut store), Ok(()));
    let key = map.storage_key();
    let mut bytes = store.read(&key).unwrap();
    bytes.pop();
    assert_eq!(store.write(key, bytes), Ok(()));
    let mut other = generated(3, 1, 4, 6);
    let id = other.get_id();
    assert_eq!(other.load(&store, id_string(map.get_id())), Err(MapError::SerializationFailure));
    assert_eq!(other.get_id(), id);
    assert_eq!(other.get_width(), 3);
    assert_eq!(other.get_seed(), 6);
}

#[test]
fn map_blob_layout() {
    let id: u128 = 0x0f0e0d0c0b0a09080706050403020100;
    let first: u128 = 0x1111_2222_3333_4444_5555_6666_7777_8888;
    let second: u128 = 1;
    let mut bytes: Vec<u8> = vec![1];
    bytes.extend_from_slice(&[0, 1, 2, 3, 4, 5, 6, 7, 8, 9, 10, 11, 12, 13, 14, 15]);
    bytes.extend_from_slice(&[1, 0, 0, 0]);
    bytes.extend_from_slice(&[2, 0, 0, 0]);
    bytes.extend_from_slice(&[0, 1, 0, 0]);
    bytes.extend_from_slice(&[0xfb, 0xff, 0xff, 0xff]);
    bytes.extend_from_slice(&first.to_le_bytes());
    bytes.push(3);
    bytes.extend_from_slice(&second.to_le_bytes());
    bytes.push(2);
    assert_eq!(bytes.len(), 33 + 2 * 17);

    let map = WorldMap::decode(&bytes).unwrap();
    assert_eq!(map.get_id(), id);
    assert_eq!(map.get_width(), 1);
    assert_eq!(map.get_height(), 2);
    assert_eq!(map.get_region_size(), 256);
    assert_eq!(map.get_seed(), -5);
    let upper = map.get_region(0, 0).unwrap();
    assert_eq!(upper.get_id(), first);
    assert_eq!(upper.get_biome(), BiomeType::Rocky);
    assert_eq!(upper.get_width(), 256);
    assert!(!upper.is_resident());
    let lower = map.get_region(0, 1).unwrap();
    assert_eq!(lower.get_id(), second);
    assert_eq!(lower.get_biome(), BiomeType::Ocean);
    assert_eq!(map.encode(), bytes);
}

#[test]
fn map_blob_stores_regions_column_by_column() {
    let map = generated(2, 3, 1, 4);
    let bytes = map.encode();
    assert_eq!(bytes.len(), 33 + 6 * 17);
    for x in 0..2u32 {
        for y in 0..3u32 {
            let at = 33 + 17 * ((x * 3 + y) as usize);
            let region = map.get_region(x, y).unwrap();
            assert_eq!(bytes[at..at + 16], region.get_id().to_le_bytes());
            assert_eq!(bytes[at + 16], region.get_biome().to_code());
        }
    }
    assert_eq!(bytes[29..33], [4, 0, 0, 0]);
}

#[test]
fn map_blob_does_not_hold_tiles() {
    let store = Storage::new();
    let mut map = generated(2, 2, 4, 4);
    let bare = map.encode();
    assert_eq!(map.generate_region_tiles(0, 0), Ok(()));
    assert_eq!(map.encode(), bare);
}

#[test]
fn malformed_map_blobs_are_refused() {
    let map = generated(2, 2, 3, 9);
    let good = map.encode();
    assert!(WorldMap::decode(&good).is_ok());

    let refused = |bytes: Vec<u8>| {
        assert_eq!(WorldMap::decode(&bytes).err(), Some(MapError::SerializationFailure));
    };
    refused(Vec::new());
    refused(good[..32].to_vec());
    let mut version = good.clone();
    version[0] = 2;
    refused(version);
    let mut short = good.clone();
    short.pop();
    refused(short);
    let mut long = good.clone();
    long.push(0);
    refused(long);
    let mut biome = good.clone();
    let last = biome.len() - 1;
    biome[last] = 4;
    refused(biome);
    let mut first_biome = good.clone();
    first_biome[33 + 16] = 9;
    refused(first_biome);
    for at in [17, 21, 25] {
        let mut zero = good[..33].to_vec();
        for byte in zero[at..at + 4].iter_mut() {
            *byte = 0;
        }
        refused(zero);
    }
    let mut wider = good.clone();
    wider[17] = 3;
    refused(wider);
    assert!(WorldMap::decode(&good[..33].to_vec()).is_ok());
}

#[test]
fn progress_of_a_two_by_two_map() {
    let told: RefCell<Vec<i32>> = RefCell::new(Vec::new());
    let mut map = WorldMap::new(2, 2, 8).unwrap();
    map.set_seed(42);
    assert_eq!(map.generate_regions(by_offset, |p| told.borrow_mut().push(p)), Ok(()));
    assert_eq!(*told.borrow(), vec![25, 50, 75, 100]);
}

#[test]
fn generate_region_tiles_fills_one_region() {
    let mut map = generated(2, 2, 3, 5);
    assert_eq!(map.generate_region_tiles(1, 0), Ok(()));
    let region = map.get_region(1, 0).unwrap();
    assert_eq!(*region.get_tiles().unwrap(), generate_volume(3, 3, REGION_DEPTH));
    assert!(!map.get_region(0, 0).unwrap().is_resident());
    assert!(!map.get_region(0, 1).unwrap().is_resident());
    assert!(!map.get_region(1, 1).unwrap().is_resident());
    let fresh = WorldMap::new(2, 2, 3);
    let mut fresh = fresh.unwrap();
    assert_eq!(fresh.generate_region_tiles(0, 0), Err(MapError::OutOfBounds { x: 0, y: 0 }));
}

#[test]
fn save_into_a_store_that_refuses_a_region_writes_nothing() {
    let mut map = generated(2, 2, 4, 8);
    assert_eq!(map.generate_region_tiles(1, 1), Ok(()));
    let region_blob = 13 + 4 * 4 * 16;
    let map_blob = map.encode().len();
    assert!(map_blob < region_blob);
    let mut store = Storage::with_limit(region_blob - 1);
    assert_eq!(map.save(&mut store), Err(MapError::WriteFailed));
    assert!(store.keys().is_empty());
    let region = map.get_region(1, 1).unwrap();
    assert_eq!(*region.get_tiles().unwrap(), generate_volume(4, 4, REGION_DEPTH));

    let mut wide = Storage::with_limit(region_blob);
    assert_eq!(map.save(&mut wide), Ok(()));
    assert!(!map.get_region(1, 1).unwrap().is_resident());
    assert_eq!(wide.keys().len(), 2);
}

#[test]
fn save_into_a_store_that_refuses_the_map_writes_nothing() {
    let mut map = generated(6, 6, 1, 8);
    assert_eq!(map.generate_region_tiles(0, 0), Ok(()));
    let region_blob = 13 + 16;
    let map_blob = map.encode().len();
    assert_eq!(map_blob, 33 + 36 * 17);
    let mut store = Storage::with_limit(map_blob - 1);
    assert!(region_blob < map_blob);
    assert_eq!(map.save(&mut store), Err(MapError::WriteFailed));
    assert!(store.keys().is_empty());
    assert!(map.get_region(0, 0).unwrap().is_resident());
    let mut exact = Storage::with_limit(map_blob);
    assert_eq!(map.save(&mut exact), Ok(()));
    assert_eq!(exact.read(&map.storage_key()), Ok(map.encode()));
}

#[test]
fn save_without_resident_tiles_needs_room_for_the_map_only() {
    let mut map = generated(1, 1, 64, 8);
    let mut store = Storage::with_limit(33 + 17);
    assert_eq!(map.save(&mut store), Ok(()));
    let mut tight = Storage::with_limit(33 + 16);
    assert_eq!(map.save(&mut tight), Err(MapError::WriteFailed));
}

#[test]
fn classified_generation_uses_the_classifier_of_the_seed() {
    let asked: RefCell<Vec<(u32, u32, u32, u32)>> = RefCell::new(Vec::new());
    let sampler = |terrain: u32, grassland: u32, x: u32, y: u32| {
        asked.borrow_mut().push((terrain, grassland, x, y));
        TerrainSample { below_sea_level: x == 0, too_steep: y == 0, grass_covered: x == y }
    };
    let mut map = WorldMap::new(2, 2, 1).unwrap();
    map.set_seed(-2);
    let told: RefCell<Vec<i32>> = RefCell::new(Vec::new());
    assert_eq!(
        generate_classified_regions(&mut map, &sampler, |p| told.borrow_mut().push(p)),
        Ok(())
    );
    assert_eq!(
        *asked.borrow(),
        vec![
            (4_294_967_294, 6_108_007, 0, 0),
            (4_294_967_294, 6_108_007, 0, 1),
            (4_294_967_294, 6_108_007, 1, 0),
            (4_294_967_294, 6_108_007, 1, 1),
        ]
    );
    assert_eq!(map.get_biome_at_offset(0, 0), Ok(BiomeType::Ocean));
    assert_eq!(map.get_biome_at_offset(0, 1), Ok(BiomeType::Ocean));
    assert_eq!(map.get_biome_at_offset(1, 0), Ok(BiomeType::Rocky));
    assert_eq!(map.get_biome_at_offset(1, 1), Ok(BiomeType::Grassland));
    assert_eq!(*told.borrow(), vec![25, 50, 75, 100]);

    let mut unset = WorldMap::new(2, 2, 1).unwrap();
    assert_eq!(
        generate_classified_regions(&mut unset, &sampler, |_| {}),
        Err(MapError::UnsetSeed)
    );
}

#[test]
fn classified_generation_of_seed_42_golden() {
    let mut map = WorldMap::new(4, 4, 8).unwrap();
    map.set_seed(42);
    assert_eq!(generate_classified_regions(&mut map, &sample, |_| {}), Ok(()));
    let o = BiomeType::Ocean;
    let g = BiomeType::Grassland;
    let r = BiomeType::Rocky;
    assert_eq!(
        map.biome_grid(),
        vec![vec![o, o, g, r], vec![g, g, g, g], vec![g, g, g, g], vec![g, g, g, g]]
    );
}
