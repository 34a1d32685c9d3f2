use roguelike::error::MapError;
use roguelike::tile::{Tile, TileType, REGION_DEPTH};
use roguelike::volume::{decode_volume, encode_volume, generate_volume, FORMAT_VERSION};

fn stone() -> Tile {
    Tile { solid: true, tile_type: TileType::Stone }
}

fn air() -> Tile {
    Tile { solid: false, tile_type: TileType::Air }
}

#[test]
fn region_depth_is_sixteen() {
    assert_eq!(REGION_DEPTH, 16);
}

#[test]
fn tile_bytes_are_twice_the_material_plus_solidity() {
    assert_eq!(air().to_byte(), 0);
    assert_eq!(Tile { solid: true, tile_type: TileType::Air }.to_byte(), 1);
    assert_eq!(Tile { solid: false, tile_type: TileType::Grass }.to_byte(), 2);
    assert_eq!(Tile { solid: true, tile_type: TileType::Sand }.to_byte(), 5);
    assert_eq!(Tile { solid: true, tile_type: TileType::Soil }.to_byte(), 7);
    assert_eq!(stone().to_byte(), 9);
    assert_eq!(Tile { solid: false, tile_type: TileType::Water }.to_byte(), 10);
    assert_eq!(Tile { solid: true, tile_type: TileType::Water }.to_byte(), 11);
}

#[test]
fn every_tile_byte_decodes_to_its_tile() {
    for byte in 0u8..12 {
        let tile = Tile::from_byte(byte).unwrap();
        assert_eq!(tile.to_byte(), byte);
        assert_eq!(tile.solid, byte % 2 == 1);
    }
    assert_eq!(Tile::from_byte(9), Some(stone()));
    assert_eq!(Tile::from_byte(0), Some(air()));
}

#[test]
fn bytes_from_twelve_on_store_no_tile() {
    assert_eq!(Tile::from_byte(12), None);
    assert_eq!(Tile::from_byte(13), None);
    assert_eq!(Tile::from_byte(255), None);
}

#[test]
fn material_codes() {
    assert_eq!(TileType::Air.to_code(), 0);
    assert_eq!(TileType::Grass.to_code(), 1);
    assert_eq!(TileType::Sand.to_code(), 2);
    assert_eq!(TileType::Soil.to_code(), 3);
    assert_eq!(TileType::Stone.to_code(), 4);
    assert_eq!(TileType::Water.to_code(), 5);
}

#[test]
fn generated_volume_is_stone_up_to_half_depth_and_air_above() {
    let volume = generate_volume(3, 2, REGION_DEPTH);
    assert_eq!(volume.len(), 3);
    for plane in volume.iter() {
        assert_eq!(plane.len(), 2);
        for column in plane.iter() {
            assert_eq!(column.len(), 16);
            for (z, tile) in column.iter().enumerate() {
                if z <= 8 {
                    assert_eq!(*tile, stone());
                } else {
                    assert_eq!(*tile, air());
                }
            }
        }
    }
}

#[test]
fn fill_boundary_follows_the_depth() {
    let volume = generate_volume(1, 1, 5);
    assert_eq!(volume[0][0], vec![stone(), stone(), stone(), air(), air()]);
    let shallow = generate_volume(1, 1, 1);
    assert_eq!(shallow[0][0], vec![stone()]);
    let pair = generate_volume(1, 1, 2);
    assert_eq!(pair[0][0], vec![stone(), stone()]);
}

#[test]
fn generated_volume_with_a_zero_dimension_is_empty() {
    assert!(generate_volume(0, 4, 16).is_empty());
    let no_rows = generate_volume(2, 0, 16);
    assert_eq!(no_rows.len(), 2);
    assert!(no_rows[0].is_empty());
    let no_depth = generate_volume(1, 1, 0);
    assert!(no_depth[0][0].is_empty());
}

#[test]
fn volume_blob_has_header_then_one_byte_per_tile() {
    let volume = generate_volume(1, 1, REGION_DEPTH);
    let bytes = encode_volume(&volume, 1, 1, REGION_DEPTH);
    let expected: Vec<u8> = vec![
        1, 1, 0, 0, 0, 1, 0, 0, 0, 16, 0, 0, 0, 9, 9, 9, 9, 9, 9, 9, 9, 9, 0, 0, 0, 0, 0, 0, 0,
    ];
    assert_eq!(bytes, expected);
    assert_eq!(bytes[0], FORMAT_VERSION);
}

#[test]
fn volume_blob_orders_tiles_by_x_then_y_then_z() {
    let grass = Tile { solid: false, tile_type: TileType::Grass };
    let water = Tile { solid: true, tile_type: TileType::Water };
    let volume = vec![
        vec![vec![stone(), air()], vec![grass, water]],
        vec![vec![water, water], vec![air(), grass]],
    ];
    let bytes = encode_volume(&volume, 2, 2, 2);
    let expected: Vec<u8> =
        vec![1, 2, 0, 0, 0, 2, 0, 0, 0, 2, 0, 0, 0, 9, 0, 2, 11, 11, 11, 0, 2];
    assert_eq!(bytes, expected);
    assert_eq!(decode_volume(&bytes, 2, 2, 2), Ok(volume));
}

#[test]
fn volume_header_holds_dimensions_least_significant_byte_first() {
    let volume: Vec<Vec<Vec<Tile>>> = Vec::new();
    let bytes = encode_volume(&volume, 0, 0x0102_0304, 70_000);
    assert_eq!(bytes, vec![1, 0, 0, 0, 0, 4, 3, 2, 1, 0x70, 0x11, 1, 0]);
}

#[test]
fn volume_round_trip_is_lossless() {
    let mut volume = generate_volume(4, 3, REGION_DEPTH);
    volume[2][1][9] = Tile { solid: true, tile_type: TileType::Water };
    volume[0][0][0] = Tile { solid: false, tile_type: TileType::Sand };
    volume[3][2][15] = Tile { solid: true, tile_type: TileType::Soil };
    let bytes = encode_volume(&volume, 4, 3, REGION_DEPTH);
    assert_eq!(bytes.len(), 13 + 4 * 3 * 16);
    assert_eq!(decode_volume(&bytes, 4, 3, REGION_DEPTH), Ok(volume));
}

#[test]
fn volume_of_other_dimensions_is_refused() {
    let volume = generate_volume(2, 2, REGION_DEPTH);
    let bytes = encode_volume(&volume, 2, 2, REGION_DEPTH);
    assert_eq!(decode_volume(&bytes, 2, 3, REGION_DEPTH), Err(MapError::SerializationFailure));
    assert_eq!(decode_volume(&bytes, 4, 1, REGION_DEPTH), Err(MapError::SerializationFailure));
    assert_eq!(decode_volume(&bytes, 2, 2, 8), Err(MapError::SerializationFailure));
    assert!(decode_volume(&bytes, 2, 2, REGION_DEPTH).is_ok());
}

#[test]
fn volume_of_another_depth_is_detected() {
    let shallow = generate_volume(2, 2, 8);
    let bytes = encode_volume(&shallow, 2, 2, 8);
    assert_eq!(decode_volume(&bytes, 2, 2, REGION_DEPTH), Err(MapError::SerializationFailure));
}

#[test]
fn volume_of_another_version_is_refused() {
    let volume = generate_volume(1, 1, REGION_DEPTH);
    let mut bytes = encode_volume(&volume, 1, 1, REGION_DEPTH);
    bytes[0] = 2;
    assert_eq!(decode_volume(&bytes, 1, 1, REGION_DEPTH), Err(MapError::SerializationFailure));
    bytes[0] = 0;
    assert_eq!(decode_volume(&bytes, 1, 1, REGION_DEPTH), Err(MapError::SerializationFailure));
}

#[test]
fn truncated_or_padded_volume_is_refused() {
    let volume = generate_volume(1, 2, REGION_DEPTH);
    let bytes = encode_volume(&volume, 1, 2, REGION_DEPTH);
    let mut short = bytes.clone();
    short.pop();
    assert_eq!(decode_volume(&short, 1, 2, REGION_DEPTH), Err(MapError::SerializationFailure));
    let mut long = bytes.clone();
    long.push(0);
    assert_eq!(decode_volume(&long, 1, 2, REGION_DEPTH), Err(MapError::SerializationFailure));
    let empty: Vec<u8> = Vec::new();
    assert_eq!(decode_volume(&empty, 1, 2, REGION_DEPTH), Err(MapError::SerializationFailure));
    let header_only: Vec<u8> = bytes[..13].to_vec();
    assert_eq!(
        decode_volume(&header_only, 1, 2, REGION_DEPTH),
        Err(MapError::SerializationFailure)
    );
}

#[test]
fn volume_with_a_byte_that_stores_no_tile_is_refused() {
    let volume = generate_volume(2, 2, REGION_DEPTH);
    let mut bytes = encode_volume(&volume, 2, 2, REGION_DEPTH);
    let last = bytes.len() - 1;
    bytes[last] = 12;
    assert_eq!(decode_volume(&bytes, 2, 2, REGION_DEPTH), Err(MapError::SerializationFailure));
    bytes[last] = 11;
    assert!(decode_volume(&bytes, 2, 2, REGION_DEPTH).is_ok());
    bytes[13] = 200;
    assert_eq!(decode_volume(&bytes, 2, 2, REGION_DEPTH), Err(MapError::SerializationFailure));
}

#[test]
fn empty_volume_is_its_header() {
    let volume: Vec<Vec<Vec<Tile>>> = Vec::new();
    let bytes = encode_volume(&volume, 0, 5, REGION_DEPTH);
    assert_eq!(bytes.len(), 13);
    assert_eq!(decode_volume(&bytes, 0, 5, REGION_DEPTH), Ok(volume));
}
