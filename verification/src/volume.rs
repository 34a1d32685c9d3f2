//! Tile volumes and their stored form.
//!
//! A volume is held column by column: `volume[x][y][z]` is the tile at
//! height `z` of the column at `(x, y)`. Below, a row is the tiles of one
//! column, lowest first, and a plane is the rows that share one `x`. The
//! blob of a volume is a header (format version, width, height, depth)
//! followed by one byte for each tile, plane after plane and row after row.

use crate::error::MapError;
use crate::tile::{is_tile_byte, placeholder_tile, tile_byte, tile_of_byte, Tile, TileType};
use vstd::bytes::*;
use vstd::prelude::*;
use vstd::slice::slice_subrange;

verus! {

/// The version of the blob formats. A blob that begins with another byte is
/// refused.
pub const FORMAT_VERSION: u8 = 1;

/// The number of bytes before the first tile of a stored volume.
pub const VOLUME_HEADER_LEN: usize = 13;

/// The rows of a plane, as sequences.
pub open spec fn plane_view(plane: Seq<Vec<Tile>>) -> Seq<Seq<Tile>> {
    Seq::new(plane.len(), |y: int| plane[y]@)
}

/// The tiles of a volume, as sequences.
pub open spec fn volume_view(volume: Seq<Vec<Vec<Tile>>>) -> Seq<Seq<Seq<Tile>>> {
    Seq::new(volume.len(), |x: int| plane_view(volume[x]@))
}

/// A plane of `height` rows of `depth` tiles each.
pub open spec fn plane_shaped(plane: Seq<Seq<Tile>>, height: nat, depth: nat) -> bool {
    &&& plane.len() == height
    &&& forall|y: int| 0 <= y < height ==> (#[trigger] plane[y]).len() == depth
}

/// A volume of `width` planes, each of `height` rows of `depth` tiles.
pub open spec fn volume_shaped(
    volume: Seq<Seq<Seq<Tile>>>,
    width: nat,
    height: nat,
    depth: nat,
) -> bool {
    &&& volume.len() == width
    &&& forall|x: int| 0 <= x < width ==> plane_shaped(#[trigger] volume[x], height, depth)
}

/// The volume that terrain generation fills in: every column is solid stone
/// up to half the depth and air above.
pub open spec fn placeholder_volume(width: nat, height: nat, depth: nat) -> Seq<Seq<Seq<Tile>>> {
    Seq::new(
        width,
        |x: int| Seq::new(height, |y: int| Seq::new(depth, |z: int| placeholder_tile(z, depth as int))),
    )
}

/// The stored bytes of a row: one byte for each tile.
pub open spec fn row_bytes(row: Seq<Tile>) -> Seq<u8> {
    Seq::new(row.len(), |z: int| tile_byte(row[z]))
}

/// The stored bytes of a plane: those of its rows, one after the other.
pub open spec fn plane_bytes(plane: Seq<Seq<Tile>>) -> Seq<u8>
    decreases plane.len(),
{
    if plane.len() == 0 {
        Seq::empty()
    } else {
        plane_bytes(plane.drop_last()) + row_bytes(plane.last())
    }
}

/// The stored bytes of all tiles: those of the planes, one after the other.
pub open spec fn cells_bytes(volume: Seq<Seq<Seq<Tile>>>) -> Seq<u8>
    decreases volume.len(),
{
    if volume.len() == 0 {
        Seq::empty()
    } else {
        cells_bytes(volume.drop_last()) + plane_bytes(volume.last())
    }
}

/// The 13 bytes that open a stored volume: the format version, then width,
/// height and depth, each as four bytes, least significant first.
pub open spec fn volume_header(width: u32, height: u32, depth: u32) -> Seq<u8> {
    seq![FORMAT_VERSION] + spec_u32_to_le_bytes(width) + spec_u32_to_le_bytes(height)
        + spec_u32_to_le_bytes(depth)
}

/// The blob of a volume of the given dimensions.
pub open spec fn volume_bytes(
    volume: Seq<Seq<Seq<Tile>>>,
    width: u32,
    height: u32,
    depth: u32,
) -> Seq<u8> {
    volume_header(width, height, depth) + cells_bytes(volume)
}

/// Whether `bytes` is the blob of `volume`, a volume of the given dimensions.
pub open spec fn is_volume_blob(
    volume: Seq<Seq<Seq<Tile>>>,
    bytes: Seq<u8>,
    width: u32,
    height: u32,
    depth: u32,
) -> bool {
    volume_shaped(volume, width as nat, height as nat, depth as nat) && volume_bytes(
        volume,
        width,
        height,
        depth,
    ) == bytes
}

/// The volume of the given dimensions that a blob stores; `None` where the
/// blob is that of no such volume.
pub open spec fn stored_volume(bytes: Seq<u8>, width: u32, height: u32, depth: u32) -> Option<
    Seq<Seq<Seq<Tile>>>,
> {
    if exists|volume: Seq<Seq<Seq<Tile>>>| is_volume_blob(volume, bytes, width, height, depth) {
        Some(choose|volume: Seq<Seq<Seq<Tile>>>| is_volume_blob(volume, bytes, width, height, depth))
    } else {
        None
    }
}

/// A plane's bytes are as many as its tiles, and each stores a tile.
pub proof fn lemma_plane_bytes(plane: Seq<Seq<Tile>>, height: nat, depth: nat)
    requires
        plane_shaped(plane, height, depth),
    ensures
        plane_bytes(plane).len() == height * depth,
        forall|i: int| 0 <= i < plane_bytes(plane).len() ==> is_tile_byte(#[trigger] plane_bytes(plane)[i]),
    decreases plane.len(),
{
    if plane.len() > 0 {
        let rest = plane.drop_last();
        lemma_plane_bytes(rest, (height - 1) as nat, depth);
        assert(height * depth == (height - 1) * depth + depth) by (nonlinear_arith);
        assert forall|i: int| 0 <= i < plane_bytes(plane).len() implies is_tile_byte(
            #[trigger] plane_bytes(plane)[i],
        ) by {
            if i >= plane_bytes(rest).len() {
                let z = i - plane_bytes(rest).len();
                assert(plane_bytes(plane)[i] == tile_byte(plane.last()[z]));
            }
        }
    } else {
        assert(height * depth == 0) by (nonlinear_arith)
            requires
                height == 0,
        ;
    }
}

/// A volume's tile bytes are as many as its tiles, and each stores a tile.
pub proof fn lemma_cells_bytes(volume: Seq<Seq<Seq<Tile>>>, width: nat, height: nat, depth: nat)
    requires
        volume_shaped(volume, width, height, depth),
    ensures
        cells_bytes(volume).len() == width * height * depth,
        forall|i: int| 0 <= i < cells_bytes(volume).len() ==> is_tile_byte(#[trigger] cells_bytes(volume)[i]),
    decreases volume.len(),
{
    if volume.len() > 0 {
        let rest = volume.drop_last();
        lemma_cells_bytes(rest, (width - 1) as nat, height, depth);
        lemma_plane_bytes(volume.last(), height, depth);
        assert(width * height * depth == (width - 1) * height * depth + height * depth)
            by (nonlinear_arith);
        assert forall|i: int| 0 <= i < cells_bytes(volume).len() implies is_tile_byte(
            #[trigger] cells_bytes(volume)[i],
        ) by {
            if i >= cells_bytes(rest).len() {
                let k = i - cells_bytes(rest).len();
                assert(cells_bytes(volume)[i] == plane_bytes(volume.last())[k]);
            }
        }
    } else {
        assert(width * height * depth == 0) by (nonlinear_arith)
            requires
                width == 0,
        ;
    }
}

/// The blob of a volume is its header and one byte for each tile.
pub proof fn lemma_volume_bytes_len(
    volume: Seq<Seq<Seq<Tile>>>,
    width: u32,
    height: u32,
    depth: u32,
)
    requires
        volume_shaped(volume, width as nat, height as nat, depth as nat),
    ensures
        volume_bytes(volume, width, height, depth).len() == VOLUME_HEADER_LEN + width * height
            * depth,
{
    lemma_auto_spec_u32_to_from_le_bytes();
    lemma_cells_bytes(volume, width as nat, height as nat, depth as nat);
}

/// Two rows of one length with the same bytes hold the same tiles.
pub proof fn lemma_row_bytes_injective(a: Seq<Tile>, b: Seq<Tile>)
    requires
        a.len() == b.len(),
        row_bytes(a) == row_bytes(b),
    ensures
        a == b,
{
    assert forall|z: int| 0 <= z < a.len() implies a[z] == b[z] by {
        assert(tile_byte(a[z]) == row_bytes(a)[z]);
        assert(tile_byte(b[z]) == row_bytes(b)[z]);
        assert(tile_of_byte(tile_byte(a[z])) == a[z]);
        assert(tile_of_byte(tile_byte(b[z])) == b[z]);
    }
    assert(a =~= b);
}

/// Two planes of one shape with the same bytes hold the same tiles.
pub proof fn lemma_plane_bytes_injective(
    a: Seq<Seq<Tile>>,
    b: Seq<Seq<Tile>>,
    height: nat,
    depth: nat,
)
    requires
        plane_shaped(a, height, depth),
        plane_shaped(b, height, depth),
        plane_bytes(a) == plane_bytes(b),
    ensures
        a == b,
    decreases height,
{
    if height > 0 {
        let a0 = a.drop_last();
        let b0 = b.drop_last();
        lemma_plane_bytes(a0, (height - 1) as nat, depth);
        lemma_plane_bytes(b0, (height - 1) as nat, depth);
        let cut = plane_bytes(a0).len() as int;
        let whole = plane_bytes(a);
        assert(plane_bytes(a0) =~= whole.subrange(0, cut));
        assert(plane_bytes(b0) =~= whole.subrange(0, cut));
        assert(row_bytes(a.last()) =~= whole.subrange(cut, whole.len() as int));
        assert(row_bytes(b.last()) =~= whole.subrange(cut, whole.len() as int));
        lemma_plane_bytes_injective(a0, b0, (height - 1) as nat, depth);
        lemma_row_bytes_injective(a.last(), b.last());
        assert(a =~= a0.push(a.last()));
        assert(b =~= b0.push(b.last()));
    } else {
        assert(a =~= b);
    }
}

/// Two volumes of one shape with the same tile bytes hold the same tiles.
pub proof fn lemma_cells_bytes_injective(
    a: Seq<Seq<Seq<Tile>>>,
    b: Seq<Seq<Seq<Tile>>>,
    width: nat,
    height: nat,
    depth: nat,
)
    requires
        volume_shaped(a, width, height, depth),
        volume_shaped(b, width, height, depth),
        cells_bytes(a) == cells_bytes(b),
    ensures
        a == b,
    decreases width,
{
    if width > 0 {
        let a0 = a.drop_last();
        let b0 = b.drop_last();
        lemma_cells_bytes(a0, (width - 1) as nat, height, depth);
        lemma_cells_bytes(b0, (width - 1) as nat, height, depth);
        let cut = cells_bytes(a0).len() as int;
        let whole = cells_bytes(a);
        assert(cells_bytes(a0) =~= whole.subrange(0, cut));
        assert(cells_bytes(b0) =~= whole.subrange(0, cut));
        assert(plane_bytes(a.last()) =~= whole.subrange(cut, whole.len() as int));
        assert(plane_bytes(b.last()) =~= whole.subrange(cut, whole.len() as int));
        lemma_cells_bytes_injective(a0, b0, (width - 1) as nat, height, depth);
        lemma_plane_bytes_injective(a.last(), b.last(), height, depth);
        assert(a =~= a0.push(a.last()));
        assert(b =~= b0.push(b.last()));
    } else {
        assert(a =~= b);
    }
}

/// No two volumes of one shape have the same blob.
pub proof fn lemma_volume_bytes_injective(
    a: Seq<Seq<Seq<Tile>>>,
    b: Seq<Seq<Seq<Tile>>>,
    width: u32,
    height: u32,
    depth: u32,
)
    requires
        volume_shaped(a, width as nat, height as nat, depth as nat),
        volume_shaped(b, width as nat, height as nat, depth as nat),
        volume_bytes(a, width, height, depth) == volume_bytes(b, width, height, depth),
    ensures
        a == b,
{
    let head = volume_header(width, height, depth);
    let whole = volume_bytes(a, width, height, depth);
    assert(cells_bytes(a) =~= whole.subrange(head.len() as int, whole.len() as int));
    assert(cells_bytes(b) =~= whole.subrange(head.len() as int, whole.len() as int));
    lemma_cells_bytes_injective(a, b, width as nat, height as nat, depth as nat);
}

/// A volume's blob stores that volume and no other.
pub proof fn lemma_stored_volume(
    volume: Seq<Seq<Seq<Tile>>>,
    width: u32,
    height: u32,
    depth: u32,
)
    requires
        volume_shaped(volume, width as nat, height as nat, depth as nat),
    ensures
        stored_volume(volume_bytes(volume, width, height, depth), width, height, depth) == Some(
            volume,
        ),
{
    let bytes = volume_bytes(volume, width, height, depth);
    assert(is_volume_blob(volume, bytes, width, height, depth));
    let chosen = choose|v: Seq<Seq<Seq<Tile>>>| is_volume_blob(v, bytes, width, height, depth);
    lemma_volume_bytes_injective(chosen, volume, width, height, depth);
}

/// Appends the four bytes of `x`, least significant first.
pub(crate) fn put_u32(out: &mut Vec<u8>, x: u32)
    ensures
        final(out)@ == old(out)@ + spec_u32_to_le_bytes(x),
{
    let mut four = u32_to_le_bytes(x);
    out.append(&mut four);
}

/// Reads the four bytes at `at` as a number, least significant first.
pub(crate) fn get_u32(bytes: &Vec<u8>, at: usize) -> (x: u32)
    requires
        at + 4 <= bytes.len(),
    ensures
        x == spec_u32_from_le_bytes(bytes@.subrange(at as int, at + 4)),
        spec_u32_to_le_bytes(x) == bytes@.subrange(at as int, at + 4),
{
    proof {
        lemma_auto_spec_u32_to_from_le_bytes();
    }
    u32_from_le_bytes(slice_subrange(bytes.as_slice(), at, at + 4))
}

fn encode_row(row: &Vec<Tile>, out: &mut Vec<u8>)
    ensures
        final(out)@ == old(out)@ + row_bytes(row@),
{
    let mut z: usize = 0;
    while z < row.len()
        invariant
            z <= row.len(),
            out@ == old(out)@ + row_bytes(row@.take(z as int)),
        decreases row.len() - z,
    {
        out.push(row[z].to_byte());
        assert(out@ == old(out)@ + row_bytes(row@.take(z + 1)));
        z += 1;
    }
    assert(row@.take(row.len() as int) == row@);
}

fn encode_plane(plane: &Vec<Vec<Tile>>, out: &mut Vec<u8>)
    ensures
        final(out)@ == old(out)@ + plane_bytes(plane_view(plane@)),
{
    let ghost all = plane_view(plane@);
    let mut y: usize = 0;
    while y < plane.len()
        invariant
            y <= plane.len(),
            all == plane_view(plane@),
            out@ == old(out)@ + plane_bytes(all.take(y as int)),
        decreases plane.len() - y,
    {
        encode_row(&plane[y], out);
        proof {
            let next = all.take(y + 1);
            assert(next.drop_last() == all.take(y as int));
            assert(next.last() == plane[y as int]@);
            assert(out@ == old(out)@ + plane_bytes(next));
        }
        y += 1;
    }
    assert(all.take(plane.len() as int) == all);
}

fn encode_cells(volume: &Vec<Vec<Vec<Tile>>>, out: &mut Vec<u8>)
    ensures
        final(out)@ == old(out)@ + cells_bytes(volume_view(volume@)),
{
    let ghost all = volume_view(volume@);
    let mut x: usize = 0;
    while x < volume.len()
        invariant
            x <= volume.len(),
            all == volume_view(volume@),
            out@ == old(out)@ + cells_bytes(all.take(x as int)),
        decreases volume.len() - x,
    {
        encode_plane(&volume[x], out);
        proof {
            let next = all.take(x + 1);
            assert(next.drop_last() == all.take(x as int));
            assert(next.last() == plane_view(volume[x as int]@));
            assert(out@ == old(out)@ + cells_bytes(next));
        }
        x += 1;
    }
    assert(all.take(volume.len() as int) == all);
}

/// Writes a volume as a blob. The header carries `width`, `height` and
/// `depth` as given; the tiles follow.
pub fn encode_volume(volume: &Vec<Vec<Vec<Tile>>>, width: u32, height: u32, depth: u32) -> (bytes:
    Vec<u8>)
    ensures
        bytes@ == volume_bytes(volume_view(volume@), width, height, depth),
{
    let mut bytes: Vec<u8> = Vec::new();
    bytes.push(FORMAT_VERSION);
    assert(bytes@ == seq![FORMAT_VERSION]);
    put_u32(&mut bytes, width);
    put_u32(&mut bytes, height);
    put_u32(&mut bytes, depth);
    encode_cells(volume, &mut bytes);
    bytes
}

/// Whether every byte from `from` on stores a tile.
fn all_tile_bytes(bytes: &Vec<u8>, from: usize) -> (all: bool)
    requires
        from <= bytes.len(),
    ensures
        all <==> forall|i: int| from <= i < bytes.len() ==> is_tile_byte(#[trigger] bytes[i]),
{
    let mut i: usize = from;
    while i < bytes.len()
        invariant
            from <= i <= bytes.len(),
            forall|j: int| from <= j < i ==> is_tile_byte(#[trigger] bytes[j]),
        decreases bytes.len() - i,
    {
        if bytes[i] >= 12 {
            return false;
        }
        i += 1;
    }
    true
}

fn decode_row(bytes: &Vec<u8>, start: usize, depth: u32) -> (row: Vec<Tile>)
    requires
        start + depth <= bytes.len(),
        forall|i: int| start <= i < start + depth ==> is_tile_byte(#[trigger] bytes[i]),
    ensures
        row@.len() == depth,
        row_bytes(row@) == bytes@.subrange(start as int, start + depth),
{
    let mut row: Vec<Tile> = Vec::new();
    let mut z: u32 = 0;
    while z < depth
        invariant
            z <= depth,
            start + depth <= bytes.len(),
            row@.len() == z,
            forall|i: int| start <= i < start + depth ==> is_tile_byte(#[trigger] bytes[i]),
            forall|k: int| 0 <= k < z ==> tile_byte(#[trigger] row[k]) == bytes[start + k],
        decreases depth - z,
    {
        let byte: u8 = bytes[start + z as usize];
        let tile = Tile::from_byte(byte).unwrap();
        row.push(tile);
        z += 1;
    }
    assert(row_bytes(row@) =~= bytes@.subrange(start as int, start + depth));
    row
}

fn decode_plane(bytes: &Vec<u8>, start: usize, height: u32, depth: u32) -> (plane: Vec<Vec<Tile>>)
    requires
        start + height * depth <= bytes.len(),
        forall|i: int| start <= i < start + height * depth ==> is_tile_byte(#[trigger] bytes[i]),
    ensures
        plane_shaped(plane_view(plane@), height as nat, depth as nat),
        plane_bytes(plane_view(plane@)) == bytes@.subrange(start as int, start + height * depth),
{
    let mut plane: Vec<Vec<Tile>> = Vec::new();
    let mut at: usize = start;
    let mut y: u32 = 0;
    assert(plane_bytes(plane_view(plane@)) =~= bytes@.subrange(start as int, start as int));
    while y < height
        invariant
            y <= height,
            at == start + y * depth,
            start + height * depth <= bytes.len(),
            forall|i: int| start <= i < start + height * depth ==> is_tile_byte(#[trigger] bytes[i]),
            plane_shaped(plane_view(plane@), y as nat, depth as nat),
            plane_bytes(plane_view(plane@)) == bytes@.subrange(start as int, at as int),
        decreases height - y,
    {
        assert((y + 1) * depth <= height * depth && (y + 1) * depth == y * depth + depth)
            by (nonlinear_arith)
            requires
                y < height,
        ;
        let ghost before = plane_view(plane@);
        let row = decode_row(bytes, at, depth);
        plane.push(row);
        proof {
            let after = plane_view(plane@);
            assert(after.drop_last() == before);
            assert(after.last() == row@);
            assert forall|k: int| 0 <= k < y + 1 implies (#[trigger] after[k]).len() == depth by {
                if k < y {
                    assert(after[k] == before[k]);
                }
            }
            assert(bytes@.subrange(start as int, at as int) + bytes@.subrange(
                at as int,
                at + depth,
            ) == bytes@.subrange(start as int, at + depth));
        }
        at += depth as usize;
        y += 1;
    }
    plane
}

fn decode_cells(bytes: &Vec<u8>, start: usize, width: u32, height: u32, depth: u32) -> (volume:
    Vec<Vec<Vec<Tile>>>)
    requires
        start + width * height * depth <= bytes.len(),
        forall|i: int|
            start <= i < start + width * height * depth ==> is_tile_byte(#[trigger] bytes[i]),
    ensures
        volume_shaped(volume_view(volume@), width as nat, height as nat, depth as nat),
        cells_bytes(volume_view(volume@)) == bytes@.subrange(
            start as int,
            start + width * height * depth,
        ),
{
    let mut volume: Vec<Vec<Vec<Tile>>> = Vec::new();
    let mut at: usize = start;
    let mut x: u32 = 0;
    assert(cells_bytes(volume_view(volume@)) =~= bytes@.subrange(start as int, start as int));
    assert(0 * height * depth == 0) by (nonlinear_arith);
    while x < width
        invariant
            x <= width,
            at == start + x * height * depth,
            start + width * height * depth <= bytes.len(),
            forall|i: int|
                start <= i < start + width * height * depth ==> is_tile_byte(#[trigger] bytes[i]),
            volume_shaped(volume_view(volume@), x as nat, height as nat, depth as nat),
            cells_bytes(volume_view(volume@)) == bytes@.subrange(start as int, at as int),
        decreases width - x,
    {
        assert((x + 1) * height * depth <= width * height * depth && (x + 1) * height * depth == x
            * height * depth + height * depth && 0 <= height * depth) by (nonlinear_arith)
            requires
                x < width,
        ;
        let ghost before = volume_view(volume@);
        let plane = decode_plane(bytes, at, height, depth);
        volume.push(plane);
        proof {
            let after = volume_view(volume@);
            assert(after.drop_last() == before);
            assert(after.last() == plane_view(plane@));
            assert(bytes@.subrange(start as int, at as int) + bytes@.subrange(
                at as int,
                at + height * depth,
            ) == bytes@.subrange(start as int, at + height * depth));
            assert forall|k: int| 0 <= k < x + 1 implies plane_shaped(
                #[trigger] after[k],
                height as nat,
                depth as nat,
            ) by {
                if k < x {
                    assert(after[k] == before[k]);
                }
            }
        }
        at += (height as usize) * (depth as usize);
        x += 1;
    }
    volume
}

/// Reads back a blob as a volume of the given dimensions. It succeeds
/// exactly on the blobs that `encode_volume` writes for such volumes: any
/// other version, other dimensions, a missing or surplus byte, or a byte
/// that stores no tile gives `SerializationFailure`.
pub fn decode_volume(bytes: &Vec<u8>, width: u32, height: u32, depth: u32) -> (volume: Result<
    Vec<Vec<Vec<Tile>>>,
    MapError,
>)
    ensures
        match volume {
            Ok(v) => stored_volume(bytes@, width, height, depth) == Some(volume_view(v@))
                && is_volume_blob(volume_view(v@), bytes@, width, height, depth),
            Err(e) => e == MapError::SerializationFailure && stored_volume(
                bytes@,
                width,
                height,
                depth,
            ) is None,
        },
{
    proof {
        lemma_auto_spec_u32_to_from_le_bytes();
        assert forall|s: Seq<Seq<Seq<Tile>>>|
            volume_shaped(s, width as nat, height as nat, depth as nat) implies ({
            let b = #[trigger] volume_bytes(s, width, height, depth);
            &&& b.len() == VOLUME_HEADER_LEN + width * height * depth
            &&& b[0] == FORMAT_VERSION
            &&& b.subrange(1, 5) == spec_u32_to_le_bytes(width)
            &&& b.subrange(5, 9) == spec_u32_to_le_bytes(height)
            &&& b.subrange(9, 13) == spec_u32_to_le_bytes(depth)
            &&& forall|i: int| VOLUME_HEADER_LEN <= i < b.len() ==> is_tile_byte(#[trigger] b[i])
        }) by {
            lemma_cells_bytes(s, width as nat, height as nat, depth as nat);
            let b = volume_bytes(s, width, height, depth);
            assert(b.subrange(1, 5) =~= spec_u32_to_le_bytes(width));
            assert(b.subrange(5, 9) =~= spec_u32_to_le_bytes(height));
            assert(b.subrange(9, 13) =~= spec_u32_to_le_bytes(depth));
            assert forall|i: int| VOLUME_HEADER_LEN <= i < b.len() implies is_tile_byte(
                #[trigger] b[i],
            ) by {
                assert(b[i] == cells_bytes(s)[i - VOLUME_HEADER_LEN]);
            }
        }
    }
    if bytes.len() < VOLUME_HEADER_LEN {
        return Err(MapError::SerializationFailure);
    }
    if bytes[0] != FORMAT_VERSION {
        return Err(MapError::SerializationFailure);
    }
    let stored_width = get_u32(bytes, 1);
    let stored_height = get_u32(bytes, 5);
    let stored_depth = get_u32(bytes, 9);
    if stored_width != width || stored_height != height || stored_depth != depth {
        return Err(MapError::SerializationFailure);
    }
    assert(width * height * depth <= 0xffff_ffff * 0xffff_ffff * 0xffff_ffff && 0 <= width * height
        * depth) by (nonlinear_arith)
        requires
            0 <= width <= 0xffff_ffff,
            0 <= height <= 0xffff_ffff,
            0 <= depth <= 0xffff_ffff,
    ;
    assert(width * height <= 0xffff_ffff * 0xffff_ffff && 0 <= width * height) by (nonlinear_arith)
        requires
            0 <= width <= 0xffff_ffff,
            0 <= height <= 0xffff_ffff,
    ;
    let tiles: u128 = (width as u128) * (height as u128) * (depth as u128);
    if ((bytes.len() - VOLUME_HEADER_LEN) as u128) != tiles {
        return Err(MapError::SerializationFailure);
    }
    if !all_tile_bytes(bytes, VOLUME_HEADER_LEN) {
        return Err(MapError::SerializationFailure);
    }
    let volume = decode_cells(bytes, VOLUME_HEADER_LEN, width, height, depth);
    assert(bytes@ =~= volume_bytes(volume_view(volume@), width, height, depth)) by {
        assert(bytes@ =~= seq![bytes@[0]] + bytes@.subrange(1, 5) + bytes@.subrange(5, 9)
            + bytes@.subrange(9, 13) + bytes@.subrange(13, bytes@.len() as int));
    }
    proof {
        lemma_stored_volume(volume_view(volume@), width, height, depth);
    }
    Ok(volume)
}

/// Builds the volume that terrain generation fills in.
pub fn generate_volume(width: u32, height: u32, depth: u32) -> (volume: Vec<Vec<Vec<Tile>>>)
    ensures
        volume_view(volume@) == placeholder_volume(width as nat, height as nat, depth as nat),
{
    let mut volume: Vec<Vec<Vec<Tile>>> = Vec::new();
    let mut x: u32 = 0;
    while x < width
        invariant
            x <= width,
            volume@.len() == x,
            volume_view(volume@) == placeholder_volume(x as nat, height as nat, depth as nat),
        decreases width - x,
    {
        let mut plane: Vec<Vec<Tile>> = Vec::new();
        let mut y: u32 = 0;
        while y < height
            invariant
                y <= height,
                plane@.len() == y,
                forall|j: int|
                    0 <= j < y ==> (#[trigger] plane[j])@ == Seq::new(
                        depth as nat,
                        |z: int| placeholder_tile(z, depth as int),
                    ),
            decreases height - y,
        {
            let mut row: Vec<Tile> = Vec::new();
            let mut z: u32 = 0;
            while z < depth
                invariant
                    z <= depth,
                    row@.len() == z,
                    forall|k: int| 0 <= k < z ==> #[trigger] row[k] == placeholder_tile(k, depth as int),
                decreases depth - z,
            {
                if z > depth / 2 {
                    row.push(Tile { solid: false, tile_type: TileType::Air });
                } else {
                    row.push(Tile { solid: true, tile_type: TileType::Stone });
                }
                z += 1;
            }
            assert(row@ =~= Seq::new(depth as nat, |z: int| placeholder_tile(z, depth as int)));
            plane.push(row);
            y += 1;
        }
        assert(plane_view(plane@) =~= Seq::new(
            height as nat,
            |y: int| Seq::new(depth as nat, |z: int| placeholder_tile(z, depth as int)),
        ));
        let ghost before = volume_view(volume@);
        volume.push(plane);
        proof {
            let after = volume_view(volume@);
            let filled = placeholder_volume((x + 1) as nat, height as nat, depth as nat);
            assert forall|k: int| 0 <= k < x + 1 implies after[k] == filled[k] by {
                if k < x {
                    assert(after[k] == before[k]);
                }
            }
            assert(after =~= filled);
        }
        x += 1;
    }
    volume
}

} // verus!
