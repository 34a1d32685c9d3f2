//! The region grid of a map and its stored form.
//!
//! A grid is held column by column: `grid[x][y]` is the region at offset
//! `(x, y)`. A stored grid is one record for each region, in that order: the
//! region's identifier in sixteen bytes, least significant first, and one
//! byte for its biome. Tiles are no part of it.

use crate::biome::{biome_code, biome_of_code, is_biome_code, BiomeType};
use crate::region::{Region, RegionModel};
use crate::storage::Storage;
use vstd::bytes::*;
use vstd::prelude::*;
use vstd::slice::slice_subrange;

verus! {

/// The number of bytes that store one region of a grid.
pub const REGION_RECORD_LEN: usize = 17;

/// The regions of a column, as their models.
pub open spec fn column_view(column: Seq<Region>) -> Seq<RegionModel> {
    Seq::new(column.len(), |y: int| column[y]@)
}

/// The regions of a grid, as their models.
pub open spec fn grid_view(grid: Seq<Vec<Region>>) -> Seq<Seq<RegionModel>> {
    Seq::new(grid.len(), |x: int| column_view(grid[x]@))
}

/// A grid of `width` columns of `height` regions each.
pub open spec fn grid_shaped(grid: Seq<Seq<RegionModel>>, width: nat, height: nat) -> bool {
    &&& grid.len() == width
    &&& forall|x: int| 0 <= x < width ==> (#[trigger] grid[x]).len() == height
}

/// Every region of the grid is valid and has a tile plane of `size` by
/// `size` columns.
pub open spec fn grid_regions_sized(grid: Seq<Seq<RegionModel>>, size: u32) -> bool {
    forall|x: int, y: int|
        0 <= x < grid.len() && 0 <= y < grid[x].len() ==> {
            &&& (#[trigger] grid[x][y]).width == size
            &&& grid[x][y].height == size
            &&& grid[x][y].valid()
        }
}

/// No region of the grid has resident tiles.
pub open spec fn grid_evicted(grid: Seq<Seq<RegionModel>>) -> bool {
    forall|x: int, y: int|
        0 <= x < grid.len() && 0 <= y < grid[x].len() ==> (#[trigger] grid[x][y]).tiles is None
}

/// The grid with the tiles of every region paged out.
pub open spec fn grid_without_tiles(grid: Seq<Seq<RegionModel>>) -> Seq<Seq<RegionModel>> {
    Seq::new(grid.len(), |x: int| Seq::new(grid[x].len(), |y: int| grid[x][y].evicted()))
}

/// The store after the regions of a column were paged out, first to last.
pub open spec fn column_paged_out(
    store: Map<Seq<char>, Seq<u8>>,
    dir: Seq<char>,
    column: Seq<RegionModel>,
) -> Map<Seq<char>, Seq<u8>>
    decreases column.len(),
{
    if column.len() == 0 {
        store
    } else {
        column.last().paged_out(column_paged_out(store, dir, column.drop_last()), dir)
    }
}

/// The store after the regions of a grid were paged out in grid order:
/// column by column, and in each column first to last.
pub open spec fn grid_paged_out(
    store: Map<Seq<char>, Seq<u8>>,
    dir: Seq<char>,
    grid: Seq<Seq<RegionModel>>,
) -> Map<Seq<char>, Seq<u8>>
    decreases grid.len(),
{
    if grid.len() == 0 {
        store
    } else {
        column_paged_out(grid_paged_out(store, dir, grid.drop_last()), dir, grid.last())
    }
}

/// Whether a store that takes blobs of up to `limit` bytes takes what paging
/// out each region of the grid writes.
pub open spec fn grid_persists(grid: Seq<Seq<RegionModel>>, limit: nat) -> bool {
    forall|x: int, y: int|
        0 <= x < grid.len() && 0 <= y < grid[x].len() ==> (#[trigger] grid[x][y]).persists(limit)
}

/// Every region of the grid is valid.
pub open spec fn grid_regions_valid(grid: Seq<Seq<RegionModel>>) -> bool {
    forall|x: int, y: int|
        0 <= x < grid.len() && 0 <= y < grid[x].len() ==> (#[trigger] grid[x][y]).valid()
}

/// The record that stores a region.
pub open spec fn region_record(region: RegionModel) -> Seq<u8> {
    spec_u128_to_le_bytes(region.id) + seq![biome_code(region.biome)]
}

/// The stored bytes of a column: the records of its regions.
pub open spec fn column_bytes(column: Seq<RegionModel>) -> Seq<u8>
    decreases column.len(),
{
    if column.len() == 0 {
        Seq::empty()
    } else {
        column_bytes(column.drop_last()) + region_record(column.last())
    }
}

/// The stored bytes of a grid: those of its columns.
pub open spec fn grid_bytes(grid: Seq<Seq<RegionModel>>) -> Seq<u8>
    decreases grid.len(),
{
    if grid.len() == 0 {
        Seq::empty()
    } else {
        grid_bytes(grid.drop_last()) + column_bytes(grid.last())
    }
}

/// A record is seventeen bytes: the identifier, then the biome's code.
pub proof fn lemma_region_record(region: RegionModel)
    ensures
        region_record(region).len() == REGION_RECORD_LEN,
        region_record(region).subrange(0, 16) == spec_u128_to_le_bytes(region.id),
        region_record(region)[16] == biome_code(region.biome),
        is_biome_code(region_record(region)[16]),
{
    lemma_auto_spec_u128_to_from_le_bytes();
    assert(region_record(region).subrange(0, 16) =~= spec_u128_to_le_bytes(region.id));
}

/// Where the record of each region stands in a column's bytes.
pub proof fn lemma_column_bytes(column: Seq<RegionModel>)
    ensures
        column_bytes(column).len() == REGION_RECORD_LEN * column.len(),
        forall|y: int|
            0 <= y < column.len() ==> column_bytes(column).subrange(
                REGION_RECORD_LEN * y,
                REGION_RECORD_LEN * y + REGION_RECORD_LEN,
            ) == region_record(#[trigger] column[y]),
    decreases column.len(),
{
    if column.len() > 0 {
        let rest = column.drop_last();
        lemma_column_bytes(rest);
        lemma_region_record(column.last());
        assert forall|y: int| 0 <= y < column.len() implies column_bytes(column).subrange(
            REGION_RECORD_LEN * y,
            REGION_RECORD_LEN * y + REGION_RECORD_LEN,
        ) == region_record(#[trigger] column[y]) by {
            if y < column.len() - 1 {
                assert(rest[y] == column[y]);
                assert(column_bytes(column).subrange(
                    REGION_RECORD_LEN * y,
                    REGION_RECORD_LEN * y + REGION_RECORD_LEN,
                ) =~= column_bytes(rest).subrange(
                    REGION_RECORD_LEN * y,
                    REGION_RECORD_LEN * y + REGION_RECORD_LEN,
                ));
            } else {
                assert(column_bytes(column).subrange(
                    REGION_RECORD_LEN * y,
                    REGION_RECORD_LEN * y + REGION_RECORD_LEN,
                ) =~= region_record(column.last()));
            }
        }
    }
}

/// Where the bytes of each column stand in a grid's bytes.
pub proof fn lemma_grid_bytes(grid: Seq<Seq<RegionModel>>, width: nat, height: nat)
    requires
        grid_shaped(grid, width, height),
    ensures
        grid_bytes(grid).len() == width * (REGION_RECORD_LEN * height),
        forall|x: int|
            0 <= x < width ==> grid_bytes(grid).subrange(
                x * (REGION_RECORD_LEN * height),
                x * (REGION_RECORD_LEN * height) + REGION_RECORD_LEN * height,
            ) == column_bytes(#[trigger] grid[x]),
    decreases grid.len(),
{
    let stride = REGION_RECORD_LEN * height;
    if grid.len() > 0 {
        let rest = grid.drop_last();
        lemma_grid_bytes(rest, (width - 1) as nat, height);
        lemma_column_bytes(grid.last());
        assert(width * stride == (width - 1) * stride + stride) by (nonlinear_arith);
        assert forall|x: int| 0 <= x < width implies grid_bytes(grid).subrange(
            x * stride,
            x * stride + stride,
        ) == column_bytes(#[trigger] grid[x]) by {
            assert(x * stride + stride <= (width - 1) * stride + stride && 0 <= x * stride)
                by (nonlinear_arith)
                requires
                    0 <= x <= width - 1,
                    0 <= stride,
            ;
            if x < width - 1 {
                assert(rest[x] == grid[x]);
                assert(x * stride + stride <= (width - 1) * stride) by (nonlinear_arith)
                    requires
                        0 <= x < width - 1,
                        0 <= stride,
                ;
                assert(grid_bytes(grid).subrange(x * stride, x * stride + stride) =~= grid_bytes(
                    rest,
                ).subrange(x * stride, x * stride + stride));
            } else {
                assert(grid_bytes(grid).subrange(x * stride, x * stride + stride) =~= column_bytes(
                    grid.last(),
                ));
            }
        }
    } else {
        assert(width * stride == 0) by (nonlinear_arith)
            requires
                width == 0,
        ;
    }
}

/// Where the record of the region at `(x, y)` stands in a grid's bytes.
pub proof fn lemma_grid_record(
    grid: Seq<Seq<RegionModel>>,
    width: nat,
    height: nat,
    x: int,
    y: int,
)
    requires
        grid_shaped(grid, width, height),
        0 <= x < width,
        0 <= y < height,
    ensures
        0 <= x * (REGION_RECORD_LEN * height),
        x * (REGION_RECORD_LEN * height) + REGION_RECORD_LEN * y + REGION_RECORD_LEN
            <= grid_bytes(grid).len(),
        grid_bytes(grid).subrange(
            x * (REGION_RECORD_LEN * height) + REGION_RECORD_LEN * y,
            x * (REGION_RECORD_LEN * height) + REGION_RECORD_LEN * y + REGION_RECORD_LEN,
        ) == region_record(grid[x][y]),
{
    let stride = REGION_RECORD_LEN * height;
    lemma_grid_bytes(grid, width, height);
    assert(x * stride + stride <= width * stride && 0 <= x * stride) by (nonlinear_arith)
        requires
            0 <= x < width,
            0 <= stride,
    ;
    lemma_column_bytes(grid[x]);
    let column = grid_bytes(grid).subrange(x * stride, x * stride + stride);
    assert(column == column_bytes(grid[x]));
    let record = column.subrange(REGION_RECORD_LEN * y, REGION_RECORD_LEN * y + REGION_RECORD_LEN);
    assert(record == region_record(grid[x][y]));
    assert(record =~= grid_bytes(grid).subrange(
        x * stride + REGION_RECORD_LEN * y,
        x * stride + REGION_RECORD_LEN * y + REGION_RECORD_LEN,
    ));
}

/// The biome byte of the region at `(x, y)` in a grid's bytes.
pub proof fn lemma_grid_biome_byte(
    grid: Seq<Seq<RegionModel>>,
    width: nat,
    height: nat,
    x: int,
    y: int,
)
    requires
        grid_shaped(grid, width, height),
        0 <= x < width,
        0 <= y < height,
    ensures
        0 <= x * (REGION_RECORD_LEN * height),
        x * (REGION_RECORD_LEN * height) + REGION_RECORD_LEN * y + 16 < grid_bytes(grid).len(),
        grid_bytes(grid)[x * (REGION_RECORD_LEN * height) + REGION_RECORD_LEN * y + 16]
            == biome_code(grid[x][y].biome),
{
    let at = x * (REGION_RECORD_LEN * height) + REGION_RECORD_LEN * y;
    lemma_grid_record(grid, width, height, x, y);
    lemma_region_record(grid[x][y]);
    let record = grid_bytes(grid).subrange(at, at + REGION_RECORD_LEN);
    assert(record[16] == grid_bytes(grid)[at + 16]);
}

/// Two grids of one shape whose regions have one size and no tiles, and
/// which have the same bytes, are the same grid.
pub proof fn lemma_grid_bytes_injective(
    a: Seq<Seq<RegionModel>>,
    b: Seq<Seq<RegionModel>>,
    width: nat,
    height: nat,
    size: u32,
)
    requires
        grid_shaped(a, width, height),
        grid_shaped(b, width, height),
        grid_regions_sized(a, size),
        grid_regions_sized(b, size),
        grid_evicted(a),
        grid_evicted(b),
        grid_bytes(a) == grid_bytes(b),
    ensures
        a == b,
{
    assert forall|x: int| 0 <= x < width implies a[x] == b[x] by {
        assert forall|y: int| 0 <= y < height implies a[x][y] == b[x][y] by {
            lemma_grid_record(a, width, height, x, y);
            lemma_grid_record(b, width, height, x, y);
            lemma_region_record(a[x][y]);
            lemma_region_record(b[x][y]);
            lemma_auto_spec_u128_to_from_le_bytes();
            assert(spec_u128_to_le_bytes(a[x][y].id) == spec_u128_to_le_bytes(b[x][y].id));
            assert(spec_u128_from_le_bytes(spec_u128_to_le_bytes(a[x][y].id)) == a[x][y].id);
            assert(spec_u128_from_le_bytes(spec_u128_to_le_bytes(b[x][y].id)) == b[x][y].id);
            assert(biome_of_code(biome_code(a[x][y].biome)) == a[x][y].biome);
            assert(biome_of_code(biome_code(b[x][y].biome)) == b[x][y].biome);
            assert(a[x][y].tiles is None);
            assert(b[x][y].tiles is None);
        }
        assert(a[x] =~= b[x]);
    }
    assert(a =~= b);
}

/// Paging the tiles out changes nothing of what a grid stores.
pub proof fn lemma_grid_bytes_without_tiles(grid: Seq<Seq<RegionModel>>)
    ensures
        grid_bytes(grid_without_tiles(grid)) == grid_bytes(grid),
    decreases grid.len(),
{
    let bare = grid_without_tiles(grid);
    if grid.len() > 0 {
        lemma_grid_bytes_without_tiles(grid.drop_last());
        assert(bare.drop_last() =~= grid_without_tiles(grid.drop_last()));
        lemma_column_bytes_without_tiles(grid.last());
        assert(bare.last() =~= Seq::new(grid.last().len(), |y: int| grid.last()[y].evicted()));
    }
}

/// Paging the tiles out changes nothing of what a column stores.
pub proof fn lemma_column_bytes_without_tiles(column: Seq<RegionModel>)
    ensures
        column_bytes(Seq::new(column.len(), |y: int| column[y].evicted())) == column_bytes(column),
    decreases column.len(),
{
    let bare = Seq::new(column.len(), |y: int| column[y].evicted());
    if column.len() > 0 {
        let rest = column.drop_last();
        lemma_column_bytes_without_tiles(rest);
        assert(bare.drop_last() =~= Seq::new(rest.len(), |y: int| rest[y].evicted()));
        assert(region_record(bare.last()) == region_record(column.last()));
    }
}

/// Whether `key` is the name of the blob of a region of the column that has
/// resident tiles.
pub open spec fn column_writes(dir: Seq<char>, column: Seq<RegionModel>, key: Seq<char>) -> bool {
    exists|y: int|
        0 <= y < column.len() && (#[trigger] column[y]).tiles is Some && column[y].blob_key(dir)
            == key
}

/// Whether `key` is the name of the blob of a region of the grid that has
/// resident tiles.
pub open spec fn grid_writes(dir: Seq<char>, grid: Seq<Seq<RegionModel>>, key: Seq<char>) -> bool {
    exists|x: int| 0 <= x < grid.len() && column_writes(dir, #[trigger] grid[x], key)
}

/// Paging a column out leaves every blob as it was but those of the regions
/// with resident tiles.
pub proof fn lemma_column_paged_out_frame(
    store: Map<Seq<char>, Seq<u8>>,
    dir: Seq<char>,
    column: Seq<RegionModel>,
    key: Seq<char>,
)
    requires
        !column_writes(dir, column, key),
    ensures
        column_paged_out(store, dir, column).contains_key(key) == store.contains_key(key),
        store.contains_key(key) ==> column_paged_out(store, dir, column)[key] == store[key],
    decreases column.len(),
{
    if column.len() > 0 {
        let rest = column.drop_last();
        assert forall|y: int| 0 <= y < rest.len() && (#[trigger] rest[y]).tiles is Some implies rest[y].blob_key(
            dir,
        ) != key by {
            assert(rest[y] == column[y]);
        }
        lemma_column_paged_out_frame(store, dir, rest, key);
        let last = column[column.len() - 1];
        assert(last.tiles is Some ==> last.blob_key(dir) != key);
    }
}

/// Paging a grid out leaves every blob as it was but those of the regions
/// with resident tiles.
pub proof fn lemma_grid_paged_out_frame(
    store: Map<Seq<char>, Seq<u8>>,
    dir: Seq<char>,
    grid: Seq<Seq<RegionModel>>,
    key: Seq<char>,
)
    requires
        !grid_writes(dir, grid, key),
    ensures
        grid_paged_out(store, dir, grid).contains_key(key) == store.contains_key(key),
        store.contains_key(key) ==> grid_paged_out(store, dir, grid)[key] == store[key],
    decreases grid.len(),
{
    if grid.len() > 0 {
        let rest = grid.drop_last();
        assert forall|x: int| 0 <= x < rest.len() implies !column_writes(
            dir,
            #[trigger] rest[x],
            key,
        ) by {
            assert(rest[x] == grid[x]);
        }
        lemma_grid_paged_out_frame(store, dir, rest, key);
        let last = grid[grid.len() - 1];
        assert(!column_writes(dir, last, key));
        lemma_column_paged_out_frame(grid_paged_out(store, dir, rest), dir, last, key);
    }
}

/// Appends the sixteen bytes of `x`, least significant first.
pub(crate) fn put_u128(out: &mut Vec<u8>, x: u128)
    ensures
        final(out)@ == old(out)@ + spec_u128_to_le_bytes(x),
{
    let mut sixteen = u128_to_le_bytes(x);
    out.append(&mut sixteen);
}

/// Reads the sixteen bytes at `at` as a number, least significant first.
pub(crate) fn get_u128(bytes: &Vec<u8>, at: usize) -> (x: u128)
    requires
        at + 16 <= bytes.len(),
    ensures
        x == spec_u128_from_le_bytes(bytes@.subrange(at as int, at + 16)),
        spec_u128_to_le_bytes(x) == bytes@.subrange(at as int, at + 16),
{
    proof {
        lemma_auto_spec_u128_to_from_le_bytes();
    }
    u128_from_le_bytes(slice_subrange(bytes.as_slice(), at, at + 16))
}

fn encode_record(region: &Region, out: &mut Vec<u8>)
    ensures
        final(out)@ == old(out)@ + region_record(region@),
{
    put_u128(out, region.get_id());
    out.push(region.get_biome().to_code());
    assert(out@ == old(out)@ + region_record(region@));
}

fn encode_column(column: &Vec<Region>, out: &mut Vec<u8>)
    ensures
        final(out)@ == old(out)@ + column_bytes(column_view(column@)),
{
    let ghost all = column_view(column@);
    let mut y: usize = 0;
    while y < column.len()
        invariant
            y <= column.len(),
            all == column_view(column@),
            out@ == old(out)@ + column_bytes(all.take(y as int)),
        decreases column.len() - y,
    {
        encode_record(&column[y], out);
        proof {
            let next = all.take(y + 1);
            assert(next.drop_last() == all.take(y as int));
            assert(next.last() == column[y as int]@);
            assert(out@ == old(out)@ + column_bytes(next));
        }
        y += 1;
    }
    assert(all.take(column.len() as int) == all);
}

/// Appends the stored form of a grid.
pub fn encode_grid(grid: &Vec<Vec<Region>>, out: &mut Vec<u8>)
    ensures
        final(out)@ == old(out)@ + grid_bytes(grid_view(grid@)),
{
    let ghost all = grid_view(grid@);
    let mut x: usize = 0;
    while x < grid.len()
        invariant
            x <= grid.len(),
            all == grid_view(grid@),
            out@ == old(out)@ + grid_bytes(all.take(x as int)),
        decreases grid.len() - x,
    {
        encode_column(&grid[x], out);
        proof {
            let next = all.take(x + 1);
            assert(next.drop_last() == all.take(x as int));
            assert(next.last() == column_view(grid[x as int]@));
            assert(out@ == old(out)@ + grid_bytes(next));
        }
        x += 1;
    }
    assert(all.take(grid.len() as int) == all);
}

/// Reads `height` records from `start` on. `None` exactly when the biome
/// byte of one of them stands for no biome.
fn decode_column(bytes: &Vec<u8>, start: usize, height: u32, size: u32) -> (column: Option<
    Vec<Region>,
>)
    requires
        start + REGION_RECORD_LEN * height <= bytes.len(),
    ensures
        match column {
            Some(c) => {
                &&& c@.len() == height
                &&& column_bytes(column_view(c@)) == bytes@.subrange(
                    start as int,
                    start + REGION_RECORD_LEN * height,
                )
                &&& forall|y: int|
                    0 <= y < height ==> (#[trigger] c[y])@.width == size && c[y]@.height == size
                        && c[y]@.tiles is None
            },
            None => exists|y: int|
                0 <= y < height && !is_biome_code(
                    #[trigger] bytes[start + REGION_RECORD_LEN * y + 16],
                ),
        },
{
    let mut column: Vec<Region> = Vec::new();
    let mut at: usize = start;
    let mut y: u32 = 0;
    assert(column_bytes(column_view(column@)) =~= bytes@.subrange(start as int, start as int));
    while y < height
        invariant
            y <= height,
            at == start + REGION_RECORD_LEN * y,
            start + REGION_RECORD_LEN * height <= bytes.len(),
            column@.len() == y,
            column_bytes(column_view(column@)) == bytes@.subrange(start as int, at as int),
            forall|k: int|
                0 <= k < y ==> (#[trigger] column[k])@.width == size && column[k]@.height == size
                    && column[k]@.tiles is None,
        decreases height - y,
    {
        let id = get_u128(bytes, at);
        let biome = match BiomeType::from_code(bytes[at + 16]) {
            Some(biome) => biome,
            None => {
                assert(!is_biome_code(bytes[start + REGION_RECORD_LEN * y + 16]));
                return None;
            },
        };
        let region = Region::restored(id, size, biome);
        let ghost before = column_view(column@);
        column.push(region);
        proof {
            let after = column_view(column@);
            assert(after.drop_last() == before);
            assert(after.last() == region@);
            assert(region_record(region@) =~= bytes@.subrange(
                at as int,
                at + REGION_RECORD_LEN,
            ));
            assert(bytes@.subrange(start as int, at as int) + bytes@.subrange(
                at as int,
                at + REGION_RECORD_LEN,
            ) == bytes@.subrange(start as int, at + REGION_RECORD_LEN));
        }
        at += REGION_RECORD_LEN;
        y += 1;
    }
    Some(column)
}

/// Reads a grid of `width` by `height` regions from `start` on; every region
/// gets a tile plane of `size` by `size` columns and no tiles. `None` exactly
/// when the biome byte of one of the records stands for no biome.
pub fn decode_grid(bytes: &Vec<u8>, start: usize, width: u32, height: u32, size: u32) -> (grid:
    Option<Vec<Vec<Region>>>)
    requires
        start + width * (REGION_RECORD_LEN * height) <= bytes.len(),
    ensures
        match grid {
            Some(g) => {
                &&& grid_shaped(grid_view(g@), width as nat, height as nat)
                &&& grid_regions_sized(grid_view(g@), size)
                &&& grid_evicted(grid_view(g@))
                &&& grid_bytes(grid_view(g@)) == bytes@.subrange(
                    start as int,
                    start + width * (REGION_RECORD_LEN * height),
                )
            },
            None => exists|x: int, y: int|
                0 <= x < width && 0 <= y < height && !is_biome_code(
                    #[trigger] bytes[start + x * (REGION_RECORD_LEN * height) + REGION_RECORD_LEN
                        * y + 16],
                ),
        },
{
    let ghost stride: int = REGION_RECORD_LEN * height;
    let mut grid: Vec<Vec<Region>> = Vec::new();
    let mut at: usize = start;
    let mut x: u32 = 0;
    assert(grid_bytes(grid_view(grid@)) =~= bytes@.subrange(start as int, start as int));
    assert(0 * stride == 0);
    while x < width
        invariant
            x <= width,
            stride == REGION_RECORD_LEN * height,
            at == start + x * stride,
            start + width * stride <= bytes.len(),
            grid@.len() == x,
            grid_shaped(grid_view(grid@), x as nat, height as nat),
            grid_regions_sized(grid_view(grid@), size),
            grid_evicted(grid_view(grid@)),
            grid_bytes(grid_view(grid@)) == bytes@.subrange(start as int, at as int),
        decreases width - x,
    {
        assert((x + 1) * stride <= width * stride && (x + 1) * stride == x * stride + stride)
            by (nonlinear_arith)
            requires
                x < width,
                0 <= stride,
        ;
        let column = match decode_column(bytes, at, height, size) {
            Some(column) => column,
            None => {
                proof {
                    let y = choose|y: int|
                        0 <= y < height && !is_biome_code(
                            #[trigger] bytes[at + REGION_RECORD_LEN * y + 16],
                        );
                    assert(!is_biome_code(
                        bytes[start + x as int * (REGION_RECORD_LEN * height) + REGION_RECORD_LEN
                            * y + 16],
                    ));
                }
                return None;
            },
        };
        let ghost before = grid_view(grid@);
        grid.push(column);
        proof {
            let after = grid_view(grid@);
            assert(after.drop_last() == before);
            assert(after.last() == column_view(column@));
            assert(bytes@.subrange(start as int, at as int) + bytes@.subrange(
                at as int,
                at + stride,
            ) == bytes@.subrange(start as int, at + stride));
            assert forall|i: int| 0 <= i < x + 1 implies (#[trigger] after[i]).len() == height by {
                if i < x {
                    assert(after[i] == before[i]);
                }
            }
            assert forall|i: int, j: int| 0 <= i < after.len() && 0 <= j < after[i].len() implies {
                &&& (#[trigger] after[i][j]).width == size
                &&& after[i][j].height == size
                &&& after[i][j].valid()
                &&& after[i][j].tiles is None
            } by {
                if i < x {
                    assert(after[i] == before[i]);
                    assert(before[i][j].tiles is None);
                } else {
                    assert(after[i][j] == column[j]@);
                }
            }
        }
        at += REGION_RECORD_LEN * (height as usize);
        x += 1;
    }
    Some(grid)
}

fn column_fits(column: &Vec<Region>, limit: usize) -> (fits: bool)
    requires
        forall|y: int| 0 <= y < column.len() ==> (#[trigger] column[y]).wf(),
    ensures
        fits <==> forall|y: int| 0 <= y < column.len() ==> (#[trigger] column[y])@.persists(
            limit as nat,
        ),
{
    let mut y: usize = 0;
    while y < column.len()
        invariant
            y <= column.len(),
            forall|k: int| 0 <= k < column.len() ==> (#[trigger] column[k]).wf(),
            forall|k: int| 0 <= k < y ==> (#[trigger] column[k])@.persists(limit as nat),
        decreases column.len() - y,
    {
        if !column[y].fits(limit) {
            return false;
        }
        y += 1;
    }
    true
}

/// Whether a store that takes blobs of up to `limit` bytes takes what paging
/// out each region of the grid writes.
pub fn grid_fits(grid: &Vec<Vec<Region>>, limit: usize) -> (fits: bool)
    requires
        grid_regions_valid(grid_view(grid@)),
    ensures
        fits == grid_persists(grid_view(grid@), limit as nat),
{
    let ghost all = grid_view(grid@);
    let mut x: usize = 0;
    while x < grid.len()
        invariant
            x <= grid.len(),
            all == grid_view(grid@),
            grid_regions_valid(all),
            forall|i: int, j: int|
                0 <= i < x && 0 <= j < all[i].len() ==> (#[trigger] all[i][j]).persists(
                    limit as nat,
                ),
        decreases grid.len() - x,
    {
        proof {
            assert forall|y: int| 0 <= y < grid[x as int].len() implies (#[trigger] grid[x as int][y]).wf() by {
                assert(all[x as int][y] == grid[x as int][y]@);
                assert(all[x as int][y].valid());
            }
        }
        if !column_fits(&grid[x], limit) {
            proof {
                let y = choose|y: int|
                    0 <= y < grid[x as int].len() && !(#[trigger] grid[x as int][y])@.persists(
                        limit as nat,
                    );
                assert(all[x as int][y] == grid[x as int][y]@);
                assert(!all[x as int][y].persists(limit as nat));
            }
            return false;
        }
        proof {
            assert forall|j: int| 0 <= j < all[x as int].len() implies (#[trigger] all[x as int][j]).persists(
                limit as nat,
            ) by {
                assert(all[x as int][j] == grid[x as int][j]@);
            }
        }
        x += 1;
    }
    true
}

fn unload_column(column: &mut Vec<Region>, store: &mut Storage, dir: &String)
    requires
        forall|y: int| 0 <= y < old(column).len() ==> (#[trigger] old(column)[y]).wf(),
        forall|y: int|
            0 <= y < old(column).len() ==> (#[trigger] old(column)[y])@.persists(old(store).limit()),
    ensures
        final(column).len() == old(column).len(),
        forall|y: int|
            0 <= y < old(column).len() ==> (#[trigger] final(column)[y])@ == old(
                column,
            )[y]@.evicted(),
        final(store).limit() == old(store).limit(),
        final(store)@ == column_paged_out(old(store)@, dir@, column_view(old(column)@)),
{
    let ghost before = column_view(column@);
    let mut y: usize = 0;
    while y < column.len()
        invariant
            y <= column.len(),
            column.len() == old(column).len(),
            before == column_view(old(column)@),
            store.limit() == old(store).limit(),
            forall|k: int| 0 <= k < y ==> (#[trigger] column[k])@ == before[k].evicted(),
            forall|k: int| y <= k < column.len() ==> (#[trigger] column[k])@ == before[k],
            forall|k: int| 0 <= k < column.len() ==> (#[trigger] before[k]).valid(),
            forall|k: int| 0 <= k < column.len() ==> (#[trigger] before[k]).persists(store.limit()),
            store@ == column_paged_out(old(store)@, dir@, before.take(y as int)),
        decreases column.len() - y,
    {
        assert(before[y as int].valid());
        assert(before[y as int].persists(store.limit()));
        let unloaded = column[y].unload(store, dir);
        assert(unloaded is Ok);
        proof {
            let next = before.take(y + 1);
            assert(next.drop_last() == before.take(y as int));
            assert(next.last() == before[y as int]);
        }
        y += 1;
    }
    assert(before.take(column.len() as int) == before);
}

/// Pages out every region of a grid, in grid order, into a store that takes
/// what each of them writes.
pub fn unload_grid(grid: &mut Vec<Vec<Region>>, store: &mut Storage, dir: &String)
    requires
        grid_regions_valid(grid_view(old(grid)@)),
        grid_persists(grid_view(old(grid)@), old(store).limit()),
    ensures
        grid_view(final(grid)@) == grid_without_tiles(grid_view(old(grid)@)),
        final(store).limit() == old(store).limit(),
        final(store)@ == grid_paged_out(old(store)@, dir@, grid_view(old(grid)@)),
{
    let ghost before = grid_view(grid@);
    let mut x: usize = 0;
    while x < grid.len()
        invariant
            x <= grid.len(),
            grid.len() == old(grid).len(),
            before == grid_view(old(grid)@),
            grid_regions_valid(before),
            store.limit() == old(store).limit(),
            grid_persists(before, store.limit()),
            forall|i: int|
                0 <= i < x ==> column_view((#[trigger] grid[i])@) == grid_without_tiles(before)[i],
            forall|i: int| x <= i < grid.len() ==> column_view((#[trigger] grid[i])@) == before[i],
            store@ == grid_paged_out(old(store)@, dir@, before.take(x as int)),
        decreases grid.len() - x,
    {
        proof {
            assert forall|y: int| 0 <= y < grid[x as int].len() implies (#[trigger] grid[x as int][y]).wf()
                && grid[x as int][y]@.persists(store.limit()) by {
                assert(column_view(grid[x as int]@) == before[x as int]);
                assert(column_view(grid[x as int]@)[y] == grid[x as int][y]@);
                assert(before[x as int][y].valid());
                assert(before[x as int][y].persists(store.limit()));
            }
        }
        let ghost column_before = column_view(grid[x as int]@);
        unload_column(&mut grid[x], store, dir);
        proof {
            let next = before.take(x + 1);
            assert(next.drop_last() == before.take(x as int));
            assert(next.last() == before[x as int]);
            assert(column_before == before[x as int]);
            assert(column_view(grid[x as int]@) =~= grid_without_tiles(before)[x as int]) by {
                assert forall|y: int| 0 <= y < before[x as int].len() implies column_view(
                    grid[x as int]@,
                )[y] == before[x as int][y].evicted() by {
                    assert(column_before[y] == before[x as int][y]);
                }
            }
        }
        x += 1;
    }
    assert(before.take(grid.len() as int) == before);
    assert(grid_view(grid@) =~= grid_without_tiles(before));
}

} // verus!
