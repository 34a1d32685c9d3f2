//! Regions: one cell of the map's grid, with a biome and a tile volume that
//! is resident or paged out.

use crate::biome::BiomeType;
use crate::error::MapError;
use crate::ident::{fresh_id, is_random_id};
use crate::paths::{region_blob_key, region_key};
use crate::storage::Storage;
use crate::tile::{Tile, REGION_DEPTH};
use crate::volume::{
    decode_volume, encode_volume, generate_volume, lemma_volume_bytes_len, placeholder_volume,
    plane_view, stored_volume, volume_bytes, volume_shaped, volume_view, VOLUME_HEADER_LEN,
};
use vstd::prelude::*;

verus! {

/// What a region is: its identifier, the dimensions of its tile plane, its
/// biome, and its tiles where they are resident.
#[verifier::ext_equal]
pub ghost struct RegionModel {
    pub id: u128,
    pub width: u32,
    pub height: u32,
    pub biome: BiomeType,
    pub tiles: Option<Seq<Seq<Seq<Tile>>>>,
}

impl RegionModel {
    /// A resident volume has the region's width and height and the common
    /// depth.
    pub open spec fn valid(self) -> bool {
        self.tiles matches Some(volume) ==> volume_shaped(
            volume,
            self.width as nat,
            self.height as nat,
            REGION_DEPTH as nat,
        )
    }

    /// The same region with its tiles paged out.
    pub open spec fn evicted(self) -> RegionModel {
        RegionModel { tiles: None, ..self }
    }

    /// The same region with the given tiles resident.
    pub open spec fn holding(self, volume: Seq<Seq<Seq<Tile>>>) -> RegionModel {
        RegionModel { tiles: Some(volume), ..self }
    }

    /// The blob that stores the region's tiles, for a resident region.
    pub open spec fn blob(self) -> Seq<u8> {
        volume_bytes(self.tiles->0, self.width, self.height, REGION_DEPTH)
    }

    /// The name of the region's blob in the namespace `dir`.
    pub open spec fn blob_key(self, dir: Seq<char>) -> Seq<char> {
        region_key(dir, self.id)
    }

    /// The region after its tiles were read from the store: `NotFound` where
    /// the store has no blob of the region, `SerializationFailure` where
    /// that blob is no volume of the region's dimensions.
    pub open spec fn tiles_loaded(self, store: Map<Seq<char>, Seq<u8>>, dir: Seq<char>) -> Result<
        RegionModel,
        MapError,
    > {
        if !store.contains_key(self.blob_key(dir)) {
            Err(MapError::NotFound)
        } else {
            match stored_volume(store[self.blob_key(dir)], self.width, self.height, REGION_DEPTH) {
                Some(volume) => Ok(self.holding(volume)),
                None => Err(MapError::SerializationFailure),
            }
        }
    }

    /// The region after it was paged in: resident tiles stay as they are and
    /// the store is not read; absent tiles are read from the region's blob,
    /// and it is `NotFound` where the store has none.
    pub open spec fn paged_in(self, store: Map<Seq<char>, Seq<u8>>, dir: Seq<char>) -> Result<
        RegionModel,
        MapError,
    > {
        if self.tiles is Some {
            Ok(self)
        } else {
            self.tiles_loaded(store, dir)
        }
    }

    /// Whether a store that takes blobs of up to `limit` bytes takes what
    /// paging the region out writes: the blob of its tiles, where they are
    /// resident.
    pub open spec fn persists(self, limit: nat) -> bool {
        self.tiles is Some ==> self.blob().len() <= limit
    }

    /// The store after the region was paged out: resident tiles are written
    /// under the region's name, and a region without them writes nothing.
    pub open spec fn paged_out(self, store: Map<Seq<char>, Seq<u8>>, dir: Seq<char>) -> Map<
        Seq<char>,
        Seq<u8>,
    > {
        if self.tiles is Some {
            store.insert(self.blob_key(dir), self.blob())
        } else {
            store
        }
    }
}

/// A cell of the map's grid. Its tiles are absent until they are generated
/// or read from the store.
#[derive(PartialEq, Debug)]
pub struct Region {
    id: u128,
    width: u32,
    height: u32,
    biome: BiomeType,
    tiles: Option<Vec<Vec<Vec<Tile>>>>,
}

impl View for Region {
    type V = RegionModel;

    closed spec fn view(&self) -> RegionModel {
        RegionModel {
            id: self.id,
            width: self.width,
            height: self.height,
            biome: self.biome,
            tiles: match self.tiles {
                Some(volume) => Some(volume_view(volume@)),
                None => None,
            },
        }
    }
}

impl Region {
    /// Whether the region's resident volume, if any, has its dimensions.
    pub open spec fn wf(&self) -> bool {
        self@.valid()
    }

    /// A region of `size` by `size` columns with a new identifier and no
    /// tiles.
    pub fn new(size: u32, biome: BiomeType) -> (region: Region)
        ensures
            region@.width == size,
            region@.height == size,
            region@.biome == biome,
            region@.tiles is None,
            is_random_id(region@.id),
            region.wf(),
    {
        Region { id: fresh_id(), width: size, height: size, biome, tiles: None }
    }

    /// The region that a stored map describes: no tiles are resident.
    pub fn restored(id: u128, size: u32, biome: BiomeType) -> (region: Region)
        ensures
            region@ == (RegionModel { id, width: size, height: size, biome, tiles: None }),
            region.wf(),
    {
        Region { id, width: size, height: size, biome, tiles: None }
    }

    /// The region's identifier, under which its tiles are stored.
    pub fn get_id(&self) -> (id: u128)
        ensures
            id == self@.id,
    {
        self.id
    }

    /// The width of the tile plane.
    pub fn get_width(&self) -> (width: u32)
        ensures
            width == self@.width,
    {
        self.width
    }

    /// The height of the tile plane.
    pub fn get_height(&self) -> (height: u32)
        ensures
            height == self@.height,
    {
        self.height
    }

    /// The region's biome.
    pub fn get_biome(&self) -> (biome: BiomeType)
        ensures
            biome == self@.biome,
    {
        self.biome
    }

    /// Whether the tiles are in memory.
    pub fn is_resident(&self) -> (resident: bool)
        ensures
            resident == self@.tiles is Some,
    {
        self.tiles.is_some()
    }

    /// The resident tiles, column by column.
    pub fn get_tiles(&self) -> (tiles: Option<&Vec<Vec<Vec<Tile>>>>)
        ensures
            match tiles {
                Some(volume) => self@.tiles == Some(volume_view(volume@)),
                None => self@.tiles is None,
            },
    {
        self.tiles.as_ref()
    }

    /// The tile at height `z` of the column at `(x, y)`; `None` when the
    /// tiles are paged out or the place lies outside the volume.
    pub fn get_tile(&self, x: u32, y: u32, z: u32) -> (tile: Option<Tile>)
        requires
            self.wf(),
        ensures
            tile.is_some() <==> self@.tiles is Some && x < self@.width && y < self@.height && z
                < REGION_DEPTH,
            tile matches Some(t) ==> t == self@.tiles->0[x as int][y as int][z as int],
    {
        match &self.tiles {
            Some(volume) => {
                if x < self.width && y < self.height && z < REGION_DEPTH {
                    assert(volume_view(volume@)[x as int] == plane_view(volume[x as int]@));
                    assert(plane_view(volume[x as int]@)[y as int] == volume[x as int][y as int]@);
                    assert(volume_view(volume@)[x as int].len() == self.height);
                    assert(volume_view(volume@)[x as int][y as int].len() == REGION_DEPTH);
                    Some(volume[x as usize][y as usize][z as usize])
                } else {
                    None
                }
            },
            None => None,
        }
    }

    /// Fills the volume, in place of any tiles that were resident: every
    /// column is solid stone up to half the depth and air above.
    pub fn generate_tiles(&mut self)
        ensures
            final(self)@ == old(self)@.holding(
                placeholder_volume(
                    old(self)@.width as nat,
                    old(self)@.height as nat,
                    REGION_DEPTH as nat,
                ),
            ),
            final(self).wf(),
    {
        let volume = generate_volume(self.width, self.height, REGION_DEPTH);
        self.tiles = Some(volume);
    }

    /// Reads the region's tiles from its blob in the namespace `dir`, in
    /// place of any that were resident. A missing blob gives `NotFound`, one
    /// that is no volume of the region's dimensions `SerializationFailure`;
    /// either way the region is left as it was.
    pub fn load_tiles(&mut self, store: &Storage, dir: &String) -> (loaded: Result<(), MapError>)
        ensures
            match old(self)@.tiles_loaded(store@, dir@) {
                Ok(region) => loaded is Ok && final(self)@ == region && final(self).wf(),
                Err(e) => loaded == Err::<(), MapError>(e) && *final(self) == *old(self),
            },
    {
        let key = region_blob_key(dir, self.id);
        let bytes = match store.read(&key) {
            Ok(bytes) => bytes,
            Err(e) => {
                return Err(e);
            },
        };
        match decode_volume(&bytes, self.width, self.height, REGION_DEPTH) {
            Ok(volume) => {
                self.tiles = Some(volume);
                Ok(())
            },
            Err(e) => Err(e),
        }
    }

    /// Pages the region in. Resident tiles stay as they are and the store is
    /// not read. Absent tiles are read from the region's blob: a missing
    /// blob gives `NotFound`, one that is no volume of the region's
    /// dimensions `SerializationFailure`, and the region is then left as it
    /// was. After success the tiles are resident.
    pub fn page_in(&mut self, store: &Storage, dir: &String) -> (paged: Result<(), MapError>)
        ensures
            match old(self)@.paged_in(store@, dir@) {
                Ok(region) => paged is Ok && final(self)@ == region && final(self)@.tiles is Some
                    && (old(self).wf() ==> final(self).wf()),
                Err(e) => paged == Err::<(), MapError>(e) && *final(self) == *old(self),
            },
    {
        if self.tiles.is_some() {
            return Ok(());
        }
        self.load_tiles(store, dir)
    }

    /// Whether a store that takes blobs of up to `limit` bytes takes the
    /// blob of the region's tiles; it does where no tiles are resident.
    pub fn fits(&self, limit: usize) -> (fits: bool)
        requires
            self.wf(),
        ensures
            fits == self@.persists(limit as nat),
    {
        match &self.tiles {
            None => true,
            Some(volume) => {
                proof {
                    lemma_volume_bytes_len(
                        volume_view(volume@),
                        self.width,
                        self.height,
                        REGION_DEPTH,
                    );
                }
                let width = self.width;
                let height = self.height;
                assert(0 <= width * height <= 0xffff_ffff * 0xffff_ffff && 0 <= width * height
                    * REGION_DEPTH <= 0xffff_ffff * 0xffff_ffff * 16) by (nonlinear_arith)
                    requires
                        0 <= width <= 0xffff_ffff,
                        0 <= height <= 0xffff_ffff,
                        REGION_DEPTH == 16,
                ;
                let tiles: u128 = (width as u128) * (height as u128) * (REGION_DEPTH as u128);
                (VOLUME_HEADER_LEN as u128) + tiles <= (limit as u128)
            },
        }
    }

    /// Stores the resident tiles under the region's name in the namespace
    /// `dir`; they stay resident. `WriteFailed`, with the store unchanged,
    /// exactly when the store does not take the blob.
    fn save_tiles(&self, store: &mut Storage, dir: &String) -> (saved: Result<(), MapError>)
        requires
            self.wf(),
            self@.tiles is Some,
        ensures
            final(store).limit() == old(store).limit(),
            if self@.persists(old(store).limit()) {
                saved is Ok && final(store)@ == old(store)@.insert(
                    region_key(dir@, self@.id),
                    self@.blob(),
                )
            } else {
                saved == Err::<(), MapError>(MapError::WriteFailed) && final(store)@ == old(store)@
            },
    {
        let key = region_blob_key(dir, self.id);
        match &self.tiles {
            Some(volume) => {
                let bytes = encode_volume(volume, self.width, self.height, REGION_DEPTH);
                store.write(key, bytes)
            },
            None => Ok(()),
        }
    }

    /// Pages the tiles out: resident tiles are stored first, then evicted.
    /// On a region without resident tiles nothing happens. Where the store
    /// does not take the blob of the tiles, it is `WriteFailed`: the tiles
    /// stay resident, and neither the region nor the store has changed.
    pub fn unload(&mut self, store: &mut Storage, dir: &String) -> (unloaded: Result<(), MapError>)
        requires
            old(self).wf(),
        ensures
            final(self).wf(),
            final(store).limit() == old(store).limit(),
            if old(self)@.persists(old(store).limit()) {
                &&& unloaded is Ok
                &&& final(self)@ == old(self)@.evicted()
                &&& final(store)@ == old(self)@.paged_out(old(store)@, dir@)
            } else {
                &&& unloaded == Err::<(), MapError>(MapError::WriteFailed)
                &&& *final(self) == *old(self)
                &&& final(store)@ == old(store)@
            },
    {
        if self.tiles.is_some() {
            match self.save_tiles(store, dir) {
                Ok(_) => {},
                Err(e) => {
                    return Err(e);
                },
            }
        }
        self.dispose_tiles();
        Ok(())
    }

    /// Evicts the tiles without storing them.
    pub fn dispose_tiles(&mut self)
        ensures
            final(self)@ == old(self)@.evicted(),
            final(self).wf(),
    {
        self.tiles = None;
    }
}

} // verus!
