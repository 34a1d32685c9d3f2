//! A two-level spatial world for a roguelike: a map is a grid of regions, a
//! region is a volume of tiles that is paged in from, and out to, a blob
//! store.
//!
//! - `tile`, `biome`: the values that regions are made of.
//! - `volume`, `grid`: tile volumes and region grids, and their stored forms.
//! - `region`, `map`: regions and the map, with generation, paging, saving
//!   and loading.
//! - `storage`, `paths`, `ident`: the blob store, the names of blobs, and
//!   identifiers.
//! - `classifier`: from the samples of the noise fields to biomes.
//! - `substate`, `mapper`, `stateinfo`, `mapgen`: what the game's screens
//!   decide.
//! - `laws`: what holds of all of these together.

pub mod biome;
pub mod classifier;
pub mod error;
pub mod grid;
pub mod ident;
pub mod laws;
pub mod map;
pub mod mapgen;
pub mod mapper;
pub mod paths;
pub mod region;
pub mod stateinfo;
pub mod storage;
pub mod substate;
pub mod tile;
pub mod volume;
