//! What the map generation screen decides: when a new map is asked for,
//! under which seed, and what the overview of the map shows.

use crate::error::MapError;
use crate::grid::{grid_evicted, grid_shaped};
use crate::classifier::{generate_classified_regions, noise_seeds, sampled_by, TerrainSample};
use crate::map::{MapModel, WorldMap, UNSET_SEED};
use crate::stateinfo::{StateInfo, StateInfoModel, StoredValue};
use vstd::prelude::*;

verus! {

/// The name under which the seed of the next map is stored.
pub open spec fn map_seed_key() -> Seq<char> {
    "map_seed"@
}

/// The name under which the wish for a new map is stored.
pub open spec fn generate_map_key() -> Seq<char> {
    "gen_map"@
}

/// Whether the stored values ask for a new map.
pub open spec fn wants_map(values: Map<Seq<char>, StoredValue>) -> bool {
    &&& values.contains_key(generate_map_key())
    &&& values[generate_map_key()] == (StoredValue::Boolean { value: true })
}

/// The seed that the stored values give for the next map: the whole number
/// stored as the seed, and zero where none is stored.
pub open spec fn stored_seed(values: Map<Seq<char>, StoredValue>) -> i32 {
    if values.contains_key(map_seed_key()) {
        match values[map_seed_key()] {
            StoredValue::Integral { value } => value,
            _ => 0,
        }
    } else {
        0
    }
}

/// The seed that 32 random bits give: their lower 31 bits, which is never
/// the seed of a map without one.
pub open spec fn seed_of_bits(bits: u32) -> i32 {
    (bits % 0x8000_0000) as i32
}

/// The values after a new map was asked for under `seed`.
pub open spec fn map_requested(info: StateInfoModel, seed: i32) -> StateInfoModel {
    StateInfoModel {
        values: info.values.insert(map_seed_key(), StoredValue::Integral { value: seed }).insert(
            generate_map_key(),
            StoredValue::Boolean { value: true },
        ),
        ui_dirty: true,
        ..info
    }
}

/// Draws 32 random bits with `rand::random`, from the thread's generator.
/// Nothing is known of them.
#[verifier::external_body]
fn random_bits() -> (bits: u32) {
    rand::random::<u32>()
}

/// The seed that 32 random bits give.
pub fn seed_from_bits(bits: u32) -> (seed: i32)
    ensures
        seed == seed_of_bits(bits),
        0 <= seed,
        seed != UNSET_SEED,
{
    (bits % 0x8000_0000) as i32
}

/// Asks for a new map under `seed`: the seed and the wish are stored, and
/// the interface is to be laid out again.
pub fn request_map(state: &mut StateInfo, seed: i32)
    ensures
        final(state)@ == map_requested(old(state)@, seed),
{
    state.set_value("map_seed", StoredValue::Integral { value: seed });
    state.set_value("gen_map", StoredValue::Boolean { value: true });
    state.refresh_ui();
}

/// Asks for a new map under a random seed.
pub fn set_random_seed(state: &mut StateInfo)
    ensures
        exists|bits: u32| #[trigger] map_requested(old(state)@, seed_of_bits(bits)) == final(state)@,
{
    let bits = random_bits();
    request_map(state, seed_from_bits(bits));
    assert(map_requested(old(state)@, seed_of_bits(bits)) == state@);
}

/// Whether a new map was asked for.
pub fn should_regenerate_map(info: &mut StateInfo) -> (wanted: bool)
    ensures
        wanted == wants_map(old(info)@.values),
        final(info)@ == old(info)@,
{
    match info.get_value("gen_map") {
        Ok(StoredValue::Boolean { value }) => *value,
        _ => false,
    }
}

/// The seed stored for the next map; zero where none is stored.
pub fn get_stored_seed(info: &mut StateInfo) -> (seed: i32)
    ensures
        seed == stored_seed(old(info)@.values),
        final(info)@ == old(info)@,
{
    match info.get_value("map_seed") {
        Ok(StoredValue::Integral { value }) => *value,
        _ => 0,
    }
}

/// Generates the map anew where that was asked for. The map then takes the
/// stored seed and its regions are generated with the classifier of that
/// seed, which asks `sample` for each region; the wish counts as granted,
/// whether the regions could be generated or not. `Ok(true)` says that a new
/// map was generated, `Ok(false)` that none was asked for, and `UnsetSeed`
/// that the stored seed is the seed of a map without one.
pub fn regenerate_map<S>(info: &mut StateInfo, map: &mut WorldMap, sample: &S) -> (generated:
    Result<bool, MapError>) where S: Fn(u32, u32, u32, u32) -> TerrainSample
    requires
        old(map).wf(),
        forall|x: u32, y: u32|
            x < old(map)@.width && y < old(map)@.height ==> call_requires(
                sample,
                (
                    noise_seeds(stored_seed(old(info)@.values)).terrain,
                    noise_seeds(stored_seed(old(info)@.values)).grassland,
                    x,
                    y,
                ),
            ),
    ensures
        final(map).wf(),
        !wants_map(old(info)@.values) ==> {
            &&& generated == Ok::<bool, MapError>(false)
            &&& final(info)@ == old(info)@
            &&& final(map)@ == old(map)@
        },
        wants_map(old(info)@.values) ==> {
            let seed = stored_seed(old(info)@.values);
            &&& final(info)@ == (StateInfoModel {
                values: old(info)@.values.insert(
                    generate_map_key(),
                    StoredValue::Boolean { value: false },
                ),
                ..old(info)@
            })
            &&& if seed == UNSET_SEED {
                &&& generated == Err::<bool, MapError>(MapError::UnsetSeed)
                &&& final(map)@ == (MapModel { seed, ..old(map)@ })
            } else {
                &&& generated == Ok::<bool, MapError>(true)
                &&& final(map)@ == (MapModel { seed, regions: final(map)@.regions, ..old(map)@ })
                &&& grid_shaped(
                    final(map)@.regions,
                    old(map)@.width as nat,
                    old(map)@.height as nat,
                )
                &&& grid_evicted(final(map)@.regions)
                &&& sampled_by(final(map)@.regions, sample, seed)
            }
        },
{
    if !should_regenerate_map(info) {
        return Ok(false);
    }
    let seed = get_stored_seed(info);
    map.set_seed(seed);
    let outcome = generate_classified_regions(map, sample, ignore_progress);
    info.set_value("gen_map", StoredValue::Boolean { value: false });
    match outcome {
        Ok(_) => Ok(true),
        Err(e) => Err(e),
    }
}

/// Takes a percentage and does nothing with it.
fn ignore_progress(percent: i32) {
}

} // verus!
