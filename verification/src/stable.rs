//! Stable identities of generated world entities: each is derived from the
//! world seed, the generation stage, a spatial key and a feature key, so that
//! the same world always names the same entity the same way.

use crate::ids::EventId;
use crate::rng::{spec_derive, SeedMaterial};
use vstd::prelude::*;

verus! {

/// The generation stage of world history.
pub const STAGE_HISTORY: u64 = 0x4300;

/// A 128-bit value turned left by 37 bits.
pub open spec fn rotated_left_37(value: u128) -> u128 {
    ((value << 37u128) | (value >> 91u128)) as u128
}

/// The material of an identity's high half: the stage, spatial key and
/// feature key each scrambled by a fixed pattern.
pub open spec fn high_material(world_seed: u128, stage: u64, spatial: u128, feature: u128) -> SeedMaterial {
    SeedMaterial {
        world_seed,
        stage_id: stage ^ 0x9e37_79b9,
        spatial_key: rotated_left_37(spatial),
        feature_key: feature ^ 0xa5a5_5a5a_3c3c_c3c3,
    }
}

/// The identity of a generated entity: the seed derived from the scrambled
/// material as its high half and the seed derived from the plain material as
/// its low half.
pub open spec fn spec_stable_entity(world_seed: u128, stage: u64, spatial: u128, feature: u128) -> u128 {
    (spec_derive(high_material(world_seed, stage, spatial, feature)) * 0x1_0000_0000_0000_0000int
        + spec_derive(
        SeedMaterial { world_seed, stage_id: stage, spatial_key: spatial, feature_key: feature },
    )) as u128
}

pub fn stable_entity(world_seed: u128, stage: u64, spatial: u128, feature: u128) -> (id: u128)
    ensures
        id == spec_stable_entity(world_seed, stage, spatial, feature),
{
    let low = SeedMaterial { world_seed, stage_id: stage, spatial_key: spatial, feature_key: feature }.derive();
    let turned = (spatial << 37) | (spatial >> 91);
    let high = SeedMaterial {
        world_seed,
        stage_id: stage ^ 0x9e37_79b9,
        spatial_key: turned,
        feature_key: feature ^ 0xa5a5_5a5a_3c3c_c3c3,
    }.derive();
    let id = ((high as u128) << 64) | (low as u128);
    assert(id == (high as u128) * 0x1_0000_0000_0000_0000u128 + (low as u128)) by (bit_vector)
        requires
            id == ((high as u128) << 64) | (low as u128),
    ;
    id
}

/// The identity of a historical event with key `key`.
pub fn history_event_id(world_seed: u128, key: u128) -> (id: EventId)
    ensures
        id == spec_stable_entity(world_seed, STAGE_HISTORY, key, 0x601),
{
    stable_entity(world_seed, STAGE_HISTORY, key, 0x601)
}

/// The identity of a historical asset with key `key`.
pub fn history_asset_id(world_seed: u128, key: u128) -> (id: u128)
    ensures
        id == spec_stable_entity(world_seed, STAGE_HISTORY, key, 0x602),
{
    stable_entity(world_seed, STAGE_HISTORY, key, 0x602)
}

} // verus!
