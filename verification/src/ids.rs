//! Identifiers, world time and hex-cell coordinates shared by every module.
//!
//! Identifiers are 128-bit values; maps are keyed by them directly.

use vstd::prelude::*;

verus! {

pub type CommandId = u128;

pub type EventId = u128;

pub type PersonId = u128;

pub type ClientId = u128;

pub type SessionId = u128;

pub type SnapshotId = u128;

pub type WorldId = u128;

pub type RouteId = u128;

pub type DoorId = u128;

pub type ItemId = u128;

pub type ContainerId = u128;

pub type BuildingInstanceId = u128;

pub type VehicleId = u128;

pub type WallId = u128;

pub type OpeningId = u128;

/// A discrete instant of world time, in ticks.
#[derive(Clone, Copy, Debug, PartialEq, Eq, Structural, Hash)]
pub struct WorldInstant {
    pub ticks: i64,
}

impl WorldInstant {
    pub fn from_ticks(ticks: i64) -> (instant: Self)
        ensures
            instant.ticks == ticks,
    {
        WorldInstant { ticks }
    }

    pub fn zero() -> (instant: Self)
        ensures
            instant.ticks == 0,
    {
        WorldInstant { ticks: 0 }
    }
}

/// An axial coordinate of a hexagonal world cell.
#[derive(Clone, Copy, Debug, PartialEq, Eq, Structural, Hash)]
pub struct HexCoord {
    pub q: i32,
    pub r: i32,
}

impl HexCoord {
    pub fn new(q: i32, r: i32) -> (coord: Self)
        ensures
            coord.q == q,
            coord.r == r,
    {
        HexCoord { q, r }
    }
}

} // verus!
