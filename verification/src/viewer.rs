//! The modes that the viewers step through on a key press. Each step goes
//! to the next mode in a fixed cycle, and going once around the cycle comes
//! back to where it started.

use crate::building::CutawayDirection;
use vstd::prelude::*;

verus! {

/// How the building viewer draws a building.
#[derive(Clone, Copy, Debug, PartialEq, Eq, Structural)]
pub enum DisplayMode {
    Full,
    ExteriorShell,
    Massing,
}

impl DisplayMode {
    pub open spec fn successor(self) -> DisplayMode {
        match self {
            DisplayMode::Full => DisplayMode::ExteriorShell,
            DisplayMode::ExteriorShell => DisplayMode::Massing,
            DisplayMode::Massing => DisplayMode::Full,
        }
    }

    pub fn next(self) -> (next: DisplayMode)
        ensures
            next == self.successor(),
    {
        match self {
            DisplayMode::Full => DisplayMode::ExteriorShell,
            DisplayMode::ExteriorShell => DisplayMode::Massing,
            DisplayMode::Massing => DisplayMode::Full,
        }
    }
}

/// How the world viewer draws buildings.
#[derive(Clone, Copy, Debug, PartialEq, Eq, Structural)]
pub enum BuildingLodMode {
    Full,
    ExteriorShell,
    Massing,
}

impl BuildingLodMode {
    pub open spec fn successor(self) -> BuildingLodMode {
        match self {
            BuildingLodMode::Full => BuildingLodMode::ExteriorShell,
            BuildingLodMode::ExteriorShell => BuildingLodMode::Massing,
            BuildingLodMode::Massing => BuildingLodMode::Full,
        }
    }

    pub fn next(self) -> (next: BuildingLodMode)
        ensures
            next == self.successor(),
    {
        match self {
            BuildingLodMode::Full => BuildingLodMode::ExteriorShell,
            BuildingLodMode::ExteriorShell => BuildingLodMode::Massing,
            BuildingLodMode::Massing => BuildingLodMode::Full,
        }
    }
}

/// How the integrated and regional viewers draw buildings.
#[derive(Clone, Copy, Debug, PartialEq, Eq, Structural)]
pub enum BuildingLod {
    Full,
    Shell,
    Massing,
}

impl BuildingLod {
    pub open spec fn successor(self) -> BuildingLod {
        match self {
            BuildingLod::Full => BuildingLod::Shell,
            BuildingLod::Shell => BuildingLod::Massing,
            BuildingLod::Massing => BuildingLod::Full,
        }
    }

    pub fn next(self) -> (next: BuildingLod)
        ensures
            next == self.successor(),
    {
        match self {
            BuildingLod::Full => BuildingLod::Shell,
            BuildingLod::Shell => BuildingLod::Massing,
            BuildingLod::Massing => BuildingLod::Full,
        }
    }
}

/// Where the world viewer's camera looks from.
#[derive(Clone, Copy, Debug, PartialEq, Eq, Structural)]
pub enum CameraMode {
    Overview,
    FollowRoute,
}

impl CameraMode {
    pub open spec fn successor(self) -> CameraMode {
        match self {
            CameraMode::Overview => CameraMode::FollowRoute,
            CameraMode::FollowRoute => CameraMode::Overview,
        }
    }

    pub fn next(self) -> (next: CameraMode)
        ensures
            next == self.successor(),
    {
        match self {
            CameraMode::Overview => CameraMode::FollowRoute,
            CameraMode::FollowRoute => CameraMode::Overview,
        }
    }
}

/// What the integrated viewer's atlas colours its cells by.
#[derive(Clone, Copy, Debug, PartialEq, Eq, Structural)]
pub enum AtlasLayer {
    Elevation,
    Landforms,
    Climate,
    Resources,
    History,
}

impl AtlasLayer {
    pub open spec fn successor(self) -> AtlasLayer {
        match self {
            AtlasLayer::Elevation => AtlasLayer::Landforms,
            AtlasLayer::Landforms => AtlasLayer::Climate,
            AtlasLayer::Climate => AtlasLayer::Resources,
            AtlasLayer::Resources => AtlasLayer::History,
            AtlasLayer::History => AtlasLayer::Elevation,
        }
    }

    pub fn next(self) -> (next: AtlasLayer)
        ensures
            next == self.successor(),
    {
        match self {
            AtlasLayer::Elevation => AtlasLayer::Landforms,
            AtlasLayer::Landforms => AtlasLayer::Climate,
            AtlasLayer::Climate => AtlasLayer::Resources,
            AtlasLayer::Resources => AtlasLayer::History,
            AtlasLayer::History => AtlasLayer::Elevation,
        }
    }
}

/// What the regional viewer's atlas colours its cells by.
#[derive(Clone, Copy, Debug, PartialEq, Eq, Structural)]
pub enum RegionAtlasLayer {
    Elevation,
    Landforms,
    Capacity,
}

impl RegionAtlasLayer {
    pub open spec fn successor(self) -> RegionAtlasLayer {
        match self {
            RegionAtlasLayer::Elevation => RegionAtlasLayer::Landforms,
            RegionAtlasLayer::Landforms => RegionAtlasLayer::Capacity,
            RegionAtlasLayer::Capacity => RegionAtlasLayer::Elevation,
        }
    }

    pub fn next(self) -> (next: RegionAtlasLayer)
        ensures
            next == self.successor(),
    {
        match self {
            RegionAtlasLayer::Elevation => RegionAtlasLayer::Landforms,
            RegionAtlasLayer::Landforms => RegionAtlasLayer::Capacity,
            RegionAtlasLayer::Capacity => RegionAtlasLayer::Elevation,
        }
    }
}

/// The cutaway after `current`: none, then the four sides from north
/// clockwise, then the roof, then none again.
pub open spec fn cutaway_successor(current: Option<CutawayDirection>) -> Option<CutawayDirection> {
    match current {
        None => Some(CutawayDirection::North),
        Some(CutawayDirection::North) => Some(CutawayDirection::East),
        Some(CutawayDirection::East) => Some(CutawayDirection::South),
        Some(CutawayDirection::South) => Some(CutawayDirection::West),
        Some(CutawayDirection::West) => Some(CutawayDirection::Roof),
        Some(CutawayDirection::Roof) => None,
    }
}

pub fn next_cutaway(current: Option<CutawayDirection>) -> (next: Option<CutawayDirection>)
    ensures
        next == cutaway_successor(current),
{
    match current {
        None => Some(CutawayDirection::North),
        Some(CutawayDirection::North) => Some(CutawayDirection::East),
        Some(CutawayDirection::East) => Some(CutawayDirection::South),
        Some(CutawayDirection::South) => Some(CutawayDirection::West),
        Some(CutawayDirection::West) => Some(CutawayDirection::Roof),
        Some(CutawayDirection::Roof) => None,
    }
}

/// Stepping the cutaway six times comes back to where it started, and no
/// fewer steps do.
pub proof fn lemma_cutaway_cycle(current: Option<CutawayDirection>)
    ensures
        cutaway_successor(cutaway_successor(cutaway_successor(cutaway_successor(cutaway_successor(
            cutaway_successor(current),
        ))))) == current,
        cutaway_successor(current) != current,
        cutaway_successor(cutaway_successor(current)) != current,
        cutaway_successor(cutaway_successor(cutaway_successor(current))) != current,
        cutaway_successor(cutaway_successor(cutaway_successor(cutaway_successor(current))))
            != current,
        cutaway_successor(cutaway_successor(cutaway_successor(cutaway_successor(cutaway_successor(
            current,
        ))))) != current,
{
}

/// Each viewer mode comes back to where it started after going once around
/// its cycle.
pub proof fn lemma_modes_cycle(
    display: DisplayMode,
    lod_mode: BuildingLodMode,
    lod: BuildingLod,
    camera: CameraMode,
    layer: AtlasLayer,
    region_layer: RegionAtlasLayer,
)
    ensures
        display.successor().successor().successor() == display,
        lod_mode.successor().successor().successor() == lod_mode,
        lod.successor().successor().successor() == lod,
        camera.successor().successor() == camera,
        layer.successor().successor().successor().successor().successor() == layer,
        region_layer.successor().successor().successor() == region_layer,
{
}

} // verus!
