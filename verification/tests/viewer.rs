use world_prototype::building::CutawayDirection;
use world_prototype::viewer::{
    next_cutaway, AtlasLayer, BuildingLod, BuildingLodMode, CameraMode, DisplayMode,
    RegionAtlasLayer,
};

#[test]
fn cutaway_steps_through_sides_then_roof_then_none() {
    let mut seen = Vec::new();
    let mut current = None;
    for _ in 0..6 {
        current = next_cutaway(current);
        seen.push(current);
    }
    assert_eq!(
        seen,
        vec![
            Some(CutawayDirection::North),
            Some(CutawayDirection::East),
            Some(CutawayDirection::South),
            Some(CutawayDirection::West),
            Some(CutawayDirection::Roof),
            None,
        ]
    );
}

#[test]
fn display_modes_cycle() {
    assert_eq!(DisplayMode::Full.next(), DisplayMode::ExteriorShell);
    assert_eq!(DisplayMode::ExteriorShell.next(), DisplayMode::Massing);
    assert_eq!(DisplayMode::Massing.next(), DisplayMode::Full);
    assert_eq!(BuildingLodMode::Massing.next().next(), BuildingLodMode::ExteriorShell);
    assert_eq!(BuildingLod::Shell.next(), BuildingLod::Massing);
    assert_eq!(BuildingLod::Full.next().next().next(), BuildingLod::Full);
    assert_eq!(CameraMode::Overview.next(), CameraMode::FollowRoute);
    assert_eq!(CameraMode::FollowRoute.next(), CameraMode::Overview);
}

#[test]
fn atlas_layers_cycle() {
    let mut layer = AtlasLayer::Elevation;
    let mut order = vec![layer];
    for _ in 0..5 {
        layer = layer.next();
        order.push(layer);
    }
    assert_eq!(
        order,
        vec![
            AtlasLayer::Elevation,
            AtlasLayer::Landforms,
            AtlasLayer::Climate,
            AtlasLayer::Resources,
            AtlasLayer::History,
            AtlasLayer::Elevation,
        ]
    );
    assert_eq!(RegionAtlasLayer::Landforms.next(), RegionAtlasLayer::Capacity);
    assert_eq!(RegionAtlasLayer::Capacity.next(), RegionAtlasLayer::Elevation);
}
