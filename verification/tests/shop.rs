use world_prototype::blueprint::graph::compile_structure;
use world_prototype::blueprint::impact::{impact_for_delta, PlanDelta};
use world_prototype::blueprint::plan::{
    BlueprintPlan, LevelGeometry, LevelPlan, OpeningPlan, RoofPlan, RoomPlan, SpaceRef, StairPlan,
    WallPlan,
};
use world_prototype::building::{OpeningKind, RoofKind, RoomPurpose};

fn level_walls(id_base: u128, level_id: u128, left: u128, right: u128) -> Vec<WallPlan> {
    let sides = [
        (Some(left), None),
        (Some(right), None),
        (Some(right), None),
        (Some(right), None),
        (Some(left), None),
        (Some(left), None),
        (Some(left), Some(right)),
    ];
    sides
        .iter()
        .enumerate()
        .map(|(offset, (left_room, right_room))| WallPlan {
            id: id_base + offset as u128,
            level_id,
            left_room: *left_room,
            right_room: *right_room,
            geometry_valid: true,
        })
        .collect()
}

fn opening(id: u128, wall_id: u128, kind: OpeningKind, from: SpaceRef, to: SpaceRef) -> OpeningPlan {
    OpeningPlan {
        id,
        wall_id,
        kind,
        from,
        to,
        geometry_valid: true,
        outside_wall: false,
        above_wall: false,
    }
}

fn room(id: u128, purpose: RoomPurpose) -> RoomPlan {
    RoomPlan { id, purpose, footprint_valid: true }
}

/// A shop with an entry and a sales room below, a landing and a bedroom
/// above, a stair between entry and landing, and a gabled roof.
fn two_storey_shop() -> BlueprintPlan {
    let (ground, upper) = (100, 101);
    let (entry_room, shop_room, upper_landing, upper_bedroom) = (200, 201, 202, 203);
    let ground_walls = level_walls(1_000, ground, entry_room, shop_room);
    let upper_walls = level_walls(2_000, upper, upper_landing, upper_bedroom);
    let mut walls = ground_walls.clone();
    walls.extend(upper_walls.clone());
    let openings = vec![
        opening(3_000, ground_walls[0].id, OpeningKind::Door, SpaceRef::Room(entry_room), SpaceRef::Exterior),
        opening(3_001, ground_walls[1].id, OpeningKind::Window, SpaceRef::Room(shop_room), SpaceRef::Exterior),
        opening(
            3_002,
            ground_walls[6].id,
            OpeningKind::Passage,
            SpaceRef::Room(entry_room),
            SpaceRef::Room(shop_room),
        ),
        opening(3_003, ground_walls[4].id, OpeningKind::Window, SpaceRef::Room(entry_room), SpaceRef::Exterior),
        opening(3_100, upper_walls[0].id, OpeningKind::Window, SpaceRef::Room(upper_landing), SpaceRef::Exterior),
        opening(3_101, upper_walls[1].id, OpeningKind::Window, SpaceRef::Room(upper_bedroom), SpaceRef::Exterior),
        opening(
            3_102,
            upper_walls[6].id,
            OpeningKind::Door,
            SpaceRef::Room(upper_landing),
            SpaceRef::Room(upper_bedroom),
        ),
    ];
    BlueprintPlan {
        id: 1,
        revision: 1,
        levels: vec![
            LevelPlan {
                id: ground,
                index: 0,
                geometry: LevelGeometry::Valid,
                rooms: vec![room(entry_room, RoomPurpose::Entry), room(shop_room, RoomPurpose::Retail)],
                overlapping_rooms: vec![],
            },
            LevelPlan {
                id: upper,
                index: 1,
                geometry: LevelGeometry::Valid,
                rooms: vec![
                    room(upper_landing, RoomPurpose::Circulation),
                    room(upper_bedroom, RoomPurpose::Sleeping),
                ],
                overlapping_rooms: vec![],
            },
        ],
        walls,
        openings,
        stairs: vec![StairPlan {
            id: 4_000,
            from_level: ground,
            to_level: upper,
            from_room: entry_room,
            to_room: upper_landing,
            geometry_valid: true,
        }],
        roofs: vec![RoofPlan { id: 5_000, level_id: upper, kind: RoofKind::GableX, geometry_valid: true }],
        primary_entry: 3_000,
        overlapping_openings: vec![],
    }
}

fn inaccessible_upper_floor() -> BlueprintPlan {
    let mut plan = two_storey_shop();
    plan.stairs.clear();
    plan
}

fn add_north_display_window_delta() -> PlanDelta {
    PlanDelta::AddOpening(opening(3_010, 1_004, OpeningKind::Window, SpaceRef::Room(200), SpaceRef::Exterior))
}

#[test]
fn scenario_compiles_and_is_reachable() {
    let compilation = compile_structure(&two_storey_shop()).expect("valid shop");
    assert_eq!(compilation.room_graph.adjacency.len(), 4);
    assert_eq!(compilation.room_graph.exterior_entries.len(), 1);
}

#[test]
fn invalid_variant_is_rejected_by_reachability() {
    assert!(compile_structure(&inaccessible_upper_floor()).is_err());
}

#[test]
fn display_window_has_local_incremental_impact() {
    let blueprint = two_storey_shop();
    let dirty = impact_for_delta(&blueprint, &add_north_display_window_delta()).expect("impact plan");
    assert_eq!(dirty.walls.len(), 1);
    assert_eq!(dirty.levels.len(), 1);
    assert!(dirty.rebuild_exterior_shell);
    assert!(!dirty.rebuild_massing);
}
