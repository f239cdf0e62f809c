use world_prototype::blueprint::graph::{
    compile_structure, inaccessible_rooms, portal_edges, room_graph, CompileError,
};
use world_prototype::blueprint::delta::apply_delta;
use world_prototype::blueprint::impact::{impact_for_delta, PlanDelta};
use world_prototype::blueprint::plan::{
    BlueprintPlan, LevelGeometry, LevelPlan, OpeningPlan, RoofPlan, RoomPlan, SpaceRef, StairPlan,
    WallPlan,
};
use world_prototype::blueprint::validate::{validate_blueprint, BuildingError};
use world_prototype::building::{OpeningKind, RoofKind, RoomPurpose};

fn room(id: u128, purpose: RoomPurpose) -> RoomPlan {
    RoomPlan { id, purpose, footprint_valid: true }
}

fn level(id: u128, index: i16, rooms: Vec<RoomPlan>) -> LevelPlan {
    LevelPlan { id, index, geometry: LevelGeometry::Valid, rooms, overlapping_rooms: vec![] }
}

fn wall(id: u128, level_id: u128, left: Option<u128>, right: Option<u128>) -> WallPlan {
    WallPlan { id, level_id, left_room: left, right_room: right, geometry_valid: true }
}

fn opening(id: u128, wall_id: u128, kind: OpeningKind, from: SpaceRef, to: SpaceRef) -> OpeningPlan {
    OpeningPlan {
        id,
        wall_id,
        kind,
        from,
        to,
        geometry_valid: true,
        outside_wall: false,
        above_wall: false,
    }
}

/// One room on one level, a wall between it and outside, a door in that
/// wall, and a flat roof.
fn blueprint() -> BlueprintPlan {
    BlueprintPlan {
        id: 1,
        revision: 1,
        levels: vec![level(10, 0, vec![room(20, RoomPurpose::Entry)])],
        walls: vec![wall(30, 10, Some(20), None)],
        openings: vec![opening(40, 30, OpeningKind::Door, SpaceRef::Room(20), SpaceRef::Exterior)],
        stairs: vec![],
        roofs: vec![RoofPlan { id: 50, level_id: 10, kind: RoofKind::Flat, geometry_valid: true }],
        primary_entry: 40,
        overlapping_openings: vec![],
    }
}

#[test]
fn exterior_window_rebuilds_shell_but_not_massing() {
    let plan = BlueprintPlan {
        id: 10,
        revision: 1,
        levels: vec![level(2, 0, vec![room(3, RoomPurpose::Entry)])],
        walls: vec![wall(1, 2, Some(3), None)],
        openings: vec![opening(4, 1, OpeningKind::Door, SpaceRef::Room(3), SpaceRef::Exterior)],
        stairs: vec![],
        roofs: vec![],
        primary_entry: 4,
        overlapping_openings: vec![],
    };
    let delta = PlanDelta::AddOpening(opening(
        5,
        1,
        OpeningKind::Window,
        SpaceRef::Room(3),
        SpaceRef::Exterior,
    ));
    let dirty = impact_for_delta(&plan, &delta).expect("impact");
    assert!(dirty.rebuild_exterior_shell);
    assert!(dirty.rebuild_cutaway_groups);
    assert!(dirty.rebuild_hlod);
    assert!(!dirty.rebuild_massing);
    assert!(!dirty.rebuild_navigation);
    assert!(!dirty.rebuild_collision);
}

#[test]
fn inaccessible_room_is_rejected() {
    let mut invalid = blueprint();
    invalid.levels[0].rooms.push(room(21, RoomPurpose::Storage));
    let error = compile_structure(&invalid).expect_err("inaccessible room");
    match error {
        CompileError::Validation(report) => {
            assert!(report.errors.contains(&BuildingError::InaccessibleRoom(21)))
        }
        CompileError::EmptyBuilding => panic!("unexpected empty building"),
    }
}

#[test]
fn valid_blueprint_compiles_with_its_room_graph() {
    let compiled = compile_structure(&blueprint()).expect("compile");
    assert!(compiled.room_graph.exterior_entries.contains(&20));
    assert_eq!(compiled.room_graph.adjacency.len(), 1);
    assert!(compiled.room_graph.adjacency[&20].is_empty());
    assert_eq!(compiled.portal_edges.len(), 1);
    assert_eq!(compiled.portal_edges[0].opening_id, 40);
    assert!(compiled.portal_edges[0].traversable);
}

#[test]
fn blueprint_without_extent_is_empty() {
    let plan = BlueprintPlan {
        id: 1,
        revision: 1,
        levels: vec![level(10, 0, vec![])],
        walls: vec![],
        openings: vec![],
        stairs: vec![],
        roofs: vec![],
        primary_entry: 40,
        overlapping_openings: vec![],
    };
    // The missing primary entry is found first.
    match compile_structure(&plan) {
        Err(CompileError::Validation(report)) => {
            assert_eq!(report.errors, vec![BuildingError::PrimaryEntryMissing(40)])
        }
        other => panic!("unexpected result {other:?}"),
    }
}

#[test]
fn validation_errors_come_in_section_order() {
    let mut plan = blueprint();
    plan.levels.push(level(10, 0, vec![room(20, RoomPurpose::Living)]));
    plan.walls.push(wall(31, 99, None, None));
    plan.openings.push(opening(41, 77, OpeningKind::Window, SpaceRef::Exterior, SpaceRef::Exterior));
    plan.roofs.push(RoofPlan { id: 50, level_id: 98, kind: RoofKind::GableX, geometry_valid: false });
    let report = validate_blueprint(&plan).expect_err("invalid");
    assert_eq!(
        report.errors,
        vec![
            BuildingError::DuplicateLevel(10),
            BuildingError::DuplicateLevelIndex(0),
            BuildingError::DuplicateRoom(20),
            BuildingError::WallUnknownLevel(31),
            BuildingError::WallWithoutRoom(31),
            BuildingError::OpeningUnknownWall(41),
            BuildingError::DuplicateRoof(50),
            BuildingError::RoofUnknownLevel(50),
            BuildingError::InvalidRoofGeometry(50),
        ]
    );
}

#[test]
fn valid_blueprint_validates() {
    assert!(validate_blueprint(&blueprint()).is_ok());
}

#[test]
fn window_is_not_a_way_in() {
    let mut plan = blueprint();
    plan.openings[0].kind = OpeningKind::Window;
    let graph = room_graph(&plan);
    assert!(graph.exterior_entries.is_empty());
    assert_eq!(inaccessible_rooms(&graph), vec![20]);
}

#[test]
fn stair_joins_rooms_on_two_levels() {
    let mut plan = blueprint();
    plan.levels.push(level(11, 1, vec![room(22, RoomPurpose::Sleeping)]));
    plan.stairs.push(StairPlan {
        id: 60,
        from_level: 10,
        to_level: 11,
        from_room: 20,
        to_room: 22,
        geometry_valid: true,
    });
    let graph = room_graph(&plan);
    assert!(graph.adjacency[&20].contains(&22));
    assert!(graph.adjacency[&22].contains(&20));
    assert!(inaccessible_rooms(&graph).is_empty());
    assert!(compile_structure(&plan).is_ok());
}

#[test]
fn portal_edges_come_in_identity_order() {
    let openings = vec![
        opening(9, 30, OpeningKind::Window, SpaceRef::Room(20), SpaceRef::Exterior),
        opening(3, 30, OpeningKind::Passage, SpaceRef::Room(20), SpaceRef::Room(21)),
        opening(5, 30, OpeningKind::Door, SpaceRef::Exterior, SpaceRef::Room(20)),
    ];
    let edges = portal_edges(&openings);
    let ids: Vec<u128> = edges.iter().map(|edge| edge.opening_id).collect();
    assert_eq!(ids, vec![3, 5, 9]);
    assert!(!edges[2].traversable);
    assert!(edges[0].traversable);
}

#[test]
fn delta_on_unknown_elements_is_refused() {
    let plan = blueprint();
    assert_eq!(
        impact_for_delta(&plan, &PlanDelta::RemoveOpening(99)).err(),
        Some(BuildingError::DeltaUnknownOpening(99))
    );
    assert_eq!(
        impact_for_delta(&plan, &PlanDelta::ReplaceWall(wall(77, 10, Some(20), None))).err(),
        Some(BuildingError::DeltaUnknownWall(77))
    );
    assert_eq!(
        impact_for_delta(
            &plan,
            &PlanDelta::ChangeRoomPurpose { room_id: 88, purpose: RoomPurpose::Retail }
        )
        .err(),
        Some(BuildingError::DeltaUnknownRoom(88))
    );
    let window = opening(45, 31, OpeningKind::Window, SpaceRef::Room(20), SpaceRef::Exterior);
    assert_eq!(
        impact_for_delta(&plan, &PlanDelta::AddOpening(window)).err(),
        Some(BuildingError::DeltaUnknownWall(31))
    );
}

#[test]
fn removing_a_door_rebuilds_navigation_and_collision() {
    let dirty = impact_for_delta(&blueprint(), &PlanDelta::RemoveOpening(40)).expect("impact");
    assert!(dirty.openings.contains(&40));
    assert!(dirty.walls.contains(&30));
    assert!(dirty.levels.contains(&10));
    assert!(dirty.rooms.contains(&20));
    assert!(dirty.rebuild_navigation);
    assert!(dirty.rebuild_collision);
    assert!(dirty.mesh_layers.structure);
    assert!(dirty.mesh_layers.exterior_shell);
    assert!(!dirty.rebuild_massing);
}

#[test]
fn replacing_a_wall_marks_both_versions_and_massing() {
    let replacement = wall(30, 10, Some(20), Some(21));
    let dirty = impact_for_delta(&blueprint(), &PlanDelta::ReplaceWall(replacement)).expect("impact");
    assert!(dirty.rooms.contains(&20));
    assert!(dirty.rooms.contains(&21));
    assert_eq!(dirty.walls.len(), 1);
    assert!(dirty.rebuild_massing);
    assert!(dirty.rebuild_collision);
    assert!(!dirty.mesh_layers.floor);
    assert!(!dirty.mesh_layers.roof);
}

#[test]
fn changing_room_purpose_rebuilds_navigation_only() {
    let delta = PlanDelta::ChangeRoomPurpose { room_id: 20, purpose: RoomPurpose::Retail };
    let dirty = impact_for_delta(&blueprint(), &delta).expect("impact");
    assert_eq!(dirty.rooms.len(), 1);
    assert!(dirty.levels.contains(&10));
    assert!(dirty.walls.is_empty());
    assert!(dirty.rebuild_navigation);
    assert!(!dirty.rebuild_collision);
    assert!(!dirty.rebuild_hlod);
}

#[test]
fn room_graph_is_order_independent() {
    let mut as_listed = blueprint();
    as_listed.levels[0].rooms.push(room(21, RoomPurpose::Storage));
    as_listed.walls.push(wall(31, 10, Some(20), Some(21)));
    as_listed
        .openings
        .push(opening(41, 31, OpeningKind::Passage, SpaceRef::Room(20), SpaceRef::Room(21)));
    let mut reordered = as_listed.clone();
    reordered.levels.reverse();
    reordered.levels[0].rooms.reverse();
    reordered.walls.reverse();
    reordered.openings.reverse();
    reordered.roofs.reverse();
    let first = compile_structure(&as_listed).expect("as listed");
    let second = compile_structure(&reordered).expect("reordered");
    assert_eq!(first.room_graph.adjacency, second.room_graph.adjacency);
    assert_eq!(first.room_graph.exterior_entries, second.room_graph.exterior_entries);
    assert_eq!(first.portal_edges, second.portal_edges);
}

#[test]
fn applying_a_window_advances_the_revision() {
    let plan = blueprint();
    let window = opening(45, 30, OpeningKind::Window, SpaceRef::Room(20), SpaceRef::Exterior);
    let updated = apply_delta(&plan, &PlanDelta::AddOpening(window)).expect("applies");
    assert_eq!(updated.revision, 2);
    assert_eq!(updated.openings.len(), 2);
    assert_eq!(updated.openings[1].id, 45);
}

#[test]
fn removing_the_primary_entry_is_refused() {
    let report = apply_delta(&blueprint(), &PlanDelta::RemoveOpening(40)).expect_err("primary");
    assert_eq!(report.errors, vec![BuildingError::InvalidPrimaryEntry(40)]);
    let unknown = apply_delta(&blueprint(), &PlanDelta::RemoveOpening(99)).expect_err("unknown");
    assert_eq!(unknown.errors, vec![BuildingError::DeltaUnknownOpening(99)]);
}

#[test]
fn changed_blueprint_must_validate() {
    let mut plan = blueprint();
    plan.revision = u64::MAX;
    let repurposed = apply_delta(
        &plan,
        &PlanDelta::ChangeRoomPurpose { room_id: 20, purpose: RoomPurpose::Retail },
    )
    .expect("applies");
    assert_eq!(repurposed.levels[0].rooms[0].purpose, RoomPurpose::Retail);
    assert_eq!(repurposed.revision, u64::MAX);
    let bare = wall(30, 10, None, None);
    let report = apply_delta(&plan, &PlanDelta::ReplaceWall(bare)).expect_err("invalid");
    assert_eq!(
        report.errors,
        vec![BuildingError::WallWithoutRoom(30), BuildingError::OpeningSpaceMismatch(40)]
    );
}
