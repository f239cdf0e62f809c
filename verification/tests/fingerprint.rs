use world_prototype::blueprint::fingerprint::{
    semantic_fingerprint, BlueprintRecord, LevelRecord, OpeningRecord, RectBits, RoofRecord,
    RoomRecord, StairRecord, WallRecord,
};
use world_prototype::blueprint::plan::SpaceRef;
use world_prototype::building::{OpeningKind, RoofKind, RoomPurpose};

fn rect(min_x: f64, min_y: f64, max_x: f64, max_y: f64) -> RectBits {
    RectBits {
        min_x: min_x.to_bits(),
        min_y: min_y.to_bits(),
        max_x: max_x.to_bits(),
        max_y: max_y.to_bits(),
    }
}

fn blueprint() -> BlueprintRecord {
    BlueprintRecord {
        id: 1,
        style_id: 2,
        revision: 1,
        primary_entry: 40,
        levels: vec![LevelRecord {
            id: 10,
            index: 0,
            elevation: 0.0f64.to_bits(),
            height: 3.0f64.to_bits(),
            rooms: vec![RoomRecord { id: 20, purpose: RoomPurpose::Entry, footprint: rect(0.0, 0.0, 4.0, 4.0) }],
        }],
        walls: vec![WallRecord {
            id: 30,
            level_id: 10,
            start_x: 0.0f64.to_bits(),
            start_y: 0.0f64.to_bits(),
            end_x: 4.0f64.to_bits(),
            end_y: 0.0f64.to_bits(),
            thickness: 0.2f64.to_bits(),
            height: 3.0f64.to_bits(),
            left_room: Some(20),
            right_room: None,
        }],
        openings: vec![OpeningRecord {
            id: 40,
            wall_id: 30,
            kind: OpeningKind::Door,
            offset: 1.0f64.to_bits(),
            width: 1.0f64.to_bits(),
            sill: 0.0f64.to_bits(),
            height: 2.1f64.to_bits(),
            from: SpaceRef::Room(20),
            to: SpaceRef::Exterior,
        }],
        stairs: vec![],
        roofs: vec![RoofRecord {
            id: 50,
            level_id: 10,
            footprint: rect(0.0, 0.0, 4.0, 4.0),
            kind: RoofKind::Flat,
            base_elevation: 3.0f64.to_bits(),
            height: 0.3f64.to_bits(),
        }],
    }
}

#[test]
fn fingerprint_hashes_the_blueprint_fields() {
    assert_eq!(semantic_fingerprint(&blueprint()), 0xd727_bdbd_9eaf_1fdf);
}

#[test]
fn compilation_is_order_independent() {
    let as_listed = {
        let mut b = blueprint();
        b.levels.push(LevelRecord {
            id: 11,
            index: 1,
            elevation: 3.0f64.to_bits(),
            height: 3.0f64.to_bits(),
            rooms: vec![RoomRecord { id: 21, purpose: RoomPurpose::Sleeping, footprint: rect(0.0, 0.0, 4.0, 4.0) }],
        });
        b.walls.push(WallRecord { id: 31, level_id: 11, left_room: Some(21), ..b.walls[0] });
        b.openings.push(OpeningRecord { id: 41, wall_id: 31, kind: OpeningKind::Window, ..b.openings[0] });
        b.stairs.push(StairRecord {
            id: 60,
            from_level: 10,
            to_level: 11,
            from_room: 20,
            to_room: 21,
            footprint: rect(1.0, 1.0, 2.0, 3.0),
            width: 1.0f64.to_bits(),
        });
        b.roofs.push(RoofRecord { id: 51, kind: RoofKind::GableZ, ..b.roofs[0] });
        b
    };
    let mut reordered = as_listed.clone();
    reordered.levels.reverse();
    reordered.walls.reverse();
    reordered.openings.reverse();
    reordered.roofs.reverse();
    assert_eq!(semantic_fingerprint(&as_listed), semantic_fingerprint(&reordered));
    let mut changed = as_listed.clone();
    changed.revision = 2;
    assert_ne!(semantic_fingerprint(&as_listed), semantic_fingerprint(&changed));
}

#[test]
fn rooms_within_a_level_are_taken_in_identity_order() {
    let mut first = blueprint();
    first.levels[0].rooms.push(RoomRecord { id: 19, purpose: RoomPurpose::Storage, footprint: rect(4.0, 0.0, 6.0, 4.0) });
    let mut second = first.clone();
    second.levels[0].rooms.reverse();
    assert_eq!(semantic_fingerprint(&first), semantic_fingerprint(&second));
}
