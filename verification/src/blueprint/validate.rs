//! Validation of a blueprint's structure. The errors come in a fixed order:
//! level by level (its identity, its index, its geometry, then its rooms and
//! the overlaps among them), then wall by wall, opening by opening, the
//! overlaps among openings, the primary entry, stair by stair and roof by
//! roof.

use super::plan::{
    find_level, find_opening, find_room_level, find_wall, lemma_find_opening_first, lemma_find_wall_first, level_by_id, opening_by_id,
    room_level_by_id, side_space, wall_by_id, BlueprintPlan, LevelGeometry, LevelPlan, LevelView,
    OpeningPlan, PlanView, RoofPlan, RoomPlan, SpaceRef, StairPlan, WallPlan,
};
use std::collections::BTreeSet;
use vstd::prelude::*;

verus! {

#[derive(Clone, Copy, Debug, PartialEq, Eq, Structural)]
pub enum BuildingError {
    DuplicateLevel(u128),
    NonFiniteLevel(u128),
    InvalidLevelHeight(u128),
    DuplicateLevelIndex(i16),
    DuplicateRoom(u128),
    InvalidRoomFootprint(u128),
    OverlappingRooms { left: u128, right: u128 },
    DuplicateWall(u128),
    WallUnknownLevel(u128),
    InvalidWallGeometry(u128),
    WallWithoutRoom(u128),
    WallUnknownRoom { wall_id: u128, room_id: u128 },
    WallRoomLevelMismatch { wall_id: u128, room_id: u128 },
    DuplicateOpening(u128),
    OpeningUnknownWall(u128),
    InvalidOpeningGeometry(u128),
    OpeningOutsideWall(u128),
    OpeningAboveWall(u128),
    OpeningSpaceMismatch(u128),
    OverlappingOpenings { left: u128, right: u128 },
    PrimaryEntryMissing(u128),
    InvalidPrimaryEntry(u128),
    DuplicateStair(u128),
    StairUnknownEndpoint(u128),
    StairRoomLevelMismatch(u128),
    StairNonAdjacentLevels(u128),
    InvalidStairGeometry(u128),
    DuplicateRoof(u128),
    RoofUnknownLevel(u128),
    InvalidRoofGeometry(u128),
    InaccessibleRoom(u128),
    DeltaUnknownOpening(u128),
    DeltaUnknownWall(u128),
    DeltaUnknownRoom(u128),
}

/// Every error that a validation found, in order.
#[derive(Clone, Debug)]
pub struct ValidationReport {
    pub errors: Vec<BuildingError>,
}

impl ValidationReport {
    pub fn new(errors: Vec<BuildingError>) -> (report: Self)
        ensures
            report.errors@ == errors@,
    {
        ValidationReport { errors }
    }

    pub fn is_empty(&self) -> (empty: bool)
        ensures
            empty == (self.errors@.len() == 0),
    {
        self.errors.len() == 0
    }
}

/// One error where `condition` holds, none otherwise.
pub open spec fn error_if(condition: bool, error: BuildingError) -> Seq<BuildingError> {
    if condition {
        seq![error]
    } else {
        Seq::empty()
    }
}

// ---- Levels and rooms

/// The identities of the first `i` levels.
pub open spec fn level_ids_before(levels: Seq<LevelView>, i: nat) -> Set<u128>
    decreases i,
{
    if i == 0 || i > levels.len() {
        Set::empty()
    } else {
        level_ids_before(levels, (i - 1) as nat).insert(levels[i - 1].id)
    }
}

/// The indices of the first `i` levels.
pub open spec fn level_indices_before(levels: Seq<LevelView>, i: nat) -> Set<i16>
    decreases i,
{
    if i == 0 || i > levels.len() {
        Set::empty()
    } else {
        level_indices_before(levels, (i - 1) as nat).insert(levels[i - 1].index)
    }
}

/// The identities of the first `j` rooms of a level.
pub open spec fn room_ids_in(rooms: Seq<RoomPlan>, j: nat) -> Set<u128>
    decreases j,
{
    if j == 0 || j > rooms.len() {
        Set::empty()
    } else {
        room_ids_in(rooms, (j - 1) as nat).insert(rooms[j - 1].id)
    }
}

/// The identities of the rooms of the first `i` levels.
pub open spec fn room_ids_before(levels: Seq<LevelView>, i: nat) -> Set<u128>
    decreases i,
{
    if i == 0 || i > levels.len() {
        Set::empty()
    } else {
        room_ids_before(levels, (i - 1) as nat).union(
            room_ids_in(levels[i - 1].rooms, levels[i - 1].rooms.len()),
        )
    }
}

/// The errors of the first `j` rooms of level `i`: a repeated identity, an
/// invalid footprint.
pub open spec fn room_errors(levels: Seq<LevelView>, i: int, j: nat) -> Seq<BuildingError>
    decreases j,
{
    let rooms = levels[i].rooms;
    if j == 0 || j > rooms.len() {
        Seq::empty()
    } else {
        let room = rooms[j - 1];
        let seen = room_ids_before(levels, i as nat).union(room_ids_in(rooms, (j - 1) as nat));
        room_errors(levels, i, (j - 1) as nat) + error_if(
            seen.contains(room.id),
            BuildingError::DuplicateRoom(room.id),
        ) + error_if(!room.footprint_valid, BuildingError::InvalidRoomFootprint(room.id))
    }
}

pub open spec fn level_geometry_errors(level: LevelView) -> Seq<BuildingError> {
    match level.geometry {
        LevelGeometry::Valid => Seq::empty(),
        LevelGeometry::NonFinite => seq![BuildingError::NonFiniteLevel(level.id)],
        LevelGeometry::NotPositive => seq![BuildingError::InvalidLevelHeight(level.id)],
    }
}

pub open spec fn room_overlap_errors(pairs: Seq<(u128, u128)>) -> Seq<BuildingError> {
    pairs.map_values(|p: (u128, u128)| BuildingError::OverlappingRooms { left: p.0, right: p.1 })
}

/// The errors of level `i`, in order.
pub open spec fn level_errors(levels: Seq<LevelView>, i: int) -> Seq<BuildingError> {
    let level = levels[i];
    error_if(level_ids_before(levels, i as nat).contains(level.id), BuildingError::DuplicateLevel(level.id))
        + error_if(
        level_indices_before(levels, i as nat).contains(level.index),
        BuildingError::DuplicateLevelIndex(level.index),
    ) + level_geometry_errors(level) + room_errors(levels, i, level.rooms.len())
        + room_overlap_errors(level.overlapping_rooms)
}

/// The errors of the first `n` levels.
pub open spec fn levels_errors(levels: Seq<LevelView>, n: nat) -> Seq<BuildingError>
    decreases n,
{
    if n == 0 || n > levels.len() {
        Seq::empty()
    } else {
        levels_errors(levels, (n - 1) as nat) + level_errors(levels, n - 1)
    }
}

// ---- Walls

/// The identities of the first `k` walls.
pub open spec fn wall_ids_before(walls: Seq<WallPlan>, k: nat) -> Set<u128>
    decreases k,
{
    if k == 0 || k > walls.len() {
        Set::empty()
    } else {
        wall_ids_before(walls, (k - 1) as nat).insert(walls[k - 1].id)
    }
}

/// The error of one side of a wall: an unknown room, or one on another level.
pub open spec fn wall_room_errors(levels: Seq<LevelView>, wall: WallPlan, room: Option<u128>) -> Seq<
    BuildingError,
> {
    match room {
        None => Seq::empty(),
        Some(room_id) => match find_room_level(levels, room_id, levels.len()) {
            None => seq![BuildingError::WallUnknownRoom { wall_id: wall.id, room_id }],
            Some(level_id) => error_if(
                level_id != wall.level_id,
                BuildingError::WallRoomLevelMismatch { wall_id: wall.id, room_id },
            ),
        },
    }
}

/// The errors of wall `k`, in order.
pub open spec fn wall_errors(levels: Seq<LevelView>, walls: Seq<WallPlan>, k: int) -> Seq<BuildingError> {
    let wall = walls[k];
    error_if(wall_ids_before(walls, k as nat).contains(wall.id), BuildingError::DuplicateWall(wall.id))
        + error_if(
        find_level(levels, wall.level_id, levels.len()) is None,
        BuildingError::WallUnknownLevel(wall.id),
    ) + error_if(!wall.geometry_valid, BuildingError::InvalidWallGeometry(wall.id)) + error_if(
        wall.left_room is None && wall.right_room is None,
        BuildingError::WallWithoutRoom(wall.id),
    ) + wall_room_errors(levels, wall, wall.left_room) + wall_room_errors(levels, wall, wall.right_room)
}

/// The errors of the first `n` walls.
pub open spec fn walls_errors(levels: Seq<LevelView>, walls: Seq<WallPlan>, n: nat) -> Seq<BuildingError>
    decreases n,
{
    if n == 0 || n > walls.len() {
        Seq::empty()
    } else {
        walls_errors(levels, walls, (n - 1) as nat) + wall_errors(levels, walls, n - 1)
    }
}

// ---- Openings and the primary entry

/// The identities of the first `k` openings.
pub open spec fn opening_ids_before(openings: Seq<OpeningPlan>, k: nat) -> Set<u128>
    decreases k,
{
    if k == 0 || k > openings.len() {
        Set::empty()
    } else {
        opening_ids_before(openings, (k - 1) as nat).insert(openings[k - 1].id)
    }
}

/// Whether an opening joins the two spaces that its wall separates, in
/// either order.
pub open spec fn joins_wall_spaces(wall: WallPlan, opening: OpeningPlan) -> bool {
    let left = side_space(wall.left_room);
    let right = side_space(wall.right_room);
    (left == opening.from && right == opening.to) || (left == opening.to && right == opening.from)
}

/// The errors of opening `k`, in order; an opening on an unknown wall has
/// no further errors.
pub open spec fn opening_errors(walls: Seq<WallPlan>, openings: Seq<OpeningPlan>, k: int) -> Seq<
    BuildingError,
> {
    let opening = openings[k];
    error_if(
        opening_ids_before(openings, k as nat).contains(opening.id),
        BuildingError::DuplicateOpening(opening.id),
    ) + match find_wall(walls, opening.wall_id, walls.len()) {
        None => seq![BuildingError::OpeningUnknownWall(opening.id)],
        Some(wall) => error_if(!opening.geometry_valid, BuildingError::InvalidOpeningGeometry(opening.id))
            + error_if(opening.outside_wall, BuildingError::OpeningOutsideWall(opening.id)) + error_if(
            opening.above_wall,
            BuildingError::OpeningAboveWall(opening.id),
        ) + error_if(!joins_wall_spaces(wall, opening), BuildingError::OpeningSpaceMismatch(opening.id)),
    }
}

/// The errors of the first `n` openings.
pub open spec fn openings_errors(walls: Seq<WallPlan>, openings: Seq<OpeningPlan>, n: nat) -> Seq<BuildingError>
    decreases n,
{
    if n == 0 || n > openings.len() {
        Seq::empty()
    } else {
        openings_errors(walls, openings, (n - 1) as nat) + opening_errors(walls, openings, n - 1)
    }
}

pub open spec fn opening_overlap_errors(pairs: Seq<(u128, u128)>) -> Seq<BuildingError> {
    pairs.map_values(|p: (u128, u128)| BuildingError::OverlappingOpenings { left: p.0, right: p.1 })
}

/// The error of the primary entry: missing, or not a passable way in from outside.
pub open spec fn primary_entry_errors(openings: Seq<OpeningPlan>, primary: u128) -> Seq<BuildingError> {
    match find_opening(openings, primary, openings.len()) {
        None => seq![BuildingError::PrimaryEntryMissing(primary)],
        Some(entry) => error_if(
            !(entry.kind is Door || entry.kind is Passage) || (entry.from != SpaceRef::Exterior
                && entry.to != SpaceRef::Exterior),
            BuildingError::InvalidPrimaryEntry(entry.id),
        ),
    }
}

// ---- Stairs and roofs

pub open spec fn stair_ids_before(stairs: Seq<StairPlan>, k: nat) -> Set<u128>
    decreases k,
{
    if k == 0 || k > stairs.len() {
        Set::empty()
    } else {
        stair_ids_before(stairs, (k - 1) as nat).insert(stairs[k - 1].id)
    }
}

/// The errors of stair `k`, in order; a stair with an unknown endpoint has
/// no further errors.
pub open spec fn stair_errors(levels: Seq<LevelView>, stairs: Seq<StairPlan>, k: int) -> Seq<BuildingError> {
    let stair = stairs[k];
    let n = levels.len();
    error_if(stair_ids_before(stairs, k as nat).contains(stair.id), BuildingError::DuplicateStair(stair.id))
        + match (
        find_level(levels, stair.from_level, n),
        find_level(levels, stair.to_level, n),
        find_room_level(levels, stair.from_room, n),
        find_room_level(levels, stair.to_room, n),
    ) {
        (Some(from_level), Some(to_level), Some(from_room_level), Some(to_room_level)) => error_if(
            from_room_level != stair.from_level || to_room_level != stair.to_level,
            BuildingError::StairRoomLevelMismatch(stair.id),
        ) + error_if(
            from_level.index - to_level.index != 1 && to_level.index - from_level.index != 1,
            BuildingError::StairNonAdjacentLevels(stair.id),
        ) + error_if(!stair.geometry_valid, BuildingError::InvalidStairGeometry(stair.id)),
        _ => seq![BuildingError::StairUnknownEndpoint(stair.id)],
    }
}

pub open spec fn stairs_errors(levels: Seq<LevelView>, stairs: Seq<StairPlan>, n: nat) -> Seq<BuildingError>
    decreases n,
{
    if n == 0 || n > stairs.len() {
        Seq::empty()
    } else {
        stairs_errors(levels, stairs, (n - 1) as nat) + stair_errors(levels, stairs, n - 1)
    }
}

pub open spec fn roof_ids_before(roofs: Seq<RoofPlan>, k: nat) -> Set<u128>
    decreases k,
{
    if k == 0 || k > roofs.len() {
        Set::empty()
    } else {
        roof_ids_before(roofs, (k - 1) as nat).insert(roofs[k - 1].id)
    }
}

pub open spec fn roof_errors(levels: Seq<LevelView>, roofs: Seq<RoofPlan>, k: int) -> Seq<BuildingError> {
    let roof = roofs[k];
    error_if(roof_ids_before(roofs, k as nat).contains(roof.id), BuildingError::DuplicateRoof(roof.id))
        + error_if(
        find_level(levels, roof.level_id, levels.len()) is None,
        BuildingError::RoofUnknownLevel(roof.id),
    ) + error_if(!roof.geometry_valid, BuildingError::InvalidRoofGeometry(roof.id))
}

pub open spec fn roofs_errors(levels: Seq<LevelView>, roofs: Seq<RoofPlan>, n: nat) -> Seq<BuildingError>
    decreases n,
{
    if n == 0 || n > roofs.len() {
        Seq::empty()
    } else {
        roofs_errors(levels, roofs, (n - 1) as nat) + roof_errors(levels, roofs, n - 1)
    }
}

/// Every error of a blueprint, in order.
pub open spec fn blueprint_errors(plan: PlanView) -> Seq<BuildingError> {
    levels_errors(plan.levels, plan.levels.len()) + walls_errors(plan.levels, plan.walls, plan.walls.len())
        + openings_errors(plan.walls, plan.openings, plan.openings.len()) + opening_overlap_errors(
        plan.overlapping_openings,
    ) + primary_entry_errors(plan.openings, plan.primary_entry) + stairs_errors(
        plan.levels,
        plan.stairs,
        plan.stairs.len(),
    ) + roofs_errors(plan.levels, plan.roofs, plan.roofs.len())
}

// ---- Executable checks

fn push_if(errors: &mut Vec<BuildingError>, condition: bool, error: BuildingError)
    ensures
        final(errors)@ == old(errors)@ + error_if(condition, error),
{
    if condition {
        errors.push(error);
    }
    assert(final(errors)@ =~= old(errors)@ + error_if(condition, error));
}

fn push_pairs(errors: &mut Vec<BuildingError>, pairs: &Vec<(u128, u128)>, rooms: bool)
    ensures
        final(errors)@ == old(errors)@ + if rooms {
            room_overlap_errors(pairs@)
        } else {
            opening_overlap_errors(pairs@)
        },
{
    let ghost start = errors@;
    let ghost target = if rooms {
        room_overlap_errors(pairs@)
    } else {
        opening_overlap_errors(pairs@)
    };
    let mut k: usize = 0;
    while k < pairs.len()
        invariant
            k <= pairs.len(),
            target == if rooms {
                room_overlap_errors(pairs@)
            } else {
                opening_overlap_errors(pairs@)
            },
            errors@ == start + target.take(k as int),
        decreases pairs.len() - k,
    {
        let (left, right) = pairs[k];
        let error = if rooms {
            BuildingError::OverlappingRooms { left, right }
        } else {
            BuildingError::OverlappingOpenings { left, right }
        };
        errors.push(error);
        assert(target.take(k + 1) =~= target.take(k as int).push(error));
        k = k + 1;
    }
    assert(target.take(pairs.len() as int) =~= target);
}

fn check_rooms(
    levels: &Vec<LevelPlan>,
    i: usize,
    room_ids: &mut BTreeSet<u128>,
    errors: &mut Vec<BuildingError>,
)
    requires
        i < levels.len(),
        old(room_ids)@ == room_ids_before(levels@.map_values(|l: LevelPlan| l@), i as nat),
    ensures
        final(room_ids)@ == room_ids_before(levels@.map_values(|l: LevelPlan| l@), (i + 1) as nat),
        final(errors)@ == old(errors)@ + room_errors(
            levels@.map_values(|l: LevelPlan| l@),
            i as int,
            levels@[i as int].rooms@.len(),
        ),
{
    let ghost all = levels@.map_values(|l: LevelPlan| l@);
    let ghost head = errors@;
    let ghost rooms_before = room_ids@;
    let rooms = &levels[i].rooms;
    assert(rooms@ == all[i as int].rooms);
    let mut j: usize = 0;
    while j < rooms.len()
        invariant
            j <= rooms.len(),
            i < levels.len(),
            all == levels@.map_values(|l: LevelPlan| l@),
            rooms@ == all[i as int].rooms,
            rooms_before == room_ids_before(all, i as nat),
            room_ids@ == rooms_before.union(room_ids_in(rooms@, j as nat)),
            errors@ == head + room_errors(all, i as int, j as nat),
        decreases rooms.len() - j,
    {
        let room = rooms[j];
        let fresh_room = room_ids.insert(room.id);
        push_if(errors, !fresh_room, BuildingError::DuplicateRoom(room.id));
        push_if(errors, !room.footprint_valid, BuildingError::InvalidRoomFootprint(room.id));
        proof {
            assert(room_ids@ =~= rooms_before.union(room_ids_in(rooms@, (j + 1) as nat)));
            assert(errors@ =~= head + room_errors(all, i as int, (j + 1) as nat));
        }
        j = j + 1;
    }
    assert(room_ids@ =~= room_ids_before(all, (i + 1) as nat));
}

fn check_level(
    levels: &Vec<LevelPlan>,
    i: usize,
    level_ids: &mut BTreeSet<u128>,
    level_indices: &mut BTreeSet<i16>,
    room_ids: &mut BTreeSet<u128>,
    errors: &mut Vec<BuildingError>,
)
    requires
        i < levels.len(),
        old(level_ids)@ == level_ids_before(levels@.map_values(|l: LevelPlan| l@), i as nat),
        old(level_indices)@ == level_indices_before(levels@.map_values(|l: LevelPlan| l@), i as nat),
        old(room_ids)@ == room_ids_before(levels@.map_values(|l: LevelPlan| l@), i as nat),
    ensures
        final(level_ids)@ == level_ids_before(levels@.map_values(|l: LevelPlan| l@), (i + 1) as nat),
        final(level_indices)@ == level_indices_before(
            levels@.map_values(|l: LevelPlan| l@),
            (i + 1) as nat,
        ),
        final(room_ids)@ == room_ids_before(levels@.map_values(|l: LevelPlan| l@), (i + 1) as nat),
        final(errors)@ == old(errors)@ + level_errors(levels@.map_values(|l: LevelPlan| l@), i as int),
{
    let ghost all = levels@.map_values(|l: LevelPlan| l@);
    let ghost before = errors@;
    let level = &levels[i];
    assert(level@ == all[i as int]);
    let fresh_id = level_ids.insert(level.id);
    push_if(errors, !fresh_id, BuildingError::DuplicateLevel(level.id));
    let fresh_index = level_indices.insert(level.index);
    push_if(errors, !fresh_index, BuildingError::DuplicateLevelIndex(level.index));
    match level.geometry {
        LevelGeometry::Valid => {},
        LevelGeometry::NonFinite => errors.push(BuildingError::NonFiniteLevel(level.id)),
        LevelGeometry::NotPositive => errors.push(BuildingError::InvalidLevelHeight(level.id)),
    }
    let ghost head = errors@;
    check_rooms(levels, i, room_ids, errors);
    push_pairs(errors, &level.overlapping_rooms, true);
    proof {
        assert(level_ids@ =~= level_ids_before(all, (i + 1) as nat));
        assert(level_indices@ =~= level_indices_before(all, (i + 1) as nat));
        assert(errors@ =~= before + level_errors(all, i as int));
    }
}

fn check_levels(levels: &Vec<LevelPlan>, errors: &mut Vec<BuildingError>)
    ensures
        final(errors)@ == old(errors)@ + levels_errors(
            levels@.map_values(|l: LevelPlan| l@),
            levels.len() as nat,
        ),
{
    let ghost all = levels@.map_values(|l: LevelPlan| l@);
    let ghost start = errors@;
    let mut level_ids: BTreeSet<u128> = BTreeSet::new();
    let mut level_indices: BTreeSet<i16> = BTreeSet::new();
    let mut room_ids: BTreeSet<u128> = BTreeSet::new();
    proof {
        assert(level_ids@ =~= level_ids_before(all, 0));
        assert(level_indices@ =~= level_indices_before(all, 0));
        assert(room_ids@ =~= room_ids_before(all, 0));
        assert(errors@ =~= start + levels_errors(all, 0));
    }
    let mut i: usize = 0;
    while i < levels.len()
        invariant
            i <= levels.len(),
            all == levels@.map_values(|l: LevelPlan| l@),
            level_ids@ == level_ids_before(all, i as nat),
            level_indices@ == level_indices_before(all, i as nat),
            room_ids@ == room_ids_before(all, i as nat),
            errors@ == start + levels_errors(all, i as nat),
        decreases levels.len() - i,
    {
        check_level(levels, i, &mut level_ids, &mut level_indices, &mut room_ids, errors);
        assert(errors@ =~= start + levels_errors(all, (i + 1) as nat));
        i = i + 1;
    }
}


fn check_wall_room(
    levels: &Vec<LevelPlan>,
    wall: &WallPlan,
    room: Option<u128>,
    errors: &mut Vec<BuildingError>,
)
    ensures
        final(errors)@ == old(errors)@ + wall_room_errors(
            levels@.map_values(|l: LevelPlan| l@),
            *wall,
            room,
        ),
{
    match room {
        None => {},
        Some(room_id) => match room_level_by_id(levels, room_id) {
            None => errors.push(BuildingError::WallUnknownRoom { wall_id: wall.id, room_id }),
            Some(level_id) => push_if(
                errors,
                level_id != wall.level_id,
                BuildingError::WallRoomLevelMismatch { wall_id: wall.id, room_id },
            ),
        },
    }
    assert(final(errors)@ =~= old(errors)@ + wall_room_errors(
        levels@.map_values(|l: LevelPlan| l@),
        *wall,
        room,
    ));
}

fn check_wall(
    levels: &Vec<LevelPlan>,
    walls: &Vec<WallPlan>,
    k: usize,
    wall_ids: &mut BTreeSet<u128>,
    errors: &mut Vec<BuildingError>,
)
    requires
        k < walls.len(),
        old(wall_ids)@ == wall_ids_before(walls@, k as nat),
    ensures
        final(wall_ids)@ == wall_ids_before(walls@, (k + 1) as nat),
        final(errors)@ == old(errors)@ + wall_errors(
            levels@.map_values(|l: LevelPlan| l@),
            walls@,
            k as int,
        ),
{
    let ghost all = levels@.map_values(|l: LevelPlan| l@);
    let ghost before = errors@;
    let wall = walls[k];
    let fresh = wall_ids.insert(wall.id);
    let known_level = level_by_id(levels, wall.level_id);
    let mut own: Vec<BuildingError> = Vec::new();
    push_if(&mut own, !fresh, BuildingError::DuplicateWall(wall.id));
    push_if(&mut own, known_level.is_none(), BuildingError::WallUnknownLevel(wall.id));
    push_if(&mut own, !wall.geometry_valid, BuildingError::InvalidWallGeometry(wall.id));
    push_if(
        &mut own,
        wall.left_room.is_none() && wall.right_room.is_none(),
        BuildingError::WallWithoutRoom(wall.id),
    );
    let ghost head = own@;
    check_wall_room(levels, &wall, wall.left_room, &mut own);
    check_wall_room(levels, &wall, wall.right_room, &mut own);
    proof {
        assert(wall_ids@ =~= wall_ids_before(walls@, (k + 1) as nat));
        let w = walls@[k as int];
        assert(head == error_if(wall_ids_before(walls@, k as nat).contains(w.id), BuildingError::DuplicateWall(w.id))
            + error_if(find_level(all, w.level_id, all.len()) is None, BuildingError::WallUnknownLevel(w.id))
            + error_if(!w.geometry_valid, BuildingError::InvalidWallGeometry(w.id))
            + error_if(w.left_room is None && w.right_room is None, BuildingError::WallWithoutRoom(w.id)));
        assert(own@ =~= wall_errors(all, walls@, k as int));
    }
    errors.append(&mut own);
}

fn check_walls(levels: &Vec<LevelPlan>, walls: &Vec<WallPlan>, errors: &mut Vec<BuildingError>)
    ensures
        final(errors)@ == old(errors)@ + walls_errors(
            levels@.map_values(|l: LevelPlan| l@),
            walls@,
            walls.len() as nat,
        ),
{
    let ghost all = levels@.map_values(|l: LevelPlan| l@);
    let ghost start = errors@;
    let mut wall_ids: BTreeSet<u128> = BTreeSet::new();
    assert(wall_ids@ =~= wall_ids_before(walls@, 0));
    assert(errors@ =~= start + walls_errors(all, walls@, 0));
    let mut k: usize = 0;
    while k < walls.len()
        invariant
            k <= walls.len(),
            all == levels@.map_values(|l: LevelPlan| l@),
            wall_ids@ == wall_ids_before(walls@, k as nat),
            errors@ == start + walls_errors(all, walls@, k as nat),
        decreases walls.len() - k,
    {
        check_wall(levels, walls, k, &mut wall_ids, errors);
        assert(errors@ =~= start + walls_errors(all, walls@, (k + 1) as nat));
        k = k + 1;
    }
}

fn check_opening(
    walls: &Vec<WallPlan>,
    openings: &Vec<OpeningPlan>,
    k: usize,
    opening_ids: &mut BTreeSet<u128>,
    errors: &mut Vec<BuildingError>,
)
    requires
        k < openings.len(),
        old(opening_ids)@ == opening_ids_before(openings@, k as nat),
    ensures
        final(opening_ids)@ == opening_ids_before(openings@, (k + 1) as nat),
        final(errors)@ == old(errors)@ + opening_errors(walls@, openings@, k as int),
{
    let ghost before = errors@;
    let opening = openings[k];
    let fresh = opening_ids.insert(opening.id);
    push_if(errors, !fresh, BuildingError::DuplicateOpening(opening.id));
    let ghost head = errors@;
    match wall_by_id(walls, opening.wall_id) {
        None => {
            errors.push(BuildingError::OpeningUnknownWall(opening.id));
        },
        Some(wall) => {
            push_if(errors, !opening.geometry_valid, BuildingError::InvalidOpeningGeometry(opening.id));
            push_if(errors, opening.outside_wall, BuildingError::OpeningOutsideWall(opening.id));
            push_if(errors, opening.above_wall, BuildingError::OpeningAboveWall(opening.id));
            let (left, right) = wall.spaces();
            let joins = (left == opening.from && right == opening.to) || (left == opening.to && right
                == opening.from);
            push_if(errors, !joins, BuildingError::OpeningSpaceMismatch(opening.id));
        },
    }
    assert(opening_ids@ =~= opening_ids_before(openings@, (k + 1) as nat));
    assert(errors@ =~= before + opening_errors(walls@, openings@, k as int));
}

fn check_openings(walls: &Vec<WallPlan>, openings: &Vec<OpeningPlan>, errors: &mut Vec<BuildingError>)
    ensures
        final(errors)@ == old(errors)@ + openings_errors(walls@, openings@, openings.len() as nat),
{
    let ghost start = errors@;
    let mut opening_ids: BTreeSet<u128> = BTreeSet::new();
    assert(opening_ids@ =~= opening_ids_before(openings@, 0));
    assert(errors@ =~= start + openings_errors(walls@, openings@, 0));
    let mut k: usize = 0;
    while k < openings.len()
        invariant
            k <= openings.len(),
            opening_ids@ == opening_ids_before(openings@, k as nat),
            errors@ == start + openings_errors(walls@, openings@, k as nat),
        decreases openings.len() - k,
    {
        check_opening(walls, openings, k, &mut opening_ids, errors);
        assert(errors@ =~= start + openings_errors(walls@, openings@, (k + 1) as nat));
        k = k + 1;
    }
}

fn check_primary_entry(openings: &Vec<OpeningPlan>, primary: u128, errors: &mut Vec<BuildingError>)
    ensures
        final(errors)@ == old(errors)@ + primary_entry_errors(openings@, primary),
{
    match opening_by_id(openings, primary) {
        None => errors.push(BuildingError::PrimaryEntryMissing(primary)),
        Some(entry) => {
            let from_outside = match entry.from {
                SpaceRef::Exterior => true,
                SpaceRef::Room(_) => false,
            };
            let to_outside = match entry.to {
                SpaceRef::Exterior => true,
                SpaceRef::Room(_) => false,
            };
            push_if(
                errors,
                !entry.is_traversable() || (!from_outside && !to_outside),
                BuildingError::InvalidPrimaryEntry(entry.id),
            );
        },
    }
    assert(final(errors)@ =~= old(errors)@ + primary_entry_errors(openings@, primary));
}

fn check_stair(
    levels: &Vec<LevelPlan>,
    stairs: &Vec<StairPlan>,
    k: usize,
    stair_ids: &mut BTreeSet<u128>,
    errors: &mut Vec<BuildingError>,
)
    requires
        k < stairs.len(),
        old(stair_ids)@ == stair_ids_before(stairs@, k as nat),
    ensures
        final(stair_ids)@ == stair_ids_before(stairs@, (k + 1) as nat),
        final(errors)@ == old(errors)@ + stair_errors(
            levels@.map_values(|l: LevelPlan| l@),
            stairs@,
            k as int,
        ),
{
    let ghost all = levels@.map_values(|l: LevelPlan| l@);
    let ghost before = errors@;
    let stair = stairs[k];
    let fresh = stair_ids.insert(stair.id);
    push_if(errors, !fresh, BuildingError::DuplicateStair(stair.id));
    let from_level = level_by_id(levels, stair.from_level);
    let to_level = level_by_id(levels, stair.to_level);
    let from_room_level = room_level_by_id(levels, stair.from_room);
    let to_room_level = room_level_by_id(levels, stair.to_room);
    match (from_level, to_level, from_room_level, to_room_level) {
        (Some(from_index), Some(to_index), Some(from_room_level), Some(to_room_level)) => {
            push_if(
                errors,
                from_room_level != stair.from_level || to_room_level != stair.to_level,
                BuildingError::StairRoomLevelMismatch(stair.id),
            );
            let difference = levels[from_index].index as i32 - levels[to_index].index as i32;
            push_if(
                errors,
                difference != 1 && difference != -1,
                BuildingError::StairNonAdjacentLevels(stair.id),
            );
            push_if(errors, !stair.geometry_valid, BuildingError::InvalidStairGeometry(stair.id));
        },
        _ => {
            errors.push(BuildingError::StairUnknownEndpoint(stair.id));
        },
    }
    assert(stair_ids@ =~= stair_ids_before(stairs@, (k + 1) as nat));
    assert(errors@ =~= before + stair_errors(all, stairs@, k as int));
}

fn check_stairs(levels: &Vec<LevelPlan>, stairs: &Vec<StairPlan>, errors: &mut Vec<BuildingError>)
    ensures
        final(errors)@ == old(errors)@ + stairs_errors(
            levels@.map_values(|l: LevelPlan| l@),
            stairs@,
            stairs.len() as nat,
        ),
{
    let ghost all = levels@.map_values(|l: LevelPlan| l@);
    let ghost start = errors@;
    let mut stair_ids: BTreeSet<u128> = BTreeSet::new();
    assert(stair_ids@ =~= stair_ids_before(stairs@, 0));
    assert(errors@ =~= start + stairs_errors(all, stairs@, 0));
    let mut k: usize = 0;
    while k < stairs.len()
        invariant
            k <= stairs.len(),
            all == levels@.map_values(|l: LevelPlan| l@),
            stair_ids@ == stair_ids_before(stairs@, k as nat),
            errors@ == start + stairs_errors(all, stairs@, k as nat),
        decreases stairs.len() - k,
    {
        check_stair(levels, stairs, k, &mut stair_ids, errors);
        assert(errors@ =~= start + stairs_errors(all, stairs@, (k + 1) as nat));
        k = k + 1;
    }
}

fn check_roofs(levels: &Vec<LevelPlan>, roofs: &Vec<RoofPlan>, errors: &mut Vec<BuildingError>)
    ensures
        final(errors)@ == old(errors)@ + roofs_errors(
            levels@.map_values(|l: LevelPlan| l@),
            roofs@,
            roofs.len() as nat,
        ),
{
    let ghost all = levels@.map_values(|l: LevelPlan| l@);
    let ghost start = errors@;
    let mut roof_ids: BTreeSet<u128> = BTreeSet::new();
    assert(roof_ids@ =~= roof_ids_before(roofs@, 0));
    assert(errors@ =~= start + roofs_errors(all, roofs@, 0));
    let mut k: usize = 0;
    while k < roofs.len()
        invariant
            k <= roofs.len(),
            all == levels@.map_values(|l: LevelPlan| l@),
            roof_ids@ == roof_ids_before(roofs@, k as nat),
            errors@ == start + roofs_errors(all, roofs@, k as nat),
        decreases roofs.len() - k,
    {
        let ghost before = errors@;
        let roof = roofs[k];
        let fresh = roof_ids.insert(roof.id);
        push_if(errors, !fresh, BuildingError::DuplicateRoof(roof.id));
        let known_level = level_by_id(levels, roof.level_id);
        push_if(errors, known_level.is_none(), BuildingError::RoofUnknownLevel(roof.id));
        push_if(errors, !roof.geometry_valid, BuildingError::InvalidRoofGeometry(roof.id));
        proof {
            assert(roof_ids@ =~= roof_ids_before(roofs@, (k + 1) as nat));
            assert(errors@ =~= before + roof_errors(all, roofs@, k as int));
            assert(errors@ =~= start + roofs_errors(all, roofs@, (k + 1) as nat));
        }
        k = k + 1;
    }
}

/// Validates a blueprint's structure: it passes when no error is found, and
/// is refused with every error found, in order.
pub fn validate_blueprint(plan: &BlueprintPlan) -> (result: Result<(), ValidationReport>)
    ensures
        match result {
            Ok(()) => blueprint_errors(plan@).len() == 0,
            Err(report) => report.errors@.len() > 0 && report.errors@ == blueprint_errors(plan@),
        },
{
    let mut errors: Vec<BuildingError> = Vec::new();
    check_levels(&plan.levels, &mut errors);
    check_walls(&plan.levels, &plan.walls, &mut errors);
    check_openings(&plan.walls, &plan.openings, &mut errors);
    push_pairs(&mut errors, &plan.overlapping_openings, false);
    check_primary_entry(&plan.openings, plan.primary_entry, &mut errors);
    check_stairs(&plan.levels, &plan.stairs, &mut errors);
    check_roofs(&plan.levels, &plan.roofs, &mut errors);
    assert(errors@ =~= blueprint_errors(plan@));
    if errors.len() == 0 {
        Ok(())
    } else {
        Err(ValidationReport::new(errors))
    }
}

/// The primary entry must be a way in from outside: where the first opening
/// with the primary entry's identity is a window, or has no side outside,
/// the blueprint's errors name it as an invalid primary entry, and where no
/// opening has that identity they name it as missing. So a blueprint without
/// errors has as its primary entry a door or passage with outside on one
/// side.
pub proof fn lemma_primary_entry_leads_outside(plan: PlanView)
    ensures
        (forall|k: int| 0 <= k < plan.openings.len() ==> plan.openings[k].id != plan.primary_entry)
            ==> blueprint_errors(plan).contains(BuildingError::PrimaryEntryMissing(plan.primary_entry)),
        forall|j: int|
            0 <= j < plan.openings.len() && #[trigger] plan.openings[j].id == plan.primary_entry && (forall|k: int|
                0 <= k < j ==> plan.openings[k].id != plan.primary_entry) ==> {
                let entry = plan.openings[j];
                let bad = !(entry.kind is Door || entry.kind is Passage) || (entry.from != SpaceRef::Exterior
                    && entry.to != SpaceRef::Exterior);
                &&& bad ==> blueprint_errors(plan).contains(BuildingError::InvalidPrimaryEntry(plan.primary_entry))
                &&& blueprint_errors(plan).len() == 0 ==> !bad
            },
{
    let before = levels_errors(plan.levels, plan.levels.len()) + walls_errors(plan.levels, plan.walls, plan.walls.len())
        + openings_errors(plan.walls, plan.openings, plan.openings.len()) + opening_overlap_errors(
        plan.overlapping_openings,
    );
    let entry_errors = primary_entry_errors(plan.openings, plan.primary_entry);
    let after = stairs_errors(plan.levels, plan.stairs, plan.stairs.len()) + roofs_errors(
        plan.levels,
        plan.roofs,
        plan.roofs.len(),
    );
    assert(blueprint_errors(plan) =~= before + entry_errors + after);
    if entry_errors.len() > 0 {
        assert(blueprint_errors(plan)[before.len() as int] == entry_errors[0]);
    }
    if forall|k: int| 0 <= k < plan.openings.len() ==> plan.openings[k].id != plan.primary_entry {
        lemma_find_opening_absent(plan.openings, plan.primary_entry, plan.openings.len());
    }
    assert forall|j: int|
        0 <= j < plan.openings.len() && #[trigger] plan.openings[j].id == plan.primary_entry && (forall|k: int|
            0 <= k < j ==> plan.openings[k].id != plan.primary_entry) implies {
            let entry = plan.openings[j];
            let bad = !(entry.kind is Door || entry.kind is Passage) || (entry.from != SpaceRef::Exterior
                && entry.to != SpaceRef::Exterior);
            &&& bad ==> blueprint_errors(plan).contains(BuildingError::InvalidPrimaryEntry(plan.primary_entry))
            &&& blueprint_errors(plan).len() == 0 ==> !bad
        } by {
        lemma_find_opening_first(plan.openings, plan.primary_entry, j);
    }
}

proof fn lemma_find_opening_absent(openings: Seq<OpeningPlan>, id: u128, n: nat)
    requires
        n <= openings.len(),
        forall|k: int| 0 <= k < openings.len() ==> openings[k].id != id,
    ensures
        find_opening(openings, id, n) is None,
    decreases n,
{
    if n > 0 {
        lemma_find_opening_absent(openings, id, (n - 1) as nat);
    }
}

proof fn lemma_opening_errors_kept(walls: Seq<WallPlan>, openings: Seq<OpeningPlan>, k: int, n: nat, e: BuildingError)
    requires
        0 <= k < n <= openings.len(),
        opening_errors(walls, openings, k).contains(e),
    ensures
        openings_errors(walls, openings, n).contains(e),
    decreases n,
{
    let prefix = openings_errors(walls, openings, (n - 1) as nat);
    let last = opening_errors(walls, openings, n - 1);
    if k == n - 1 {
        let i = choose|i: int| 0 <= i < last.len() && last[i] == e;
        assert((prefix + last)[prefix.len() + i] == e);
    } else {
        lemma_opening_errors_kept(walls, openings, k, (n - 1) as nat, e);
        let i = choose|i: int| 0 <= i < prefix.len() && prefix[i] == e;
        assert((prefix + last)[i] == e);
    }
}

proof fn lemma_wall_errors_kept(levels: Seq<LevelView>, walls: Seq<WallPlan>, k: int, n: nat, e: BuildingError)
    requires
        0 <= k < n <= walls.len(),
        wall_errors(levels, walls, k).contains(e),
    ensures
        walls_errors(levels, walls, n).contains(e),
    decreases n,
{
    let prefix = walls_errors(levels, walls, (n - 1) as nat);
    let last = wall_errors(levels, walls, n - 1);
    if k == n - 1 {
        let i = choose|i: int| 0 <= i < last.len() && last[i] == e;
        assert((prefix + last)[prefix.len() + i] == e);
    } else {
        lemma_wall_errors_kept(levels, walls, k, (n - 1) as nat, e);
        let i = choose|i: int| 0 <= i < prefix.len() && prefix[i] == e;
        assert((prefix + last)[i] == e);
    }
}

proof fn lemma_opening_ids_before(openings: Seq<OpeningPlan>, j: int, k: nat)
    requires
        0 <= j < k <= openings.len(),
    ensures
        opening_ids_before(openings, k).contains(openings[j].id),
    decreases k,
{
    if j < k - 1 {
        lemma_opening_ids_before(openings, j, (k - 1) as nat);
    }
}

proof fn lemma_wall_ids_before(walls: Seq<WallPlan>, j: int, k: nat)
    requires
        0 <= j < k <= walls.len(),
    ensures
        wall_ids_before(walls, k).contains(walls[j].id),
    decreases k,
{
    if j < k - 1 {
        lemma_wall_ids_before(walls, j, (k - 1) as nat);
    }
}

proof fn lemma_find_wall_none(walls: Seq<WallPlan>, id: u128, n: nat)
    requires
        n <= walls.len(),
        forall|k: int| 0 <= k < walls.len() ==> walls[k].id != id,
    ensures
        find_wall(walls, id, n) is None,
    decreases n,
{
    if n > 0 {
        lemma_find_wall_none(walls, id, (n - 1) as nat);
    }
}

proof fn lemma_in_blueprint_errors(plan: PlanView, e: BuildingError)
    requires
        levels_errors(plan.levels, plan.levels.len()).contains(e) || walls_errors(
            plan.levels,
            plan.walls,
            plan.walls.len(),
        ).contains(e) || openings_errors(plan.walls, plan.openings, plan.openings.len()).contains(e)
            || stairs_errors(plan.levels, plan.stairs, plan.stairs.len()).contains(e) || roofs_errors(
            plan.levels,
            plan.roofs,
            plan.roofs.len(),
        ).contains(e),
    ensures
        blueprint_errors(plan).contains(e),
{
    let l = levels_errors(plan.levels, plan.levels.len());
    let w = walls_errors(plan.levels, plan.walls, plan.walls.len());
    let o = openings_errors(plan.walls, plan.openings, plan.openings.len());
    let m = opening_overlap_errors(plan.overlapping_openings) + primary_entry_errors(plan.openings, plan.primary_entry);
    let st = stairs_errors(plan.levels, plan.stairs, plan.stairs.len());
    let r = roofs_errors(plan.levels, plan.roofs, plan.roofs.len());
    let all = l + w + o + m + st + r;
    assert(blueprint_errors(plan) =~= all);
    if l.contains(e) {
        let i = choose|i: int| 0 <= i < l.len() && l[i] == e;
        assert(all[i] == e);
    } else if w.contains(e) {
        let i = choose|i: int| 0 <= i < w.len() && w[i] == e;
        assert(all[l.len() + i] == e);
    } else if o.contains(e) {
        let i = choose|i: int| 0 <= i < o.len() && o[i] == e;
        assert(all[l.len() + w.len() + i] == e);
    } else if st.contains(e) {
        let i = choose|i: int| 0 <= i < st.len() && st[i] == e;
        assert(all[l.len() + w.len() + o.len() + m.len() + i] == e);
    } else {
        let i = choose|i: int| 0 <= i < r.len() && r[i] == e;
        assert(all[l.len() + w.len() + o.len() + m.len() + st.len() + i] == e);
    }
}

/// Every opening is checked: one whose identity an earlier opening already
/// has is reported as a duplicate; one on a wall that no wall has the
/// identity of is reported as on an unknown wall; and one on a known wall
/// that does not join the two spaces that the wall separates is reported as
/// a space mismatch.
pub proof fn lemma_opening_checks_reported(plan: PlanView, k: int)
    requires
        0 <= k < plan.openings.len(),
    ensures
        ({
            let opening = plan.openings[k];
            &&& (exists|j: int| 0 <= j < k && #[trigger] plan.openings[j].id == opening.id)
                ==> blueprint_errors(plan).contains(BuildingError::DuplicateOpening(opening.id))
            &&& (forall|i: int| 0 <= i < plan.walls.len() ==> plan.walls[i].id != opening.wall_id)
                ==> blueprint_errors(plan).contains(BuildingError::OpeningUnknownWall(opening.id))
            &&& forall|i: int|
                0 <= i < plan.walls.len() && #[trigger] plan.walls[i].id == opening.wall_id && (forall|m: int|
                    0 <= m < i ==> plan.walls[m].id != opening.wall_id) && !joins_wall_spaces(plan.walls[i], opening)
                    ==> blueprint_errors(plan).contains(BuildingError::OpeningSpaceMismatch(opening.id))
        }),
{
    let opening = plan.openings[k];
    let errs = opening_errors(plan.walls, plan.openings, k);
    if exists|j: int| 0 <= j < k && #[trigger] plan.openings[j].id == opening.id {
        let j = choose|j: int| 0 <= j < k && #[trigger] plan.openings[j].id == opening.id;
        lemma_opening_ids_before(plan.openings, j, k as nat);
        assert(errs[0] == BuildingError::DuplicateOpening(opening.id));
        lemma_opening_errors_kept(plan.walls, plan.openings, k, plan.openings.len(), BuildingError::DuplicateOpening(opening.id));
        lemma_in_blueprint_errors(plan, BuildingError::DuplicateOpening(opening.id));
    }
    if forall|i: int| 0 <= i < plan.walls.len() ==> plan.walls[i].id != opening.wall_id {
        lemma_find_wall_none(plan.walls, opening.wall_id, plan.walls.len());
        assert(errs[errs.len() - 1] == BuildingError::OpeningUnknownWall(opening.id));
        lemma_opening_errors_kept(plan.walls, plan.openings, k, plan.openings.len(), BuildingError::OpeningUnknownWall(opening.id));
        lemma_in_blueprint_errors(plan, BuildingError::OpeningUnknownWall(opening.id));
    }
    assert forall|i: int|
        0 <= i < plan.walls.len() && #[trigger] plan.walls[i].id == opening.wall_id && (forall|m: int|
            0 <= m < i ==> plan.walls[m].id != opening.wall_id) && !joins_wall_spaces(plan.walls[i], opening)
            implies blueprint_errors(plan).contains(BuildingError::OpeningSpaceMismatch(opening.id)) by {
        lemma_find_wall_first(plan.walls, opening.wall_id, i);
        assert(errs[errs.len() - 1] == BuildingError::OpeningSpaceMismatch(opening.id));
        lemma_opening_errors_kept(plan.walls, plan.openings, k, plan.openings.len(), BuildingError::OpeningSpaceMismatch(opening.id));
        lemma_in_blueprint_errors(plan, BuildingError::OpeningSpaceMismatch(opening.id));
    }
}

/// Every wall is checked: one whose identity an earlier wall already has is
/// reported as a duplicate, and one with no room on either side as a wall
/// without a room.
pub proof fn lemma_wall_checks_reported(plan: PlanView, k: int)
    requires
        0 <= k < plan.walls.len(),
    ensures
        ({
            let wall = plan.walls[k];
            &&& (exists|j: int| 0 <= j < k && #[trigger] plan.walls[j].id == wall.id)
                ==> blueprint_errors(plan).contains(BuildingError::DuplicateWall(wall.id))
            &&& wall.left_room is None && wall.right_room is None
                ==> blueprint_errors(plan).contains(BuildingError::WallWithoutRoom(wall.id))
        }),
{
    let wall = plan.walls[k];
    let errs = wall_errors(plan.levels, plan.walls, k);
    if exists|j: int| 0 <= j < k && #[trigger] plan.walls[j].id == wall.id {
        let j = choose|j: int| 0 <= j < k && #[trigger] plan.walls[j].id == wall.id;
        lemma_wall_ids_before(plan.walls, j, k as nat);
        assert(errs[0] == BuildingError::DuplicateWall(wall.id));
        lemma_wall_errors_kept(plan.levels, plan.walls, k, plan.walls.len(), BuildingError::DuplicateWall(wall.id));
        lemma_in_blueprint_errors(plan, BuildingError::DuplicateWall(wall.id));
    }
    if wall.left_room is None && wall.right_room is None {
        let e = BuildingError::WallWithoutRoom(wall.id);
        let a = error_if(wall_ids_before(plan.walls, k as nat).contains(wall.id), BuildingError::DuplicateWall(wall.id))
            + error_if(find_level(plan.levels, wall.level_id, plan.levels.len()) is None, BuildingError::WallUnknownLevel(wall.id))
            + error_if(!wall.geometry_valid, BuildingError::InvalidWallGeometry(wall.id));
        assert(errs =~= a + seq![e]);
        assert(errs[a.len() as int] == e);
        lemma_wall_errors_kept(plan.levels, plan.walls, k, plan.walls.len(), e);
        lemma_in_blueprint_errors(plan, e);
    }
}

proof fn lemma_level_errors_kept(levels: Seq<LevelView>, k: int, n: nat, e: BuildingError)
    requires
        0 <= k < n <= levels.len(),
        level_errors(levels, k).contains(e),
    ensures
        levels_errors(levels, n).contains(e),
    decreases n,
{
    let prefix = levels_errors(levels, (n - 1) as nat);
    let last = level_errors(levels, n - 1);
    if k == n - 1 {
        let i = choose|i: int| 0 <= i < last.len() && last[i] == e;
        assert((prefix + last)[prefix.len() + i] == e);
    } else {
        lemma_level_errors_kept(levels, k, (n - 1) as nat, e);
        let i = choose|i: int| 0 <= i < prefix.len() && prefix[i] == e;
        assert((prefix + last)[i] == e);
    }
}

proof fn lemma_stair_errors_kept(levels: Seq<LevelView>, stairs: Seq<StairPlan>, k: int, n: nat, e: BuildingError)
    requires
        0 <= k < n <= stairs.len(),
        stair_errors(levels, stairs, k).contains(e),
    ensures
        stairs_errors(levels, stairs, n).contains(e),
    decreases n,
{
    let prefix = stairs_errors(levels, stairs, (n - 1) as nat);
    let last = stair_errors(levels, stairs, n - 1);
    if k == n - 1 {
        let i = choose|i: int| 0 <= i < last.len() && last[i] == e;
        assert((prefix + last)[prefix.len() + i] == e);
    } else {
        lemma_stair_errors_kept(levels, stairs, k, (n - 1) as nat, e);
        let i = choose|i: int| 0 <= i < prefix.len() && prefix[i] == e;
        assert((prefix + last)[i] == e);
    }
}

proof fn lemma_roof_errors_kept(levels: Seq<LevelView>, roofs: Seq<RoofPlan>, k: int, n: nat, e: BuildingError)
    requires
        0 <= k < n <= roofs.len(),
        roof_errors(levels, roofs, k).contains(e),
    ensures
        roofs_errors(levels, roofs, n).contains(e),
    decreases n,
{
    let prefix = roofs_errors(levels, roofs, (n - 1) as nat);
    let last = roof_errors(levels, roofs, n - 1);
    if k == n - 1 {
        let i = choose|i: int| 0 <= i < last.len() && last[i] == e;
        assert((prefix + last)[prefix.len() + i] == e);
    } else {
        lemma_roof_errors_kept(levels, roofs, k, (n - 1) as nat, e);
        let i = choose|i: int| 0 <= i < prefix.len() && prefix[i] == e;
        assert((prefix + last)[i] == e);
    }
}

proof fn lemma_level_ids_before(levels: Seq<LevelView>, j: int, k: nat)
    requires
        0 <= j < k <= levels.len(),
    ensures
        level_ids_before(levels, k).contains(levels[j].id),
        level_indices_before(levels, k).contains(levels[j].index),
    decreases k,
{
    if j < k - 1 {
        lemma_level_ids_before(levels, j, (k - 1) as nat);
    }
}

proof fn lemma_stair_ids_before(stairs: Seq<StairPlan>, j: int, k: nat)
    requires
        0 <= j < k <= stairs.len(),
    ensures
        stair_ids_before(stairs, k).contains(stairs[j].id),
    decreases k,
{
    if j < k - 1 {
        lemma_stair_ids_before(stairs, j, (k - 1) as nat);
    }
}

proof fn lemma_roof_ids_before(roofs: Seq<RoofPlan>, j: int, k: nat)
    requires
        0 <= j < k <= roofs.len(),
    ensures
        roof_ids_before(roofs, k).contains(roofs[j].id),
    decreases k,
{
    if j < k - 1 {
        lemma_roof_ids_before(roofs, j, (k - 1) as nat);
    }
}

proof fn lemma_find_level_none(levels: Seq<LevelView>, id: u128, n: nat)
    requires
        n <= levels.len(),
        forall|k: int| 0 <= k < levels.len() ==> levels[k].id != id,
    ensures
        find_level(levels, id, n) is None,
    decreases n,
{
    if n > 0 {
        lemma_find_level_none(levels, id, (n - 1) as nat);
    }
}

/// Every level, stair and roof is checked: one whose identity an earlier one
/// of its kind already has is reported as a duplicate, as is a level whose
/// index an earlier level has; a stair from or to a level that no level is,
/// and a roof on such a level, are reported as having an unknown endpoint or
/// an unknown level.
pub proof fn lemma_level_stair_roof_checks_reported(plan: PlanView)
    ensures
        forall|k: int, j: int|
            0 <= j < k < plan.levels.len() && #[trigger] plan.levels[j].id == #[trigger] plan.levels[k].id
                ==> blueprint_errors(plan).contains(BuildingError::DuplicateLevel(plan.levels[k].id)),
        forall|k: int, j: int|
            0 <= j < k < plan.levels.len() && #[trigger] plan.levels[j].index == #[trigger] plan.levels[k].index
                ==> blueprint_errors(plan).contains(BuildingError::DuplicateLevelIndex(plan.levels[k].index)),
        forall|k: int, j: int|
            0 <= j < k < plan.stairs.len() && #[trigger] plan.stairs[j].id == #[trigger] plan.stairs[k].id
                ==> blueprint_errors(plan).contains(BuildingError::DuplicateStair(plan.stairs[k].id)),
        forall|k: int|
            0 <= k < plan.stairs.len() && (forall|i: int|
                0 <= i < plan.levels.len() ==> plan.levels[i].id != (#[trigger] plan.stairs[k]).from_level)
                ==> blueprint_errors(plan).contains(BuildingError::StairUnknownEndpoint(plan.stairs[k].id)),
        forall|k: int, j: int|
            0 <= j < k < plan.roofs.len() && #[trigger] plan.roofs[j].id == #[trigger] plan.roofs[k].id
                ==> blueprint_errors(plan).contains(BuildingError::DuplicateRoof(plan.roofs[k].id)),
        forall|k: int|
            0 <= k < plan.roofs.len() && (forall|i: int|
                0 <= i < plan.levels.len() ==> plan.levels[i].id != (#[trigger] plan.roofs[k]).level_id)
                ==> blueprint_errors(plan).contains(BuildingError::RoofUnknownLevel(plan.roofs[k].id)),
{
    let levels = plan.levels;
    assert forall|k: int, j: int|
        0 <= j < k < levels.len() && #[trigger] levels[j].id == #[trigger] levels[k].id implies blueprint_errors(
            plan,
        ).contains(BuildingError::DuplicateLevel(levels[k].id)) by {
        lemma_level_ids_before(levels, j, k as nat);
        let errs = level_errors(levels, k);
        assert(errs[0] == BuildingError::DuplicateLevel(levels[k].id));
        lemma_level_errors_kept(levels, k, levels.len(), BuildingError::DuplicateLevel(levels[k].id));
        lemma_in_blueprint_errors(plan, BuildingError::DuplicateLevel(levels[k].id));
    }
    assert forall|k: int, j: int|
        0 <= j < k < levels.len() && #[trigger] levels[j].index == #[trigger] levels[k].index implies blueprint_errors(
            plan,
        ).contains(BuildingError::DuplicateLevelIndex(levels[k].index)) by {
        lemma_level_ids_before(levels, j, k as nat);
        let e = BuildingError::DuplicateLevelIndex(levels[k].index);
        let first = error_if(level_ids_before(levels, k as nat).contains(levels[k].id), BuildingError::DuplicateLevel(levels[k].id));
        let errs = level_errors(levels, k);
        assert(errs[first.len() as int] == e);
        lemma_level_errors_kept(levels, k, levels.len(), e);
        lemma_in_blueprint_errors(plan, e);
    }
    assert forall|k: int, j: int|
        0 <= j < k < plan.stairs.len() && #[trigger] plan.stairs[j].id == #[trigger] plan.stairs[k].id implies blueprint_errors(
            plan,
        ).contains(BuildingError::DuplicateStair(plan.stairs[k].id)) by {
        lemma_stair_ids_before(plan.stairs, j, k as nat);
        let e = BuildingError::DuplicateStair(plan.stairs[k].id);
        assert(stair_errors(levels, plan.stairs, k)[0] == e);
        lemma_stair_errors_kept(levels, plan.stairs, k, plan.stairs.len(), e);
        lemma_in_blueprint_errors(plan, e);
    }
    assert forall|k: int|
        0 <= k < plan.stairs.len() && (forall|i: int|
            0 <= i < levels.len() ==> levels[i].id != (#[trigger] plan.stairs[k]).from_level) implies blueprint_errors(
            plan,
        ).contains(BuildingError::StairUnknownEndpoint(plan.stairs[k].id)) by {
        let stair = plan.stairs[k];
        lemma_find_level_none(levels, stair.from_level, levels.len());
        let e = BuildingError::StairUnknownEndpoint(stair.id);
        let errs = stair_errors(levels, plan.stairs, k);
        assert(errs[errs.len() - 1] == e);
        lemma_stair_errors_kept(levels, plan.stairs, k, plan.stairs.len(), e);
        lemma_in_blueprint_errors(plan, e);
    }
    assert forall|k: int, j: int|
        0 <= j < k < plan.roofs.len() && #[trigger] plan.roofs[j].id == #[trigger] plan.roofs[k].id implies blueprint_errors(
            plan,
        ).contains(BuildingError::DuplicateRoof(plan.roofs[k].id)) by {
        lemma_roof_ids_before(plan.roofs, j, k as nat);
        let e = BuildingError::DuplicateRoof(plan.roofs[k].id);
        assert(roof_errors(levels, plan.roofs, k)[0] == e);
        lemma_roof_errors_kept(levels, plan.roofs, k, plan.roofs.len(), e);
        lemma_in_blueprint_errors(plan, e);
    }
    assert forall|k: int|
        0 <= k < plan.roofs.len() && (forall|i: int|
            0 <= i < levels.len() ==> levels[i].id != (#[trigger] plan.roofs[k]).level_id) implies blueprint_errors(
            plan,
        ).contains(BuildingError::RoofUnknownLevel(plan.roofs[k].id)) by {
        let roof = plan.roofs[k];
        lemma_find_level_none(levels, roof.level_id, levels.len());
        let e = BuildingError::RoofUnknownLevel(roof.id);
        let first = error_if(roof_ids_before(plan.roofs, k as nat).contains(roof.id), BuildingError::DuplicateRoof(roof.id));
        let errs = roof_errors(levels, plan.roofs, k);
        assert(errs[first.len() as int] == e);
        lemma_roof_errors_kept(levels, plan.roofs, k, plan.roofs.len(), e);
        lemma_in_blueprint_errors(plan, e);
    }
}

} // verus!
