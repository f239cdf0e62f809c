//! The blueprint's structure and the lookups that validation and compilation
//! share: each lookup finds the first element with an identity.

use crate::building::{OpeningKind, RoofKind, RoomPurpose};
use vstd::prelude::*;

verus! {

/// A space that an opening or a wall side faces: outside, or a room.
#[derive(Clone, Copy, Debug, PartialEq, Eq, Structural, PartialOrd, Ord, Hash)]
pub enum SpaceRef {
    Exterior,
    Room(u128),
}

/// What a level's elevation and height were found to be.
#[derive(Clone, Copy, Debug, PartialEq, Eq, Structural)]
pub enum LevelGeometry {
    Valid,
    NonFinite,
    NotPositive,
}

#[derive(Clone, Copy, Debug, PartialEq, Eq, Structural)]
pub struct RoomPlan {
    pub id: u128,
    pub purpose: RoomPurpose,
    /// Whether the room's footprint is a proper rectangle.
    pub footprint_valid: bool,
}

#[derive(Clone, Debug)]
pub struct LevelPlan {
    pub id: u128,
    pub index: i16,
    pub geometry: LevelGeometry,
    pub rooms: Vec<RoomPlan>,
    /// The pairs of this level's rooms whose footprints overlap, each pair
    /// in the order of the rooms on the level.
    pub overlapping_rooms: Vec<(u128, u128)>,
}

pub struct LevelView {
    pub id: u128,
    pub index: i16,
    pub geometry: LevelGeometry,
    pub rooms: Seq<RoomPlan>,
    pub overlapping_rooms: Seq<(u128, u128)>,
}

impl View for LevelPlan {
    type V = LevelView;

    open spec fn view(&self) -> LevelView {
        LevelView {
            id: self.id,
            index: self.index,
            geometry: self.geometry,
            rooms: self.rooms@,
            overlapping_rooms: self.overlapping_rooms@,
        }
    }
}

#[derive(Clone, Copy, Debug, PartialEq, Eq, Structural)]
pub struct WallPlan {
    pub id: u128,
    pub level_id: u128,
    pub left_room: Option<u128>,
    pub right_room: Option<u128>,
    /// Whether the wall's ends, thickness and height are finite and positive.
    pub geometry_valid: bool,
}

/// The space that one side of a wall faces.
pub open spec fn side_space(room: Option<u128>) -> SpaceRef {
    match room {
        Some(id) => SpaceRef::Room(id),
        None => SpaceRef::Exterior,
    }
}

impl WallPlan {
    /// Whether one side of the wall faces outside.
    pub fn is_exterior(&self) -> (exterior: bool)
        ensures
            exterior == (self.left_room is None || self.right_room is None),
    {
        self.left_room.is_none() || self.right_room.is_none()
    }

    /// The spaces that the wall's two sides face.
    pub fn spaces(&self) -> (spaces: (SpaceRef, SpaceRef))
        ensures
            spaces == (side_space(self.left_room), side_space(self.right_room)),
    {
        let left = match self.left_room {
            Some(id) => SpaceRef::Room(id),
            None => SpaceRef::Exterior,
        };
        let right = match self.right_room {
            Some(id) => SpaceRef::Room(id),
            None => SpaceRef::Exterior,
        };
        (left, right)
    }
}

#[derive(Clone, Copy, Debug, PartialEq, Eq, Structural)]
pub struct OpeningPlan {
    pub id: u128,
    pub wall_id: u128,
    pub kind: OpeningKind,
    pub from: SpaceRef,
    pub to: SpaceRef,
    /// Whether the opening's offset, width, sill and height are finite and in range.
    pub geometry_valid: bool,
    /// Whether the opening ends beyond the length of its wall.
    pub outside_wall: bool,
    /// Whether the opening reaches above the height of its wall.
    pub above_wall: bool,
}

impl OpeningPlan {
    pub fn is_traversable(&self) -> (traversable: bool)
        ensures
            traversable == (self.kind is Door || self.kind is Passage),
    {
        self.kind.is_traversable()
    }
}

#[derive(Clone, Copy, Debug, PartialEq, Eq, Structural)]
pub struct StairPlan {
    pub id: u128,
    pub from_level: u128,
    pub to_level: u128,
    pub from_room: u128,
    pub to_room: u128,
    /// Whether the stair's footprint and width are valid.
    pub geometry_valid: bool,
}

#[derive(Clone, Copy, Debug, PartialEq, Eq, Structural)]
pub struct RoofPlan {
    pub id: u128,
    pub level_id: u128,
    pub kind: RoofKind,
    /// Whether the roof's footprint, base and height are valid.
    pub geometry_valid: bool,
}

#[derive(Clone, Debug)]
pub struct BlueprintPlan {
    pub id: u128,
    pub revision: u64,
    pub levels: Vec<LevelPlan>,
    pub walls: Vec<WallPlan>,
    pub openings: Vec<OpeningPlan>,
    pub stairs: Vec<StairPlan>,
    pub roofs: Vec<RoofPlan>,
    pub primary_entry: u128,
    /// The pairs of openings on one wall that overlap, wall by wall in the
    /// order of wall identity, along each wall in the order of their offsets.
    pub overlapping_openings: Vec<(u128, u128)>,
}

pub struct PlanView {
    pub id: u128,
    pub revision: u64,
    pub levels: Seq<LevelView>,
    pub walls: Seq<WallPlan>,
    pub openings: Seq<OpeningPlan>,
    pub stairs: Seq<StairPlan>,
    pub roofs: Seq<RoofPlan>,
    pub primary_entry: u128,
    pub overlapping_openings: Seq<(u128, u128)>,
}

impl View for BlueprintPlan {
    type V = PlanView;

    open spec fn view(&self) -> PlanView {
        PlanView {
            id: self.id,
            revision: self.revision,
            levels: self.levels@.map_values(|l: LevelPlan| l@),
            walls: self.walls@,
            openings: self.openings@,
            stairs: self.stairs@,
            roofs: self.roofs@,
            primary_entry: self.primary_entry,
            overlapping_openings: self.overlapping_openings@,
        }
    }
}

/// The first of the first `n` levels with identity `id`.
pub open spec fn find_level(levels: Seq<LevelView>, id: u128, n: nat) -> Option<LevelView>
    decreases n,
{
    if n == 0 || n > levels.len() {
        None
    } else {
        match find_level(levels, id, (n - 1) as nat) {
            Some(level) => Some(level),
            None => if levels[n - 1].id == id {
                Some(levels[n - 1])
            } else {
                None
            },
        }
    }
}

/// Whether a level holds a room with identity `id`.
pub open spec fn level_has_room(level: LevelView, id: u128) -> bool {
    exists|j: int| 0 <= j < level.rooms.len() && #[trigger] level.rooms[j].id == id
}

/// The level of the first room with identity `id` among the first `n` levels.
pub open spec fn find_room_level(levels: Seq<LevelView>, id: u128, n: nat) -> Option<u128>
    decreases n,
{
    if n == 0 || n > levels.len() {
        None
    } else {
        match find_room_level(levels, id, (n - 1) as nat) {
            Some(level) => Some(level),
            None => if level_has_room(levels[n - 1], id) {
                Some(levels[n - 1].id)
            } else {
                None
            },
        }
    }
}

/// The first of the first `n` walls with identity `id`.
pub open spec fn find_wall(walls: Seq<WallPlan>, id: u128, n: nat) -> Option<WallPlan>
    decreases n,
{
    if n == 0 || n > walls.len() {
        None
    } else {
        match find_wall(walls, id, (n - 1) as nat) {
            Some(wall) => Some(wall),
            None => if walls[n - 1].id == id {
                Some(walls[n - 1])
            } else {
                None
            },
        }
    }
}

/// The first of the first `n` openings with identity `id`.
pub open spec fn find_opening(openings: Seq<OpeningPlan>, id: u128, n: nat) -> Option<OpeningPlan>
    decreases n,
{
    if n == 0 || n > openings.len() {
        None
    } else {
        match find_opening(openings, id, (n - 1) as nat) {
            Some(opening) => Some(opening),
            None => if openings[n - 1].id == id {
                Some(openings[n - 1])
            } else {
                None
            },
        }
    }
}

/// The first level with identity `id`.
pub fn level_by_id(levels: &Vec<LevelPlan>, id: u128) -> (found: Option<usize>)
    ensures
        match found {
            Some(i) => i < levels.len() && find_level(levels@.map_values(|l: LevelPlan| l@), id, levels.len() as nat)
                == Some(levels@[i as int]@),
            None => find_level(levels@.map_values(|l: LevelPlan| l@), id, levels.len() as nat) is None,
        },
{
    let ghost all = levels@.map_values(|l: LevelPlan| l@);
    let mut i: usize = 0;
    while i < levels.len()
        invariant
            i <= levels.len(),
            all == levels@.map_values(|l: LevelPlan| l@),
            find_level(all, id, i as nat) is None,
        decreases levels.len() - i,
    {
        if levels[i].id == id {
            proof {
                lemma_find_level_stays(all, id, (i + 1) as nat, levels.len() as nat);
            }
            return Some(i);
        }
        i = i + 1;
    }
    None
}

proof fn lemma_find_level_stays(levels: Seq<LevelView>, id: u128, from: nat, to: nat)
    requires
        from <= to <= levels.len(),
        find_level(levels, id, from) is Some,
    ensures
        find_level(levels, id, to) == find_level(levels, id, from),
    decreases to - from,
{
    if from < to {
        lemma_find_level_stays(levels, id, from, (to - 1) as nat);
    }
}

/// The level of the first room with identity `id`.
pub fn room_level_by_id(levels: &Vec<LevelPlan>, id: u128) -> (found: Option<u128>)
    ensures
        found == find_room_level(levels@.map_values(|l: LevelPlan| l@), id, levels.len() as nat),
{
    let ghost all = levels@.map_values(|l: LevelPlan| l@);
    let mut i: usize = 0;
    while i < levels.len()
        invariant
            i <= levels.len(),
            all == levels@.map_values(|l: LevelPlan| l@),
            find_room_level(all, id, i as nat) is None,
        decreases levels.len() - i,
    {
        let rooms = &levels[i].rooms;
        let mut j: usize = 0;
        while j < rooms.len()
            invariant
                j <= rooms.len(),
                i < levels.len(),
                all == levels@.map_values(|l: LevelPlan| l@),
                rooms@ == all[i as int].rooms,
                find_room_level(all, id, i as nat) is None,
                forall|k: int| 0 <= k < j ==> rooms@[k].id != id,
            decreases rooms.len() - j,
        {
            if rooms[j].id == id {
                proof {
                    assert(all[i as int].rooms[j as int].id == id);
                    assert(level_has_room(all[i as int], id));
                    lemma_find_room_level_stays(all, id, (i + 1) as nat, levels.len() as nat);
                }
                return Some(levels[i].id);
            }
            j = j + 1;
        }
        proof {
            assert(!level_has_room(all[i as int], id));
        }
        i = i + 1;
    }
    None
}

proof fn lemma_find_room_level_stays(levels: Seq<LevelView>, id: u128, from: nat, to: nat)
    requires
        from <= to <= levels.len(),
        find_room_level(levels, id, from) is Some,
    ensures
        find_room_level(levels, id, to) == find_room_level(levels, id, from),
    decreases to - from,
{
    if from < to {
        lemma_find_room_level_stays(levels, id, from, (to - 1) as nat);
    }
}

/// The first wall with identity `id`.
pub fn wall_by_id(walls: &Vec<WallPlan>, id: u128) -> (found: Option<WallPlan>)
    ensures
        found == find_wall(walls@, id, walls.len() as nat),
{
    let mut i: usize = 0;
    while i < walls.len()
        invariant
            i <= walls.len(),
            find_wall(walls@, id, i as nat) is None,
        decreases walls.len() - i,
    {
        if walls[i].id == id {
            proof {
                lemma_find_wall_stays(walls@, id, (i + 1) as nat, walls.len() as nat);
            }
            return Some(walls[i]);
        }
        i = i + 1;
    }
    None
}

proof fn lemma_find_wall_stays(walls: Seq<WallPlan>, id: u128, from: nat, to: nat)
    requires
        from <= to <= walls.len(),
        find_wall(walls, id, from) is Some,
    ensures
        find_wall(walls, id, to) == find_wall(walls, id, from),
    decreases to - from,
{
    if from < to {
        lemma_find_wall_stays(walls, id, from, (to - 1) as nat);
    }
}

/// The first opening with identity `id`.
pub fn opening_by_id(openings: &Vec<OpeningPlan>, id: u128) -> (found: Option<OpeningPlan>)
    ensures
        found == find_opening(openings@, id, openings.len() as nat),
{
    let mut i: usize = 0;
    while i < openings.len()
        invariant
            i <= openings.len(),
            find_opening(openings@, id, i as nat) is None,
        decreases openings.len() - i,
    {
        if openings[i].id == id {
            proof {
                lemma_find_opening_stays(openings@, id, (i + 1) as nat, openings.len() as nat);
            }
            return Some(openings[i]);
        }
        i = i + 1;
    }
    None
}

proof fn lemma_find_opening_stays(openings: Seq<OpeningPlan>, id: u128, from: nat, to: nat)
    requires
        from <= to <= openings.len(),
        find_opening(openings, id, from) is Some,
    ensures
        find_opening(openings, id, to) == find_opening(openings, id, from),
    decreases to - from,
{
    if from < to {
        lemma_find_opening_stays(openings, id, from, (to - 1) as nat);
    }
}

/// The wall that `find_wall` gives among all walls is the first one with
/// the identity.
pub proof fn lemma_find_wall_first(walls: Seq<WallPlan>, id: u128, j: int)
    requires
        0 <= j < walls.len(),
        walls[j].id == id,
        forall|k: int| 0 <= k < j ==> walls[k].id != id,
    ensures
        find_wall(walls, id, walls.len()) == Some(walls[j]),
{
    lemma_find_wall_none_before(walls, id, j as nat);
    assert(find_wall(walls, id, (j + 1) as nat) == Some(walls[j]));
    lemma_find_wall_stays(walls, id, (j + 1) as nat, walls.len());
}

proof fn lemma_find_wall_none_before(walls: Seq<WallPlan>, id: u128, n: nat)
    requires
        n <= walls.len(),
        forall|k: int| 0 <= k < n ==> walls[k].id != id,
    ensures
        find_wall(walls, id, n) is None,
    decreases n,
{
    if n > 0 {
        lemma_find_wall_none_before(walls, id, (n - 1) as nat);
    }
}

/// The opening that `find_opening` gives among all openings is the first
/// one with the identity.
pub proof fn lemma_find_opening_first(openings: Seq<OpeningPlan>, id: u128, j: int)
    requires
        0 <= j < openings.len(),
        openings[j].id == id,
        forall|k: int| 0 <= k < j ==> openings[k].id != id,
    ensures
        find_opening(openings, id, openings.len()) == Some(openings[j]),
{
    lemma_find_opening_none_before(openings, id, j as nat);
    assert(find_opening(openings, id, (j + 1) as nat) == Some(openings[j]));
    lemma_find_opening_stays(openings, id, (j + 1) as nat, openings.len());
}

proof fn lemma_find_opening_none_before(openings: Seq<OpeningPlan>, id: u128, n: nat)
    requires
        n <= openings.len(),
        forall|k: int| 0 <= k < n ==> openings[k].id != id,
    ensures
        find_opening(openings, id, n) is None,
    decreases n,
{
    if n > 0 {
        lemma_find_opening_none_before(openings, id, (n - 1) as nat);
    }
}

} // verus!
