//! What a change to a blueprint makes stale: the levels, rooms, walls and
//! openings it touches, the mesh layers to rebuild, and which compiled
//! products to rebuild.

use super::plan::{
    find_opening, find_room_level, find_wall, lemma_find_opening_first, lemma_find_wall_first, opening_by_id, room_level_by_id, wall_by_id,
    level_has_room, BlueprintPlan, LevelPlan, LevelView, OpeningPlan, PlanView, WallPlan,
};
use super::validate::BuildingError;
use crate::building::RoomPurpose;
use std::collections::BTreeSet;
use vstd::prelude::*;

verus! {

/// A change to a blueprint.
#[derive(Clone, Copy, Debug, PartialEq, Eq, Structural)]
pub enum PlanDelta {
    AddOpening(OpeningPlan),
    RemoveOpening(u128),
    ReplaceWall(WallPlan),
    ChangeRoomPurpose { room_id: u128, purpose: RoomPurpose },
}

/// The mesh layers to rebuild.
#[derive(Clone, Copy, Debug, PartialEq, Eq, Structural)]
pub struct LayerSet {
    pub structure: bool,
    pub floor: bool,
    pub roof: bool,
    pub exterior_shell: bool,
}

/// What a change makes stale.
#[derive(Clone, Debug)]
pub struct DirtySet {
    pub levels: BTreeSet<u128>,
    pub rooms: BTreeSet<u128>,
    pub walls: BTreeSet<u128>,
    pub openings: BTreeSet<u128>,
    pub mesh_layers: LayerSet,
    pub rebuild_collision: bool,
    pub rebuild_navigation: bool,
    pub rebuild_exterior_shell: bool,
    pub rebuild_cutaway_groups: bool,
    pub rebuild_massing: bool,
    pub rebuild_hlod: bool,
}

pub struct DirtyView {
    pub levels: Set<u128>,
    pub rooms: Set<u128>,
    pub walls: Set<u128>,
    pub openings: Set<u128>,
    pub mesh_layers: LayerSet,
    pub rebuild_collision: bool,
    pub rebuild_navigation: bool,
    pub rebuild_exterior_shell: bool,
    pub rebuild_cutaway_groups: bool,
    pub rebuild_massing: bool,
    pub rebuild_hlod: bool,
}

impl View for DirtySet {
    type V = DirtyView;

    open spec fn view(&self) -> DirtyView {
        DirtyView {
            levels: self.levels@,
            rooms: self.rooms@,
            walls: self.walls@,
            openings: self.openings@,
            mesh_layers: self.mesh_layers,
            rebuild_collision: self.rebuild_collision,
            rebuild_navigation: self.rebuild_navigation,
            rebuild_exterior_shell: self.rebuild_exterior_shell,
            rebuild_cutaway_groups: self.rebuild_cutaway_groups,
            rebuild_massing: self.rebuild_massing,
            rebuild_hlod: self.rebuild_hlod,
        }
    }
}

pub open spec fn no_layers() -> LayerSet {
    LayerSet { structure: false, floor: false, roof: false, exterior_shell: false }
}

pub open spec fn clean() -> DirtyView {
    DirtyView {
        levels: Set::empty(),
        rooms: Set::empty(),
        walls: Set::empty(),
        openings: Set::empty(),
        mesh_layers: no_layers(),
        rebuild_collision: false,
        rebuild_navigation: false,
        rebuild_exterior_shell: false,
        rebuild_cutaway_groups: false,
        rebuild_massing: false,
        rebuild_hlod: false,
    }
}

/// The rooms on the two sides of a wall.
pub open spec fn wall_rooms(wall: WallPlan) -> Set<u128> {
    Set::new(|r: u128| wall.left_room == Some(r) || wall.right_room == Some(r))
}

/// A dirty set with a wall's level, its rooms and itself marked.
pub open spec fn with_wall(d: DirtyView, wall: WallPlan) -> DirtyView {
    DirtyView {
        walls: d.walls.insert(wall.id),
        levels: d.levels.insert(wall.level_id),
        rooms: d.rooms.union(wall_rooms(wall)),
        ..d
    }
}

/// What adding or removing an opening on a wall makes stale.
pub open spec fn opening_impact(wall: WallPlan, opening: OpeningPlan) -> DirtyView {
    let traversable = opening.kind is Door || opening.kind is Passage;
    let exterior = wall.left_room is None || wall.right_room is None;
    let marked = with_wall(clean(), wall);
    DirtyView {
        openings: Set::empty().insert(opening.id),
        mesh_layers: LayerSet { structure: true, exterior_shell: exterior, ..no_layers() },
        rebuild_hlod: true,
        rebuild_collision: traversable,
        rebuild_navigation: traversable,
        rebuild_exterior_shell: exterior,
        rebuild_cutaway_groups: exterior,
        ..marked
    }
}

/// What a change makes stale, or the element it names that the blueprint
/// lacks.
pub open spec fn impact(plan: PlanView, delta: PlanDelta) -> Result<DirtyView, BuildingError> {
    match delta {
        PlanDelta::AddOpening(opening) => match find_wall(plan.walls, opening.wall_id, plan.walls.len()) {
            None => Err(BuildingError::DeltaUnknownWall(opening.wall_id)),
            Some(wall) => Ok(opening_impact(wall, opening)),
        },
        PlanDelta::RemoveOpening(id) => match find_opening(plan.openings, id, plan.openings.len()) {
            None => Err(BuildingError::DeltaUnknownOpening(id)),
            Some(opening) => Ok(
                opening_impact(find_wall(plan.walls, opening.wall_id, plan.walls.len())->0, opening),
            ),
        },
        PlanDelta::ReplaceWall(replacement) => match find_wall(plan.walls, replacement.id, plan.walls.len()) {
            None => Err(BuildingError::DeltaUnknownWall(replacement.id)),
            Some(existing) => Ok(
                DirtyView {
                    mesh_layers: LayerSet { structure: true, exterior_shell: true, ..no_layers() },
                    rebuild_collision: true,
                    rebuild_navigation: true,
                    rebuild_exterior_shell: true,
                    rebuild_cutaway_groups: true,
                    rebuild_massing: true,
                    rebuild_hlod: true,
                    ..with_wall(with_wall(clean(), existing), replacement)
                },
            ),
        },
        PlanDelta::ChangeRoomPurpose { room_id, .. } => match find_room_level(
            plan.levels,
            room_id,
            plan.levels.len(),
        ) {
            None => Err(BuildingError::DeltaUnknownRoom(room_id)),
            Some(level_id) => Ok(
                DirtyView {
                    rooms: Set::empty().insert(room_id),
                    levels: Set::empty().insert(level_id),
                    rebuild_navigation: true,
                    ..clean()
                },
            ),
        },
    }
}

/// Whether a change can be weighed: an opening to remove stands on a wall
/// that the blueprint has.
pub open spec fn weighable(plan: PlanView, delta: PlanDelta) -> bool {
    delta matches PlanDelta::RemoveOpening(id) ==> (find_opening(plan.openings, id, plan.openings.len()) matches Some(
        opening,
    ) ==> find_wall(plan.walls, opening.wall_id, plan.walls.len()) is Some)
}

fn empty_dirty() -> (dirty: DirtySet)
    ensures
        dirty@ == clean(),
{
    DirtySet {
        levels: BTreeSet::new(),
        rooms: BTreeSet::new(),
        walls: BTreeSet::new(),
        openings: BTreeSet::new(),
        mesh_layers: LayerSet { structure: false, floor: false, roof: false, exterior_shell: false },
        rebuild_collision: false,
        rebuild_navigation: false,
        rebuild_exterior_shell: false,
        rebuild_cutaway_groups: false,
        rebuild_massing: false,
        rebuild_hlod: false,
    }
}

fn mark_wall_context(dirty: &mut DirtySet, wall: &WallPlan)
    ensures
        final(dirty)@ == with_wall(old(dirty)@, *wall),
{
    let ghost before = dirty@;
    dirty.walls.insert(wall.id);
    dirty.levels.insert(wall.level_id);
    if let Some(room) = wall.left_room {
        dirty.rooms.insert(room);
    }
    if let Some(room) = wall.right_room {
        dirty.rooms.insert(room);
    }
    assert(dirty@.rooms =~= before.rooms.union(wall_rooms(*wall)));
}

fn mark_opening(wall: &WallPlan, opening: &OpeningPlan) -> (dirty: DirtySet)
    ensures
        dirty@ == opening_impact(*wall, *opening),
{
    let mut dirty = empty_dirty();
    mark_wall_context(&mut dirty, wall);
    dirty.openings.insert(opening.id);
    dirty.mesh_layers.structure = true;
    dirty.rebuild_hlod = true;
    if opening.is_traversable() {
        dirty.rebuild_collision = true;
        dirty.rebuild_navigation = true;
    }
    if wall.is_exterior() {
        dirty.mesh_layers.exterior_shell = true;
        dirty.rebuild_exterior_shell = true;
        dirty.rebuild_cutaway_groups = true;
    }
    assert(dirty@.openings =~= Set::empty().insert(opening.id));
    dirty
}

/// What a change makes stale, or the element it names that the blueprint
/// lacks.
pub fn impact_for_delta(plan: &BlueprintPlan, delta: &PlanDelta) -> (result: Result<DirtySet, BuildingError>)
    requires
        weighable(plan@, *delta),
    ensures
        match (result, impact(plan@, *delta)) {
            (Ok(dirty), Ok(expected)) => dirty@ == expected,
            (Err(error), Err(expected)) => error == expected,
            _ => false,
        },
{
    match delta {
        PlanDelta::AddOpening(opening) => match wall_by_id(&plan.walls, opening.wall_id) {
            None => Err(BuildingError::DeltaUnknownWall(opening.wall_id)),
            Some(wall) => Ok(mark_opening(&wall, opening)),
        },
        PlanDelta::RemoveOpening(id) => match opening_by_id(&plan.openings, *id) {
            None => Err(BuildingError::DeltaUnknownOpening(*id)),
            Some(opening) => {
                let wall = wall_by_id(&plan.walls, opening.wall_id).unwrap();
                Ok(mark_opening(&wall, &opening))
            },
        },
        PlanDelta::ReplaceWall(replacement) => match wall_by_id(&plan.walls, replacement.id) {
            None => Err(BuildingError::DeltaUnknownWall(replacement.id)),
            Some(existing) => {
                let mut dirty = empty_dirty();
                mark_wall_context(&mut dirty, &existing);
                mark_wall_context(&mut dirty, replacement);
                dirty.mesh_layers.structure = true;
                dirty.mesh_layers.exterior_shell = true;
                dirty.rebuild_collision = true;
                dirty.rebuild_navigation = true;
                dirty.rebuild_exterior_shell = true;
                dirty.rebuild_cutaway_groups = true;
                dirty.rebuild_massing = true;
                dirty.rebuild_hlod = true;
                Ok(dirty)
            },
        },
        PlanDelta::ChangeRoomPurpose { room_id, .. } => match room_level_by_id(&plan.levels, *room_id) {
            None => Err(BuildingError::DeltaUnknownRoom(*room_id)),
            Some(level_id) => {
                let mut dirty = empty_dirty();
                dirty.rooms.insert(*room_id);
                dirty.levels.insert(level_id);
                dirty.rebuild_navigation = true;
                assert(dirty@.rooms =~= Set::empty().insert(*room_id));
                assert(dirty@.levels =~= Set::empty().insert(level_id));
                Ok(dirty)
            },
        },
    }
}

/// Adding an opening on a wall that the blueprint has marks the opening, its
/// wall, the wall's level and rooms, the structure layer and the far-view
/// rebuild; collision and navigation are rebuilt exactly when a person can
/// pass through the opening (a door or a passage), and the exterior shell
/// and cutaway groups exactly when the wall faces outside.
pub proof fn lemma_added_opening_marks(plan: PlanView, opening: OpeningPlan, j: int)
    requires
        0 <= j < plan.walls.len(),
        plan.walls[j].id == opening.wall_id,
        forall|k: int| 0 <= k < j ==> plan.walls[k].id != opening.wall_id,
    ensures
        ({
            let wall = plan.walls[j];
            let traversable = opening.kind is Door || opening.kind is Passage;
            let outside = wall.left_room is None || wall.right_room is None;
            &&& impact(plan, PlanDelta::AddOpening(opening)) is Ok
            &&& impact(plan, PlanDelta::AddOpening(opening)) matches Ok(d) && {
                &&& d.rebuild_navigation == traversable
                &&& d.rebuild_collision == traversable
                &&& d.openings == Set::empty().insert(opening.id)
                &&& d.walls == Set::empty().insert(wall.id)
                &&& d.levels == Set::empty().insert(wall.level_id)
                &&& (forall|r: u128| d.rooms.contains(r) <==> (wall.left_room == Some(r) || wall.right_room == Some(r)))
                &&& d.mesh_layers.structure
                &&& !d.mesh_layers.floor && !d.mesh_layers.roof
                &&& d.mesh_layers.exterior_shell == outside
                &&& d.rebuild_exterior_shell == outside
                &&& d.rebuild_cutaway_groups == outside
                &&& d.rebuild_hlod
                &&& !d.rebuild_massing
            }
        }),
{
    lemma_find_wall_first(plan.walls, opening.wall_id, j);
}

/// Removing an opening makes stale what adding it back would: the same
/// opening, wall, rooms, layers and rebuilds.
pub proof fn lemma_removing_marks_as_adding(plan: PlanView, id: u128, i: int)
    requires
        0 <= i < plan.openings.len(),
        plan.openings[i].id == id,
        forall|k: int| 0 <= k < i ==> plan.openings[k].id != id,
        weighable(plan, PlanDelta::RemoveOpening(id)),
    ensures
        impact(plan, PlanDelta::RemoveOpening(id)) == impact(plan, PlanDelta::AddOpening(plan.openings[i])),
        impact(plan, PlanDelta::RemoveOpening(id)) is Ok,
{
    lemma_find_opening_first(plan.openings, id, i);
}

/// A wall that is replaced marks both the old and the new wall with their
/// levels and rooms, and rebuilds every product; a room given a new purpose
/// marks that room and its level and rebuilds navigation alone.
pub proof fn lemma_wall_and_room_changes_mark(plan: PlanView, delta: PlanDelta)
    requires
        impact(plan, delta) is Ok,
    ensures
        impact(plan, delta) matches Ok(d) && match delta {
            PlanDelta::ReplaceWall(wall) => {
                &&& d.walls.contains(wall.id)
                &&& d.levels.contains(wall.level_id)
                &&& d.rebuild_collision && d.rebuild_navigation && d.rebuild_exterior_shell
                &&& d.rebuild_cutaway_groups && d.rebuild_massing && d.rebuild_hlod
                &&& d.mesh_layers.structure && d.mesh_layers.exterior_shell
                &&& d.openings.is_empty()
            },
            PlanDelta::ChangeRoomPurpose { room_id, .. } => {
                &&& d.rooms == Set::empty().insert(room_id)
                &&& d.levels.len() == 1
                &&& d.walls.is_empty() && d.openings.is_empty()
                &&& d.rebuild_navigation
                &&& !d.rebuild_collision && !d.rebuild_exterior_shell && !d.rebuild_cutaway_groups
                &&& !d.rebuild_massing && !d.rebuild_hlod
                &&& d.mesh_layers == no_layers()
            },
            _ => true,
        },
{
    match delta {
        PlanDelta::ChangeRoomPurpose { room_id, .. } => {
            let level_id = find_room_level(plan.levels, room_id, plan.levels.len())->0;
            assert(Set::<u128>::empty().insert(level_id).len() == 1);
        },
        _ => {},
    }
}

/// A change that names an element the blueprint lacks is refused with that
/// element: an opening on a wall, or a wall to replace, that no wall has the
/// identity of; an opening to remove that no opening has; a room that no
/// level holds.
pub proof fn lemma_unknown_elements_refused(plan: PlanView, delta: PlanDelta)
    ensures
        match delta {
            PlanDelta::AddOpening(opening) => (forall|k: int|
                0 <= k < plan.walls.len() ==> plan.walls[k].id != opening.wall_id) ==> impact(plan, delta) == Err::<
                DirtyView,
                BuildingError,
            >(BuildingError::DeltaUnknownWall(opening.wall_id)),
            PlanDelta::RemoveOpening(id) => (forall|k: int| 0 <= k < plan.openings.len() ==> plan.openings[k].id != id)
                ==> impact(plan, delta) == Err::<DirtyView, BuildingError>(BuildingError::DeltaUnknownOpening(id)),
            PlanDelta::ReplaceWall(wall) => (forall|k: int| 0 <= k < plan.walls.len() ==> plan.walls[k].id != wall.id)
                ==> impact(plan, delta) == Err::<DirtyView, BuildingError>(BuildingError::DeltaUnknownWall(wall.id)),
            PlanDelta::ChangeRoomPurpose { room_id, .. } => (forall|k: int|
                0 <= k < plan.levels.len() ==> !level_has_room(plan.levels[k], room_id)) ==> impact(plan, delta)
                == Err::<DirtyView, BuildingError>(BuildingError::DeltaUnknownRoom(room_id)),
        },
{
    match delta {
        PlanDelta::AddOpening(opening) => {
            if forall|k: int| 0 <= k < plan.walls.len() ==> plan.walls[k].id != opening.wall_id {
                lemma_find_wall_absent(plan.walls, opening.wall_id, plan.walls.len());
            }
        },
        PlanDelta::RemoveOpening(id) => {
            if forall|k: int| 0 <= k < plan.openings.len() ==> plan.openings[k].id != id {
                lemma_find_opening_absent(plan.openings, id, plan.openings.len());
            }
        },
        PlanDelta::ReplaceWall(wall) => {
            if forall|k: int| 0 <= k < plan.walls.len() ==> plan.walls[k].id != wall.id {
                lemma_find_wall_absent(plan.walls, wall.id, plan.walls.len());
            }
        },
        PlanDelta::ChangeRoomPurpose { room_id, .. } => {
            if forall|k: int| 0 <= k < plan.levels.len() ==> !level_has_room(plan.levels[k], room_id) {
                lemma_find_room_level_absent(plan.levels, room_id, plan.levels.len());
            }
        },
    }
}

proof fn lemma_find_wall_absent(walls: Seq<WallPlan>, id: u128, n: nat)
    requires
        n <= walls.len(),
        forall|k: int| 0 <= k < walls.len() ==> walls[k].id != id,
    ensures
        find_wall(walls, id, n) is None,
    decreases n,
{
    if n > 0 {
        lemma_find_wall_absent(walls, id, (n - 1) as nat);
    }
}

proof fn lemma_find_opening_absent(openings: Seq<OpeningPlan>, id: u128, n: nat)
    requires
        n <= openings.len(),
        forall|k: int| 0 <= k < openings.len() ==> openings[k].id != id,
    ensures
        find_opening(openings, id, n) is None,
    decreases n,
{
    if n > 0 {
        lemma_find_opening_absent(openings, id, (n - 1) as nat);
    }
}

proof fn lemma_find_room_level_absent(levels: Seq<LevelView>, id: u128, n: nat)
    requires
        n <= levels.len(),
        forall|k: int| 0 <= k < levels.len() ==> !level_has_room(levels[k], id),
    ensures
        find_room_level(levels, id, n) is None,
    decreases n,
{
    if n > 0 {
        lemma_find_room_level_absent(levels, id, (n - 1) as nat);
    }
}

} // verus!
