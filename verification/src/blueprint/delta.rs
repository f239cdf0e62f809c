//! Applying a change to a blueprint: the change is weighed first, then made,
//! the revision advances, and the changed blueprint must validate.
//!
//! The changed plan carries the geometric verdicts that its elements carry:
//! an added opening or a replacing wall brings its own, and the pairs of
//! overlapping openings are kept, less those that name a removed opening.

use super::impact::{impact, impact_for_delta, weighable, PlanDelta};
use super::plan::{
    level_has_room, BlueprintPlan, LevelPlan, LevelView, OpeningPlan, PlanView, RoofPlan, RoomPlan, StairPlan,
    WallPlan,
};
use super::validate::{blueprint_errors, validate_blueprint, BuildingError, ValidationReport};
use crate::building::RoomPurpose;
use vstd::prelude::*;

verus! {

/// The index of the first item at or after `i` whose identity is `id`, or
/// the length where there is none.
pub open spec fn first_wall_index(walls: Seq<WallPlan>, id: u128, i: nat) -> nat
    decreases walls.len() - i,
{
    if i >= walls.len() {
        walls.len()
    } else if walls[i as int].id == id {
        i
    } else {
        first_wall_index(walls, id, i + 1)
    }
}

pub open spec fn first_room_index(rooms: Seq<RoomPlan>, id: u128, i: nat) -> nat
    decreases rooms.len() - i,
{
    if i >= rooms.len() {
        rooms.len()
    } else if rooms[i as int].id == id {
        i
    } else {
        first_room_index(rooms, id, i + 1)
    }
}

/// The index of the first level at or after `i` that holds room `id`.
pub open spec fn first_room_level_index(levels: Seq<LevelView>, id: u128, i: nat) -> nat
    decreases levels.len() - i,
{
    if i >= levels.len() {
        levels.len()
    } else if level_has_room(levels[i as int], id) {
        i
    } else {
        first_room_level_index(levels, id, i + 1)
    }
}

/// The levels with the first room of identity `id` given a new purpose.
pub open spec fn repurposed(levels: Seq<LevelView>, id: u128, purpose: RoomPurpose) -> Seq<LevelView> {
    let li = first_room_level_index(levels, id, 0);
    if li >= levels.len() {
        levels
    } else {
        let level = levels[li as int];
        let ri = first_room_index(level.rooms, id, 0);
        if ri >= level.rooms.len() {
            levels
        } else {
            levels.update(
                li as int,
                LevelView { rooms: level.rooms.update(ri as int, RoomPlan { purpose, ..level.rooms[ri as int] }), ..level },
            )
        }
    }
}

/// Whether an overlap pair names opening `id`.
pub open spec fn names_opening(pair: (u128, u128), id: u128) -> bool {
    pair.0 == id || pair.1 == id
}

/// The blueprint with a change made, before its revision advances.
pub open spec fn changed(plan: PlanView, delta: PlanDelta) -> PlanView {
    match delta {
        PlanDelta::AddOpening(opening) => PlanView { openings: plan.openings.push(opening), ..plan },
        PlanDelta::RemoveOpening(id) => PlanView {
            openings: plan.openings.filter(|o: OpeningPlan| o.id != id),
            overlapping_openings: plan.overlapping_openings.filter(|p: (u128, u128)| !names_opening(p, id)),
            ..plan
        },
        PlanDelta::ReplaceWall(wall) => {
            let i = first_wall_index(plan.walls, wall.id, 0);
            PlanView {
                walls: if i < plan.walls.len() {
                    plan.walls.update(i as int, wall)
                } else {
                    plan.walls
                },
                ..plan
            }
        },
        PlanDelta::ChangeRoomPurpose { room_id, purpose } => PlanView {
            levels: repurposed(plan.levels, room_id, purpose),
            ..plan
        },
    }
}

/// Whether a change removes the blueprint's primary entry.
pub open spec fn removes_primary_entry(plan: PlanView, delta: PlanDelta) -> bool {
    delta matches PlanDelta::RemoveOpening(id) && id == plan.primary_entry
}

/// The revision after a change: one more, held at the largest revision.
pub open spec fn next_revision(revision: u64) -> u64 {
    if revision == u64::MAX {
        revision
    } else {
        (revision + 1) as u64
    }
}

/// The blueprint after a change: changed, with its revision advanced.
pub open spec fn revised(plan: PlanView, delta: PlanDelta) -> PlanView {
    PlanView { revision: next_revision(plan.revision), ..changed(plan, delta) }
}

fn copy_roofs(roofs: &Vec<RoofPlan>) -> (copy: Vec<RoofPlan>)
    ensures
        copy@ == roofs@,
{
    let mut copy: Vec<RoofPlan> = Vec::new();
    let mut i: usize = 0;
    while i < roofs.len()
        invariant
            i <= roofs.len(),
            copy@ == roofs@.take(i as int),
        decreases roofs.len() - i,
    {
        copy.push(roofs[i]);
        assert(roofs@.take(i + 1) =~= roofs@.take(i as int).push(roofs@[i as int]));
        i = i + 1;
    }
    assert(roofs@.take(roofs.len() as int) =~= roofs@);
    copy
}

fn copy_stairs(stairs: &Vec<StairPlan>) -> (copy: Vec<StairPlan>)
    ensures
        copy@ == stairs@,
{
    let mut copy: Vec<StairPlan> = Vec::new();
    let mut i: usize = 0;
    while i < stairs.len()
        invariant
            i <= stairs.len(),
            copy@ == stairs@.take(i as int),
        decreases stairs.len() - i,
    {
        copy.push(stairs[i]);
        assert(stairs@.take(i + 1) =~= stairs@.take(i as int).push(stairs@[i as int]));
        i = i + 1;
    }
    assert(stairs@.take(stairs.len() as int) =~= stairs@);
    copy
}

fn copy_walls(walls: &Vec<WallPlan>) -> (copy: Vec<WallPlan>)
    ensures
        copy@ == walls@,
{
    let mut copy: Vec<WallPlan> = Vec::new();
    let mut i: usize = 0;
    while i < walls.len()
        invariant
            i <= walls.len(),
            copy@ == walls@.take(i as int),
        decreases walls.len() - i,
    {
        copy.push(walls[i]);
        assert(walls@.take(i + 1) =~= walls@.take(i as int).push(walls@[i as int]));
        i = i + 1;
    }
    assert(walls@.take(walls.len() as int) =~= walls@);
    copy
}

fn copy_openings(openings: &Vec<OpeningPlan>) -> (copy: Vec<OpeningPlan>)
    ensures
        copy@ == openings@,
{
    let mut copy: Vec<OpeningPlan> = Vec::new();
    let mut i: usize = 0;
    while i < openings.len()
        invariant
            i <= openings.len(),
            copy@ == openings@.take(i as int),
        decreases openings.len() - i,
    {
        copy.push(openings[i]);
        assert(openings@.take(i + 1) =~= openings@.take(i as int).push(openings@[i as int]));
        i = i + 1;
    }
    assert(openings@.take(openings.len() as int) =~= openings@);
    copy
}

fn copy_pairs(pairs: &Vec<(u128, u128)>) -> (copy: Vec<(u128, u128)>)
    ensures
        copy@ == pairs@,
{
    let mut copy: Vec<(u128, u128)> = Vec::new();
    let mut i: usize = 0;
    while i < pairs.len()
        invariant
            i <= pairs.len(),
            copy@ == pairs@.take(i as int),
        decreases pairs.len() - i,
    {
        copy.push(pairs[i]);
        assert(pairs@.take(i + 1) =~= pairs@.take(i as int).push(pairs@[i as int]));
        i = i + 1;
    }
    assert(pairs@.take(pairs.len() as int) =~= pairs@);
    copy
}

fn copy_rooms(rooms: &Vec<RoomPlan>) -> (copy: Vec<RoomPlan>)
    ensures
        copy@ == rooms@,
{
    let mut copy: Vec<RoomPlan> = Vec::new();
    let mut i: usize = 0;
    while i < rooms.len()
        invariant
            i <= rooms.len(),
            copy@ == rooms@.take(i as int),
        decreases rooms.len() - i,
    {
        copy.push(rooms[i]);
        assert(rooms@.take(i + 1) =~= rooms@.take(i as int).push(rooms@[i as int]));
        i = i + 1;
    }
    assert(rooms@.take(rooms.len() as int) =~= rooms@);
    copy
}

fn copy_level(level: &LevelPlan) -> (copy: LevelPlan)
    ensures
        copy@ == level@,
{
    LevelPlan {
        id: level.id,
        index: level.index,
        geometry: level.geometry,
        rooms: copy_rooms(&level.rooms),
        overlapping_rooms: copy_pairs(&level.overlapping_rooms),
    }
}

/// The levels, with the first room of identity `id` given `purpose`.
fn repurpose_levels(levels: &Vec<LevelPlan>, id: u128, purpose: RoomPurpose) -> (copy: Vec<LevelPlan>)
    ensures
        copy@.map_values(|l: LevelPlan| l@) == repurposed(levels@.map_values(|l: LevelPlan| l@), id, purpose),
{
    let ghost views = levels@.map_values(|l: LevelPlan| l@);
    let mut li: usize = 0;
    while li < levels.len() && !room_in_level(&levels[li], id)
        invariant
            li <= levels.len(),
            views == levels@.map_values(|l: LevelPlan| l@),
            first_room_level_index(views, id, 0) == first_room_level_index(views, id, li as nat),
        decreases levels.len() - li,
    {
        li = li + 1;
    }
    let mut copy: Vec<LevelPlan> = Vec::new();
    let mut k: usize = 0;
    while k < levels.len()
        invariant
            k <= levels.len(),
            li <= levels.len(),
            views == levels@.map_values(|l: LevelPlan| l@),
            li == first_room_level_index(views, id, 0),
            copy@.map_values(|l: LevelPlan| l@) == repurposed(views, id, purpose).take(k as int),
        decreases levels.len() - k,
    {
        let level = copy_level(&levels[k]);
        if k == li {
            let mut ri: usize = 0;
            while ri < level.rooms.len() && level.rooms[ri].id != id
                invariant
                    ri <= level.rooms.len(),
                    first_room_index(level.rooms@, id, 0) == first_room_index(level.rooms@, id, ri as nat),
                decreases level.rooms.len() - ri,
            {
                ri = ri + 1;
            }
            let mut rooms = copy_rooms(&level.rooms);
            if ri < rooms.len() {
                let room = RoomPlan { purpose, ..rooms[ri] };
                rooms.set(ri, room);
            }
            let changed_level = LevelPlan {
                id: level.id,
                index: level.index,
                geometry: level.geometry,
                rooms,
                overlapping_rooms: level.overlapping_rooms,
            };
            let ghost before = copy@.map_values(|l: LevelPlan| l@);
            copy.push(changed_level);
            assert(copy@.map_values(|l: LevelPlan| l@) =~= before.push(changed_level@));
            assert(repurposed(views, id, purpose)[k as int] == changed_level@);
        } else {
            let ghost before = copy@.map_values(|l: LevelPlan| l@);
            copy.push(level);
            assert(copy@.map_values(|l: LevelPlan| l@) =~= before.push(level@));
            assert(repurposed(views, id, purpose)[k as int] == level@);
        }
        assert(repurposed(views, id, purpose).take(k + 1) =~= repurposed(views, id, purpose).take(
            k as int,
        ).push(repurposed(views, id, purpose)[k as int]));
        k = k + 1;
    }
    assert(repurposed(views, id, purpose).take(levels.len() as int) =~= repurposed(views, id, purpose));
    copy
}

fn room_in_level(level: &LevelPlan, id: u128) -> (found: bool)
    ensures
        found == level_has_room(level@, id),
{
    let mut j: usize = 0;
    while j < level.rooms.len()
        invariant
            j <= level.rooms.len(),
            forall|x: int| 0 <= x < j ==> level.rooms@[x].id != id,
        decreases level.rooms.len() - j,
    {
        if level.rooms[j].id == id {
            assert(level@.rooms[j as int].id == id);
            return true;
        }
        j = j + 1;
    }
    false
}

fn copy_levels(levels: &Vec<LevelPlan>) -> (copy: Vec<LevelPlan>)
    ensures
        copy@.map_values(|l: LevelPlan| l@) == levels@.map_values(|l: LevelPlan| l@),
{
    let ghost views = levels@.map_values(|l: LevelPlan| l@);
    let mut copy: Vec<LevelPlan> = Vec::new();
    let mut k: usize = 0;
    while k < levels.len()
        invariant
            k <= levels.len(),
            views == levels@.map_values(|l: LevelPlan| l@),
            copy@.map_values(|l: LevelPlan| l@) == views.take(k as int),
        decreases levels.len() - k,
    {
        let level = copy_level(&levels[k]);
        let ghost before = copy@.map_values(|l: LevelPlan| l@);
        copy.push(level);
        assert(copy@.map_values(|l: LevelPlan| l@) =~= before.push(level@));
        assert(views.take(k + 1) =~= views.take(k as int).push(views[k as int]));
        k = k + 1;
    }
    assert(views.take(levels.len() as int) =~= views);
    copy
}

fn without_opening(openings: &Vec<OpeningPlan>, id: u128) -> (kept: Vec<OpeningPlan>)
    ensures
        kept@ == openings@.filter(|o: OpeningPlan| o.id != id),
{
    let mut kept: Vec<OpeningPlan> = Vec::new();
    let mut i: usize = 0;
    while i < openings.len()
        invariant
            i <= openings.len(),
            kept@ == openings@.take(i as int).filter(|o: OpeningPlan| o.id != id),
        decreases openings.len() - i,
    {
        let opening = openings[i];
        proof {
            assert(openings@.take(i + 1).drop_last() =~= openings@.take(i as int));
            reveal(Seq::filter);
        }
        if opening.id != id {
            kept.push(opening);
        }
        i = i + 1;
    }
    assert(openings@.take(openings.len() as int) =~= openings@);
    kept
}

fn without_pairs_of(pairs: &Vec<(u128, u128)>, id: u128) -> (kept: Vec<(u128, u128)>)
    ensures
        kept@ == pairs@.filter(|p: (u128, u128)| !names_opening(p, id)),
{
    let mut kept: Vec<(u128, u128)> = Vec::new();
    let mut i: usize = 0;
    while i < pairs.len()
        invariant
            i <= pairs.len(),
            kept@ == pairs@.take(i as int).filter(|p: (u128, u128)| !names_opening(p, id)),
        decreases pairs.len() - i,
    {
        let pair = pairs[i];
        proof {
            assert(pairs@.take(i + 1).drop_last() =~= pairs@.take(i as int));
            reveal(Seq::filter);
        }
        if !(pair.0 == id || pair.1 == id) {
            kept.push(pair);
        }
        i = i + 1;
    }
    assert(pairs@.take(pairs.len() as int) =~= pairs@);
    kept
}

fn replace_first_wall(walls: &Vec<WallPlan>, wall: WallPlan) -> (copy: Vec<WallPlan>)
    ensures
        ({
            let i = first_wall_index(walls@, wall.id, 0);
            copy@ == if i < walls@.len() {
                walls@.update(i as int, wall)
            } else {
                walls@
            }
        }),
{
    let mut i: usize = 0;
    while i < walls.len() && walls[i].id != wall.id
        invariant
            i <= walls.len(),
            first_wall_index(walls@, wall.id, 0) == first_wall_index(walls@, wall.id, i as nat),
        decreases walls.len() - i,
    {
        i = i + 1;
    }
    let mut copy = copy_walls(walls);
    if i < copy.len() {
        copy.set(i, wall);
    }
    copy
}

/// The blueprint with a change made and its revision advanced.
fn revise(plan: &BlueprintPlan, delta: &PlanDelta) -> (updated: BlueprintPlan)
    ensures
        updated@ == revised(plan@, *delta),
{
    let revision = if plan.revision == u64::MAX {
        plan.revision
    } else {
        plan.revision + 1
    };
    let mut levels = copy_levels(&plan.levels);
    let mut walls = copy_walls(&plan.walls);
    let mut openings = copy_openings(&plan.openings);
    let mut overlapping = copy_pairs(&plan.overlapping_openings);
    match delta {
        PlanDelta::AddOpening(opening) => {
            openings.push(*opening);
        },
        PlanDelta::RemoveOpening(id) => {
            openings = without_opening(&plan.openings, *id);
            overlapping = without_pairs_of(&plan.overlapping_openings, *id);
        },
        PlanDelta::ReplaceWall(wall) => {
            walls = replace_first_wall(&plan.walls, *wall);
        },
        PlanDelta::ChangeRoomPurpose { room_id, purpose } => {
            levels = repurpose_levels(&plan.levels, *room_id, *purpose);
        },
    }
    let updated = BlueprintPlan {
        id: plan.id,
        revision,
        levels,
        walls,
        openings,
        stairs: copy_stairs(&plan.stairs),
        roofs: copy_roofs(&plan.roofs),
        primary_entry: plan.primary_entry,
        overlapping_openings: overlapping,
    };
    updated
}

/// Applies a change to a blueprint. A change that names an element the
/// blueprint lacks is refused with that error; removing the primary entry
/// is refused; otherwise the changed blueprint, with its revision advanced,
/// is returned where it validates, and refused with its errors where not.
pub fn apply_delta(plan: &BlueprintPlan, delta: &PlanDelta) -> (result: Result<BlueprintPlan, ValidationReport>)
    requires
        weighable(plan@, *delta),
    ensures
        match impact(plan@, *delta) {
            Err(error) => result matches Err(report) && report.errors@ == seq![error],
            Ok(_) => if removes_primary_entry(plan@, *delta) {
                result matches Err(report) && report.errors@ == seq![
                    BuildingError::InvalidPrimaryEntry(plan.primary_entry),
                ]
            } else if blueprint_errors(revised(plan@, *delta)).len() == 0 {
                result matches Ok(updated) && updated@ == revised(plan@, *delta)
            } else {
                result matches Err(report) && report.errors@ == blueprint_errors(revised(plan@, *delta))
            },
        },
{
    match impact_for_delta(plan, delta) {
        Err(error) => {
            let mut errors: Vec<BuildingError> = Vec::new();
            errors.push(error);
            assert(errors@ =~= seq![error]);
            return Err(ValidationReport::new(errors));
        },
        Ok(_) => {},
    }
    if let PlanDelta::RemoveOpening(id) = delta {
        if *id == plan.primary_entry {
            let mut errors: Vec<BuildingError> = Vec::new();
            errors.push(BuildingError::InvalidPrimaryEntry(*id));
            assert(errors@ =~= seq![BuildingError::InvalidPrimaryEntry(*id)]);
            return Err(ValidationReport::new(errors));
        }
    }
    let updated = revise(plan, delta);
    match validate_blueprint(&updated) {
        Ok(()) => Ok(updated),
        Err(report) => Err(report),
    }
}

/// Removing an opening takes out every opening with its identity and every
/// overlap pair that names it, keeps every other opening, adds none, and
/// leaves levels, walls, stairs, roofs and the primary entry as they were;
/// the revision advances by one, held at the largest revision.
pub proof fn lemma_removed_opening_is_gone(plan: PlanView, id: u128)
    ensures
        ({
            let r = revised(plan, PlanDelta::RemoveOpening(id));
            &&& forall|k: int| 0 <= k < r.openings.len() ==> (#[trigger] r.openings[k]).id != id
                && plan.openings.contains(r.openings[k])
            &&& forall|k: int|
                0 <= k < plan.openings.len() && (#[trigger] plan.openings[k]).id != id ==> r.openings.contains(
                    plan.openings[k],
                )
            &&& forall|k: int|
                0 <= k < r.overlapping_openings.len() ==> !names_opening(#[trigger] r.overlapping_openings[k], id)
            &&& r.levels == plan.levels && r.walls == plan.walls && r.stairs == plan.stairs
            &&& r.roofs == plan.roofs && r.primary_entry == plan.primary_entry && r.id == plan.id
            &&& r.revision == if plan.revision == u64::MAX {
                plan.revision
            } else {
                (plan.revision + 1) as u64
            }
        }),
{
    broadcast use vstd::seq_lib::group_filter_ensures;

    let r = revised(plan, PlanDelta::RemoveOpening(id));
    assert forall|k: int| 0 <= k < r.openings.len() implies (#[trigger] r.openings[k]).id != id
        && plan.openings.contains(r.openings[k]) by {
        plan.openings.lemma_filter_contains_rev(|o: OpeningPlan| o.id != id, r.openings[k]);
    }
}

/// Adding an opening appends it to the openings and changes nothing else
/// but the revision; replacing a wall puts the new wall where the first wall
/// with its identity stood.
pub proof fn lemma_added_and_replaced_elements(plan: PlanView, delta: PlanDelta)
    ensures
        ({
            let r = revised(plan, delta);
            match delta {
                PlanDelta::AddOpening(opening) => {
                    &&& r.openings.len() == plan.openings.len() + 1
                    &&& r.openings.last() == opening
                    &&& r.openings.take(plan.openings.len() as int) == plan.openings
                    &&& r.walls == plan.walls && r.levels == plan.levels
                },
                PlanDelta::ReplaceWall(wall) => {
                    &&& r.walls.len() == plan.walls.len()
                    &&& forall|i: int|
                        0 <= i < plan.walls.len() && (#[trigger] plan.walls[i]).id == wall.id && (forall|k: int|
                            0 <= k < i ==> plan.walls[k].id != wall.id) ==> r.walls[i] == wall && (forall|k: int|
                            0 <= k < plan.walls.len() && k != i ==> r.walls[k] == plan.walls[k])
                    &&& r.openings == plan.openings && r.levels == plan.levels
                },
                _ => true,
            }
        }),
{
    match delta {
        PlanDelta::AddOpening(opening) => {
            assert(plan.openings.push(opening).take(plan.openings.len() as int) =~= plan.openings);
        },
        PlanDelta::ReplaceWall(wall) => {
            assert forall|i: int|
                0 <= i < plan.walls.len() && (#[trigger] plan.walls[i]).id == wall.id && (forall|k: int|
                    0 <= k < i ==> plan.walls[k].id != wall.id) implies first_wall_index(plan.walls, wall.id, 0) == i by {
                lemma_first_wall_index_at(plan.walls, wall.id, 0, i);
            }
        },
        _ => {},
    }
}

proof fn lemma_first_wall_index_at(walls: Seq<WallPlan>, id: u128, from: nat, i: int)
    requires
        from <= i < walls.len(),
        walls[i].id == id,
        forall|k: int| from <= k < i ==> walls[k].id != id,
    ensures
        first_wall_index(walls, id, from) == i,
    decreases i - from,
{
    if from < i {
        lemma_first_wall_index_at(walls, id, from + 1, i);
    }
}

/// Giving a room a new purpose changes only that: the levels, their rooms
/// and every room's identity and footprint verdict stay, a room with another
/// identity keeps its purpose, and where a level holds the room, a room with
/// that identity now has the new purpose. Walls and openings stay too.
pub proof fn lemma_repurposed_room(plan: PlanView, room_id: u128, purpose: RoomPurpose)
    ensures
        ({
            let r = revised(plan, PlanDelta::ChangeRoomPurpose { room_id, purpose });
            &&& r.levels.len() == plan.levels.len()
            &&& forall|i: int|
                0 <= i < plan.levels.len() ==> {
                    let before = #[trigger] plan.levels[i];
                    let after = r.levels[i];
                    &&& after.id == before.id && after.index == before.index && after.geometry == before.geometry
                    &&& after.overlapping_rooms == before.overlapping_rooms
                    &&& after.rooms.len() == before.rooms.len()
                    &&& forall|j: int|
                        0 <= j < before.rooms.len() ==> (#[trigger] after.rooms[j]).id == before.rooms[j].id
                            && after.rooms[j].footprint_valid == before.rooms[j].footprint_valid && (
                        before.rooms[j].id != room_id ==> after.rooms[j] == before.rooms[j])
                }
            &&& (exists|i: int| 0 <= i < plan.levels.len() && level_has_room(#[trigger] plan.levels[i], room_id))
                ==> exists|i: int, j: int|
                0 <= i < r.levels.len() && 0 <= j < r.levels[i].rooms.len() && (#[trigger] r.levels[i].rooms[j]).id
                    == room_id && r.levels[i].rooms[j].purpose == purpose
            &&& r.walls == plan.walls && r.openings == plan.openings && r.stairs == plan.stairs
            &&& r.roofs == plan.roofs && r.primary_entry == plan.primary_entry
        }),
{
    let levels = plan.levels;
    let li = first_room_level_index(levels, room_id, 0);
    lemma_first_room_level_index_bound(levels, room_id, 0);
    if li < levels.len() {
        let level = levels[li as int];
        lemma_first_room_level_index_holds(levels, room_id, 0);
        lemma_first_room_index_bound(level.rooms, room_id, 0);
        lemma_first_room_index_finds(level.rooms, room_id, 0);
        let ri = first_room_index(level.rooms, room_id, 0);
        assert(ri < level.rooms.len());
        let r = revised(plan, PlanDelta::ChangeRoomPurpose { room_id, purpose });
        assert(r.levels[li as int].rooms[ri as int].id == room_id);
    } else {
        assert forall|i: int| 0 <= i < plan.levels.len() implies !level_has_room(#[trigger] plan.levels[i], room_id) by {
            lemma_first_room_level_index_none(levels, room_id, 0, i);
        }
    }
}

proof fn lemma_first_room_level_index_bound(levels: Seq<LevelView>, id: u128, i: nat)
    ensures
        i <= levels.len() ==> i <= first_room_level_index(levels, id, i) <= levels.len(),
        i > levels.len() ==> first_room_level_index(levels, id, i) == levels.len(),
    decreases levels.len() - i,
{
    if i < levels.len() {
        lemma_first_room_level_index_bound(levels, id, i + 1);
    }
}

proof fn lemma_first_room_level_index_holds(levels: Seq<LevelView>, id: u128, i: nat)
    requires
        first_room_level_index(levels, id, i) < levels.len(),
    ensures
        level_has_room(levels[first_room_level_index(levels, id, i) as int], id),
    decreases levels.len() - i,
{
    if i < levels.len() && !level_has_room(levels[i as int], id) {
        lemma_first_room_level_index_holds(levels, id, i + 1);
    }
}

proof fn lemma_first_room_level_index_none(levels: Seq<LevelView>, id: u128, i: nat, k: int)
    requires
        first_room_level_index(levels, id, i) >= levels.len(),
        i <= k < levels.len(),
    ensures
        !level_has_room(levels[k], id),
    decreases levels.len() - i,
{
    if i < k {
        lemma_first_room_level_index_none(levels, id, i + 1, k);
    }
}

proof fn lemma_first_room_index_bound(rooms: Seq<RoomPlan>, id: u128, i: nat)
    ensures
        i <= rooms.len() ==> i <= first_room_index(rooms, id, i) <= rooms.len(),
    decreases rooms.len() - i,
{
    if i < rooms.len() {
        lemma_first_room_index_bound(rooms, id, i + 1);
    }
}

proof fn lemma_first_room_index_finds(rooms: Seq<RoomPlan>, id: u128, i: nat)
    requires
        exists|j: int| i <= j < rooms.len() && #[trigger] rooms[j].id == id,
    ensures
        first_room_index(rooms, id, i) < rooms.len(),
        rooms[first_room_index(rooms, id, i) as int].id == id,
    decreases rooms.len() - i,
{
    if rooms[i as int].id != id {
        let j = choose|j: int| i <= j < rooms.len() && #[trigger] rooms[j].id == id;
        assert(i + 1 <= j);
        lemma_first_room_index_finds(rooms, id, i + 1);
    }
}

/// Every change advances the revision by one (held at the largest
/// revision) and keeps the blueprint's identity; the primary entry is
/// refused for removal and only it.
pub proof fn lemma_change_advances_revision(plan: PlanView, delta: PlanDelta)
    ensures
        plan.revision < u64::MAX ==> revised(plan, delta).revision == plan.revision + 1,
        plan.revision == u64::MAX ==> revised(plan, delta).revision == plan.revision,
        revised(plan, delta).id == plan.id,
        revised(plan, delta).primary_entry == plan.primary_entry,
        removes_primary_entry(plan, delta) <==> delta == PlanDelta::RemoveOpening(plan.primary_entry),
{
}

} // verus!
