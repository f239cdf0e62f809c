//! Applying world events to entity tables, shared by the authority and by
//! client projections.
//!
//! The authority applies events strictly: an item transfer must match the
//! item's recorded owner and quantity, and a container must hold the item it
//! gives up. A projection trusts the authority and skips those two checks.
//! An event that names a missing entity fails with an invariant error, and
//! the tables keep the changes made before the failing step.

use super::model::{
    ActorLocation, BuildingState, BuildingView, ContainerState, ContainerView, DoorState,
    EntitiesView, ItemOwner, ItemState, ItemView, PlayerState, PlayerView, VehicleState,
    VehicleView, WorldEvent, view_buildings, view_containers, view_items, view_players,
    view_vehicles,
};
use crate::ids::{BuildingInstanceId, ContainerId, DoorId, ItemId, PersonId, VehicleId};
use crate::protocol::EntityVersion;
use std::collections::BTreeMap;
use vstd::prelude::*;

verus! {

/// Errors of the authority and of projections.
#[derive(Debug)]
pub enum AuthorityError {
    Serialization(String),
    JournalSequence { expected: u64, actual: u64 },
    JournalRevision { expected: super::model::WorldRevision, actual: super::model::WorldRevision },
    JournalFingerprint,
    VersionConflict { expected: u64, actual: u64 },
    Invariant(String),
}

pub open spec fn bump(version: EntityVersion) -> EntityVersion {
    EntityVersion((version.0 + 1) as u64)
}

/// Every entity version stays below `bound`.
pub open spec fn versions_below(e: EntitiesView, bound: int) -> bool {
    &&& forall|k: PersonId| #[trigger] e.players.contains_key(k) ==> e.players[k].version.0 < bound
    &&& forall|k: DoorId| #[trigger] e.doors.contains_key(k) ==> e.doors[k].version.0 < bound
    &&& forall|k: ItemId| #[trigger] e.items.contains_key(k) ==> e.items[k].version.0 < bound
    &&& forall|k: ContainerId| #[trigger] e.containers.contains_key(k)
        ==> e.containers[k].version.0 < bound
    &&& forall|k: BuildingInstanceId| #[trigger] e.buildings.contains_key(k)
        ==> e.buildings[k].version.0 < bound
    &&& forall|k: VehicleId| #[trigger] e.vehicles.contains_key(k)
        ==> e.vehicles[k].version.0 < bound
}

/// Every entity version can be incremented twice, as much as one event
/// increments an entity (an item moved between two stacks of one holder).
pub open spec fn versions_bounded(e: EntitiesView) -> bool {
    versions_below(e, u64::MAX - 1)
}

pub open spec fn entities_of(
    players: Map<PersonId, PlayerState>,
    doors: Map<DoorId, DoorState>,
    items: Map<ItemId, ItemState>,
    containers: Map<ContainerId, ContainerState>,
    buildings: Map<BuildingInstanceId, BuildingState>,
    vehicles: Map<VehicleId, VehicleState>,
) -> EntitiesView {
    EntitiesView {
        players: view_players(players),
        doors: doors,
        items: view_items(items),
        containers: view_containers(containers),
        buildings: view_buildings(buildings),
        vehicles: view_vehicles(vehicles),
    }
}

pub open spec fn with_player(e: EntitiesView, id: PersonId, p: PlayerView) -> EntitiesView {
    EntitiesView { players: e.players.insert(id, p), ..e }
}

pub open spec fn with_container(e: EntitiesView, id: ContainerId, c: ContainerView) -> EntitiesView {
    EntitiesView { containers: e.containers.insert(id, c), ..e }
}

pub open spec fn with_vehicle(e: EntitiesView, id: VehicleId, v: VehicleView) -> EntitiesView {
    EntitiesView { vehicles: e.vehicles.insert(id, v), ..e }
}

/// A player placed at `location` in `cell`, one version on.
pub open spec fn relocated(p: PlayerView, cell: crate::ids::HexCoord, location: ActorLocation) -> PlayerView {
    PlayerView { current_cell: cell, location: location, version: bump(p.version), ..p }
}

/// Takes an item out of its owner's holdings; the second value tells whether it succeeded.
pub open spec fn spec_remove_reference(
    e: EntitiesView,
    item: ItemId,
    quantity: u32,
    owner: ItemOwner,
    strict: bool,
) -> (EntitiesView, bool) {
    match owner {
        ItemOwner::Container(c) => {
            if !e.containers.contains_key(c) {
                (e, false)
            } else if strict && !e.containers[c].item_ids.contains(item) {
                (e, false)
            } else {
                let old_c = e.containers[c];
                (
                    with_container(
                        e,
                        c,
                        ContainerView {
                            item_ids: old_c.item_ids.remove(item),
                            version: bump(old_c.version),
                            ..old_c
                        },
                    ),
                    true,
                )
            }
        },
        ItemOwner::Person(p) => {
            if !e.players.contains_key(p) {
                (e, false)
            } else {
                let old_p = e.players[p];
                let held = old_p.inventory.contains_key(item) && old_p.inventory[item] == quantity;
                let inventory = old_p.inventory.remove(item);
                if held {
                    (
                        with_player(
                            e,
                            p,
                            PlayerView { inventory, version: bump(old_p.version), ..old_p },
                        ),
                        true,
                    )
                } else {
                    (with_player(e, p, PlayerView { inventory, ..old_p }), false)
                }
            }
        },
        ItemOwner::Vehicle(_) => (e, true),
    }
}

/// Puts an item into its new owner's holdings; the second value tells whether it succeeded.
pub open spec fn spec_add_reference(
    e: EntitiesView,
    item: ItemId,
    quantity: u32,
    owner: ItemOwner,
) -> (EntitiesView, bool) {
    match owner {
        ItemOwner::Container(c) => {
            if !e.containers.contains_key(c) {
                (e, false)
            } else {
                let old_c = e.containers[c];
                (
                    with_container(
                        e,
                        c,
                        ContainerView {
                            item_ids: old_c.item_ids.insert(item),
                            version: bump(old_c.version),
                            ..old_c
                        },
                    ),
                    true,
                )
            }
        },
        ItemOwner::Person(p) => {
            if !e.players.contains_key(p) {
                (e, false)
            } else {
                let old_p = e.players[p];
                (
                    with_player(
                        e,
                        p,
                        PlayerView {
                            inventory: old_p.inventory.insert(item, quantity),
                            version: bump(old_p.version),
                            ..old_p
                        },
                    ),
                    true,
                )
            }
        },
        ItemOwner::Vehicle(_) => (e, true),
    }
}

/// The entity tables after an event, and whether the event applied cleanly.
pub open spec fn spec_apply_event(e: EntitiesView, event: WorldEvent, strict: bool) -> (EntitiesView, bool) {
    match event {
        WorldEvent::PlayerMoved { player_id, to_cell, .. } => {
            if !e.players.contains_key(player_id) {
                (e, false)
            } else {
                (
                    with_player(
                        e,
                        player_id,
                        relocated(e.players[player_id], to_cell, ActorLocation::InCell { cell: to_cell }),
                    ),
                    true,
                )
            }
        },
        WorldEvent::DoorToggled { door_id, is_open, .. } => {
            if !e.doors.contains_key(door_id) {
                (e, false)
            } else {
                let d = e.doors[door_id];
                (
                    EntitiesView {
                        doors: e.doors.insert(
                            door_id,
                            DoorState { is_open, version: bump(d.version), ..d },
                        ),
                        ..e
                    },
                    true,
                )
            }
        },
        WorldEvent::ItemTransferred { item_id, quantity, from, to, .. } => {
            if strict && (!e.items.contains_key(item_id) || e.items[item_id].owner != from
                || e.items[item_id].quantity != quantity) {
                (e, false)
            } else {
                let (e1, ok1) = spec_remove_reference(e, item_id, quantity, from, strict);
                if !ok1 {
                    (e1, false)
                } else {
                    let (e2, ok2) = spec_add_reference(e1, item_id, quantity, to);
                    if !ok2 {
                        (e2, false)
                    } else if !e2.items.contains_key(item_id) {
                        (e2, false)
                    } else {
                        let it = e2.items[item_id];
                        (
                            EntitiesView {
                                items: e2.items.insert(
                                    item_id,
                                    ItemView { owner: to, version: bump(it.version), ..it },
                                ),
                                ..e2
                            },
                            true,
                        )
                    }
                }
            }
        },
        WorldEvent::PlayerEnteredBuilding { player_id, building_id, cell, .. } => {
            if !e.players.contains_key(player_id) {
                (e, false)
            } else {
                (
                    with_player(
                        e,
                        player_id,
                        relocated(
                            e.players[player_id],
                            cell,
                            ActorLocation::InBuilding { cell, building_id },
                        ),
                    ),
                    true,
                )
            }
        },
        WorldEvent::PlayerLeftBuilding { player_id, cell, .. } => {
            if !e.players.contains_key(player_id) {
                (e, false)
            } else {
                (
                    with_player(
                        e,
                        player_id,
                        relocated(e.players[player_id], cell, ActorLocation::InCell { cell }),
                    ),
                    true,
                )
            }
        },
        WorldEvent::PlayerBoardedVehicle { player_id, vehicle_id, cell, .. } => {
            if !e.players.contains_key(player_id) {
                (e, false)
            } else {
                let e1 = with_player(
                    e,
                    player_id,
                    relocated(
                        e.players[player_id],
                        cell,
                        ActorLocation::InVehicle { cell, vehicle_id },
                    ),
                );
                if !e1.vehicles.contains_key(vehicle_id) {
                    (e1, false)
                } else {
                    let v = e1.vehicles[vehicle_id];
                    (
                        with_vehicle(
                            e1,
                            vehicle_id,
                            VehicleView {
                                passengers: v.passengers.insert(player_id),
                                version: bump(v.version),
                                ..v
                            },
                        ),
                        true,
                    )
                }
            }
        },
        WorldEvent::PlayerDisembarkedVehicle { player_id, vehicle_id, cell, .. } => {
            if !e.players.contains_key(player_id) {
                (e, false)
            } else {
                let e1 = with_player(
                    e,
                    player_id,
                    relocated(e.players[player_id], cell, ActorLocation::InCell { cell }),
                );
                if !e1.vehicles.contains_key(vehicle_id) {
                    (e1, false)
                } else {
                    let v = e1.vehicles[vehicle_id];
                    (
                        with_vehicle(
                            e1,
                            vehicle_id,
                            VehicleView {
                                passengers: v.passengers.remove(player_id),
                                version: bump(v.version),
                                ..v
                            },
                        ),
                        true,
                    )
                }
            }
        },
        WorldEvent::OpeningAdded { building_id, wall_id, opening_id, .. } => {
            if !e.buildings.contains_key(building_id) {
                (e, false)
            } else {
                let b = e.buildings[building_id];
                (
                    EntitiesView {
                        buildings: e.buildings.insert(
                            building_id,
                            BuildingView {
                                openings: b.openings.insert(opening_id, wall_id),
                                version: bump(b.version),
                                ..b
                            },
                        ),
                        ..e
                    },
                    true,
                )
            }
        },
    }
}

fn invariant_error(message: &str) -> (error: AuthorityError)
    ensures
        error is Invariant,
{
    AuthorityError::Invariant(message.to_owned())
}

fn relocate_player(
    players: &mut BTreeMap<PersonId, PlayerState>,
    player_id: PersonId,
    cell: crate::ids::HexCoord,
    location: ActorLocation,
) -> (found: bool)
    requires
        old(players)@.contains_key(player_id) ==> old(players)@[player_id].version.0 < u64::MAX,
    ensures
        found == old(players)@.contains_key(player_id),
        found ==> view_players(final(players)@) == view_players(old(players)@).insert(
            player_id,
            relocated(old(players)@[player_id]@, cell, location),
        ),
        !found ==> final(players)@ == old(players)@,
{
    match players.remove(&player_id) {
        None => false,
        Some(mut player) => {
            player.current_cell = cell;
            player.location = location;
            player.version = EntityVersion(player.version.0 + 1);
            players.insert(player_id, player);
            proof {
                assert(view_players(final(players)@) =~= view_players(old(players)@).insert(
                    player_id,
                    relocated(old(players)@[player_id]@, cell, location),
                ));
            }
            true
        },
    }
}

fn remove_reference(
    players: &mut BTreeMap<PersonId, PlayerState>,
    containers: &mut BTreeMap<ContainerId, ContainerState>,
    item: ItemId,
    quantity: u32,
    owner: ItemOwner,
    strict: bool,
    Ghost(doors): Ghost<Map<DoorId, DoorState>>,
    Ghost(items): Ghost<Map<ItemId, ItemState>>,
    Ghost(buildings): Ghost<Map<BuildingInstanceId, BuildingState>>,
    Ghost(vehicles): Ghost<Map<VehicleId, VehicleState>>,
) -> (ok: bool)
    requires
        versions_bounded(
            entities_of(old(players)@, doors, items, old(containers)@, buildings, vehicles),
        ),
    ensures
        ({
            let (e, success) = spec_remove_reference(
                entities_of(old(players)@, doors, items, old(containers)@, buildings, vehicles),
                item,
                quantity,
                owner,
                strict,
            );
            &&& ok == success
            &&& entities_of(final(players)@, doors, items, final(containers)@, buildings, vehicles) == e
        }),
{
    let ghost e0 = entities_of(old(players)@, doors, items, old(containers)@, buildings, vehicles);
    match owner {
        ItemOwner::Container(container_id) => {
            match containers.remove(&container_id) {
                None => {
                    assert(final(containers)@ =~= old(containers)@);
                    false
                },
                Some(mut container) => {
                    assert(e0.containers.contains_key(container_id));
                    assert(e0.containers[container_id].version == container.version);
                    let present = container.item_ids.remove(&item);
                    if strict && !present {
                        containers.insert(container_id, container);
                        proof {
                            assert(container.item_ids@ == old(containers)@[container_id].item_ids@);
                            assert(view_containers(final(containers)@) =~= view_containers(
                                old(containers)@,
                            ));
                        }
                        return false;
                    }
                    container.version = EntityVersion(container.version.0 + 1);
                    containers.insert(container_id, container);
                    proof {
                        let expected = spec_remove_reference(e0, item, quantity, owner, strict).0;
                        assert(view_containers(final(containers)@) =~= expected.containers);
                    }
                    true
                },
            }
        },
        ItemOwner::Person(person_id) => {
            match players.remove(&person_id) {
                None => {
                    assert(final(players)@ =~= old(players)@);
                    false
                },
                Some(mut player) => {
                    assert(e0.players.contains_key(person_id));
                    assert(e0.players[person_id].version == player.version);
                    let removed = player.inventory.remove(&item);
                    let held = match removed {
                        Some(q) => q == quantity,
                        None => false,
                    };
                    if held {
                        player.version = EntityVersion(player.version.0 + 1);
                    }
                    players.insert(person_id, player);
                    proof {
                        let expected = spec_remove_reference(e0, item, quantity, owner, strict).0;
                        assert(view_players(final(players)@) =~= expected.players);
                    }
                    held
                },
            }
        },
        ItemOwner::Vehicle(_) => true,
    }
}

fn add_reference(
    players: &mut BTreeMap<PersonId, PlayerState>,
    containers: &mut BTreeMap<ContainerId, ContainerState>,
    item: ItemId,
    quantity: u32,
    owner: ItemOwner,
    Ghost(doors): Ghost<Map<DoorId, DoorState>>,
    Ghost(items): Ghost<Map<ItemId, ItemState>>,
    Ghost(buildings): Ghost<Map<BuildingInstanceId, BuildingState>>,
    Ghost(vehicles): Ghost<Map<VehicleId, VehicleState>>,
) -> (ok: bool)
    requires
        versions_below(
            entities_of(old(players)@, doors, items, old(containers)@, buildings, vehicles),
            u64::MAX as int,
        ),
    ensures
        ({
            let (e, success) = spec_add_reference(
                entities_of(old(players)@, doors, items, old(containers)@, buildings, vehicles),
                item,
                quantity,
                owner,
            );
            &&& ok == success
            &&& entities_of(final(players)@, doors, items, final(containers)@, buildings, vehicles) == e
        }),
{
    let ghost e0 = entities_of(old(players)@, doors, items, old(containers)@, buildings, vehicles);
    match owner {
        ItemOwner::Container(container_id) => {
            match containers.remove(&container_id) {
                None => {
                    assert(final(containers)@ =~= old(containers)@);
                    false
                },
                Some(mut container) => {
                    assert(e0.containers.contains_key(container_id));
                    assert(e0.containers[container_id].version == container.version);
                    container.item_ids.insert(item);
                    container.version = EntityVersion(container.version.0 + 1);
                    containers.insert(container_id, container);
                    proof {
                        let expected = spec_add_reference(e0, item, quantity, owner).0;
                        assert(view_containers(final(containers)@) =~= expected.containers);
                    }
                    true
                },
            }
        },
        ItemOwner::Person(person_id) => {
            match players.remove(&person_id) {
                None => {
                    assert(final(players)@ =~= old(players)@);
                    false
                },
                Some(mut player) => {
                    assert(e0.players.contains_key(person_id));
                    assert(e0.players[person_id].version == player.version);
                    player.inventory.insert(item, quantity);
                    player.version = EntityVersion(player.version.0 + 1);
                    players.insert(person_id, player);
                    proof {
                        let expected = spec_add_reference(e0, item, quantity, owner).0;
                        assert(view_players(final(players)@) =~= expected.players);
                    }
                    true
                },
            }
        },
        ItemOwner::Vehicle(_) => true,
    }
}

/// Applies one event to the six entity tables; see the module documentation
/// for the difference between strict and trusting application.
pub fn apply_event_to(
    players: &mut BTreeMap<PersonId, PlayerState>,
    doors: &mut BTreeMap<DoorId, DoorState>,
    items: &mut BTreeMap<ItemId, ItemState>,
    containers: &mut BTreeMap<ContainerId, ContainerState>,
    buildings: &mut BTreeMap<BuildingInstanceId, BuildingState>,
    vehicles: &mut BTreeMap<VehicleId, VehicleState>,
    event: &WorldEvent,
    strict: bool,
) -> (result: Result<(), AuthorityError>)
    requires
        versions_bounded(
            entities_of(
                old(players)@,
                old(doors)@,
                old(items)@,
                old(containers)@,
                old(buildings)@,
                old(vehicles)@,
            ),
        ),
    ensures
        ({
            let (e, ok) = spec_apply_event(
                entities_of(
                    old(players)@,
                    old(doors)@,
                    old(items)@,
                    old(containers)@,
                    old(buildings)@,
                    old(vehicles)@,
                ),
                *event,
                strict,
            );
            &&& entities_of(
                final(players)@,
                final(doors)@,
                final(items)@,
                final(containers)@,
                final(buildings)@,
                final(vehicles)@,
            ) == e
            &&& (result is Ok <==> ok)
            &&& (result matches Err(error) ==> error is Invariant)
        }),
{
    let ghost e0 = entities_of(
        old(players)@,
        old(doors)@,
        old(items)@,
        old(containers)@,
        old(buildings)@,
        old(vehicles)@,
    );
    match *event {
        WorldEvent::PlayerMoved { player_id, to_cell, .. } => {
            assert(e0.players.contains_key(player_id) ==> e0.players[player_id].version.0 < u64::MAX);
            if relocate_player(players, player_id, to_cell, ActorLocation::InCell { cell: to_cell }) {
                Ok(())
            } else {
                Err(invariant_error("move player missing"))
            }
        },
        WorldEvent::DoorToggled { door_id, is_open, .. } => {
            match doors.remove(&door_id) {
                None => {
                    assert(final(doors)@ =~= old(doors)@);
                    Err(invariant_error("door missing"))
                },
                Some(door) => {
                    assert(e0.doors.contains_key(door_id));
                    doors.insert(
                        door_id,
                        DoorState { is_open, version: EntityVersion(door.version.0 + 1), ..door },
                    );
                    proof {
                        assert(final(doors)@ =~= spec_apply_event(e0, *event, strict).0.doors);
                    }
                    Ok(())
                },
            }
        },
        WorldEvent::ItemTransferred { item_id, quantity, from, to, .. } => {
            if strict {
                let matches = match items.get(&item_id) {
                    None => false,
                    Some(item) => item.owner == from && item.quantity == quantity,
                };
                if !matches {
                    return Err(invariant_error("item transfer source no longer matches"));
                }
            }
            let removed = remove_reference(
                players,
                containers,
                item_id,
                quantity,
                from,
                strict,
                Ghost(old(doors)@),
                Ghost(old(items)@),
                Ghost(old(buildings)@),
                Ghost(old(vehicles)@),
            );
            if !removed {
                return Err(invariant_error("source holder did not contain the item"));
            }
            let ghost e1 = entities_of(
                players@,
                old(doors)@,
                old(items)@,
                containers@,
                old(buildings)@,
                old(vehicles)@,
            );
            proof {
                assert(versions_below(e1, u64::MAX as int)) by {
                    assert forall|k: PersonId| #[trigger] e1.players.contains_key(k)
                        implies e1.players[k].version.0 < u64::MAX by {
                        if let ItemOwner::Person(p) = from {
                            if k != p {
                                assert(e0.players.contains_key(k));
                            } else {
                                assert(e0.players.contains_key(p));
                                assert(e1.players[k].version == bump(e0.players[p].version));
                            }
                        } else {
                            assert(e0.players.contains_key(k));
                        }
                    }
                    assert forall|k: ContainerId| #[trigger] e1.containers.contains_key(k)
                        implies e1.containers[k].version.0 < u64::MAX by {
                        assert(e0.containers.contains_key(k));
                    }
                }
            }
            let added = add_reference(
                players,
                containers,
                item_id,
                quantity,
                to,
                Ghost(old(doors)@),
                Ghost(old(items)@),
                Ghost(old(buildings)@),
                Ghost(old(vehicles)@),
            );
            if !added {
                return Err(invariant_error("target holder is missing"));
            }
            match items.remove(&item_id) {
                None => {
                    assert(final(items)@ =~= old(items)@);
                    Err(invariant_error("item missing"))
                },
                Some(mut item) => {
                    assert(e0.items.contains_key(item_id));
                    item.owner = to;
                    item.version = EntityVersion(item.version.0 + 1);
                    items.insert(item_id, item);
                    proof {
                        assert(view_items(final(items)@) =~= spec_apply_event(
                            e0,
                            *event,
                            strict,
                        ).0.items);
                    }
                    Ok(())
                },
            }
        },
        WorldEvent::PlayerEnteredBuilding { player_id, building_id, cell, .. } => {
            assert(e0.players.contains_key(player_id) ==> e0.players[player_id].version.0 < u64::MAX);
            if relocate_player(
                players,
                player_id,
                cell,
                ActorLocation::InBuilding { cell, building_id },
            ) {
                Ok(())
            } else {
                Err(invariant_error("enter player missing"))
            }
        },
        WorldEvent::PlayerLeftBuilding { player_id, cell, .. } => {
            assert(e0.players.contains_key(player_id) ==> e0.players[player_id].version.0 < u64::MAX);
            if relocate_player(players, player_id, cell, ActorLocation::InCell { cell }) {
                Ok(())
            } else {
                Err(invariant_error("leave player missing"))
            }
        },
        WorldEvent::PlayerBoardedVehicle { player_id, vehicle_id, cell, .. } => {
            assert(e0.players.contains_key(player_id) ==> e0.players[player_id].version.0 < u64::MAX);
            if !relocate_player(
                players,
                player_id,
                cell,
                ActorLocation::InVehicle { cell, vehicle_id },
            ) {
                return Err(invariant_error("board player missing"));
            }
            match vehicles.remove(&vehicle_id) {
                None => {
                    assert(final(vehicles)@ =~= old(vehicles)@);
                    Err(invariant_error("vehicle missing"))
                },
                Some(mut vehicle) => {
                    assert(e0.vehicles.contains_key(vehicle_id));
                    vehicle.passengers.insert(player_id);
                    vehicle.version = EntityVersion(vehicle.version.0 + 1);
                    vehicles.insert(vehicle_id, vehicle);
                    proof {
                        assert(view_vehicles(final(vehicles)@) =~= spec_apply_event(
                            e0,
                            *event,
                            strict,
                        ).0.vehicles);
                    }
                    Ok(())
                },
            }
        },
        WorldEvent::PlayerDisembarkedVehicle { player_id, vehicle_id, cell, .. } => {
            assert(e0.players.contains_key(player_id) ==> e0.players[player_id].version.0 < u64::MAX);
            if !relocate_player(players, player_id, cell, ActorLocation::InCell { cell }) {
                return Err(invariant_error("disembark player missing"));
            }
            match vehicles.remove(&vehicle_id) {
                None => {
                    assert(final(vehicles)@ =~= old(vehicles)@);
                    Err(invariant_error("vehicle missing"))
                },
                Some(mut vehicle) => {
                    assert(e0.vehicles.contains_key(vehicle_id));
                    vehicle.passengers.remove(&player_id);
                    vehicle.version = EntityVersion(vehicle.version.0 + 1);
                    vehicles.insert(vehicle_id, vehicle);
                    proof {
                        assert(view_vehicles(final(vehicles)@) =~= spec_apply_event(
                            e0,
                            *event,
                            strict,
                        ).0.vehicles);
                    }
                    Ok(())
                },
            }
        },
        WorldEvent::OpeningAdded { building_id, wall_id, opening_id, .. } => {
            match buildings.remove(&building_id) {
                None => {
                    assert(final(buildings)@ =~= old(buildings)@);
                    Err(invariant_error("building missing"))
                },
                Some(mut building) => {
                    assert(e0.buildings.contains_key(building_id));
                    building.openings.insert(opening_id, wall_id);
                    building.version = EntityVersion(building.version.0 + 1);
                    buildings.insert(building_id, building);
                    proof {
                        assert(view_buildings(final(buildings)@) =~= spec_apply_event(
                            e0,
                            *event,
                            strict,
                        ).0.buildings);
                    }
                    Ok(())
                },
            }
        },
    }
}

/// The entity tables after the first `n` events, stopping at the first
/// event that fails.
pub open spec fn spec_apply_events(e: EntitiesView, events: Seq<WorldEvent>, n: nat, strict: bool) -> (EntitiesView, bool)
    decreases n,
{
    if n == 0 || n > events.len() {
        (e, true)
    } else {
        let (e1, ok) = spec_apply_events(e, events, (n - 1) as nat, strict);
        if !ok {
            (e1, false)
        } else {
            spec_apply_event(e1, events[n - 1], strict)
        }
    }
}

/// Once an event fails, the later events change nothing.
pub proof fn lemma_events_stop(e: EntitiesView, events: Seq<WorldEvent>, from: nat, to: nat, strict: bool)
    requires
        from <= to <= events.len(),
        !spec_apply_events(e, events, from, strict).1,
    ensures
        spec_apply_events(e, events, to, strict) == spec_apply_events(e, events, from, strict),
    decreases to - from,
{
    if from < to {
        lemma_events_stop(e, events, from, (to - 1) as nat, strict);
    }
}

/// One event raises any entity version by at most two.
pub proof fn lemma_event_version_growth(e: EntitiesView, event: WorldEvent, strict: bool, bound: int)
    requires
        versions_below(e, bound),
    ensures
        versions_below(spec_apply_event(e, event, strict).0, bound + 2),
{
    let r = spec_apply_event(e, event, strict).0;
    assert forall|k: PersonId| #[trigger] r.players.contains_key(k) implies r.players[k].version.0 < bound + 2 by {
        assert(e.players.contains_key(k));
    }
    assert forall|k: DoorId| #[trigger] r.doors.contains_key(k) implies r.doors[k].version.0 < bound + 2 by {
        assert(e.doors.contains_key(k));
    }
    assert forall|k: ItemId| #[trigger] r.items.contains_key(k) implies r.items[k].version.0 < bound + 2 by {
        assert(e.items.contains_key(k));
    }
    assert forall|k: ContainerId| #[trigger] r.containers.contains_key(k) implies r.containers[k].version.0 < bound + 2 by {
        assert(e.containers.contains_key(k));
    }
    assert forall|k: BuildingInstanceId| #[trigger] r.buildings.contains_key(k) implies r.buildings[k].version.0 < bound + 2 by {
        assert(e.buildings.contains_key(k));
    }
    assert forall|k: VehicleId| #[trigger] r.vehicles.contains_key(k) implies r.vehicles[k].version.0 < bound + 2 by {
        assert(e.vehicles.contains_key(k));
    }
}

/// A version bound also holds for any larger bound.
pub proof fn lemma_versions_below_weaken(e: EntitiesView, a: int, b: int)
    requires
        versions_below(e, a),
        a <= b,
    ensures
        versions_below(e, b),
{
}

/// `n` events raise any entity version by at most `2 * n`.
pub proof fn lemma_events_version_growth(e: EntitiesView, events: Seq<WorldEvent>, n: nat, strict: bool, bound: int)
    requires
        versions_below(e, bound),
    ensures
        versions_below(spec_apply_events(e, events, n, strict).0, bound + 2 * n),
    decreases n,
{
    if n == 0 || n > events.len() {
        lemma_versions_below_weaken(e, bound, bound + 2 * n);
    } else {
        lemma_events_version_growth(e, events, (n - 1) as nat, strict, bound);
        let (e1, ok) = spec_apply_events(e, events, (n - 1) as nat, strict);
        if ok {
            lemma_event_version_growth(e1, events[n - 1], strict, bound + 2 * (n - 1));
        } else {
            lemma_versions_below_weaken(e1, bound + 2 * (n - 1), bound + 2 * n);
        }
    }
}

/// Applies a sequence of events in order, stopping at the first failure.
pub fn apply_events_to(
    players: &mut BTreeMap<PersonId, PlayerState>,
    doors: &mut BTreeMap<DoorId, DoorState>,
    items: &mut BTreeMap<ItemId, ItemState>,
    containers: &mut BTreeMap<ContainerId, ContainerState>,
    buildings: &mut BTreeMap<BuildingInstanceId, BuildingState>,
    vehicles: &mut BTreeMap<VehicleId, VehicleState>,
    events: &Vec<WorldEvent>,
    strict: bool,
) -> (result: Result<(), AuthorityError>)
    requires
        versions_below(
            entities_of(
                old(players)@,
                old(doors)@,
                old(items)@,
                old(containers)@,
                old(buildings)@,
                old(vehicles)@,
            ),
            u64::MAX + 1 - 2 * events@.len(),
        ),
    ensures
        ({
            let (e, ok) = spec_apply_events(
                entities_of(
                    old(players)@,
                    old(doors)@,
                    old(items)@,
                    old(containers)@,
                    old(buildings)@,
                    old(vehicles)@,
                ),
                events@,
                events@.len(),
                strict,
            );
            &&& entities_of(
                final(players)@,
                final(doors)@,
                final(items)@,
                final(containers)@,
                final(buildings)@,
                final(vehicles)@,
            ) == e
            &&& (result is Ok <==> ok)
            &&& (result matches Err(error) ==> error is Invariant)
        }),
{
    let ghost e0 = entities_of(
        old(players)@,
        old(doors)@,
        old(items)@,
        old(containers)@,
        old(buildings)@,
        old(vehicles)@,
    );
    let mut i: usize = 0;
    while i < events.len()
        invariant
            i <= events.len(),
            e0 == entities_of(
                old(players)@,
                old(doors)@,
                old(items)@,
                old(containers)@,
                old(buildings)@,
                old(vehicles)@,
            ),
            spec_apply_events(e0, events@, i as nat, strict) == (
                entities_of(players@, doors@, items@, containers@, buildings@, vehicles@),
                true,
            ),
            versions_below(
                entities_of(players@, doors@, items@, containers@, buildings@, vehicles@),
                u64::MAX + 1 - 2 * (events@.len() - i),
            ),
        decreases events.len() - i,
    {
        let ghost before = entities_of(players@, doors@, items@, containers@, buildings@, vehicles@);
        proof {
            lemma_event_version_growth(before, events@[i as int], strict, u64::MAX + 1 - 2 * (events@.len() - i));
        }
        let r = apply_event_to(players, doors, items, containers, buildings, vehicles, &events[i], strict);
        proof {
            assert(spec_apply_events(e0, events@, (i + 1) as nat, strict) == spec_apply_event(
                before,
                events@[i as int],
                strict,
            ));
        }
        if r.is_err() {
            proof {
                assert(spec_apply_events(e0, events@, (i + 1) as nat, strict) == spec_apply_event(
                    before,
                    events@[i as int],
                    strict,
                ));
                lemma_events_stop(e0, events@, (i + 1) as nat, events@.len(), strict);
                let after = entities_of(players@, doors@, items@, containers@, buildings@, vehicles@);
                assert(spec_apply_event(before, events@[i as int], strict).0 == after);
                assert(!spec_apply_event(before, events@[i as int], strict).1);
                assert(spec_apply_events(e0, events@, events@.len(), strict) == (after, false));
            }
            return r;
        }
        i = i + 1;
    }
    Ok(())
}

} // verus!
