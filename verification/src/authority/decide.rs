//! What the authority decides for a first-time command: a rejection with its
//! code, a session change, a sync, or one world event to apply.

use super::model::{
    ActorLocation, AuthorityCommand, AuthorityCommandEnvelope, EnvelopeView, ItemOwner,
    SessionState, WorldEvent, WorldRevision, WorldState, WorldView, P5_SCHEMA_VERSION,
};
use crate::ids::HexCoord;
use std::collections::BTreeMap;
use super::events::{bump, versions_bounded};
use crate::ids::{ClientId, CommandId, EventId};
use crate::protocol::{EntityVersion, RejectionCode};
use crate::rng::{append_decimal, decimal};
use vstd::prelude::*;
use vstd::string::StringExecFns;

verus! {

/// The authority's decision on a command that it has not seen before.
pub enum Decision {
    /// The command is refused with this code and message and changes nothing.
    Reject(RejectionCode, Seq<char>),
    /// The session's actor is no longer a player: an invariant failure.
    ActorMissing,
    /// A new session is recorded and the client receives a snapshot.
    Connect,
    /// The client's session ends.
    Disconnect,
    /// The client receives a sync payload and its session is acknowledged.
    Sync,
    /// This event is applied and the target entity reaches this version.
    Apply(WorldEvent, EntityVersion),
}

/// The identifier of the `index`-th event caused by a command.
pub open spec fn spec_event_id(command_id: CommandId, index: u32) -> EventId {
    let rotated = (command_id << 29u128) | (command_id >> 99u128);
    rotated.wrapping_add(0x9e37_79b9_7f4a_7c15u128) ^ ((index + 1) as u128)
}

pub fn event_id(command_id: CommandId, index: u32) -> (id: EventId)
    requires
        index < u32::MAX,
    ensures
        id == spec_event_id(command_id, index),
{
    let rotated = (command_id << 29) | (command_id >> 99);
    rotated.wrapping_add(0x9e37_79b9_7f4a_7c15u128) ^ ((index + 1) as u128)
}

/// The entity version check of a mutation: refused when a version was
/// expected and differs from the actual one.
pub open spec fn version_conflict(env: EnvelopeView, actual: EntityVersion) -> bool {
    env.expected_entity_version is Some && env.expected_entity_version->0 != actual
}

/// The message of an entity version that differs from the one expected.
#[verifier::opaque]
pub open spec fn entity_conflict_message(env: EnvelopeView, actual: EntityVersion) -> Seq<char> {
    let expected = env.expected_entity_version->0;
    "entity version mismatch: expected "@ + decimal(expected.0 as nat) + ", actual "@ + decimal(actual.0 as nat)
}

/// The message of a world revision that differs from the one expected.
#[verifier::opaque]
pub open spec fn revision_conflict_message(expected: WorldRevision, actual: WorldRevision) -> Seq<char> {
    "world revision mismatch: expected "@ + decimal(expected.0 as nat) + ", actual "@ + decimal(actual.0 as nat)
}

/// The decision on a world mutation by a connected actor.
pub open spec fn decide_mutation(w: WorldView, env: EnvelopeView) -> Decision {
    let players = w.entities.players;
    if !players.contains_key(env.actor_id) {
        Decision::ActorMissing
    } else {
        let actor = players[env.actor_id];
        let eid = spec_event_id(env.command_id, 0);
        match env.payload {
            AuthorityCommand::MoveAlongRoute { route_id, destination } => {
                if version_conflict(env, actor.version) {
                    Decision::Reject(RejectionCode::VersionConflict, entity_conflict_message(env, actor.version))
                } else if !w.routes.contains_key(route_id) {
                    Decision::Reject(RejectionCode::InvalidPayload, "route does not exist"@)
                } else if !w.routes[route_id].ordered_cells.contains(actor.current_cell)
                    || !w.routes[route_id].ordered_cells.contains(destination)
                    || actor.current_cell == destination {
                    Decision::Reject(RejectionCode::InvalidState, "destination is not a distinct cell on the selected route"@)
                } else {
                    Decision::Apply(
                        WorldEvent::PlayerMoved {
                            event_id: eid,
                            player_id: actor.id,
                            route_id,
                            from_cell: actor.current_cell,
                            to_cell: destination,
                        },
                        bump(actor.version),
                    )
                }
            },
            AuthorityCommand::ToggleDoor { door_id } => {
                if !w.entities.doors.contains_key(door_id) {
                    Decision::Reject(RejectionCode::InvalidPayload, "door does not exist"@)
                } else {
                    let door = w.entities.doors[door_id];
                    if version_conflict(env, door.version) {
                        Decision::Reject(RejectionCode::VersionConflict, entity_conflict_message(env, door.version))
                    } else if w.entities.buildings[door.building_id].cell != actor.current_cell {
                        Decision::Reject(RejectionCode::PermissionDenied, "actor is not in the door's region"@)
                    } else {
                        Decision::Apply(
                            WorldEvent::DoorToggled { event_id: eid, door_id, is_open: !door.is_open },
                            bump(door.version),
                        )
                    }
                }
            },
            AuthorityCommand::TakeItem { item_id, quantity } => {
                if !w.entities.items.contains_key(item_id) {
                    Decision::Reject(RejectionCode::InvalidPayload, "item does not exist"@)
                } else {
                    let item = w.entities.items[item_id];
                    if version_conflict(env, item.version) {
                        Decision::Reject(RejectionCode::VersionConflict, entity_conflict_message(env, item.version))
                    } else if quantity != item.quantity || quantity == 0 {
                        Decision::Reject(RejectionCode::InvalidPayload, "prototype item stacks must be transferred whole"@)
                    } else {
                        match item.owner {
                            ItemOwner::Container(container_id) => {
                                if w.entities.containers[container_id].cell != actor.current_cell {
                                    Decision::Reject(RejectionCode::PermissionDenied, "item container is outside the actor's region"@)
                                } else {
                                    Decision::Apply(
                                        WorldEvent::ItemTransferred {
                                            event_id: eid,
                                            item_id,
                                            quantity,
                                            from: ItemOwner::Container(container_id),
                                            to: ItemOwner::Person(actor.id),
                                        },
                                        bump(item.version),
                                    )
                                }
                            },
                            _ => Decision::Reject(RejectionCode::InvalidState, "item is not in a world container"@),
                        }
                    }
                }
            },
            AuthorityCommand::PutItem { item_id, quantity, container_id } => {
                if !w.entities.items.contains_key(item_id) {
                    Decision::Reject(RejectionCode::InvalidPayload, "item does not exist"@)
                } else {
                    let item = w.entities.items[item_id];
                    if version_conflict(env, item.version) {
                        Decision::Reject(RejectionCode::VersionConflict, entity_conflict_message(env, item.version))
                    } else if item.owner != ItemOwner::Person(actor.id) || quantity != item.quantity {
                        Decision::Reject(RejectionCode::InvalidState, "actor does not own the requested complete item stack"@)
                    } else if !w.entities.containers.contains_key(container_id) {
                        Decision::Reject(RejectionCode::InvalidPayload, "target container does not exist"@)
                    } else if w.entities.containers[container_id].cell != actor.current_cell {
                        Decision::Reject(RejectionCode::PermissionDenied, "target container is outside the actor's region"@)
                    } else {
                        Decision::Apply(
                            WorldEvent::ItemTransferred {
                                event_id: eid,
                                item_id,
                                quantity,
                                from: ItemOwner::Person(actor.id),
                                to: ItemOwner::Container(container_id),
                            },
                            bump(item.version),
                        )
                    }
                }
            },
            AuthorityCommand::EnterBuilding { building_id } => {
                if version_conflict(env, actor.version) {
                    Decision::Reject(RejectionCode::VersionConflict, entity_conflict_message(env, actor.version))
                } else if !w.entities.buildings.contains_key(building_id) {
                    Decision::Reject(RejectionCode::InvalidPayload, "building does not exist"@)
                } else {
                    let building = w.entities.buildings[building_id];
                    if building.cell != actor.current_cell || !(actor.location is InCell) {
                        Decision::Reject(RejectionCode::InvalidState, "actor cannot enter this building from the current location"@)
                    } else {
                        Decision::Apply(
                            WorldEvent::PlayerEnteredBuilding {
                                event_id: eid,
                                player_id: actor.id,
                                building_id,
                                cell: building.cell,
                            },
                            bump(actor.version),
                        )
                    }
                }
            },
            AuthorityCommand::LeaveBuilding => {
                if version_conflict(env, actor.version) {
                    Decision::Reject(RejectionCode::VersionConflict, entity_conflict_message(env, actor.version))
                } else {
                    match actor.location {
                        ActorLocation::InBuilding { cell, building_id } => Decision::Apply(
                            WorldEvent::PlayerLeftBuilding {
                                event_id: eid,
                                player_id: actor.id,
                                building_id,
                                cell,
                            },
                            bump(actor.version),
                        ),
                        _ => Decision::Reject(RejectionCode::InvalidState, "actor is not inside a building"@),
                    }
                }
            },
            AuthorityCommand::BoardVehicle { vehicle_id } => {
                if !w.entities.vehicles.contains_key(vehicle_id) {
                    Decision::Reject(RejectionCode::InvalidPayload, "vehicle does not exist"@)
                } else {
                    let vehicle = w.entities.vehicles[vehicle_id];
                    if version_conflict(env, vehicle.version) {
                        Decision::Reject(RejectionCode::VersionConflict, entity_conflict_message(env, vehicle.version))
                    } else if vehicle.cell != actor.current_cell || !(actor.location is InCell) {
                        Decision::Reject(RejectionCode::InvalidState, "actor cannot board this vehicle from the current location"@)
                    } else {
                        Decision::Apply(
                            WorldEvent::PlayerBoardedVehicle {
                                event_id: eid,
                                player_id: actor.id,
                                vehicle_id,
                                cell: vehicle.cell,
                            },
                            bump(vehicle.version),
                        )
                    }
                }
            },
            AuthorityCommand::DisembarkVehicle => {
                match actor.location {
                    ActorLocation::InVehicle { cell, vehicle_id } => {
                        let vehicle = w.entities.vehicles[vehicle_id];
                        if version_conflict(env, vehicle.version) {
                            Decision::Reject(RejectionCode::VersionConflict, entity_conflict_message(env, vehicle.version))
                        } else {
                            Decision::Apply(
                                WorldEvent::PlayerDisembarkedVehicle {
                                    event_id: eid,
                                    player_id: actor.id,
                                    vehicle_id,
                                    cell,
                                },
                                bump(vehicle.version),
                            )
                        }
                    },
                    _ => Decision::Reject(RejectionCode::InvalidState, "actor is not aboard a vehicle"@),
                }
            },
            AuthorityCommand::AddOpening { building_id, wall_id, opening_id } => {
                if !w.entities.buildings.contains_key(building_id) {
                    Decision::Reject(RejectionCode::InvalidPayload, "building does not exist"@)
                } else {
                    let building = w.entities.buildings[building_id];
                    if version_conflict(env, building.version) {
                        Decision::Reject(RejectionCode::VersionConflict, entity_conflict_message(env, building.version))
                    } else if actor.location != (ActorLocation::InBuilding {
                        cell: building.cell,
                        building_id,
                    }) || !building.editors.contains(actor.id) {
                        Decision::Reject(RejectionCode::PermissionDenied, "actor cannot edit this building"@)
                    } else if !building.wall_ids.contains(wall_id) || building.openings.contains_key(
                        opening_id,
                    ) {
                        Decision::Reject(RejectionCode::InvalidState, "wall is invalid or opening already exists"@)
                    } else {
                        Decision::Apply(
                            WorldEvent::OpeningAdded { event_id: eid, building_id, wall_id, opening_id },
                            bump(building.version),
                        )
                    }
                }
            },
            _ => Decision::Reject(RejectionCode::InvalidState, "command is not a world mutation"@),
        }
    }
}

/// The decision on a command that the authority has not seen before.
pub open spec fn spec_decide(
    w: WorldView,
    sessions: Map<ClientId, SessionState>,
    env: EnvelopeView,
) -> Decision {
    if env.schema_version.0 != P5_SCHEMA_VERSION {
        Decision::Reject(RejectionCode::UnsupportedSchema, "unsupported command schema"@)
    } else if env.target_world != w.world_id {
        Decision::Reject(RejectionCode::InvalidPayload, "command targets another world"@)
    } else {
        match env.payload {
            AuthorityCommand::Connect { last_acknowledged_revision, .. } => {
                if !w.entities.players.contains_key(env.actor_id) {
                    Decision::Reject(RejectionCode::PermissionDenied, "actor is not a player in this world"@)
                } else if last_acknowledged_revision.0 > w.revision.0 {
                    Decision::Reject(RejectionCode::InvalidPayload, "client revision is ahead of the server"@)
                } else {
                    Decision::Connect
                }
            },
            _ => {
                if !sessions.contains_key(env.audit.client_id) {
                    Decision::Reject(RejectionCode::PermissionDenied, "client is not connected"@)
                } else if sessions[env.audit.client_id].session_id != env.audit.session_id
                    || sessions[env.audit.client_id].actor_id != env.actor_id {
                    Decision::Reject(RejectionCode::PermissionDenied, "session identity does not match the command actor"@)
                } else {
                    match env.payload {
                        AuthorityCommand::Disconnect => Decision::Disconnect,
                        AuthorityCommand::RequestSync { .. } => Decision::Sync,
                        _ => {
                            if env.expected_world_revision is Some
                                && env.expected_world_revision->0 != w.revision {
                                Decision::Reject(RejectionCode::VersionConflict, revision_conflict_message(env.expected_world_revision->0, w.revision))
                            } else {
                                decide_mutation(w, env)
                            }
                        },
                    }
                }
            },
        }
    }
}

/// Whether deciding `env` goes on to a world mutation: the schema, the
/// target world and the session check pass, the command is not a session or
/// sync command, and any expected world revision matches.
pub open spec fn reaches_mutation(
    w: WorldView,
    sessions: Map<ClientId, SessionState>,
    env: EnvelopeView,
) -> bool {
    &&& env.schema_version.0 == P5_SCHEMA_VERSION
    &&& env.target_world == w.world_id
    &&& !(env.payload is Connect)
    &&& sessions.contains_key(env.audit.client_id)
    &&& sessions[env.audit.client_id].session_id == env.audit.session_id
    &&& sessions[env.audit.client_id].actor_id == env.actor_id
    &&& !(env.payload is Disconnect)
    &&& !(env.payload is RequestSync)
    &&& !(env.expected_world_revision is Some && env.expected_world_revision->0 != w.revision)
}

/// The cross-reference that a mutation follows once its earlier checks pass
/// exists: a toggled door's building, the container of an item taken whole,
/// the vehicle that carries a disembarking actor.
pub open spec fn mutation_references_hold(w: WorldView, env: EnvelopeView) -> bool {
    let e = w.entities;
    e.players.contains_key(env.actor_id) ==> match env.payload {
        AuthorityCommand::ToggleDoor { door_id } => e.doors.contains_key(door_id) && !version_conflict(
            env,
            e.doors[door_id].version,
        ) ==> e.buildings.contains_key(e.doors[door_id].building_id),
        AuthorityCommand::TakeItem { item_id, quantity } => e.items.contains_key(item_id) && !version_conflict(
            env,
            e.items[item_id].version,
        ) && quantity == e.items[item_id].quantity && quantity != 0 ==> match e.items[item_id].owner {
            ItemOwner::Container(c) => e.containers.contains_key(c),
            _ => true,
        },
        AuthorityCommand::DisembarkVehicle => match e.players[env.actor_id].location {
            ActorLocation::InVehicle { vehicle_id, .. } => e.vehicles.contains_key(vehicle_id),
            _ => true,
        },
        _ => true,
    }
}

/// The references that deciding `env` follows exist.
pub open spec fn references_ready(w: WorldView, sessions: Map<ClientId, SessionState>, env: EnvelopeView) -> bool {
    reaches_mutation(w, sessions, env) ==> mutation_references_hold(w, env)
}

/// The authority can decide `env`: the references that the decision follows
/// exist, and a version that an applied event bumps has room to grow.
pub open spec fn decision_ready(w: WorldView, sessions: Map<ClientId, SessionState>, env: EnvelopeView) -> bool {
    &&& references_ready(w, sessions, env)
    &&& spec_decide(w, sessions, env) is Apply ==> versions_bounded(w.entities)
}

/// An executable decision; rejections carry their message.
pub enum Verdict {
    Reject(RejectionCode, String),
    ActorMissing,
    Connect,
    Disconnect,
    Sync,
    Apply(WorldEvent, EntityVersion),
}

pub open spec fn verdict_decision(v: Verdict) -> Decision {
    match v {
        Verdict::Reject(code, message) => Decision::Reject(code, message@),
        Verdict::ActorMissing => Decision::ActorMissing,
        Verdict::Connect => Decision::Connect,
        Verdict::Disconnect => Decision::Disconnect,
        Verdict::Sync => Decision::Sync,
        Verdict::Apply(event, version) => Decision::Apply(event, version),
    }
}

fn reject(code: RejectionCode, message: &str) -> (v: Verdict)
    ensures
        verdict_decision(v) == Decision::Reject(code, message@),
{
    Verdict::Reject(code, message.to_owned())
}

/// The message of a world revision that differs from the one expected.
fn revision_mismatch_message(expected: u64, actual: u64) -> (message: String)
    ensures
        message@ == "world revision mismatch: expected "@ + decimal(expected as nat) + ", actual "@ + decimal(
            actual as nat,
        ),
{
    let mut text = "world revision mismatch: expected ".to_owned();
    append_decimal(&mut text, expected as u128);
    text.append(", actual ");
    append_decimal(&mut text, actual as u128);
    text
}

/// The message of an entity version that differs from the one expected.
fn entity_version_mismatch_message(expected: u64, actual: u64) -> (message: String)
    ensures
        message@ == "entity version mismatch: expected "@ + decimal(expected as nat) + ", actual "@ + decimal(
            actual as nat,
        ),
{
    let mut text = "entity version mismatch: expected ".to_owned();
    append_decimal(&mut text, expected as u128);
    text.append(", actual ");
    append_decimal(&mut text, actual as u128);
    text
}

fn version_rejection(env: &AuthorityCommandEnvelope, actual: EntityVersion) -> (v: Option<Verdict>)
    ensures
        v is Some <==> version_conflict(env@, actual),
        v matches Some(v) ==> verdict_decision(v) == Decision::Reject(
            RejectionCode::VersionConflict,
            entity_conflict_message(env@, actual),
        ),
{
    reveal(entity_conflict_message);
    match env.expected_entity_version {
        Some(expected) => {
            if expected.0 != actual.0 {
                Some(
                    Verdict::Reject(
                        RejectionCode::VersionConflict,
                        entity_version_mismatch_message(expected.0, actual.0),
                    ),
                )
            } else {
                None
            }
        },
        None => None,
    }
}

fn route_contains(cells: &Vec<HexCoord>, cell: HexCoord) -> (found: bool)
    ensures
        found == cells@.contains(cell),
{
    let mut i: usize = 0;
    while i < cells.len()
        invariant
            i <= cells.len(),
            forall|k: int| 0 <= k < i ==> cells@[k] != cell,
        decreases cells.len() - i,
    {
        if cells[i] == cell {
            assert(cells@[i as int] == cell);
            return true;
        }
        i = i + 1;
    }
    false
}

/// The version after `version`, as `bump` says.
fn next_version(version: EntityVersion) -> (next: EntityVersion)
    ensures
        next == bump(version),
{
    if version.0 < u64::MAX {
        EntityVersion(version.0 + 1)
    } else {
        let x = version.0;
        assert(x == 0xffff_ffff_ffff_ffffu64 ==> (x + 1) as u64 == 0u64) by (bit_vector);
        EntityVersion(0)
    }
}

/// Decides a world mutation by a connected actor.
fn decide_mutation_exec(world: &WorldState, env: &AuthorityCommandEnvelope) -> (v: Verdict)
    requires
        mutation_references_hold(world@, env@),
    ensures
        verdict_decision(v) == decide_mutation(world@, env@),
{
    let ghost w = world@;
    let actor = match world.players.get(&env.actor_id) {
        Some(actor) => actor,
        None => {
            return Verdict::ActorMissing;
        },
    };
    assert(w.entities.players.contains_key(env.actor_id));
    assert(w.entities.players[env.actor_id] == actor@);
    let eid = event_id(env.command_id, 0);
    match env.payload {
        AuthorityCommand::MoveAlongRoute { route_id, destination } => {
            if let Some(v) = version_rejection(env, actor.version) {
                return v;
            }
            let route = match world.routes.get(&route_id) {
                Some(route) => route,
                None => {
                    return reject(RejectionCode::InvalidPayload, "route does not exist");
                },
            };
            assert(w.routes.contains_key(route_id) && w.routes[route_id] == route@);
            if !route_contains(&route.ordered_cells, actor.current_cell) || !route_contains(
                &route.ordered_cells,
                destination,
            ) || actor.current_cell == destination {
                return reject(
                    RejectionCode::InvalidState,
                    "destination is not a distinct cell on the selected route",
                );
            }
            Verdict::Apply(
                WorldEvent::PlayerMoved {
                    event_id: eid,
                    player_id: actor.id,
                    route_id,
                    from_cell: actor.current_cell,
                    to_cell: destination,
                },
                next_version(actor.version),
            )
        },
        AuthorityCommand::ToggleDoor { door_id } => {
            let door = match world.doors.get(&door_id) {
                Some(door) => *door,
                None => {
                    return reject(RejectionCode::InvalidPayload, "door does not exist");
                },
            };
            if let Some(v) = version_rejection(env, door.version) {
                return v;
            }
            assert(w.entities.doors.contains_key(door_id));
            let building = match world.buildings.get(&door.building_id) {
                Some(building) => building,
                None => {
                    assert(false);
                    return Verdict::ActorMissing;
                },
            };
            assert(w.entities.buildings[door.building_id] == building@);
            if building.cell != actor.current_cell {
                return reject(RejectionCode::PermissionDenied, "actor is not in the door's region");
            }
            Verdict::Apply(
                WorldEvent::DoorToggled { event_id: eid, door_id, is_open: !door.is_open },
                next_version(door.version),
            )
        },
        AuthorityCommand::TakeItem { item_id, quantity } => {
            let item = match world.items.get(&item_id) {
                Some(item) => item,
                None => {
                    return reject(RejectionCode::InvalidPayload, "item does not exist");
                },
            };
            assert(w.entities.items.contains_key(item_id) && w.entities.items[item_id] == item@);
            if let Some(v) = version_rejection(env, item.version) {
                return v;
            }
            if quantity != item.quantity || quantity == 0 {
                return reject(
                    RejectionCode::InvalidPayload,
                    "prototype item stacks must be transferred whole",
                );
            }
            let container_id = match item.owner {
                ItemOwner::Container(container_id) => container_id,
                _ => {
                    return reject(RejectionCode::InvalidState, "item is not in a world container");
                },
            };
            let container = match world.containers.get(&container_id) {
                Some(container) => container,
                None => {
                    assert(false);
                    return Verdict::ActorMissing;
                },
            };
            assert(w.entities.containers[container_id] == container@);
            if container.cell != actor.current_cell {
                return reject(
                    RejectionCode::PermissionDenied,
                    "item container is outside the actor's region",
                );
            }
            Verdict::Apply(
                WorldEvent::ItemTransferred {
                    event_id: eid,
                    item_id,
                    quantity,
                    from: ItemOwner::Container(container_id),
                    to: ItemOwner::Person(actor.id),
                },
                next_version(item.version),
            )
        },
        AuthorityCommand::PutItem { item_id, quantity, container_id } => {
            let item = match world.items.get(&item_id) {
                Some(item) => item,
                None => {
                    return reject(RejectionCode::InvalidPayload, "item does not exist");
                },
            };
            assert(w.entities.items.contains_key(item_id) && w.entities.items[item_id] == item@);
            if let Some(v) = version_rejection(env, item.version) {
                return v;
            }
            if item.owner != ItemOwner::Person(actor.id) || quantity != item.quantity {
                return reject(
                    RejectionCode::InvalidState,
                    "actor does not own the requested complete item stack",
                );
            }
            let container = match world.containers.get(&container_id) {
                Some(container) => container,
                None => {
                    return reject(RejectionCode::InvalidPayload, "target container does not exist");
                },
            };
            assert(w.entities.containers.contains_key(container_id));
            assert(w.entities.containers[container_id] == container@);
            if container.cell != actor.current_cell {
                return reject(
                    RejectionCode::PermissionDenied,
                    "target container is outside the actor's region",
                );
            }
            Verdict::Apply(
                WorldEvent::ItemTransferred {
                    event_id: eid,
                    item_id,
                    quantity,
                    from: ItemOwner::Person(actor.id),
                    to: ItemOwner::Container(container_id),
                },
                next_version(item.version),
            )
        },
        AuthorityCommand::EnterBuilding { building_id } => {
            if let Some(v) = version_rejection(env, actor.version) {
                return v;
            }
            let building = match world.buildings.get(&building_id) {
                Some(building) => building,
                None => {
                    return reject(RejectionCode::InvalidPayload, "building does not exist");
                },
            };
            assert(w.entities.buildings.contains_key(building_id));
            assert(w.entities.buildings[building_id] == building@);
            let in_cell = match actor.location {
                ActorLocation::InCell { .. } => true,
                _ => false,
            };
            if building.cell != actor.current_cell || !in_cell {
                return reject(
                    RejectionCode::InvalidState,
                    "actor cannot enter this building from the current location",
                );
            }
            Verdict::Apply(
                WorldEvent::PlayerEnteredBuilding {
                    event_id: eid,
                    player_id: actor.id,
                    building_id,
                    cell: building.cell,
                },
                next_version(actor.version),
            )
        },
        AuthorityCommand::LeaveBuilding => {
            if let Some(v) = version_rejection(env, actor.version) {
                return v;
            }
            match actor.location {
                ActorLocation::InBuilding { cell, building_id } => Verdict::Apply(
                    WorldEvent::PlayerLeftBuilding {
                        event_id: eid,
                        player_id: actor.id,
                        building_id,
                        cell,
                    },
                    next_version(actor.version),
                ),
                _ => reject(RejectionCode::InvalidState, "actor is not inside a building"),
            }
        },
        AuthorityCommand::BoardVehicle { vehicle_id } => {
            let vehicle = match world.vehicles.get(&vehicle_id) {
                Some(vehicle) => vehicle,
                None => {
                    return reject(RejectionCode::InvalidPayload, "vehicle does not exist");
                },
            };
            assert(w.entities.vehicles.contains_key(vehicle_id));
            assert(w.entities.vehicles[vehicle_id] == vehicle@);
            if let Some(v) = version_rejection(env, vehicle.version) {
                return v;
            }
            let in_cell = match actor.location {
                ActorLocation::InCell { .. } => true,
                _ => false,
            };
            if vehicle.cell != actor.current_cell || !in_cell {
                return reject(
                    RejectionCode::InvalidState,
                    "actor cannot board this vehicle from the current location",
                );
            }
            Verdict::Apply(
                WorldEvent::PlayerBoardedVehicle {
                    event_id: eid,
                    player_id: actor.id,
                    vehicle_id,
                    cell: vehicle.cell,
                },
                next_version(vehicle.version),
            )
        },
        AuthorityCommand::DisembarkVehicle => {
            let (cell, vehicle_id) = match actor.location {
                ActorLocation::InVehicle { cell, vehicle_id } => (cell, vehicle_id),
                _ => {
                    return reject(RejectionCode::InvalidState, "actor is not aboard a vehicle");
                },
            };
            let vehicle = match world.vehicles.get(&vehicle_id) {
                Some(vehicle) => vehicle,
                None => {
                    assert(false);
                    return Verdict::ActorMissing;
                },
            };
            assert(w.entities.vehicles[vehicle_id] == vehicle@);
            if let Some(v) = version_rejection(env, vehicle.version) {
                return v;
            }
            Verdict::Apply(
                WorldEvent::PlayerDisembarkedVehicle {
                    event_id: eid,
                    player_id: actor.id,
                    vehicle_id,
                    cell,
                },
                next_version(vehicle.version),
            )
        },
        AuthorityCommand::AddOpening { building_id, wall_id, opening_id } => {
            let building = match world.buildings.get(&building_id) {
                Some(building) => building,
                None => {
                    return reject(RejectionCode::InvalidPayload, "building does not exist");
                },
            };
            assert(w.entities.buildings.contains_key(building_id));
            assert(w.entities.buildings[building_id] == building@);
            if let Some(v) = version_rejection(env, building.version) {
                return v;
            }
            if actor.location != (ActorLocation::InBuilding { cell: building.cell, building_id })
                || !building.editors.contains(&actor.id) {
                return reject(RejectionCode::PermissionDenied, "actor cannot edit this building");
            }
            if !building.wall_ids.contains(&wall_id) || building.openings.contains_key(&opening_id) {
                return reject(
                    RejectionCode::InvalidState,
                    "wall is invalid or opening already exists",
                );
            }
            Verdict::Apply(
                WorldEvent::OpeningAdded { event_id: eid, building_id, wall_id, opening_id },
                next_version(building.version),
            )
        },
        _ => reject(RejectionCode::InvalidState, "command is not a world mutation"),
    }
}

/// Decides a command that the authority has not seen before.
pub fn decide(
    world: &WorldState,
    sessions: &BTreeMap<ClientId, SessionState>,
    env: &AuthorityCommandEnvelope,
) -> (v: Verdict)
    requires
        decision_ready(world@, sessions@, env@),
    ensures
        verdict_decision(v) == spec_decide(world@, sessions@, env@),
{
    decide_verdict(world, sessions, env)
}

/// Whether the references that deciding `env` follows exist.
pub fn references_ready_exec(
    world: &WorldState,
    sessions: &BTreeMap<ClientId, SessionState>,
    env: &AuthorityCommandEnvelope,
) -> (ok: bool)
    ensures
        ok == references_ready(world@, sessions@, env@),
{
    let reaches = env.schema_version.0 == P5_SCHEMA_VERSION && env.target_world == world.world_id
        && match env.payload {
        AuthorityCommand::Connect { .. } => false,
        AuthorityCommand::Disconnect => false,
        AuthorityCommand::RequestSync { .. } => false,
        _ => true,
    } && match sessions.get(&env.audit.client_id) {
        Some(session) => session.session_id == env.audit.session_id && session.actor_id == env.actor_id,
        None => false,
    } && match env.expected_world_revision {
        Some(expected) => expected.0 == world.revision.0,
        None => true,
    };
    !reaches || mutation_references_exec(world, env)
}

fn expects_other_version(env: &AuthorityCommandEnvelope, actual: EntityVersion) -> (other: bool)
    ensures
        other == version_conflict(env@, actual),
{
    match env.expected_entity_version {
        Some(expected) => expected.0 != actual.0,
        None => false,
    }
}

fn mutation_references_exec(world: &WorldState, env: &AuthorityCommandEnvelope) -> (ok: bool)
    ensures
        ok == mutation_references_hold(world@, env@),
{
    let actor = match world.players.get(&env.actor_id) {
        Some(actor) => actor,
        None => {
            return true;
        },
    };
    assert(world@.entities.players[env.actor_id] == actor@);
    match env.payload {
        AuthorityCommand::ToggleDoor { door_id } => match world.doors.get(&door_id) {
            Some(door) => expects_other_version(env, door.version) || world.buildings.contains_key(
                &door.building_id,
            ),
            None => true,
        },
        AuthorityCommand::TakeItem { item_id, quantity } => match world.items.get(&item_id) {
            Some(item) => {
                assert(world@.entities.items[item_id] == item@);
                if expects_other_version(env, item.version) || quantity != item.quantity || quantity == 0 {
                    true
                } else {
                    match item.owner {
                        ItemOwner::Container(c) => world.containers.contains_key(&c),
                        _ => true,
                    }
                }
            },
            None => true,
        },
        AuthorityCommand::DisembarkVehicle => match actor.location {
            ActorLocation::InVehicle { vehicle_id, .. } => world.vehicles.contains_key(&vehicle_id),
            _ => true,
        },
        _ => true,
    }
}

/// Decides a command whose followed references exist; a version at its
/// limit wraps to zero.
pub(crate) fn decide_verdict(
    world: &WorldState,
    sessions: &BTreeMap<ClientId, SessionState>,
    env: &AuthorityCommandEnvelope,
) -> (v: Verdict)
    requires
        references_ready(world@, sessions@, env@),
    ensures
        verdict_decision(v) == spec_decide(world@, sessions@, env@),
{
    if env.schema_version.0 != P5_SCHEMA_VERSION {
        return reject(RejectionCode::UnsupportedSchema, "unsupported command schema");
    }
    if env.target_world != world.world_id {
        return reject(RejectionCode::InvalidPayload, "command targets another world");
    }
    match env.payload {
        AuthorityCommand::Connect { last_acknowledged_revision, .. } => {
            if !world.players.contains_key(&env.actor_id) {
                return reject(
                    RejectionCode::PermissionDenied,
                    "actor is not a player in this world",
                );
            }
            if last_acknowledged_revision.0 > world.revision.0 {
                return reject(
                    RejectionCode::InvalidPayload,
                    "client revision is ahead of the server",
                );
            }
            Verdict::Connect
        },
        _ => {
            let session = match sessions.get(&env.audit.client_id) {
                Some(session) => *session,
                None => {
                    return reject(RejectionCode::PermissionDenied, "client is not connected");
                },
            };
            if session.session_id != env.audit.session_id || session.actor_id != env.actor_id {
                return reject(
                    RejectionCode::PermissionDenied,
                    "session identity does not match the command actor",
                );
            }
            match env.payload {
                AuthorityCommand::Disconnect => Verdict::Disconnect,
                AuthorityCommand::RequestSync { .. } => Verdict::Sync,
                _ => {
                    if let Some(expected) = env.expected_world_revision {
                        if expected.0 != world.revision.0 {
                            proof {
                                reveal(revision_conflict_message);
                            }
                            return Verdict::Reject(
                                RejectionCode::VersionConflict,
                                revision_mismatch_message(expected.0, world.revision.0),
                            );
                        }
                    }
                    decide_mutation_exec(world, env)
                },
            }
        },
    }
}

} // verus!
