//! The fixture that the authority's validation runs on: the identities of
//! its actors and entities, its baseline world, and a factory that numbers
//! one client's commands.

use super::model::{
    ActorLocation, AuditContext, AuthorityCommand, AuthorityCommandEnvelope, BuildingState,
    BuildingView, ContainerState, ContainerView, DoorState, EntitiesView, ItemOwner, ItemState,
    ItemView, PlayerState, PlayerView, RouteAuthority, RouteView, VehicleState, VehicleView,
    WorldRevision, WorldState, WorldView, P5_SCHEMA_VERSION,
};
use crate::ids::{
    BuildingInstanceId, ClientId, CommandId, ContainerId, DoorId, HexCoord, ItemId, OpeningId,
    PersonId, RouteId, SessionId, VehicleId, WallId, WorldId, WorldInstant,
};
use crate::protocol::{EntityVersion, SchemaVersion};
use std::collections::{BTreeMap, BTreeSet};
use vstd::prelude::*;

verus! {

/// The identities that the fixture uses.
#[derive(Clone, Copy, Debug, PartialEq, Eq, Structural)]
pub struct ScenarioIds {
    pub world_id: WorldId,
    pub player_a: PersonId,
    pub player_b: PersonId,
    pub client_a: ClientId,
    pub client_b: ClientId,
    pub session_a: SessionId,
    pub session_b: SessionId,
    pub reconnect_session_a: SessionId,
    pub start_cell: HexCoord,
    pub destination_cell: HexCoord,
    pub route_id: RouteId,
    pub start_building: BuildingInstanceId,
    pub destination_building: BuildingInstanceId,
    pub door_id: DoorId,
    pub item_id: ItemId,
    pub container_id: ContainerId,
    pub vehicle_id: VehicleId,
    pub wall_id: WallId,
    pub opening_id: OpeningId,
}

/// Why the fixture could not be built.
#[derive(Clone, Copy, Debug, PartialEq, Eq, Structural)]
pub enum ScenarioError {
    MissingRoute,
}

/// The building that stands at the start when the region has none.
pub const FALLBACK_START_BUILDING: u128 = 0x5000_0001;

/// The wall of the start building.
pub const START_BUILDING_WALL: u128 = 0x5000_a001;

/// The fixture's identities, in a world and along a route of a region.
pub fn scenario_ids(
    world_id: WorldId,
    start_cell: HexCoord,
    destination_cell: HexCoord,
    route_id: RouteId,
    region_building: Option<BuildingInstanceId>,
) -> (ids: ScenarioIds)
    ensures
        ids == (ScenarioIds {
            world_id,
            player_a: 0x5000_00a1,
            player_b: 0x5000_00b2,
            client_a: 0x5000_0ca1,
            client_b: 0x5000_0cb2,
            session_a: 0x5000_05a1,
            session_b: 0x5000_05b2,
            reconnect_session_a: 0x5000_15a1,
            start_cell,
            destination_cell,
            route_id,
            start_building: match region_building {
                Some(building) => building,
                None => FALLBACK_START_BUILDING,
            },
            destination_building: 0x5000_0d57,
            door_id: 0x5000_d001,
            item_id: 0x5000_1701,
            container_id: 0x5000_c001,
            vehicle_id: 0x5000_0e01,
            wall_id: 0x5000_a111,
            opening_id: 0x5000_0f11,
        }),
{
    let start_building = match region_building {
        Some(building) => building,
        None => FALLBACK_START_BUILDING,
    };
    ScenarioIds {
        world_id,
        player_a: 0x5000_00a1,
        player_b: 0x5000_00b2,
        client_a: 0x5000_0ca1,
        client_b: 0x5000_0cb2,
        session_a: 0x5000_05a1,
        session_b: 0x5000_05b2,
        reconnect_session_a: 0x5000_15a1,
        start_cell,
        destination_cell,
        route_id,
        start_building,
        destination_building: 0x5000_0d57,
        door_id: 0x5000_d001,
        item_id: 0x5000_1701,
        container_id: 0x5000_c001,
        vehicle_id: 0x5000_0e01,
        wall_id: 0x5000_a111,
        opening_id: 0x5000_0f11,
    }
}

/// A sequence of cells with each run of repeated cells cut to one.
pub open spec fn dedup_cells(cells: Seq<HexCoord>) -> Seq<HexCoord>
    decreases cells.len(),
{
    if cells.len() == 0 {
        cells
    } else {
        let rest = dedup_cells(cells.drop_last());
        if rest.len() > 0 && rest.last() == cells.last() {
            rest
        } else {
            rest.push(cells.last())
        }
    }
}

/// Cuts each run of repeated cells to one cell.
pub fn dedup_route_cells(cells: &Vec<HexCoord>) -> (deduped: Vec<HexCoord>)
    ensures
        deduped@ == dedup_cells(cells@),
{
    let mut deduped: Vec<HexCoord> = Vec::new();
    let mut i: usize = 0;
    while i < cells.len()
        invariant
            i <= cells.len(),
            deduped@ == dedup_cells(cells@.take(i as int)),
        decreases cells.len() - i,
    {
        assert(cells@.take(i as int + 1).drop_last() =~= cells@.take(i as int));
        let cell = cells[i];
        let n = deduped.len();
        if n > 0 && deduped[n - 1] == cell {
        } else {
            deduped.push(cell);
        }
        i = i + 1;
    }
    assert(cells@.take(cells.len() as int) =~= cells@);
    deduped
}

/// The first and last cell that a route crosses, once repeats are cut.
pub fn route_endpoints(crossed_cells: &Vec<HexCoord>) -> (endpoints: Result<
    (HexCoord, HexCoord),
    ScenarioError,
>)
    ensures
        ({
            let cells = dedup_cells(crossed_cells@);
            match endpoints {
                Ok((start, destination)) => cells.len() > 0 && start == cells[0] && destination
                    == cells.last(),
                Err(_) => cells.len() == 0,
            }
        }),
{
    let cells = dedup_route_cells(crossed_cells);
    if cells.len() == 0 {
        return Err(ScenarioError::MissingRoute);
    }
    Ok((cells[0], cells[cells.len() - 1]))
}

/// The routes of the region, keyed by id, with repeated cells cut; a later
/// route with the id of an earlier one replaces it.
pub open spec fn route_table(routes: Seq<(RouteId, Vec<HexCoord>)>, n: nat) -> Map<RouteId, RouteView>
    decreases n,
{
    if n == 0 || n > routes.len() {
        Map::empty()
    } else {
        let (id, cells) = routes[n - 1];
        route_table(routes, (n - 1) as nat).insert(
            id,
            RouteView { id, ordered_cells: dedup_cells(cells@) },
        )
    }
}

/// The baseline world's entities: both players at the start cell, a start
/// building with its door and a container holding one ledger, and at the
/// destination a building and an empty vehicle.
pub open spec fn baseline_entities(ids: ScenarioIds) -> EntitiesView {
    let player = |id: PersonId|
        PlayerView {
            id,
            current_cell: ids.start_cell,
            location: ActorLocation::InCell { cell: ids.start_cell },
            inventory: Map::empty(),
            version: EntityVersion(0),
        };
    EntitiesView {
        players: map![ids.player_a => player(ids.player_a), ids.player_b => player(ids.player_b)],
        doors: map![
            ids.door_id => DoorState {
                id: ids.door_id,
                building_id: ids.start_building,
                is_open: false,
                version: EntityVersion(0),
            },
        ],
        items: map![
            ids.item_id => ItemView {
                id: ids.item_id,
                archetype: "sealed-port-ledger"@,
                quantity: 1,
                owner: ItemOwner::Container(ids.container_id),
                version: EntityVersion(0),
            },
        ],
        containers: map![
            ids.container_id => ContainerView {
                id: ids.container_id,
                cell: ids.start_cell,
                item_ids: set![ids.item_id],
                version: EntityVersion(0),
            },
        ],
        buildings: map![
            ids.start_building => BuildingView {
                id: ids.start_building,
                cell: ids.start_cell,
                wall_ids: set![START_BUILDING_WALL],
                openings: Map::empty(),
                editors: set![ids.player_a],
                version: EntityVersion(0),
            },
            ids.destination_building => BuildingView {
                id: ids.destination_building,
                cell: ids.destination_cell,
                wall_ids: set![ids.wall_id],
                openings: Map::empty(),
                editors: set![ids.player_a],
                version: EntityVersion(0),
            },
        ],
        vehicles: map![
            ids.vehicle_id => VehicleView {
                id: ids.vehicle_id,
                cell: ids.destination_cell,
                passengers: Set::empty(),
                version: EntityVersion(0),
            },
        ],
    }
}

fn player_at_start(ids: &ScenarioIds, id: PersonId) -> (player: PlayerState)
    ensures
        player@ == (PlayerView {
            id,
            current_cell: ids.start_cell,
            location: ActorLocation::InCell { cell: ids.start_cell },
            inventory: Map::empty(),
            version: EntityVersion(0),
        }),
{
    PlayerState {
        id,
        current_cell: ids.start_cell,
        location: ActorLocation::InCell { cell: ids.start_cell },
        inventory: BTreeMap::new(),
        version: EntityVersion(0),
    }
}

fn single_id(id: u128) -> (set: BTreeSet<u128>)
    ensures
        set@ == set![id],
{
    let mut set = BTreeSet::new();
    set.insert(id);
    assert(set@ =~= set![id]);
    set
}

/// The world at revision zero, before any command, holding the fixture's
/// entities and the region's routes.
pub fn baseline_world(ids: &ScenarioIds, routes: &Vec<(RouteId, Vec<HexCoord>)>) -> (world: WorldState)
    ensures
        world@ == (WorldView {
            world_id: ids.world_id,
            revision: WorldRevision(0),
            clock: WorldInstant { ticks: 0 },
            entities: baseline_entities(*ids),
            routes: route_table(routes@, routes@.len()),
        }),
{
    let mut players: BTreeMap<PersonId, PlayerState> = BTreeMap::new();
    players.insert(ids.player_a, player_at_start(ids, ids.player_a));
    players.insert(ids.player_b, player_at_start(ids, ids.player_b));

    let mut buildings: BTreeMap<BuildingInstanceId, BuildingState> = BTreeMap::new();
    buildings.insert(
        ids.start_building,
        BuildingState {
            id: ids.start_building,
            cell: ids.start_cell,
            wall_ids: single_id(START_BUILDING_WALL),
            openings: BTreeMap::new(),
            editors: single_id(ids.player_a),
            version: EntityVersion(0),
        },
    );
    buildings.insert(
        ids.destination_building,
        BuildingState {
            id: ids.destination_building,
            cell: ids.destination_cell,
            wall_ids: single_id(ids.wall_id),
            openings: BTreeMap::new(),
            editors: single_id(ids.player_a),
            version: EntityVersion(0),
        },
    );

    let mut doors: BTreeMap<DoorId, DoorState> = BTreeMap::new();
    doors.insert(
        ids.door_id,
        DoorState {
            id: ids.door_id,
            building_id: ids.start_building,
            is_open: false,
            version: EntityVersion(0),
        },
    );

    let mut containers: BTreeMap<ContainerId, ContainerState> = BTreeMap::new();
    containers.insert(
        ids.container_id,
        ContainerState {
            id: ids.container_id,
            cell: ids.start_cell,
            item_ids: single_id(ids.item_id),
            version: EntityVersion(0),
        },
    );

    let mut items: BTreeMap<ItemId, ItemState> = BTreeMap::new();
    items.insert(
        ids.item_id,
        ItemState {
            id: ids.item_id,
            archetype: "sealed-port-ledger".to_owned(),
            quantity: 1,
            owner: ItemOwner::Container(ids.container_id),
            version: EntityVersion(0),
        },
    );

    let mut vehicles: BTreeMap<VehicleId, VehicleState> = BTreeMap::new();
    vehicles.insert(
        ids.vehicle_id,
        VehicleState {
            id: ids.vehicle_id,
            cell: ids.destination_cell,
            passengers: BTreeSet::new(),
            version: EntityVersion(0),
        },
    );

    let mut table: BTreeMap<RouteId, RouteAuthority> = BTreeMap::new();
    let mut i: usize = 0;
    while i < routes.len()
        invariant
            i <= routes.len(),
            table@.map_values(|r: RouteAuthority| r@) == route_table(routes@, i as nat),
        decreases routes.len() - i,
    {
        let id = routes[i].0;
        let cells = dedup_route_cells(&routes[i].1);
        let ghost before = table@;
        table.insert(id, RouteAuthority { id, ordered_cells: cells });
        proof {
            assert(table@.map_values(|r: RouteAuthority| r@) =~= before.map_values(
                |r: RouteAuthority| r@,
            ).insert(id, RouteView { id, ordered_cells: dedup_cells(routes@[i as int].1@) }));
        }
        i = i + 1;
    }

    let world = WorldState {
        world_id: ids.world_id,
        revision: WorldRevision(0),
        clock: WorldInstant::zero(),
        players,
        doors,
        items,
        containers,
        buildings,
        vehicles,
        routes: table,
    };
    proof {
        let expected = baseline_entities(*ids);
        assert(world@.entities.players =~= expected.players);
        assert(world@.entities.doors =~= expected.doors);
        assert(world@.entities.items =~= expected.items);
        assert(world@.entities.containers =~= expected.containers);
        assert(world@.entities.buildings =~= expected.buildings);
        assert(world@.entities.vehicles =~= expected.vehicles);
    }
    world
}

/// Builds one client's commands: it numbers them from zero, derives each
/// command id from the factory's namespace and the number, and stamps each
/// with the next tick of world time, from one.
#[derive(Clone, Debug)]
pub struct ScenarioCommandFactory {
    actor_id: PersonId,
    client_id: ClientId,
    session_id: SessionId,
    world_id: WorldId,
    command_namespace: u128,
    next_sequence: u64,
    next_tick: i64,
}

pub struct FactoryView {
    pub actor_id: PersonId,
    pub client_id: ClientId,
    pub session_id: SessionId,
    pub world_id: WorldId,
    pub command_namespace: u128,
    pub next_sequence: u64,
    pub next_tick: i64,
}

impl View for ScenarioCommandFactory {
    type V = FactoryView;

    closed spec fn view(&self) -> FactoryView {
        FactoryView {
            actor_id: self.actor_id,
            client_id: self.client_id,
            session_id: self.session_id,
            world_id: self.world_id,
            command_namespace: self.command_namespace,
            next_sequence: self.next_sequence,
            next_tick: self.next_tick,
        }
    }
}

/// The id of the command numbered `sequence` in a namespace: the namespace
/// plus one more than the number, wrapping around.
pub open spec fn spec_command_id(namespace: u128, sequence: u64) -> CommandId {
    if namespace + sequence + 1 > u128::MAX {
        (namespace + sequence + 1 - 0x1_0000_0000_0000_0000_0000_0000_0000_0000) as u128
    } else {
        (namespace + sequence + 1) as u128
    }
}

impl ScenarioCommandFactory {
    pub fn new(
        actor_id: PersonId,
        client_id: ClientId,
        session_id: SessionId,
        world_id: WorldId,
        command_namespace: u128,
    ) -> (factory: Self)
        ensures
            factory@ == (FactoryView {
                actor_id,
                client_id,
                session_id,
                world_id,
                command_namespace,
                next_sequence: 0,
                next_tick: 1,
            }),
    {
        ScenarioCommandFactory {
            actor_id,
            client_id,
            session_id,
            world_id,
            command_namespace,
            next_sequence: 0,
            next_tick: 1,
        }
    }

    pub fn next_sequence(&self) -> (sequence: u64)
        ensures
            sequence == self@.next_sequence,
    {
        self.next_sequence
    }

    /// The next command of the client, carrying `payload`.
    pub fn envelope(
        &mut self,
        payload: AuthorityCommand,
        expected_world_revision: Option<WorldRevision>,
        expected_entity_version: Option<EntityVersion>,
        trace_label: String,
    ) -> (envelope: AuthorityCommandEnvelope)
        requires
            old(self)@.next_sequence < u64::MAX,
            old(self)@.next_tick < i64::MAX,
        ensures
            final(self)@ == (FactoryView {
                next_sequence: (old(self)@.next_sequence + 1) as u64,
                next_tick: (old(self)@.next_tick + 1) as i64,
                ..old(self)@
            }),
            envelope.command_id == spec_command_id(
                old(self)@.command_namespace,
                old(self)@.next_sequence,
            ),
            envelope.actor_id == old(self)@.actor_id,
            envelope.target_world == old(self)@.world_id,
            envelope.issued_at == (WorldInstant { ticks: old(self)@.next_tick }),
            envelope.expected_world_revision == expected_world_revision,
            envelope.expected_entity_version == expected_entity_version,
            envelope.schema_version == SchemaVersion(P5_SCHEMA_VERSION),
            envelope.audit.client_id == old(self)@.client_id,
            envelope.audit.session_id == old(self)@.session_id,
            envelope.audit.request_sequence == old(self)@.next_sequence,
            envelope.audit.trace_label@ == trace_label@,
            envelope.payload == payload,
    {
        let sequence = self.next_sequence;
        self.next_sequence = self.next_sequence + 1;
        let command_id = self.command_namespace.wrapping_add((sequence as u128).wrapping_add(1));
        proof {
            assert((sequence as u128).wrapping_add(1) == sequence + 1);
        }
        let issued_at = WorldInstant::from_ticks(self.next_tick);
        self.next_tick = self.next_tick + 1;
        AuthorityCommandEnvelope {
            command_id,
            actor_id: self.actor_id,
            target_world: self.world_id,
            issued_at,
            expected_world_revision,
            expected_entity_version,
            schema_version: SchemaVersion(P5_SCHEMA_VERSION),
            audit: AuditContext {
                client_id: self.client_id,
                session_id: self.session_id,
                request_sequence: sequence,
                trace_label,
            },
            payload,
        }
    }
}

} // verus!
