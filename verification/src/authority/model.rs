//! The authoritative world model: entities, commands, events, receipts and
//! journal records, each with the mathematical view that contracts use.

use crate::ids::{
    BuildingInstanceId, ClientId, CommandId, ContainerId, DoorId, EventId, HexCoord, ItemId,
    OpeningId, PersonId, RouteId, SessionId, SnapshotId, VehicleId, WallId, WorldId, WorldInstant,
};
use crate::protocol::{CommandRejection, EntityVersion, RejectionView, SchemaVersion};
use std::collections::{BTreeMap, BTreeSet};
use vstd::prelude::*;

verus! {

/// The command schema version that this authority accepts.
pub const P5_SCHEMA_VERSION: u32 = 1;

/// A state fingerprint: a 64-bit digest of the world's canonical encoding.
#[derive(Clone, Copy, Debug, PartialEq, Eq, Structural, Hash)]
pub struct StateFingerprint(pub u64);

#[derive(Clone, Copy, Debug, PartialEq, Eq, Structural, PartialOrd, Ord, Hash)]
pub struct WorldRevision(pub u64);

impl Default for WorldRevision {
    fn default() -> (revision: Self)
        ensures
            revision.0 == 0,
    {
        WorldRevision(0)
    }
}

impl WorldRevision {
    pub fn zero() -> (revision: Self)
        ensures
            revision.0 == 0,
    {
        WorldRevision(0)
    }

    pub fn next(self) -> (next: Self)
        requires
            self.0 < u64::MAX,
        ensures
            next.0 == self.0 + 1,
    {
        WorldRevision(self.0 + 1)
    }
}

#[derive(Debug)]
pub struct AuditContext {
    pub client_id: ClientId,
    pub session_id: SessionId,
    pub request_sequence: u64,
    pub trace_label: String,
}

#[derive(Debug)]
pub struct AuthorityCommandEnvelope {
    pub command_id: CommandId,
    pub actor_id: PersonId,
    pub target_world: WorldId,
    pub issued_at: WorldInstant,
    pub expected_world_revision: Option<WorldRevision>,
    pub expected_entity_version: Option<EntityVersion>,
    pub schema_version: SchemaVersion,
    pub audit: AuditContext,
    pub payload: AuthorityCommand,
}

pub struct AuditView {
    pub client_id: ClientId,
    pub session_id: SessionId,
    pub request_sequence: u64,
    pub trace_label: Seq<char>,
}

impl View for AuditContext {
    type V = AuditView;

    open spec fn view(&self) -> AuditView {
        AuditView {
            client_id: self.client_id,
            session_id: self.session_id,
            request_sequence: self.request_sequence,
            trace_label: self.trace_label@,
        }
    }
}

pub struct EnvelopeView {
    pub command_id: CommandId,
    pub actor_id: PersonId,
    pub target_world: WorldId,
    pub issued_at: WorldInstant,
    pub expected_world_revision: Option<WorldRevision>,
    pub expected_entity_version: Option<EntityVersion>,
    pub schema_version: SchemaVersion,
    pub audit: AuditView,
    pub payload: AuthorityCommand,
}

impl View for AuthorityCommandEnvelope {
    type V = EnvelopeView;

    open spec fn view(&self) -> EnvelopeView {
        EnvelopeView {
            command_id: self.command_id,
            actor_id: self.actor_id,
            target_world: self.target_world,
            issued_at: self.issued_at,
            expected_world_revision: self.expected_world_revision,
            expected_entity_version: self.expected_entity_version,
            schema_version: self.schema_version,
            audit: self.audit@,
            payload: self.payload,
        }
    }
}

#[derive(Clone, Copy, Debug, PartialEq, Eq, Structural)]
pub enum AuthorityCommand {
    Connect { last_acknowledged_revision: WorldRevision, interest_center: HexCoord },
    Disconnect,
    MoveAlongRoute { route_id: RouteId, destination: HexCoord },
    ToggleDoor { door_id: DoorId },
    TakeItem { item_id: ItemId, quantity: u32 },
    PutItem { item_id: ItemId, quantity: u32, container_id: ContainerId },
    EnterBuilding { building_id: BuildingInstanceId },
    LeaveBuilding,
    BoardVehicle { vehicle_id: VehicleId },
    DisembarkVehicle,
    AddOpening { building_id: BuildingInstanceId, wall_id: WallId, opening_id: OpeningId },
    RequestSync { last_seen_revision: WorldRevision, interest_center: HexCoord },
}

#[derive(Clone, Copy, Debug, PartialEq, Eq, Structural)]
pub enum ActorLocation {
    InCell { cell: HexCoord },
    InBuilding { cell: HexCoord, building_id: BuildingInstanceId },
    InVehicle { cell: HexCoord, vehicle_id: VehicleId },
}

pub open spec fn spec_location_cell(location: ActorLocation) -> HexCoord {
    match location {
        ActorLocation::InCell { cell } => cell,
        ActorLocation::InBuilding { cell, .. } => cell,
        ActorLocation::InVehicle { cell, .. } => cell,
    }
}

impl ActorLocation {
    pub fn cell(&self) -> (cell: HexCoord)
        ensures
            cell == spec_location_cell(*self),
    {
        match self {
            ActorLocation::InCell { cell } => *cell,
            ActorLocation::InBuilding { cell, .. } => *cell,
            ActorLocation::InVehicle { cell, .. } => *cell,
        }
    }
}

#[derive(Debug)]
pub struct PlayerState {
    pub id: PersonId,
    pub current_cell: HexCoord,
    pub location: ActorLocation,
    pub inventory: BTreeMap<ItemId, u32>,
    pub version: EntityVersion,
}

pub struct PlayerView {
    pub id: PersonId,
    pub current_cell: HexCoord,
    pub location: ActorLocation,
    pub inventory: Map<ItemId, u32>,
    pub version: EntityVersion,
}

impl View for PlayerState {
    type V = PlayerView;

    open spec fn view(&self) -> PlayerView {
        PlayerView {
            id: self.id,
            current_cell: self.current_cell,
            location: self.location,
            inventory: self.inventory@,
            version: self.version,
        }
    }
}

#[derive(Clone, Copy, Debug, PartialEq, Eq, Structural)]
pub struct DoorState {
    pub id: DoorId,
    pub building_id: BuildingInstanceId,
    pub is_open: bool,
    pub version: EntityVersion,
}

#[derive(Clone, Copy, Debug, PartialEq, Eq, Structural)]
pub enum ItemOwner {
    Container(ContainerId),
    Person(PersonId),
    Vehicle(VehicleId),
}

#[derive(Debug)]
pub struct ItemState {
    pub id: ItemId,
    pub archetype: String,
    pub quantity: u32,
    pub owner: ItemOwner,
    pub version: EntityVersion,
}

pub struct ItemView {
    pub id: ItemId,
    pub archetype: Seq<char>,
    pub quantity: u32,
    pub owner: ItemOwner,
    pub version: EntityVersion,
}

impl View for ItemState {
    type V = ItemView;

    open spec fn view(&self) -> ItemView {
        ItemView {
            id: self.id,
            archetype: self.archetype@,
            quantity: self.quantity,
            owner: self.owner,
            version: self.version,
        }
    }
}

#[derive(Debug)]
pub struct ContainerState {
    pub id: ContainerId,
    pub cell: HexCoord,
    pub item_ids: BTreeSet<ItemId>,
    pub version: EntityVersion,
}

pub struct ContainerView {
    pub id: ContainerId,
    pub cell: HexCoord,
    pub item_ids: Set<ItemId>,
    pub version: EntityVersion,
}

impl View for ContainerState {
    type V = ContainerView;

    open spec fn view(&self) -> ContainerView {
        ContainerView {
            id: self.id,
            cell: self.cell,
            item_ids: self.item_ids@,
            version: self.version,
        }
    }
}

#[derive(Debug)]
pub struct BuildingState {
    pub id: BuildingInstanceId,
    pub cell: HexCoord,
    pub wall_ids: BTreeSet<WallId>,
    pub openings: BTreeMap<OpeningId, WallId>,
    pub editors: BTreeSet<PersonId>,
    pub version: EntityVersion,
}

pub struct BuildingView {
    pub id: BuildingInstanceId,
    pub cell: HexCoord,
    pub wall_ids: Set<WallId>,
    pub openings: Map<OpeningId, WallId>,
    pub editors: Set<PersonId>,
    pub version: EntityVersion,
}

impl View for BuildingState {
    type V = BuildingView;

    open spec fn view(&self) -> BuildingView {
        BuildingView {
            id: self.id,
            cell: self.cell,
            wall_ids: self.wall_ids@,
            openings: self.openings@,
            editors: self.editors@,
            version: self.version,
        }
    }
}

#[derive(Debug)]
pub struct VehicleState {
    pub id: VehicleId,
    pub cell: HexCoord,
    pub passengers: BTreeSet<PersonId>,
    pub version: EntityVersion,
}

pub struct VehicleView {
    pub id: VehicleId,
    pub cell: HexCoord,
    pub passengers: Set<PersonId>,
    pub version: EntityVersion,
}

impl View for VehicleState {
    type V = VehicleView;

    open spec fn view(&self) -> VehicleView {
        VehicleView {
            id: self.id,
            cell: self.cell,
            passengers: self.passengers@,
            version: self.version,
        }
    }
}

#[derive(Debug)]
pub struct RouteAuthority {
    pub id: RouteId,
    pub ordered_cells: Vec<HexCoord>,
}

pub struct RouteView {
    pub id: RouteId,
    pub ordered_cells: Seq<HexCoord>,
}

impl View for RouteAuthority {
    type V = RouteView;

    open spec fn view(&self) -> RouteView {
        RouteView { id: self.id, ordered_cells: self.ordered_cells@ }
    }
}

/// The entity tables that both the authority and a client projection hold.
pub struct EntitiesView {
    pub players: Map<PersonId, PlayerView>,
    pub doors: Map<DoorId, DoorState>,
    pub items: Map<ItemId, ItemView>,
    pub containers: Map<ContainerId, ContainerView>,
    pub buildings: Map<BuildingInstanceId, BuildingView>,
    pub vehicles: Map<VehicleId, VehicleView>,
}

pub open spec fn view_players(m: Map<PersonId, PlayerState>) -> Map<PersonId, PlayerView> {
    m.map_values(|p: PlayerState| p@)
}

pub open spec fn view_items(m: Map<ItemId, ItemState>) -> Map<ItemId, ItemView> {
    m.map_values(|i: ItemState| i@)
}

pub open spec fn view_containers(m: Map<ContainerId, ContainerState>) -> Map<
    ContainerId,
    ContainerView,
> {
    m.map_values(|c: ContainerState| c@)
}

pub open spec fn view_buildings(m: Map<BuildingInstanceId, BuildingState>) -> Map<
    BuildingInstanceId,
    BuildingView,
> {
    m.map_values(|b: BuildingState| b@)
}

pub open spec fn view_vehicles(m: Map<VehicleId, VehicleState>) -> Map<VehicleId, VehicleView> {
    m.map_values(|v: VehicleState| v@)
}

pub open spec fn view_routes(m: Map<RouteId, RouteAuthority>) -> Map<RouteId, RouteView> {
    m.map_values(|r: RouteAuthority| r@)
}

#[derive(Debug)]
pub struct WorldState {
    pub world_id: WorldId,
    pub revision: WorldRevision,
    pub clock: WorldInstant,
    pub players: BTreeMap<PersonId, PlayerState>,
    pub doors: BTreeMap<DoorId, DoorState>,
    pub items: BTreeMap<ItemId, ItemState>,
    pub containers: BTreeMap<ContainerId, ContainerState>,
    pub buildings: BTreeMap<BuildingInstanceId, BuildingState>,
    pub vehicles: BTreeMap<VehicleId, VehicleState>,
    pub routes: BTreeMap<RouteId, RouteAuthority>,
}

pub struct WorldView {
    pub world_id: WorldId,
    pub revision: WorldRevision,
    pub clock: WorldInstant,
    pub entities: EntitiesView,
    pub routes: Map<RouteId, RouteView>,
}

impl View for WorldState {
    type V = WorldView;

    open spec fn view(&self) -> WorldView {
        WorldView {
            world_id: self.world_id,
            revision: self.revision,
            clock: self.clock,
            entities: EntitiesView {
                players: view_players(self.players@),
                doors: self.doors@,
                items: view_items(self.items@),
                containers: view_containers(self.containers@),
                buildings: view_buildings(self.buildings@),
                vehicles: view_vehicles(self.vehicles@),
            },
            routes: view_routes(self.routes@),
        }
    }
}

#[derive(Clone, Copy, Debug, PartialEq, Eq, Structural)]
pub struct SessionState {
    pub client_id: ClientId,
    pub session_id: SessionId,
    pub actor_id: PersonId,
    pub last_acknowledged_revision: WorldRevision,
}

#[derive(Clone, Copy, Debug, PartialEq, Eq, Structural)]
pub enum WorldEvent {
    PlayerMoved {
        event_id: EventId,
        player_id: PersonId,
        route_id: RouteId,
        from_cell: HexCoord,
        to_cell: HexCoord,
    },
    DoorToggled { event_id: EventId, door_id: DoorId, is_open: bool },
    ItemTransferred {
        event_id: EventId,
        item_id: ItemId,
        quantity: u32,
        from: ItemOwner,
        to: ItemOwner,
    },
    PlayerEnteredBuilding {
        event_id: EventId,
        player_id: PersonId,
        building_id: BuildingInstanceId,
        cell: HexCoord,
    },
    PlayerLeftBuilding {
        event_id: EventId,
        player_id: PersonId,
        building_id: BuildingInstanceId,
        cell: HexCoord,
    },
    PlayerBoardedVehicle {
        event_id: EventId,
        player_id: PersonId,
        vehicle_id: VehicleId,
        cell: HexCoord,
    },
    PlayerDisembarkedVehicle {
        event_id: EventId,
        player_id: PersonId,
        vehicle_id: VehicleId,
        cell: HexCoord,
    },
    OpeningAdded {
        event_id: EventId,
        building_id: BuildingInstanceId,
        wall_id: WallId,
        opening_id: OpeningId,
    },
}

#[derive(Debug)]
pub struct WorldDelta {
    pub from_revision: WorldRevision,
    pub to_revision: WorldRevision,
    pub events: Vec<WorldEvent>,
}

pub struct DeltaView {
    pub from_revision: WorldRevision,
    pub to_revision: WorldRevision,
    pub events: Seq<WorldEvent>,
}

impl View for WorldDelta {
    type V = DeltaView;

    open spec fn view(&self) -> DeltaView {
        DeltaView {
            from_revision: self.from_revision,
            to_revision: self.to_revision,
            events: self.events@,
        }
    }
}

#[derive(Debug)]
pub struct ClientSnapshot {
    pub world_id: WorldId,
    pub revision: WorldRevision,
    pub interest_center: HexCoord,
    pub players: BTreeMap<PersonId, PlayerState>,
    pub doors: BTreeMap<DoorId, DoorState>,
    pub items: BTreeMap<ItemId, ItemState>,
    pub containers: BTreeMap<ContainerId, ContainerState>,
    pub buildings: BTreeMap<BuildingInstanceId, BuildingState>,
    pub vehicles: BTreeMap<VehicleId, VehicleState>,
    pub state_fingerprint: StateFingerprint,
}

pub struct ClientSnapshotView {
    pub world_id: WorldId,
    pub revision: WorldRevision,
    pub interest_center: HexCoord,
    pub entities: EntitiesView,
    pub state_fingerprint: StateFingerprint,
}

impl View for ClientSnapshot {
    type V = ClientSnapshotView;

    open spec fn view(&self) -> ClientSnapshotView {
        ClientSnapshotView {
            world_id: self.world_id,
            revision: self.revision,
            interest_center: self.interest_center,
            entities: EntitiesView {
                players: view_players(self.players@),
                doors: self.doors@,
                items: view_items(self.items@),
                containers: view_containers(self.containers@),
                buildings: view_buildings(self.buildings@),
                vehicles: view_vehicles(self.vehicles@),
            },
            state_fingerprint: self.state_fingerprint,
        }
    }
}

#[derive(Debug)]
pub enum SyncPayload {
    Snapshot(ClientSnapshot),
    Deltas(Vec<WorldDelta>),
}

pub enum SyncView {
    Snapshot(ClientSnapshotView),
    Deltas(Seq<DeltaView>),
}

impl View for SyncPayload {
    type V = SyncView;

    open spec fn view(&self) -> SyncView {
        match self {
            SyncPayload::Snapshot(snapshot) => SyncView::Snapshot(snapshot@),
            SyncPayload::Deltas(deltas) => SyncView::Deltas(deltas@.map_values(|d: WorldDelta| d@)),
        }
    }
}

#[derive(Clone, Copy, Debug, PartialEq, Eq, Structural)]
pub enum ReceiptDisposition {
    Applied,
    Noop,
    Rejected,
    Duplicate,
}

pub open spec fn view_rejection(r: Option<CommandRejection>) -> Option<RejectionView> {
    match r {
        Some(r) => Some(r@),
        None => None,
    }
}

pub open spec fn view_delta(d: Option<WorldDelta>) -> Option<DeltaView> {
    match d {
        Some(d) => Some(d@),
        None => None,
    }
}

pub open spec fn view_sync(s: Option<SyncPayload>) -> Option<SyncView> {
    match s {
        Some(s) => Some(s@),
        None => None,
    }
}

#[derive(Debug)]
pub struct StoredReceipt {
    pub command_id: CommandId,
    pub world_revision: WorldRevision,
    pub resulting_entity_version: Option<EntityVersion>,
    pub rejection: Option<CommandRejection>,
    pub delta: Option<WorldDelta>,
    pub sync: Option<SyncPayload>,
    pub state_fingerprint: StateFingerprint,
}

/// The content of a receipt, shared by stored and handed-out receipts.
pub struct ReceiptView {
    pub command_id: CommandId,
    pub world_revision: WorldRevision,
    pub resulting_entity_version: Option<EntityVersion>,
    pub rejection: Option<RejectionView>,
    pub delta: Option<DeltaView>,
    pub sync: Option<SyncView>,
    pub state_fingerprint: StateFingerprint,
}

impl View for StoredReceipt {
    type V = ReceiptView;

    open spec fn view(&self) -> ReceiptView {
        ReceiptView {
            command_id: self.command_id,
            world_revision: self.world_revision,
            resulting_entity_version: self.resulting_entity_version,
            rejection: view_rejection(self.rejection),
            delta: view_delta(self.delta),
            sync: view_sync(self.sync),
            state_fingerprint: self.state_fingerprint,
        }
    }
}

#[derive(Debug)]
pub struct CommandReceipt {
    pub command_id: CommandId,
    pub disposition: ReceiptDisposition,
    pub world_revision: WorldRevision,
    pub resulting_entity_version: Option<EntityVersion>,
    pub rejection: Option<CommandRejection>,
    pub delta: Option<WorldDelta>,
    pub sync: Option<SyncPayload>,
    pub state_fingerprint: StateFingerprint,
}

impl View for CommandReceipt {
    type V = ReceiptView;

    /// The receipt's content; its disposition is a field of its own.
    open spec fn view(&self) -> ReceiptView {
        ReceiptView {
            command_id: self.command_id,
            world_revision: self.world_revision,
            resulting_entity_version: self.resulting_entity_version,
            rejection: view_rejection(self.rejection),
            delta: view_delta(self.delta),
            sync: view_sync(self.sync),
            state_fingerprint: self.state_fingerprint,
        }
    }
}

/// The disposition that a stored receipt reports on its first execution.
pub open spec fn spec_first_disposition(receipt: ReceiptView) -> ReceiptDisposition {
    if receipt.rejection is Some {
        ReceiptDisposition::Rejected
    } else if receipt.delta is Some {
        ReceiptDisposition::Applied
    } else {
        ReceiptDisposition::Noop
    }
}

impl StoredReceipt {
    pub fn as_receipt(&self, disposition: ReceiptDisposition) -> (receipt: CommandReceipt)
        ensures
            receipt.disposition == disposition,
            receipt@ == self@,
    {
        CommandReceipt {
            command_id: self.command_id,
            disposition,
            world_revision: self.world_revision,
            resulting_entity_version: self.resulting_entity_version,
            rejection: self.rejection.clone(),
            delta: self.delta.clone(),
            sync: self.sync.clone(),
            state_fingerprint: self.state_fingerprint,
        }
    }

    pub fn first_disposition(&self) -> (disposition: ReceiptDisposition)
        ensures
            disposition == spec_first_disposition(self@),
    {
        if self.rejection.is_some() {
            ReceiptDisposition::Rejected
        } else if self.delta.is_some() {
            ReceiptDisposition::Applied
        } else {
            ReceiptDisposition::Noop
        }
    }
}

impl Clone for StoredReceipt {
    fn clone(&self) -> (copy: Self)
        ensures
            copy@ == self@,
    {
        StoredReceipt {
            command_id: self.command_id,
            world_revision: self.world_revision,
            resulting_entity_version: self.resulting_entity_version,
            rejection: self.rejection.clone(),
            delta: self.delta.clone(),
            sync: self.sync.clone(),
            state_fingerprint: self.state_fingerprint,
        }
    }
}

impl Clone for CommandReceipt {
    fn clone(&self) -> (copy: Self)
        ensures
            copy@ == self@,
            copy.disposition == self.disposition,
    {
        CommandReceipt {
            command_id: self.command_id,
            disposition: self.disposition,
            world_revision: self.world_revision,
            resulting_entity_version: self.resulting_entity_version,
            rejection: self.rejection.clone(),
            delta: self.delta.clone(),
            sync: self.sync.clone(),
            state_fingerprint: self.state_fingerprint,
        }
    }
}

#[derive(Debug)]
pub struct JournalRecord {
    pub sequence: u64,
    pub envelope: AuthorityCommandEnvelope,
    pub stored_receipt: StoredReceipt,
}

pub struct JournalRecordView {
    pub sequence: u64,
    pub envelope: EnvelopeView,
    pub stored_receipt: ReceiptView,
}

impl View for JournalRecord {
    type V = JournalRecordView;

    open spec fn view(&self) -> JournalRecordView {
        JournalRecordView {
            sequence: self.sequence,
            envelope: self.envelope@,
            stored_receipt: self.stored_receipt@,
        }
    }
}

impl Clone for JournalRecord {
    fn clone(&self) -> (copy: Self)
        ensures
            copy@ == self@,
    {
        JournalRecord {
            sequence: self.sequence,
            envelope: self.envelope.clone(),
            stored_receipt: self.stored_receipt.clone(),
        }
    }
}

#[derive(Debug)]
pub struct AuthoritySnapshot {
    pub snapshot_id: SnapshotId,
    pub schema_version: SchemaVersion,
    pub next_journal_sequence: u64,
    pub world: WorldState,
    pub idempotency: BTreeMap<CommandId, StoredReceipt>,
    pub state_fingerprint: StateFingerprint,
}

#[derive(Debug)]
pub struct CommandProcessResult {
    pub receipt: CommandReceipt,
    pub journal_record: Option<JournalRecord>,
}

impl Clone for CommandRejection {
    fn clone(&self) -> (copy: Self)
        ensures
            copy@ == self@,
    {
        CommandRejection { code: self.code, message: self.message.clone() }
    }
}

impl Clone for AuditContext {
    fn clone(&self) -> (copy: Self)
        ensures
            copy@ == self@,
    {
        AuditContext {
            client_id: self.client_id,
            session_id: self.session_id,
            request_sequence: self.request_sequence,
            trace_label: self.trace_label.clone(),
        }
    }
}

impl Clone for AuthorityCommandEnvelope {
    fn clone(&self) -> (copy: Self)
        ensures
            copy@ == self@,
    {
        AuthorityCommandEnvelope {
            command_id: self.command_id,
            actor_id: self.actor_id,
            target_world: self.target_world,
            issued_at: self.issued_at,
            expected_world_revision: self.expected_world_revision,
            expected_entity_version: self.expected_entity_version,
            schema_version: self.schema_version,
            audit: self.audit.clone(),
            payload: self.payload,
        }
    }
}

impl Clone for PlayerState {
    fn clone(&self) -> (copy: Self)
        ensures
            copy@ == self@,
    {
        PlayerState {
            id: self.id,
            current_cell: self.current_cell,
            location: self.location,
            inventory: self.inventory.clone(),
            version: self.version,
        }
    }
}

impl Clone for ItemState {
    fn clone(&self) -> (copy: Self)
        ensures
            copy@ == self@,
    {
        ItemState {
            id: self.id,
            archetype: self.archetype.clone(),
            quantity: self.quantity,
            owner: self.owner,
            version: self.version,
        }
    }
}

impl Clone for ContainerState {
    fn clone(&self) -> (copy: Self)
        ensures
            copy@ == self@,
    {
        ContainerState {
            id: self.id,
            cell: self.cell,
            item_ids: self.item_ids.clone(),
            version: self.version,
        }
    }
}

impl Clone for BuildingState {
    fn clone(&self) -> (copy: Self)
        ensures
            copy@ == self@,
    {
        BuildingState {
            id: self.id,
            cell: self.cell,
            wall_ids: self.wall_ids.clone(),
            openings: self.openings.clone(),
            editors: self.editors.clone(),
            version: self.version,
        }
    }
}

impl Clone for VehicleState {
    fn clone(&self) -> (copy: Self)
        ensures
            copy@ == self@,
    {
        VehicleState {
            id: self.id,
            cell: self.cell,
            passengers: self.passengers.clone(),
            version: self.version,
        }
    }
}

impl Clone for RouteAuthority {
    fn clone(&self) -> (copy: Self)
        ensures
            copy@ == self@,
    {
        RouteAuthority { id: self.id, ordered_cells: self.ordered_cells.clone() }
    }
}

impl Clone for WorldState {
    fn clone(&self) -> (copy: Self)
        ensures
            copy@ == self@,
    {
        WorldState {
            world_id: self.world_id,
            revision: self.revision,
            clock: self.clock,
            players: self.players.clone(),
            doors: self.doors.clone(),
            items: self.items.clone(),
            containers: self.containers.clone(),
            buildings: self.buildings.clone(),
            vehicles: self.vehicles.clone(),
            routes: self.routes.clone(),
        }
    }
}

impl Clone for WorldDelta {
    fn clone(&self) -> (copy: Self)
        ensures
            copy@ == self@,
    {
        WorldDelta {
            from_revision: self.from_revision,
            to_revision: self.to_revision,
            events: self.events.clone(),
        }
    }
}

impl Clone for ClientSnapshot {
    fn clone(&self) -> (copy: Self)
        ensures
            copy@ == self@,
    {
        ClientSnapshot {
            world_id: self.world_id,
            revision: self.revision,
            interest_center: self.interest_center,
            players: self.players.clone(),
            doors: self.doors.clone(),
            items: self.items.clone(),
            containers: self.containers.clone(),
            buildings: self.buildings.clone(),
            vehicles: self.vehicles.clone(),
            state_fingerprint: self.state_fingerprint,
        }
    }
}

impl Clone for SyncPayload {
    fn clone(&self) -> (copy: Self)
        ensures
            copy@ == self@,
    {
        match self {
            SyncPayload::Snapshot(snapshot) => SyncPayload::Snapshot(snapshot.clone()),
            SyncPayload::Deltas(deltas) => {
                let copy = deltas.clone();
                assert forall|i: int| 0 <= i < copy.len() implies copy@[i]@ == deltas@[i]@ by {
                    assert(cloned(deltas@[i], copy@[i]));
                }
                assert(copy@.map_values(|d: WorldDelta| d@) =~= deltas@.map_values(
                    |d: WorldDelta| d@,
                ));
                SyncPayload::Deltas(copy)
            },
        }
    }
}

} // verus!
