use world_prototype::authority::engine::AuthorityServer;
use world_prototype::authority::model::{
    ActorLocation, AuthorityCommand, CommandReceipt, ItemOwner, ReceiptDisposition, SyncPayload,
    WorldRevision, WorldState,
};
use world_prototype::authority::projection::ClientProjection;
use world_prototype::authority::scenario::{
    baseline_world, scenario_ids, ScenarioCommandFactory, ScenarioIds,
};
use world_prototype::ids::HexCoord;
use world_prototype::persistence::recover_server;
use world_prototype::protocol::{EntityVersion, RejectionCode};
use world_prototype::transport::{IngressOutcome, OrderedIngress};

fn fixture() -> (ScenarioIds, WorldState) {
    let start = HexCoord::new(0, 0);
    let middle = HexCoord::new(1, 0);
    let destination = HexCoord::new(2, -1);
    let ids = scenario_ids(0x4000_0001, start, destination, 0x7000_0001, None);
    let routes = vec![(ids.route_id, vec![start, start, middle, destination])];
    let world = baseline_world(&ids, &routes);
    (ids, world)
}

fn factories(ids: &ScenarioIds) -> (ScenarioCommandFactory, ScenarioCommandFactory) {
    let a = ScenarioCommandFactory::new(
        ids.player_a,
        ids.client_a,
        ids.session_a,
        ids.world_id,
        0x5100_0000_0000_0000,
    );
    let b = ScenarioCommandFactory::new(
        ids.player_b,
        ids.client_b,
        ids.session_b,
        ids.world_id,
        0x5200_0000_0000_0000,
    );
    (a, b)
}

fn only_receipt(outcome: IngressOutcome) -> CommandReceipt {
    match outcome {
        IngressOutcome::Processed(mut results) => {
            assert_eq!(results.len(), 1);
            results.remove(0).receipt
        }
        other => panic!("expected one processed command, got {other:?}"),
    }
}

fn projection_from(receipt: CommandReceipt) -> ClientProjection {
    match receipt.sync {
        Some(SyncPayload::Snapshot(snapshot)) => ClientProjection::from_snapshot(snapshot),
        other => panic!("expected a snapshot, got {other:?}"),
    }
}

#[test]
fn two_clients_share_one_authoritative_world() {
    let (ids, world) = fixture();
    let baseline_fingerprint = world_prototype::authority::fingerprint::semantic_fingerprint(&world);
    let mut server = AuthorityServer::new(world).expect("server");
    let mut ingress = OrderedIngress::new();
    let (mut factory_a, mut factory_b) = factories(&ids);

    let connect_a = factory_a.envelope(
        AuthorityCommand::Connect {
            last_acknowledged_revision: WorldRevision(0),
            interest_center: ids.start_cell,
        },
        None,
        None,
        "A connect".to_owned(),
    );
    let connect_b = factory_b.envelope(
        AuthorityCommand::Connect {
            last_acknowledged_revision: WorldRevision(0),
            interest_center: ids.start_cell,
        },
        None,
        None,
        "B connect".to_owned(),
    );
    let receipt_a = only_receipt(ingress.ingest(&mut server, connect_a).expect("connect a"));
    let receipt_b = only_receipt(ingress.ingest(&mut server, connect_b).expect("connect b"));
    assert_eq!(receipt_a.disposition, ReceiptDisposition::Noop);
    assert_eq!(receipt_a.state_fingerprint, baseline_fingerprint);
    let mut projection_a = projection_from(receipt_a);
    let projection_b = projection_from(receipt_b);
    assert_eq!(projection_a.revision, WorldRevision(0));
    assert_eq!(projection_b.revision, WorldRevision(0));

    let toggle = factory_a.envelope(
        AuthorityCommand::ToggleDoor { door_id: ids.door_id },
        Some(WorldRevision(0)),
        Some(EntityVersion(0)),
        "A opens warehouse door".to_owned(),
    );
    let toggle_receipt = only_receipt(ingress.ingest(&mut server, toggle).expect("toggle"));
    assert_eq!(toggle_receipt.disposition, ReceiptDisposition::Applied);
    assert_eq!(toggle_receipt.world_revision, WorldRevision(1));
    projection_a.apply_receipt(&toggle_receipt).expect("apply toggle");
    assert!(projection_a.doors[&ids.door_id].is_open);
    assert!(server.world().doors[&ids.door_id].is_open);

    let take = factory_a.envelope(
        AuthorityCommand::TakeItem { item_id: ids.item_id, quantity: 1 },
        Some(WorldRevision(1)),
        Some(EntityVersion(0)),
        "A takes sealed ledger".to_owned(),
    );
    let take_again = take.clone();
    let take_receipt = only_receipt(ingress.ingest(&mut server, take).expect("take"));
    assert_eq!(take_receipt.disposition, ReceiptDisposition::Applied);
    projection_a.apply_receipt(&take_receipt).expect("apply take");
    assert_eq!(projection_a.items[&ids.item_id].owner, ItemOwner::Person(ids.player_a));

    let duplicate = only_receipt(ingress.ingest(&mut server, take_again).expect("duplicate"));
    assert_eq!(duplicate.disposition, ReceiptDisposition::Duplicate);
    assert_eq!(duplicate.world_revision, WorldRevision(2));
    assert_eq!(server.world().revision, WorldRevision(2));
    assert_eq!(server.world().players[&ids.player_a].inventory.get(&ids.item_id), Some(&1));

    let move_command = factory_a.envelope(
        AuthorityCommand::MoveAlongRoute { route_id: ids.route_id, destination: ids.destination_cell },
        Some(WorldRevision(2)),
        Some(EntityVersion(1)),
        "A travels across cells".to_owned(),
    );
    let enter_command = factory_a.envelope(
        AuthorityCommand::EnterBuilding { building_id: ids.destination_building },
        Some(WorldRevision(3)),
        Some(EntityVersion(2)),
        "A enters destination building".to_owned(),
    );
    match ingress.ingest(&mut server, enter_command).expect("buffer") {
        IngressOutcome::Buffered { session_id, received_sequence, expected_sequence } => {
            assert_eq!(session_id, ids.session_a);
            assert_eq!(received_sequence, 4);
            assert_eq!(expected_sequence, 3);
        }
        other => panic!("expected buffering, got {other:?}"),
    }
    let flushed = match ingress.ingest(&mut server, move_command).expect("flush") {
        IngressOutcome::Processed(results) => results,
        other => panic!("expected processing, got {other:?}"),
    };
    assert_eq!(flushed.len(), 2);
    for result in &flushed {
        assert_eq!(result.receipt.disposition, ReceiptDisposition::Applied);
        projection_a.apply_receipt(&result.receipt).expect("apply travel");
    }
    assert_eq!(projection_a.players[&ids.player_a].current_cell, ids.destination_cell);
    assert_eq!(
        projection_a.players[&ids.player_a].location,
        ActorLocation::InBuilding { cell: ids.destination_cell, building_id: ids.destination_building }
    );

    let add_opening = factory_a.envelope(
        AuthorityCommand::AddOpening {
            building_id: ids.destination_building,
            wall_id: ids.wall_id,
            opening_id: ids.opening_id,
        },
        Some(WorldRevision(4)),
        Some(EntityVersion(0)),
        "A adds a validated opening".to_owned(),
    );
    let add_again = add_opening.clone();
    let opening_receipt = only_receipt(ingress.ingest(&mut server, add_opening).expect("opening"));
    assert_eq!(opening_receipt.disposition, ReceiptDisposition::Applied);
    let duplicate_opening = only_receipt(ingress.ingest(&mut server, add_again).expect("again"));
    assert_eq!(duplicate_opening.disposition, ReceiptDisposition::Duplicate);
    assert_eq!(server.world().buildings[&ids.destination_building].openings.len(), 1);

    let stale_opening = factory_a.envelope(
        AuthorityCommand::AddOpening {
            building_id: ids.destination_building,
            wall_id: ids.wall_id,
            opening_id: 0x5000_0f12,
        },
        Some(WorldRevision(5)),
        Some(EntityVersion(0)),
        "stale building version".to_owned(),
    );
    let stale = only_receipt(ingress.ingest(&mut server, stale_opening).expect("stale"));
    assert_eq!(stale.disposition, ReceiptDisposition::Rejected);
    assert_eq!(stale.rejection.as_ref().map(|r| r.code), Some(RejectionCode::VersionConflict));
    assert_eq!(stale.world_revision, WorldRevision(5));

    let unauthorized = factory_b.envelope(
        AuthorityCommand::AddOpening {
            building_id: ids.destination_building,
            wall_id: ids.wall_id,
            opening_id: 0x5000_0f13,
        },
        Some(WorldRevision(5)),
        None,
        "B unauthorized building edit".to_owned(),
    );
    let denied = only_receipt(ingress.ingest(&mut server, unauthorized).expect("denied"));
    assert_eq!(denied.disposition, ReceiptDisposition::Rejected);
    assert_eq!(denied.rejection.as_ref().map(|r| r.code), Some(RejectionCode::PermissionDenied));
    assert_eq!(server.world().revision, WorldRevision(5));

    // Every first execution was journaled in order, rejections included.
    let journal: Vec<_> = server.journal().to_vec();
    assert_eq!(journal.len(), 9);
    for (index, record) in journal.iter().enumerate() {
        assert_eq!(record.sequence, index as u64);
    }

    // A crash loses nothing that was journaled.
    let (_, baseline) = fixture();
    let recovered = recover_server(None, baseline, journal).expect("recover");
    assert_eq!(recovered.world().revision, server.world().revision);
    assert_eq!(
        world_prototype::authority::fingerprint::semantic_fingerprint(recovered.world()),
        world_prototype::authority::fingerprint::semantic_fingerprint(server.world())
    );
    assert_eq!(recovered.next_journal_sequence(), server.next_journal_sequence());
    assert!(recovered.sessions().is_empty());
}

#[test]
fn taking_an_item_and_putting_it_back_restores_its_owner() {
    let (ids, world) = fixture();
    let before = world.clone();
    let mut server = AuthorityServer::new(world).expect("server");
    let (mut factory_a, _) = factories(&ids);
    let connect = factory_a.envelope(
        AuthorityCommand::Connect {
            last_acknowledged_revision: WorldRevision(0),
            interest_center: ids.start_cell,
        },
        None,
        None,
        "A connect".to_owned(),
    );
    server.process(connect).expect("connect");
    let take = factory_a.envelope(
        AuthorityCommand::TakeItem { item_id: ids.item_id, quantity: 1 },
        None,
        None,
        "A takes the ledger".to_owned(),
    );
    assert!(server.ready_for(&take));
    let taken = server.process(take).expect("take");
    assert_eq!(taken.receipt.disposition, ReceiptDisposition::Applied);
    let put = factory_a.envelope(
        AuthorityCommand::PutItem { item_id: ids.item_id, quantity: 1, container_id: ids.container_id },
        None,
        None,
        "A puts the ledger back".to_owned(),
    );
    let put_back = server.process(put).expect("put");
    assert_eq!(put_back.receipt.disposition, ReceiptDisposition::Applied);

    let after = server.world();
    assert_eq!(after.revision, WorldRevision(before.revision.0 + 2));
    assert_eq!(after.items[&ids.item_id].owner, ItemOwner::Container(ids.container_id));
    assert_eq!(after.items[&ids.item_id].version, EntityVersion(before.items[&ids.item_id].version.0 + 2));
    assert_eq!(after.containers[&ids.container_id].item_ids, before.containers[&ids.container_id].item_ids);
    assert_eq!(
        after.containers[&ids.container_id].version,
        EntityVersion(before.containers[&ids.container_id].version.0 + 2)
    );
    assert_eq!(after.players[&ids.player_a].inventory, before.players[&ids.player_a].inventory);
    assert_eq!(
        after.players[&ids.player_a].version,
        EntityVersion(before.players[&ids.player_a].version.0 + 2)
    );
    assert_eq!(after.doors, before.doors);
    assert_eq!(after.players[&ids.player_b].version, before.players[&ids.player_b].version);
    assert_eq!(after.players[&ids.player_b].inventory, before.players[&ids.player_b].inventory);
}

#[test]
fn a_missing_building_blocks_only_the_door_that_needs_it() {
    let (ids, mut world) = fixture();
    let building = world.doors[&ids.door_id].building_id;
    world.buildings.remove(&building);
    let mut server = AuthorityServer::new(world).expect("server");
    let (mut factory_a, _) = factories(&ids);
    let connect = factory_a.envelope(
        AuthorityCommand::Connect {
            last_acknowledged_revision: WorldRevision(0),
            interest_center: ids.start_cell,
        },
        None,
        None,
        "A connect".to_owned(),
    );
    assert!(server.ready_for(&connect));
    let connected = server.process(connect).expect("connect");
    assert_eq!(connected.receipt.disposition, ReceiptDisposition::Noop);
    let toggle = factory_a.envelope(
        AuthorityCommand::ToggleDoor { door_id: ids.door_id },
        None,
        None,
        "A opens the door".to_owned(),
    );
    assert!(!server.ready_for(&toggle));
    let stale = factory_a.envelope(
        AuthorityCommand::ToggleDoor { door_id: ids.door_id },
        None,
        Some(EntityVersion(7)),
        "A opens the door with a stale version".to_owned(),
    );
    assert!(server.ready_for(&stale));
    let refused = server.process(stale).expect("stale toggle");
    assert_eq!(refused.receipt.disposition, ReceiptDisposition::Rejected);
    assert_eq!(refused.receipt.rejection.expect("rejection").code, RejectionCode::VersionConflict);
}
