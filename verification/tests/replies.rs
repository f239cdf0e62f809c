use world_prototype::authority::engine::AuthorityServer;
use world_prototype::authority::model::{AuthorityCommand, CommandReceipt, WorldRevision};
use world_prototype::authority::scenario::{baseline_world, scenario_ids, ScenarioCommandFactory};
use world_prototype::ids::HexCoord;
use world_prototype::protocol::EntityVersion;
use world_prototype::replies::{expect_receipts, projection_from_receipt, single_receipt, ReplyError};
use world_prototype::transport::{IngressOutcome, OrderedIngress, WireResponse};

fn session() -> (Vec<CommandReceipt>, Vec<CommandReceipt>) {
    let start = HexCoord::new(0, 0);
    let destination = HexCoord::new(1, 0);
    let ids = scenario_ids(0x4000_0002, start, destination, 0x7000_0002, None);
    let routes = vec![(ids.route_id, vec![start, destination])];
    let mut server = AuthorityServer::new(baseline_world(&ids, &routes)).expect("server");
    let mut ingress = OrderedIngress::new();
    let mut factory = ScenarioCommandFactory::new(ids.player_a, ids.client_a, ids.session_a, ids.world_id, 0x5100);
    let connect = factory.envelope(
        AuthorityCommand::Connect { last_acknowledged_revision: WorldRevision(0), interest_center: start },
        None,
        None,
        "connect".to_owned(),
    );
    let toggle = factory.envelope(
        AuthorityCommand::ToggleDoor { door_id: ids.door_id },
        Some(WorldRevision(0)),
        Some(EntityVersion(0)),
        "toggle".to_owned(),
    );
    let receipts = |outcome: IngressOutcome| match outcome {
        IngressOutcome::Processed(results) => results.into_iter().map(|result| result.receipt).collect::<Vec<_>>(),
        other => panic!("expected processing, got {other:?}"),
    };
    let connected = receipts(ingress.ingest(&mut server, connect).expect("connect"));
    let toggled = receipts(ingress.ingest(&mut server, toggle).expect("toggle"));
    (connected, toggled)
}

#[test]
fn connect_receipt_starts_a_projection() {
    let (connected, _) = session();
    let receipt = single_receipt(connected).expect("one receipt");
    let projection = projection_from_receipt(receipt).expect("snapshot");
    assert_eq!(projection.revision, WorldRevision(0));
    assert_eq!(projection.doors.len(), 1);
}

#[test]
fn receipt_without_snapshot_is_refused() {
    let (_, toggled) = session();
    let receipt = single_receipt(toggled).expect("one receipt");
    assert_eq!(projection_from_receipt(receipt).err(), Some(ReplyError::ExpectedSnapshot));
}

#[test]
fn receipt_count_other_than_one_is_refused() {
    assert_eq!(single_receipt(Vec::new()).err(), Some(ReplyError::ReceiptCount(0)));
    let (mut connected, toggled) = session();
    connected.extend(toggled);
    assert_eq!(single_receipt(connected).err(), Some(ReplyError::ReceiptCount(2)));
}

#[test]
fn receipts_are_taken_from_a_receipts_answer_only() {
    let (connected, _) = session();
    let taken = expect_receipts(WireResponse::Receipts(connected)).expect("receipts");
    assert_eq!(taken.len(), 1);
    match expect_receipts(WireResponse::Ack) {
        Err(ReplyError::UnexpectedResponse(description)) => assert_eq!(description, "Ack"),
        other => panic!("unexpected result {other:?}"),
    }
}

#[test]
fn receipts_of_a_session_can_be_applied() {
    let (connected, toggled) = session();
    let mut projection = projection_from_receipt(single_receipt(connected).expect("one")).expect("snapshot");
    let toggle = single_receipt(toggled).expect("one");
    assert!(projection.can_apply_receipt(&toggle));
    projection.apply_receipt(&toggle).expect("applies");
    assert_eq!(projection.revision, WorldRevision(1));
    // Applying it again changes nothing.
    let revision = projection.revision;
    let fingerprint = projection.state_fingerprint;
    assert!(projection.can_apply_receipt(&toggle));
    projection.apply_receipt(&toggle).expect("applies again");
    assert_eq!((projection.revision, projection.state_fingerprint), (revision, fingerprint));
}

#[test]
fn version_rejections_state_both_numbers() {
    let start = HexCoord::new(0, 0);
    let ids = scenario_ids(0x4000_0003, start, HexCoord::new(1, 0), 0x7000_0003, None);
    let mut server = AuthorityServer::new(baseline_world(&ids, &vec![])).expect("server");
    let mut factory = ScenarioCommandFactory::new(ids.player_a, ids.client_a, ids.session_a, ids.world_id, 0x5200);
    let connect = factory.envelope(
        AuthorityCommand::Connect { last_acknowledged_revision: WorldRevision(0), interest_center: start },
        None,
        None,
        "connect".to_owned(),
    );
    server.process(connect).expect("connect");
    let stale_world = factory.envelope(
        AuthorityCommand::ToggleDoor { door_id: ids.door_id },
        Some(WorldRevision(3)),
        Some(EntityVersion(5)),
        "stale world".to_owned(),
    );
    let receipt = server.process(stale_world).expect("answered").receipt;
    assert_eq!(receipt.rejection.expect("rejected").message, "world revision mismatch: expected 3, actual 0");
    let stale_door = factory.envelope(
        AuthorityCommand::ToggleDoor { door_id: ids.door_id },
        Some(WorldRevision(0)),
        Some(EntityVersion(5)),
        "stale door".to_owned(),
    );
    let receipt = server.process(stale_door).expect("answered").receipt;
    assert_eq!(receipt.rejection.expect("rejected").message, "entity version mismatch: expected 5, actual 0");
}

#[test]
fn an_unexpected_answer_is_described_by_its_variant_and_fields() {
    let answer = WireResponse::Buffered { session_id: 1, received_sequence: 2, expected_sequence: 1 };
    match expect_receipts(answer) {
        Err(ReplyError::UnexpectedResponse(description)) => {
            assert_eq!(description, "Buffered { session_id: 1, received_sequence: 2, expected_sequence: 1 }");
        }
        other => panic!("unexpected result {other:?}"),
    }
}
