use world_prototype::authority::engine::AuthorityServer;
use world_prototype::authority::model::{AuthorityCommand, ReceiptDisposition, WorldRevision};
use world_prototype::authority::scenario::{baseline_world, scenario_ids, ScenarioCommandFactory};
use world_prototype::ids::HexCoord;
use world_prototype::transport::{
    adopt_ingest, ingress_response, journal_records, receipt_is_duplicate, server_summary, IngressOutcome,
    OrderedIngress, WireResponse,
};

fn setup() -> (AuthorityServer, ScenarioCommandFactory, u128) {
    let start = HexCoord::new(0, 0);
    let destination = HexCoord::new(1, 0);
    let ids = scenario_ids(9, start, destination, 77, Some(0x6000_0001));
    let world = baseline_world(&ids, &vec![(77, vec![start, destination])]);
    let server = AuthorityServer::new(world).expect("server");
    let factory = ScenarioCommandFactory::new(ids.player_a, ids.client_a, ids.session_a, 9, 0x100);
    (server, factory, ids.session_a)
}

fn connect(factory: &mut ScenarioCommandFactory) -> world_prototype::authority::model::AuthorityCommandEnvelope {
    factory.envelope(
        AuthorityCommand::Connect {
            last_acknowledged_revision: WorldRevision(0),
            interest_center: HexCoord::new(0, 0),
        },
        None,
        None,
        "connect".to_owned(),
    )
}

fn sync(factory: &mut ScenarioCommandFactory) -> world_prototype::authority::model::AuthorityCommandEnvelope {
    factory.envelope(
        AuthorityCommand::RequestSync {
            last_seen_revision: WorldRevision(0),
            interest_center: HexCoord::new(0, 0),
        },
        None,
        None,
        "sync".to_owned(),
    )
}

#[test]
fn early_requests_wait_for_their_turn_and_then_run_in_order() {
    let (mut server, mut factory, session) = setup();
    let mut ingress = OrderedIngress::default();
    let first = connect(&mut factory);
    let second = sync(&mut factory);
    let third = sync(&mut factory);
    let third_id = third.command_id;

    match ingress.ingest(&mut server, third).expect("third") {
        IngressOutcome::Buffered { session_id, received_sequence, expected_sequence } => {
            assert_eq!((session_id, received_sequence, expected_sequence), (session, 2, 0));
        }
        other => panic!("unexpected {other:?}"),
    }
    match ingress.ingest(&mut server, second).expect("second") {
        IngressOutcome::Buffered { received_sequence, expected_sequence, .. } => {
            assert_eq!((received_sequence, expected_sequence), (1, 0));
        }
        other => panic!("unexpected {other:?}"),
    }
    assert_eq!(server.next_journal_sequence(), 0);
    let results = match ingress.ingest(&mut server, first).expect("first") {
        IngressOutcome::Processed(results) => results,
        other => panic!("unexpected {other:?}"),
    };
    assert_eq!(results.len(), 3);
    assert_eq!(results[2].receipt.command_id, third_id);
    let sequences: Vec<u64> = results
        .iter()
        .map(|r| r.journal_record.as_ref().expect("journaled").envelope.audit.request_sequence)
        .collect();
    assert_eq!(sequences, vec![0, 1, 2]);
    assert_eq!(server.next_journal_sequence(), 3);
    assert_eq!(journal_records(&results).len(), 3);

    match ingress_response(&IngressOutcome::Processed(results)) {
        WireResponse::Receipts(receipts) => {
            assert_eq!(receipts.len(), 3);
            assert_eq!(receipts[2].command_id, third_id);
        }
        other => panic!("unexpected {other:?}"),
    }
}

#[test]
fn a_repeated_request_is_answered_from_the_receipts_and_a_different_one_is_stale() {
    let (mut server, mut factory, session) = setup();
    let mut ingress = OrderedIngress::new();
    let first = connect(&mut factory);
    let repeat = first.clone();
    let mut impostor = first.clone();
    impostor.command_id = 0xdead;

    let processed = ingress.ingest(&mut server, first).expect("first");
    assert!(matches!(processed, IngressOutcome::Processed(ref r) if r.len() == 1));

    let again = match ingress.ingest(&mut server, repeat).expect("repeat") {
        IngressOutcome::Processed(results) => results,
        other => panic!("unexpected {other:?}"),
    };
    assert_eq!(again.len(), 1);
    assert!(receipt_is_duplicate(&again[0].receipt));
    assert!(again[0].journal_record.is_none());
    assert!(journal_records(&again).is_empty());

    match ingress.ingest(&mut server, impostor).expect("impostor") {
        IngressOutcome::StaleSequence { session_id, received_sequence, expected_sequence } => {
            assert_eq!((session_id, received_sequence, expected_sequence), (session, 0, 1));
        }
        other => panic!("unexpected {other:?}"),
    }
    assert_eq!(server.next_journal_sequence(), 1);
}

#[test]
fn a_different_command_under_a_waiting_number_is_stale() {
    let (mut server, mut factory, _) = setup();
    let mut ingress = OrderedIngress::new();
    let _first = connect(&mut factory);
    let waiting = sync(&mut factory);
    let mut rival = waiting.clone();
    rival.command_id = 0xbeef;
    let same = waiting.clone();
    assert!(matches!(
        ingress.ingest(&mut server, waiting).expect("waiting"),
        IngressOutcome::Buffered { .. }
    ));
    assert!(matches!(
        ingress.ingest(&mut server, same).expect("same"),
        IngressOutcome::Buffered { .. }
    ));
    match ingress.ingest(&mut server, rival).expect("rival") {
        IngressOutcome::StaleSequence { received_sequence, expected_sequence, .. } => {
            assert_eq!((received_sequence, expected_sequence), (1, 0));
        }
        other => panic!("unexpected {other:?}"),
    }
    match ingress_response(&IngressOutcome::StaleSequence {
        session_id: 5,
        received_sequence: 1,
        expected_sequence: 0,
    }) {
        WireResponse::StaleSequence { session_id, received_sequence, expected_sequence } => {
            assert_eq!((session_id, received_sequence, expected_sequence), (5, 1, 0));
        }
        other => panic!("unexpected {other:?}"),
    }
}

#[test]
fn summary_reports_revision_sessions_and_journal() {
    let (mut server, mut factory, _) = setup();
    let mut ingress = OrderedIngress::new();
    ingress.ingest(&mut server, connect(&mut factory)).expect("connect");
    let summary = server_summary(&server);
    assert_eq!(summary.revision, WorldRevision(0));
    assert_eq!(summary.connected_sessions, 1);
    assert_eq!(summary.next_journal_sequence, 1);
    assert_eq!(
        summary.state_fingerprint,
        world_prototype::authority::fingerprint::semantic_fingerprint(server.world())
    );
    let duplicate = server.process(connect(&mut ScenarioCommandFactory::new(0, 0, 0, 9, 0x100)));
    let receipt = duplicate.expect("duplicate").receipt;
    assert_eq!(receipt.disposition, ReceiptDisposition::Duplicate);
}

#[test]
fn a_host_adopts_a_run_and_keeps_only_the_intake_of_a_waiting_request() {
    let (mut server, mut factory, _) = setup();
    let mut ingress = OrderedIngress::default();
    let first = connect(&mut factory);
    let second = sync(&mut factory);

    let mut ran_server = server.clone();
    let mut ran_ingress = OrderedIngress::default();
    let waiting = ran_ingress.ingest(&mut ran_server, second).expect("second");
    assert!(matches!(waiting, IngressOutcome::Buffered { .. }));
    adopt_ingest(&mut server, &mut ingress, ran_server, ran_ingress, &waiting);
    assert_eq!(server.next_journal_sequence(), 0);

    let mut ran_server = server.clone();
    let mut ran_ingress = OrderedIngress::default();
    let ran = ingress.ingest(&mut ran_server, first).expect("first");
    match &ran {
        IngressOutcome::Processed(results) => assert_eq!(results.len(), 2),
        other => panic!("unexpected {other:?}"),
    }
    std::mem::swap(&mut ingress, &mut ran_ingress);
    let mut host_ingress = OrderedIngress::default();
    adopt_ingest(&mut server, &mut host_ingress, ran_server, ran_ingress, &ran);
    assert_eq!(server.next_journal_sequence(), 2);
}
