use world_prototype::authority::engine::AuthorityServer;
use world_prototype::authority::model::{AuthorityCommand, JournalRecord, WorldRevision};
use world_prototype::authority::scenario::{baseline_world, scenario_ids, ScenarioCommandFactory};
use world_prototype::ids::HexCoord;
use world_prototype::persistence::{
    extended_journal, recover_server, sort_journal, FilePersistenceStore, PersistenceError,
};

#[test]
fn files_lie_under_the_store_root() {
    let store = FilePersistenceStore::new("/var/lib/authority".to_owned());
    assert_eq!(store.root(), "/var/lib/authority");
    assert_eq!(store.snapshot_path(), "/var/lib/authority/region-snapshot.json");
    assert_eq!(store.journal_path(), "/var/lib/authority/command-journal.ndjson");
    assert_eq!(store.journal_staging_path(), "/var/lib/authority/command-journal.ndjson.tmp");
    assert_eq!(store.snapshot_staging_path(), "/var/lib/authority/region-snapshot.json.tmp");

    let trailing = FilePersistenceStore::new("state/".to_owned());
    assert_eq!(trailing.journal_path(), "state/command-journal.ndjson");
    let empty = FilePersistenceStore::new(String::new());
    assert_eq!(empty.snapshot_path(), "region-snapshot.json");
}

fn recorded_journal() -> (Vec<JournalRecord>, AuthorityServer) {
    let start = HexCoord::new(0, 0);
    let ids = scenario_ids(3, start, HexCoord::new(0, 1), 11, None);
    let world = baseline_world(&ids, &vec![]);
    let mut server = AuthorityServer::new(world).expect("server");
    let mut factory = ScenarioCommandFactory::new(ids.player_a, ids.client_a, ids.session_a, 3, 0);
    let connect = factory.envelope(
        AuthorityCommand::Connect { last_acknowledged_revision: WorldRevision(0), interest_center: start },
        None,
        None,
        "connect".to_owned(),
    );
    server.process(connect).expect("connect");
    let toggle = factory.envelope(
        AuthorityCommand::ToggleDoor { door_id: ids.door_id },
        Some(WorldRevision(0)),
        None,
        "toggle".to_owned(),
    );
    server.process(toggle).expect("toggle");
    let toggle_back = factory.envelope(
        AuthorityCommand::ToggleDoor { door_id: ids.door_id },
        Some(WorldRevision(1)),
        None,
        "toggle back".to_owned(),
    );
    server.process(toggle_back).expect("toggle back");
    (server.journal().to_vec(), server)
}

#[test]
fn journal_extends_only_with_the_next_sequences() {
    let (journal, _) = recorded_journal();
    assert_eq!(journal.len(), 3);
    let head = journal[..1].to_vec();
    let tail = journal[1..].to_vec();
    let extended = extended_journal(head.clone(), &tail).expect("extends");
    assert_eq!(extended.len(), 3);
    assert_eq!(extended[2].sequence, 2);

    let unchanged = extended_journal(head.clone(), &Vec::new()).expect("empty batch");
    assert_eq!(unchanged.len(), 1);

    let gap = vec![journal[2].clone()];
    match extended_journal(head, &gap) {
        Err(PersistenceError::JournalSequence { expected, actual }) => {
            assert_eq!((expected, actual), (1, 2));
        }
        other => panic!("unexpected {other:?}"),
    }
    let from_scratch = extended_journal(Vec::new(), &journal[1..].to_vec());
    assert!(matches!(from_scratch, Err(PersistenceError::JournalSequence { expected: 0, actual: 1 })));
}

#[test]
fn journal_is_ordered_by_sequence() {
    let (journal, _) = recorded_journal();
    let shuffled = vec![journal[2].clone(), journal[0].clone(), journal[1].clone()];
    let sorted = sort_journal(shuffled);
    let sequences: Vec<u64> = sorted.iter().map(|record| record.sequence).collect();
    assert_eq!(sequences, vec![0, 1, 2]);
}

#[test]
fn records_sharing_a_sequence_keep_their_order() {
    let (journal, _) = recorded_journal();
    let mut late = journal[0].clone();
    late.sequence = 1;
    let shuffled = vec![journal[2].clone(), late, journal[1].clone()];
    let sorted = sort_journal(shuffled);
    let order: Vec<(u64, u128)> =
        sorted.iter().map(|record| (record.sequence, record.envelope.command_id)).collect();
    assert_eq!(
        order,
        vec![
            (1, journal[0].envelope.command_id),
            (1, journal[1].envelope.command_id),
            (2, journal[2].envelope.command_id),
        ]
    );
}

#[test]
fn recovery_replays_the_journal_onto_the_baseline_and_snapshot() {
    let (journal, server) = recorded_journal();
    let ids = scenario_ids(3, HexCoord::new(0, 0), HexCoord::new(0, 1), 11, None);
    let recovered = recover_server(None, baseline_world(&ids, &vec![]), journal.clone()).expect("recover");
    assert_eq!(recovered.world().revision, WorldRevision(2));
    assert_eq!(recovered.world().doors[&ids.door_id].is_open, false);
    assert_eq!(recovered.next_journal_sequence(), 3);
    assert_eq!(recovered.journal().len(), 3);

    // From a snapshot, the records it already holds are passed over.
    let snapshot = server.snapshot(42).expect("snapshot");
    let from_snapshot = recover_server(Some(snapshot), baseline_world(&ids, &vec![]), journal.clone())
        .expect("from snapshot");
    assert_eq!(from_snapshot.world().revision, WorldRevision(2));
    assert_eq!(from_snapshot.next_journal_sequence(), 3);
    assert!(from_snapshot.journal().is_empty());

    // A snapshot whose fingerprint does not match its world is refused.
    let mut forged = server.snapshot(43).expect("snapshot");
    forged.state_fingerprint.0 ^= 1;
    assert!(matches!(
        recover_server(Some(forged), baseline_world(&ids, &vec![]), Vec::new()),
        Err(PersistenceError::Authority(_))
    ));

    // A journal with a gap is refused.
    let gapped = vec![journal[0].clone(), journal[2].clone()];
    assert!(matches!(
        recover_server(None, baseline_world(&ids, &vec![]), gapped),
        Err(PersistenceError::Authority(_))
    ));
}

#[test]
fn journal_numbers_its_records_and_never_repeats_a_command() {
    let (journal, server) = recorded_journal();
    let sequences: Vec<u64> = journal.iter().map(|record| record.sequence).collect();
    assert_eq!(sequences, vec![0, 1, 2]);
    assert_eq!(server.next_journal_sequence(), 3);
    let ids: Vec<u128> = journal.iter().map(|record| record.envelope.command_id).collect();
    assert!(ids[0] != ids[1] && ids[1] != ids[2] && ids[0] != ids[2]);
}

#[test]
fn taking_an_item_and_putting_it_back_restores_its_place() {
    let start = HexCoord::new(0, 0);
    let ids = scenario_ids(3, start, HexCoord::new(0, 1), 11, None);
    let world = baseline_world(&ids, &vec![]);
    let before = world.clone();
    let mut server = AuthorityServer::new(world).expect("server");
    let mut factory = ScenarioCommandFactory::new(ids.player_a, ids.client_a, ids.session_a, 3, 0);
    let connect = factory.envelope(
        AuthorityCommand::Connect { last_acknowledged_revision: WorldRevision(0), interest_center: start },
        None,
        None,
        "connect".to_owned(),
    );
    server.process(connect).expect("connect");
    let take = factory.envelope(
        AuthorityCommand::TakeItem { item_id: ids.item_id, quantity: 1 },
        None,
        None,
        "take".to_owned(),
    );
    server.process(take).expect("take");
    let put = factory.envelope(
        AuthorityCommand::PutItem { item_id: ids.item_id, quantity: 1, container_id: ids.container_id },
        None,
        None,
        "put".to_owned(),
    );
    server.process(put).expect("put");
    let after = server.world();
    assert_eq!(after.revision, WorldRevision(2));
    assert_eq!(after.items[&ids.item_id].owner, before.items[&ids.item_id].owner);
    assert_eq!(after.items[&ids.item_id].version.0, before.items[&ids.item_id].version.0 + 2);
    assert_eq!(after.containers[&ids.container_id].item_ids, before.containers[&ids.container_id].item_ids);
    assert_eq!(after.players[&ids.player_a].inventory, before.players[&ids.player_a].inventory);
    assert_eq!(after.players[&ids.player_a].version.0, before.players[&ids.player_a].version.0 + 2);
}

#[test]
fn a_record_out_of_sequence_is_refused_even_when_the_journal_is_full() {
    let (journal, _) = recorded_journal();
    let start = HexCoord::new(0, 0);
    let ids = scenario_ids(3, start, HexCoord::new(0, 1), 11, None);
    let world = baseline_world(&ids, &vec![]);
    let fingerprint = world_prototype::authority::fingerprint::semantic_fingerprint(&world);
    let snapshot = world_prototype::authority::model::AuthoritySnapshot {
        snapshot_id: 1,
        schema_version: world_prototype::protocol::SchemaVersion(1),
        next_journal_sequence: u64::MAX,
        world,
        idempotency: std::collections::BTreeMap::new(),
        state_fingerprint: fingerprint,
    };
    let mut server = AuthorityServer::from_snapshot(snapshot).expect("snapshot");
    assert!(!server.can_replay_record(&journal[0]));
    match server.apply_journal_record(journal[0].clone()) {
        Err(world_prototype::authority::events::AuthorityError::JournalSequence { expected, actual }) => {
            assert_eq!((expected, actual), (u64::MAX, 0));
        }
        other => panic!("unexpected {other:?}"),
    }
}
