//! The authoritative server: it runs each command once, journals every first
//! execution, answers duplicates with the stored receipt, and serves
//! snapshots and delta syncs to clients.

use super::decide::{
    decide, decide_verdict, references_ready, references_ready_exec, spec_decide, Decision,
    Verdict,
};
use super::events::{
    apply_event_to, apply_events_to, entities_of, spec_apply_event, spec_apply_events,
    versions_below, versions_bounded,
    AuthorityError,
};
use super::fingerprint::{semantic_fingerprint, spec_fingerprint};
use super::readiness::world_versions_below;
use super::model::{
    AuthorityCommand, AuthorityCommandEnvelope, AuthoritySnapshot, ClientSnapshot,
    ClientSnapshotView, CommandProcessResult, DeltaView, EnvelopeView, JournalRecord,
    JournalRecordView, ReceiptDisposition, ReceiptView, SessionState, StoredReceipt, SyncPayload,
    SyncView, WorldDelta, WorldEvent, WorldRevision, WorldState, WorldView, P5_SCHEMA_VERSION,
    spec_first_disposition,
};
use crate::ids::{ClientId, CommandId, HexCoord, SnapshotId};
use crate::protocol::{CommandRejection, EntityVersion, RejectionView, SchemaVersion};
use std::collections::BTreeMap;
use crate::rng::{append_decimal, decimal};
use vstd::prelude::*;
use vstd::string::StringExecFns;

verus! {

pub open spec fn view_receipts(m: Map<CommandId, StoredReceipt>) -> Map<CommandId, ReceiptView> {
    m.map_values(|r: StoredReceipt| r@)
}

pub open spec fn view_journal(j: Seq<JournalRecord>) -> Seq<JournalRecordView> {
    j.map_values(|r: JournalRecord| r@)
}

/// Applies an event to the world's entities, checking item transfers against
/// the recorded owner and quantity.
pub fn apply_event(world: &mut WorldState, event: &WorldEvent) -> (result: Result<(), AuthorityError>)
    requires
        versions_bounded(old(world)@.entities),
    ensures
        ({
            let (e, ok) = spec_apply_event(old(world)@.entities, *event, true);
            &&& final(world)@ == (WorldView { entities: e, ..old(world)@ })
            &&& (result is Ok <==> ok)
            &&& (result matches Err(error) ==> error is Invariant)
        }),
{
    let r = apply_event_to(
        &mut world.players,
        &mut world.doors,
        &mut world.items,
        &mut world.containers,
        &mut world.buildings,
        &mut world.vehicles,
        event,
        true,
    );
    r
}

pub struct AuthorityServer {
    world: WorldState,
    idempotency: BTreeMap<CommandId, StoredReceipt>,
    sessions: BTreeMap<ClientId, SessionState>,
    journal: Vec<JournalRecord>,
    next_journal_sequence: u64,
    delta_floor_revision: WorldRevision,
}

pub struct ServerView {
    pub world: WorldView,
    pub idempotency: Map<CommandId, ReceiptView>,
    pub sessions: Map<ClientId, SessionState>,
    pub journal: Seq<JournalRecordView>,
    pub next_journal_sequence: u64,
    /// Clients that last saw an older revision receive a snapshot.
    pub delta_floor_revision: WorldRevision,
}

impl View for AuthorityServer {
    type V = ServerView;

    closed spec fn view(&self) -> ServerView {
        ServerView {
            world: self.world@,
            idempotency: view_receipts(self.idempotency@),
            sessions: self.sessions@,
            journal: view_journal(self.journal@),
            next_journal_sequence: self.next_journal_sequence,
            delta_floor_revision: self.delta_floor_revision,
        }
    }
}

/// The snapshot that a client receives of the world.
pub open spec fn spec_client_snapshot(w: WorldView, interest_center: HexCoord) -> ClientSnapshotView {
    ClientSnapshotView {
        world_id: w.world_id,
        revision: w.revision,
        interest_center,
        entities: w.entities,
        state_fingerprint: spec_fingerprint(w),
    }
}

/// Walks the journal's deltas after `last_seen`; `None` when they do not chain.
pub open spec fn scan_deltas(journal: Seq<JournalRecordView>, last_seen: WorldRevision, n: nat) -> Option<
    (WorldRevision, Seq<DeltaView>),
>
    decreases n,
{
    if n == 0 || n > journal.len() {
        Some((last_seen, Seq::empty()))
    } else {
        match scan_deltas(journal, last_seen, (n - 1) as nat) {
            None => None,
            Some((cursor, deltas)) => match journal[n - 1].stored_receipt.delta {
                None => Some((cursor, deltas)),
                Some(delta) => {
                    if delta.to_revision.0 <= last_seen.0 {
                        Some((cursor, deltas))
                    } else if delta.from_revision != cursor {
                        None
                    } else {
                        Some((delta.to_revision, deltas.push(delta)))
                    }
                },
            },
        }
    }
}

/// What a client that last saw `last_seen` needs: nothing, the chained
/// journal deltas, or a full snapshot.
pub open spec fn spec_sync_payload(s: ServerView, last_seen: WorldRevision, interest_center: HexCoord) -> SyncView {
    if last_seen == s.world.revision {
        SyncView::Deltas(Seq::empty())
    } else if last_seen.0 < s.delta_floor_revision.0 {
        SyncView::Snapshot(spec_client_snapshot(s.world, interest_center))
    } else {
        match scan_deltas(s.journal, last_seen, s.journal.len()) {
            Some((cursor, deltas)) => {
                if cursor == s.world.revision {
                    SyncView::Deltas(deltas)
                } else {
                    SyncView::Snapshot(spec_client_snapshot(s.world, interest_center))
                }
            },
            None => SyncView::Snapshot(spec_client_snapshot(s.world, interest_center)),
        }
    }
}

/// The authority can run `env` for the first time without a counter
/// overflowing or a followed reference missing: its journal sequence has
/// room to grow, the references that the decision follows exist, and where
/// the decision applies an event, the revision and every entity version have
/// room to grow.
pub open spec fn command_ready(s: ServerView, env: EnvelopeView) -> bool {
    &&& s.next_journal_sequence < u64::MAX
    &&& references_ready(s.world, s.sessions, env)
    &&& spec_decide(s.world, s.sessions, env) is Apply ==> versions_bounded(s.world.entities)
        && s.world.revision.0 < u64::MAX
}

/// A receipt that records no world change.
pub open spec fn noop_receipt(w: WorldView, command_id: CommandId, sync: Option<SyncView>) -> ReceiptView {
    ReceiptView {
        command_id,
        world_revision: w.revision,
        resulting_entity_version: None,
        rejection: None,
        delta: None,
        sync,
        state_fingerprint: spec_fingerprint(w),
    }
}

/// The world after a command is applied.
pub open spec fn world_after(s: ServerView, env: EnvelopeView) -> WorldView {
    match spec_decide(s.world, s.sessions, env) {
        Decision::Apply(event, _) => WorldView {
            revision: WorldRevision((s.world.revision.0 + 1) as u64),
            clock: env.issued_at,
            entities: spec_apply_event(s.world.entities, event, true).0,
            ..s.world
        },
        _ => s.world,
    }
}

/// The sessions after a command is applied.
pub open spec fn sessions_after(s: ServerView, env: EnvelopeView) -> Map<ClientId, SessionState> {
    let client = env.audit.client_id;
    match spec_decide(s.world, s.sessions, env) {
        Decision::Connect => s.sessions.insert(
            client,
            SessionState {
                client_id: client,
                session_id: env.audit.session_id,
                actor_id: env.actor_id,
                last_acknowledged_revision: env.payload->Connect_last_acknowledged_revision,
            },
        ),
        Decision::Disconnect => s.sessions.remove(client),
        Decision::Sync => s.sessions.insert(
            client,
            SessionState { last_acknowledged_revision: s.world.revision, ..s.sessions[client] },
        ),
        Decision::Apply(_, _) => s.sessions.insert(
            client,
            SessionState {
                last_acknowledged_revision: world_after(s, env).revision,
                ..s.sessions[client]
            },
        ),
        _ => s.sessions,
    }
}

/// Whether `r` is the stored receipt of the first execution of `env`.
pub open spec fn first_receipt(s: ServerView, env: EnvelopeView, r: ReceiptView) -> bool {
    match spec_decide(s.world, s.sessions, env) {
        Decision::Reject(code, message) => r == ReceiptView {
            rejection: Some(RejectionView { code, message }),
            ..noop_receipt(s.world, env.command_id, None)
        },
        Decision::Connect => r == noop_receipt(
            s.world,
            env.command_id,
            Some(
                SyncView::Snapshot(
                    spec_client_snapshot(s.world, env.payload->Connect_interest_center),
                ),
            ),
        ),
        Decision::Disconnect => r == noop_receipt(s.world, env.command_id, None),
        Decision::Sync => r == noop_receipt(
            s.world,
            env.command_id,
            Some(
                spec_sync_payload(
                    s,
                    env.payload->RequestSync_last_seen_revision,
                    env.payload->RequestSync_interest_center,
                ),
            ),
        ),
        Decision::Apply(event, version) => {
            let w2 = world_after(s, env);
            &&& spec_apply_event(s.world.entities, event, true).1
            &&& r == ReceiptView {
                command_id: env.command_id,
                world_revision: w2.revision,
                resulting_entity_version: Some(version),
                rejection: None,
                delta: Some(
                    DeltaView {
                        from_revision: s.world.revision,
                        to_revision: w2.revision,
                        events: seq![event],
                    },
                ),
                sync: None,
                state_fingerprint: spec_fingerprint(w2),
            }
        },
        Decision::ActorMissing => false,
    }
}

/// Whether a first execution of `env` fails on an invariant and leaves the
/// authority in state `t`.
pub open spec fn first_execution_fails(s: ServerView, env: EnvelopeView, t: ServerView) -> bool {
    match spec_decide(s.world, s.sessions, env) {
        Decision::ActorMissing => t == s,
        Decision::Apply(event, _) => {
            let (e, ok) = spec_apply_event(s.world.entities, event, true);
            &&& !ok
            &&& t == ServerView { world: WorldView { entities: e, ..s.world }, ..s }
        },
        _ => false,
    }
}

/// The authority after the first execution of `env`, stored as `r`.
pub open spec fn executed_state(s: ServerView, env: EnvelopeView, r: ReceiptView) -> ServerView {
    ServerView {
        world: world_after(s, env),
        idempotency: s.idempotency.insert(env.command_id, r),
        sessions: sessions_after(s, env),
        journal: s.journal.push(
            JournalRecordView { sequence: s.next_journal_sequence, envelope: env, stored_receipt: r },
        ),
        next_journal_sequence: (s.next_journal_sequence + 1) as u64,
        delta_floor_revision: s.delta_floor_revision,
    }
}

/// Whether `t` is the authority after the first execution of `env`, stored as `r`.
pub open spec fn first_execution(s: ServerView, env: EnvelopeView, r: ReceiptView, t: ServerView) -> bool {
    &&& first_receipt(s, env, r)
    &&& t == executed_state(s, env, r)
}

/// The authority after `process` answered `env` with `res`: unchanged for a
/// command id it has already seen, else after the command's first execution.
pub open spec fn process_after(s: ServerView, env: EnvelopeView, res: CommandProcessResult) -> ServerView {
    if s.idempotency.contains_key(env.command_id) {
        s
    } else {
        executed_state(s, env, res.receipt@)
    }
}

/// Whether `res` is what `process` answers to `env` on authority `s`: the
/// stored receipt, marked duplicate, for a command id already seen; else the
/// receipt of the first execution with its disposition and journal record.
pub open spec fn process_fits(s: ServerView, env: EnvelopeView, res: CommandProcessResult) -> bool {
    if s.idempotency.contains_key(env.command_id) {
        &&& res.receipt.disposition == ReceiptDisposition::Duplicate
        &&& res.receipt@ == s.idempotency[env.command_id]
        &&& res.journal_record is None
    } else {
        &&& first_receipt(s, env, res.receipt@)
        &&& res.receipt.disposition == spec_first_disposition(res.receipt@)
        &&& res.journal_record matches Some(record) && record@ == process_after(
            s,
            env,
            res,
        ).journal.last()
    }
}

/// A rejection with its code and message.
pub fn rejection(code: crate::protocol::RejectionCode, message: String) -> (rejection: CommandRejection)
    ensures
        rejection.code == code,
        rejection.message@ == message@,
{
    CommandRejection { code, message }
}

fn rejected_receipt(world: &WorldState, command_id: CommandId, code: crate::protocol::RejectionCode, message: String) -> (r: StoredReceipt)
    ensures
        r@ == (ReceiptView {
            rejection: Some(RejectionView { code, message: message@ }),
            ..noop_receipt(world@, command_id, None)
        }),
{
    StoredReceipt {
        command_id,
        world_revision: world.revision,
        resulting_entity_version: None,
        rejection: Some(rejection(code, message)),
        delta: None,
        sync: None,
        state_fingerprint: semantic_fingerprint(world),
    }
}

fn noop(world: &WorldState, command_id: CommandId, sync: Option<SyncPayload>) -> (r: StoredReceipt)
    ensures
        r@ == noop_receipt(
            world@,
            command_id,
            match sync {
                Some(p) => Some(p@),
                None => None,
            },
        ),
{
    StoredReceipt {
        command_id,
        world_revision: world.revision,
        resulting_entity_version: None,
        rejection: None,
        delta: None,
        sync,
        state_fingerprint: semantic_fingerprint(world),
    }
}

/// The snapshot of a world that a client receives.
pub fn world_client_snapshot(world: &WorldState, interest_center: HexCoord) -> (snapshot: ClientSnapshot)
    ensures
        snapshot@ == spec_client_snapshot(world@, interest_center),
{
    ClientSnapshot {
        world_id: world.world_id,
        revision: world.revision,
        interest_center,
        players: world.players.clone(),
        doors: world.doors.clone(),
        items: world.items.clone(),
        containers: world.containers.clone(),
        buildings: world.buildings.clone(),
        vehicles: world.vehicles.clone(),
        state_fingerprint: semantic_fingerprint(world),
    }
}

impl Clone for AuthorityServer {
    fn clone(&self) -> (copy: Self)
        ensures
            copy@ == self@,
    {
        let journal = self.journal.clone();
        proof {
            assert(view_journal(journal@) =~= view_journal(self.journal@)) by {
                assert forall|i: int| 0 <= i < journal.len() implies journal@[i]@ == self.journal@[i]@ by {
                    assert(cloned(self.journal[i], journal[i]));
                }
            }
        }
        AuthorityServer {
            world: self.world.clone(),
            idempotency: self.idempotency.clone(),
            sessions: self.sessions.clone(),
            journal,
            next_journal_sequence: self.next_journal_sequence,
            delta_floor_revision: self.delta_floor_revision,
        }
    }
}

impl AuthorityServer {
    pub fn new(world: WorldState) -> (result: Result<Self, AuthorityError>)
        ensures
            result matches Ok(server) && server@ == (ServerView {
                world: world@,
                idempotency: Map::empty(),
                sessions: Map::empty(),
                journal: Seq::empty(),
                next_journal_sequence: 0,
                delta_floor_revision: world@.revision,
            }),
    {
        let delta_floor_revision = world.revision;
        let server = AuthorityServer {
            world,
            idempotency: BTreeMap::new(),
            sessions: BTreeMap::new(),
            journal: Vec::new(),
            next_journal_sequence: 0,
            delta_floor_revision,
        };
        assert(view_receipts(server.idempotency@) =~= Map::empty());
        assert(view_journal(server.journal@) =~= Seq::empty());
        Ok(server)
    }

    /// Restores an authority from a snapshot whose fingerprint matches its world.
    pub fn from_snapshot(snapshot: AuthoritySnapshot) -> (result: Result<Self, AuthorityError>)
        ensures
            spec_fingerprint(snapshot.world@) != snapshot.state_fingerprint ==> (result matches Err(
                error,
            ) && error is JournalFingerprint),
            spec_fingerprint(snapshot.world@) == snapshot.state_fingerprint ==> (result matches Ok(
                server,
            ) && server@ == (ServerView {
                world: snapshot.world@,
                idempotency: view_receipts(snapshot.idempotency@),
                sessions: Map::empty(),
                journal: Seq::empty(),
                next_journal_sequence: snapshot.next_journal_sequence,
                delta_floor_revision: snapshot.world@.revision,
            })),
    {
        let actual = semantic_fingerprint(&snapshot.world);
        if actual != snapshot.state_fingerprint {
            return Err(AuthorityError::JournalFingerprint);
        }
        let delta_floor_revision = snapshot.world.revision;
        let server = AuthorityServer {
            world: snapshot.world,
            idempotency: snapshot.idempotency,
            sessions: BTreeMap::new(),
            journal: Vec::new(),
            next_journal_sequence: snapshot.next_journal_sequence,
            delta_floor_revision,
        };
        assert(view_journal(server.journal@) =~= Seq::empty());
        Ok(server)
    }

    /// Whether the authority can run `envelope` for the first time, as
    /// `process` asks of a command it has not seen.
    pub fn ready_for(&self, envelope: &AuthorityCommandEnvelope) -> (ok: bool)
        ensures
            ok == command_ready(self@, envelope@),
    {
        if self.next_journal_sequence == u64::MAX {
            return false;
        }
        if !references_ready_exec(&self.world, &self.sessions, envelope) {
            return false;
        }
        let applies = match decide_verdict(&self.world, &self.sessions, envelope) {
            Verdict::Apply(..) => true,
            _ => false,
        };
        !applies || (self.world.revision.0 < u64::MAX && world_versions_below(&self.world, u64::MAX - 1))
    }

    pub fn world(&self) -> (world: &WorldState)
        ensures
            world@ == self@.world,
    {
        &self.world
    }

    /// Whether a command with this id has already run.
    pub fn has_run(&self, command_id: CommandId) -> (seen: bool)
        ensures
            seen == self@.idempotency.contains_key(command_id),
    {
        self.idempotency.contains_key(&command_id)
    }

    pub fn sessions(&self) -> (sessions: &BTreeMap<ClientId, SessionState>)
        ensures
            sessions@ == self@.sessions,
    {
        &self.sessions
    }

    pub fn journal(&self) -> (journal: &[JournalRecord])
        ensures
            view_journal(journal@) == self@.journal,
    {
        self.journal.as_slice()
    }

    pub fn next_journal_sequence(&self) -> (sequence: u64)
        ensures
            sequence == self@.next_journal_sequence,
    {
        self.next_journal_sequence
    }

    pub fn client_snapshot(&self, interest_center: HexCoord) -> (result: Result<ClientSnapshot, AuthorityError>)
        ensures
            result matches Ok(snapshot) && snapshot@ == spec_client_snapshot(self@.world, interest_center),
    {
        Ok(world_client_snapshot(&self.world, interest_center))
    }

    pub fn snapshot(&self, snapshot_id: SnapshotId) -> (result: Result<AuthoritySnapshot, AuthorityError>)
        ensures
            result matches Ok(snapshot) && {
                &&& snapshot.snapshot_id == snapshot_id
                &&& snapshot.schema_version == SchemaVersion(P5_SCHEMA_VERSION)
                &&& snapshot.next_journal_sequence == self@.next_journal_sequence
                &&& snapshot.world@ == self@.world
                &&& view_receipts(snapshot.idempotency@) == self@.idempotency
                &&& snapshot.state_fingerprint == spec_fingerprint(self@.world)
            },
    {
        Ok(AuthoritySnapshot {
            snapshot_id,
            schema_version: SchemaVersion(P5_SCHEMA_VERSION),
            next_journal_sequence: self.next_journal_sequence,
            world: self.world.clone(),
            idempotency: self.idempotency.clone(),
            state_fingerprint: semantic_fingerprint(&self.world),
        })
    }

    /// The sync payload for a client that last saw `last_seen_revision`.
    #[verifier::rlimit(40)]
    pub fn sync_payload(&self, last_seen_revision: WorldRevision, interest_center: HexCoord) -> (result: Result<
        SyncPayload,
        AuthorityError,
    >)
        ensures
            result matches Ok(payload) && payload@ == spec_sync_payload(
                self@,
                last_seen_revision,
                interest_center,
            ),
    {
        if last_seen_revision == self.world.revision {
            let deltas: Vec<WorldDelta> = Vec::new();
            let payload = SyncPayload::Deltas(deltas);
            assert(payload@ == spec_sync_payload(self@, last_seen_revision, interest_center)) by {
                assert(deltas@.map_values(|d: WorldDelta| d@) =~= Seq::<DeltaView>::empty());
            }
            return Ok(payload);
        }
        if last_seen_revision.0 < self.delta_floor_revision.0 {
            return Ok(SyncPayload::Snapshot(world_client_snapshot(&self.world, interest_center)));
        }
        let ghost journal = view_journal(self.journal@);
        let ghost mut collected: Seq<DeltaView> = Seq::empty();
        let mut cursor = last_seen_revision;
        let mut deltas: Vec<WorldDelta> = Vec::new();
        let mut i: usize = 0;
        while i < self.journal.len()
            invariant
                i <= self.journal.len(),
                journal == view_journal(self.journal@),
                last_seen_revision != self.world.revision,
                last_seen_revision.0 >= self.delta_floor_revision.0,
                scan_deltas(journal, last_seen_revision, i as nat) == Some((cursor, collected)),
                deltas@.len() == collected.len(),
                forall|k: int| 0 <= k < collected.len() ==> #[trigger] deltas@[k]@ == collected[k],
            decreases self.journal.len() - i,
        {
            let record = &self.journal[i];
            proof {
                assert(journal[i as int] == record@);
                lemma_scan_step(journal, last_seen_revision, i as nat);
            }
            match &record.stored_receipt.delta {
                None => {},
                Some(delta) => {
                    if delta.to_revision.0 <= last_seen_revision.0 {
                    } else if delta.from_revision != cursor {
                        proof {
                            lemma_scan_stays_broken(journal, last_seen_revision, (i + 1) as nat, journal.len());
                            assert(self@.journal == journal);
                            assert(scan_deltas(self@.journal, last_seen_revision, self@.journal.len()) is None);
                        }
                        let payload = SyncPayload::Snapshot(world_client_snapshot(&self.world, interest_center));
                        assert(last_seen_revision != self@.world.revision);
                        assert(!(last_seen_revision.0 < self@.delta_floor_revision.0));
                        assert(payload@ == SyncView::Snapshot(spec_client_snapshot(self@.world, interest_center)));
                        return Ok(payload);
                    } else {
                        cursor = delta.to_revision;
                        deltas.push(delta.clone());
                        proof {
                            collected = collected.push(delta@);
                        }
                    }
                },
            }
            i = i + 1;
        }
        proof {
            assert(deltas@.map_values(|d: WorldDelta| d@) =~= collected);
        }
        assert(journal.len() == i);
        if cursor == self.world.revision {
            Ok(SyncPayload::Deltas(deltas))
        } else {
            Ok(SyncPayload::Snapshot(world_client_snapshot(&self.world, interest_center)))
        }
    }
}


impl AuthorityServer {
    fn execute_first(&mut self, env: &AuthorityCommandEnvelope) -> (result: Result<StoredReceipt, AuthorityError>)
        requires
            command_ready(old(self)@, env@),
        ensures
            match result {
                Ok(r) => {
                    &&& first_receipt(old(self)@, env@, r@)
                    &&& final(self)@ == (ServerView {
                        world: world_after(old(self)@, env@),
                        sessions: sessions_after(old(self)@, env@),
                        ..old(self)@
                    })
                },
                Err(error) => {
                    &&& error is Invariant
                    &&& first_execution_fails(old(self)@, env@, final(self)@)
                },
            },
    {
        let ghost s0 = self@;
        let verdict = decide(&self.world, &self.sessions, env);
        match verdict {
            Verdict::Reject(code, message) => {
                let r = rejected_receipt(&self.world, env.command_id, code, message);
                Ok(r)
            },
            Verdict::ActorMissing => Err(AuthorityError::Invariant("session actor disappeared".to_owned())),
            Verdict::Connect => {
                let (last, center) = match env.payload {
                    AuthorityCommand::Connect { last_acknowledged_revision, interest_center } => (
                        last_acknowledged_revision,
                        interest_center,
                    ),
                    _ => {
                        assert(false);
                        return Err(AuthorityError::Invariant("unreachable".to_owned()));
                    },
                };
                self.sessions.insert(
                    env.audit.client_id,
                    SessionState {
                        client_id: env.audit.client_id,
                        session_id: env.audit.session_id,
                        actor_id: env.actor_id,
                        last_acknowledged_revision: last,
                    },
                );
                let snapshot = world_client_snapshot(&self.world, center);
                Ok(noop(&self.world, env.command_id, Some(SyncPayload::Snapshot(snapshot))))
            },
            Verdict::Disconnect => {
                self.sessions.remove(&env.audit.client_id);
                Ok(noop(&self.world, env.command_id, None))
            },
            Verdict::Sync => {
                let (last_seen, center) = match env.payload {
                    AuthorityCommand::RequestSync { last_seen_revision, interest_center } => (
                        last_seen_revision,
                        interest_center,
                    ),
                    _ => {
                        assert(false);
                        return Err(AuthorityError::Invariant("unreachable".to_owned()));
                    },
                };
                let payload = self.sync_payload(last_seen, center)?;
                let session = match self.sessions.get(&env.audit.client_id) {
                    Some(session) => *session,
                    None => {
                        assert(false);
                        return Err(AuthorityError::Invariant("unreachable".to_owned()));
                    },
                };
                self.sessions.insert(
                    env.audit.client_id,
                    SessionState { last_acknowledged_revision: self.world.revision, ..session },
                );
                Ok(noop(&self.world, env.command_id, Some(payload)))
            },
            Verdict::Apply(event, target_version) => {
                let from_revision = self.world.revision;
                apply_event(&mut self.world, &event)?;
                self.world.revision = WorldRevision(self.world.revision.0 + 1);
                self.world.clock = env.issued_at;
                let mut events: Vec<WorldEvent> = Vec::new();
                events.push(event);
                let delta = WorldDelta { from_revision, to_revision: self.world.revision, events };
                let session = match self.sessions.get(&env.audit.client_id) {
                    Some(session) => *session,
                    None => {
                        assert(false);
                        return Err(AuthorityError::Invariant("unreachable".to_owned()));
                    },
                };
                self.sessions.insert(
                    env.audit.client_id,
                    SessionState { last_acknowledged_revision: self.world.revision, ..session },
                );
                let r = StoredReceipt {
                    command_id: env.command_id,
                    world_revision: self.world.revision,
                    resulting_entity_version: Some(target_version),
                    rejection: None,
                    delta: Some(delta),
                    sync: None,
                    state_fingerprint: semantic_fingerprint(&self.world),
                };
                assert(delta@.events =~= seq![event]);
                Ok(r)
            },
        }
    }

    /// Runs a command once: a repeated command id is answered with the stored
    /// receipt and changes nothing; a new one is decided, applied, stored
    /// under its id and journaled under the next sequence number.
    pub fn process(&mut self, envelope: AuthorityCommandEnvelope) -> (result: Result<CommandProcessResult, AuthorityError>)
        requires
            old(self)@.idempotency.contains_key(envelope@.command_id) || command_ready(old(self)@, envelope@),
        ensures
            old(self)@.idempotency.contains_key(envelope@.command_id) ==> {
                &&& final(self)@ == old(self)@
                &&& result matches Ok(res) && {
                    &&& res.receipt.disposition == ReceiptDisposition::Duplicate
                    &&& res.receipt@ == old(self)@.idempotency[envelope@.command_id]
                    &&& res.journal_record is None
                }
            },
            !old(self)@.idempotency.contains_key(envelope@.command_id) ==> match result {
                Ok(res) => {
                    &&& first_execution(old(self)@, envelope@, res.receipt@, final(self)@)
                    &&& res.receipt.disposition == spec_first_disposition(res.receipt@)
                    &&& res.journal_record matches Some(record) && record@ == final(self)@.journal.last()
                },
                Err(error) => {
                    &&& error is Invariant
                    &&& first_execution_fails(old(self)@, envelope@, final(self)@)
                },
            },
            result matches Ok(res) ==> process_fits(old(self)@, envelope@, res) && final(self)@
                == process_after(old(self)@, envelope@, res),
    {
        if let Some(stored) = self.idempotency.get(&envelope.command_id) {
            proof {
                assert(self.idempotency@.contains_key(envelope.command_id));
            }
            return Ok(
                CommandProcessResult {
                    receipt: stored.as_receipt(ReceiptDisposition::Duplicate),
                    journal_record: None,
                },
            );
        }
        let ghost s0 = self@;
        let stored = self.execute_first(&envelope)?;
        let receipt = stored.as_receipt(stored.first_disposition());
        let record = JournalRecord {
            sequence: self.next_journal_sequence,
            envelope,
            stored_receipt: stored.clone(),
        };
        self.next_journal_sequence = self.next_journal_sequence + 1;
        let command_id = stored.command_id;
        let ghost stored_view = stored@;
        self.idempotency.insert(command_id, stored);
        let copy = record.clone();
        let ghost before = self.journal@;
        self.journal.push(copy);
        proof {
            assert(view_receipts(self.idempotency@) =~= s0.idempotency.insert(
                envelope@.command_id,
                stored_view,
            ));
            assert(view_journal(self.journal@) =~= view_journal(before).push(record@));
        }
        Ok(CommandProcessResult { receipt, journal_record: Some(record) })
    }
}

proof fn lemma_scan_step(journal: Seq<JournalRecordView>, last_seen: WorldRevision, i: nat)
    requires
        i < journal.len(),
    ensures
        scan_deltas(journal, last_seen, i + 1) == match scan_deltas(journal, last_seen, i) {
            None => None,
            Some((cursor, deltas)) => match journal[i as int].stored_receipt.delta {
                None => Some((cursor, deltas)),
                Some(delta) => {
                    if delta.to_revision.0 <= last_seen.0 {
                        Some((cursor, deltas))
                    } else if delta.from_revision != cursor {
                        None
                    } else {
                        Some((delta.to_revision, deltas.push(delta)))
                    }
                },
            },
        },
{
}

proof fn lemma_scan_stays_broken(journal: Seq<JournalRecordView>, last_seen: WorldRevision, from: nat, to: nat)
    requires
        scan_deltas(journal, last_seen, from) is None,
        from <= to,
        to <= journal.len(),
    ensures
        scan_deltas(journal, last_seen, to) is None,
    decreases to - from,
{
    if from < to {
        lemma_scan_stays_broken(journal, last_seen, from, (to - 1) as nat);
    }
}

/// The world after replaying a journal record's delta, and whether every
/// event applied.
pub open spec fn replayed_world(w: WorldView, record: JournalRecordView) -> (WorldView, bool) {
    match record.stored_receipt.delta {
        None => (w, true),
        Some(delta) => {
            let (e, ok) = spec_apply_events(w.entities, delta.events, delta.events.len(), true);
            if ok {
                (
                    WorldView {
                        entities: e,
                        revision: delta.to_revision,
                        clock: record.envelope.issued_at,
                        ..w
                    },
                    true,
                )
            } else {
                (WorldView { entities: e, ..w }, false)
            }
        },
    }
}

/// Replaying a record cannot overflow a counter.
pub open spec fn can_replay(s: ServerView, record: JournalRecordView) -> bool {
    &&& s.next_journal_sequence < u64::MAX
    &&& record.stored_receipt.delta matches Some(delta) ==> versions_below(
        s.world.entities,
        u64::MAX + 1 - 2 * delta.events.len(),
    )
}

/// Whether a journal record is refused before any of it is replayed: it
/// carries another sequence number, repeats a command, or has a delta that
/// starts elsewhere than the current revision.
pub open spec fn refused_before_replay(s: ServerView, record: JournalRecordView) -> bool {
    ||| record.sequence != s.next_journal_sequence
    ||| s.idempotency.contains_key(record.envelope.command_id)
    ||| match record.stored_receipt.delta {
        Some(delta) => delta.from_revision != s.world.revision,
        None => false,
    }
}

/// The message of a journal record whose command has already run.
fn repeated_command_message(command_id: CommandId) -> (message: String)
    ensures
        message@ == "journal repeats command "@ + decimal(command_id as nat),
{
    let mut text = "journal repeats command ".to_owned();
    append_decimal(&mut text, command_id);
    text
}

impl AuthorityServer {
    /// Whether a journal record can be replayed without a counter overflowing:
    /// the journal sequence has room to grow, and so does every entity
    /// version, by two for each event of the record's delta.
    pub fn can_replay_record(&self, record: &JournalRecord) -> (ok: bool)
        ensures
            ok == can_replay(self@, record@),
    {
        if self.next_journal_sequence == u64::MAX {
            return false;
        }
        match &record.stored_receipt.delta {
            None => true,
            Some(delta) => {
                let count = delta.events.len() as u64;
                if count == 0 {
                    true
                } else if count <= u64::MAX / 2 {
                    world_versions_below(&self.world, u64::MAX - 2 * count + 1)
                } else {
                    let ok = world_versions_below(&self.world, 0);
                    proof {
                        let e = self@.world.entities;
                        let b = u64::MAX + 1 - 2 * delta@.events.len();
                        assert(b <= 0);
                        assert(versions_below(e, 0) ==> versions_below(e, b));
                        assert(versions_below(e, b) ==> versions_below(e, 0));
                    }
                    ok
                }
            },
        }
    }

    /// Replays a journal record: it must carry the next sequence number and a
    /// new command id, its delta must start at the current revision, and the
    /// replayed world must have the record's fingerprint.
    pub fn apply_journal_record(&mut self, record: JournalRecord) -> (result: Result<(), AuthorityError>)
        requires
            refused_before_replay(old(self)@, record@) || can_replay(old(self)@, record@),
        ensures
            ({
                let s = old(self)@;
                let r = record@;
                let (w2, ok) = replayed_world(s.world, r);
                if r.sequence != s.next_journal_sequence {
                    &&& result matches Err(AuthorityError::JournalSequence { expected, actual })
                    &&& expected == s.next_journal_sequence && actual == r.sequence
                    &&& final(self)@ == s
                } else if s.idempotency.contains_key(r.envelope.command_id) {
                    &&& result matches Err(error) && error is Invariant
                    &&& final(self)@ == s
                } else if r.stored_receipt.delta is Some && r.stored_receipt.delta->0.from_revision
                    != s.world.revision {
                    &&& result matches Err(AuthorityError::JournalRevision { expected, actual })
                    &&& expected == s.world.revision && actual == r.stored_receipt.delta->0.from_revision
                    &&& final(self)@ == s
                } else if !ok {
                    &&& result matches Err(error) && error is Invariant
                    &&& final(self)@ == (ServerView { world: w2, ..s })
                } else if spec_fingerprint(w2) != r.stored_receipt.state_fingerprint {
                    &&& result matches Err(error) && error is JournalFingerprint
                    &&& final(self)@ == (ServerView { world: w2, ..s })
                } else {
                    &&& result is Ok
                    &&& final(self)@ == (ServerView {
                        world: w2,
                        idempotency: s.idempotency.insert(r.envelope.command_id, r.stored_receipt),
                        journal: s.journal.push(r),
                        next_journal_sequence: (s.next_journal_sequence + 1) as u64,
                        ..s
                    })
                }
            }),
    {
        if record.sequence != self.next_journal_sequence {
            return Err(
                AuthorityError::JournalSequence {
                    expected: self.next_journal_sequence,
                    actual: record.sequence,
                },
            );
        }
        if self.idempotency.contains_key(&record.envelope.command_id) {
            return Err(AuthorityError::Invariant(repeated_command_message(record.envelope.command_id)));
        }
        let ghost s0 = self@;
        match &record.stored_receipt.delta {
            None => {},
            Some(delta) => {
                if delta.from_revision != self.world.revision {
                    return Err(
                        AuthorityError::JournalRevision {
                            expected: self.world.revision,
                            actual: delta.from_revision,
                        },
                    );
                }
                apply_events_to(
                    &mut self.world.players,
                    &mut self.world.doors,
                    &mut self.world.items,
                    &mut self.world.containers,
                    &mut self.world.buildings,
                    &mut self.world.vehicles,
                    &delta.events,
                    true,
                )?;
                self.world.revision = delta.to_revision;
                self.world.clock = record.envelope.issued_at;
            },
        }
        let actual = semantic_fingerprint(&self.world);
        if actual != record.stored_receipt.state_fingerprint {
            return Err(AuthorityError::JournalFingerprint);
        }
        let ghost stored_view = record.stored_receipt@;
        self.idempotency.insert(record.envelope.command_id, record.stored_receipt.clone());
        self.next_journal_sequence = self.next_journal_sequence + 1;
        let ghost before = self.journal@;
        let ghost record_view = record@;
        self.journal.push(record);
        proof {
            assert(view_receipts(self.idempotency@) =~= s0.idempotency.insert(
                record_view.envelope.command_id,
                stored_view,
            ));
            assert(view_journal(self.journal@) =~= view_journal(before).push(record_view));
        }
        Ok(())
    }
}

} // verus!
