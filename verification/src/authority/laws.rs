//! Properties that relate several operations of the authority and its clients.

use super::decide::{reaches_mutation, spec_decide, spec_event_id, Decision};
use super::engine::{
    command_ready, first_execution, first_execution_fails, process_after, process_fits, replayed_world, scan_deltas,
    spec_sync_payload, world_after, ServerView,
};
use super::events::{bump, spec_add_reference, spec_apply_event, spec_apply_events, spec_remove_reference};
use super::fingerprint::spec_fingerprint;
use super::model::{
    ActorLocation, AuthorityCommand, CommandProcessResult, SessionState, DeltaView, EntitiesView, EnvelopeView, ItemOwner, ItemView,
    JournalRecordView, ReceiptDisposition, ReceiptView, WorldEvent, WorldRevision, WorldView, P5_SCHEMA_VERSION,
};
use super::projection::{
    receipt_bounded, spec_apply_delta, spec_apply_deltas, spec_apply_receipt, spec_apply_sync, ProjectionView,
};
use crate::ids::{ClientId, ContainerId, HexCoord, ItemId, PersonId};
use crate::protocol::{EntityVersion, RejectionCode};
use vstd::prelude::*;

verus! {

/// After a command's first execution its receipt is stored under its id, so
/// every later submission of that id is answered with this same receipt.
pub proof fn lemma_first_receipt_is_stored(s: ServerView, env: EnvelopeView, r: ReceiptView, t: ServerView)
    requires
        first_execution(s, env, r, t),
    ensures
        t.idempotency.contains_key(env.command_id),
        t.idempotency[env.command_id] == r,
        t.journal.last().stored_receipt == r,
        t.journal.last().sequence == s.next_journal_sequence,
{
}

/// A command's first execution advances the world revision by one exactly
/// when its receipt carries a delta, and otherwise leaves the world as it was.
pub proof fn lemma_revision_advances_with_delta(s: ServerView, env: EnvelopeView, r: ReceiptView, t: ServerView)
    requires
        command_ready(s, env),
        first_execution(s, env, r, t),
    ensures
        r.delta is Some ==> t.world.revision.0 == s.world.revision.0 + 1,
        r.delta is None ==> t.world == s.world,
        r.world_revision == t.world.revision,
        r.state_fingerprint == spec_fingerprint(t.world),
{
}

/// A rejected command changes neither the world nor the sessions.
pub proof fn lemma_rejection_changes_nothing(s: ServerView, env: EnvelopeView, r: ReceiptView, t: ServerView)
    requires
        first_execution(s, env, r, t),
        r.rejection is Some,
    ensures
        t.world == s.world,
        t.sessions == s.sessions,
        r.delta is None,
        r.sync is None,
{
}

/// Replaying the journal record of a command's first execution, on a replica
/// whose world and journal position are the authority's before the command,
/// reproduces the authority's world, and the record's fingerprint matches.
pub proof fn lemma_replay_reproduces_first_execution(
    s: ServerView,
    env: EnvelopeView,
    r: ReceiptView,
    t: ServerView,
    replica: ServerView,
)
    requires
        first_execution(s, env, r, t),
        replica.world == s.world,
    ensures
        ({
            let record = t.journal.last();
            let (w2, ok) = replayed_world(replica.world, record);
            &&& record.sequence == s.next_journal_sequence
            &&& record.envelope.command_id == env.command_id
            &&& (record.stored_receipt.delta matches Some(d) ==> d.from_revision
                == replica.world.revision)
            &&& ok
            &&& w2 == t.world
            &&& spec_fingerprint(w2) == record.stored_receipt.state_fingerprint
        }),
{
    let record = t.journal.last();
    match spec_decide(s.world, s.sessions, env) {
        Decision::Apply(event, _) => {
            let evs = seq![event];
            assert(spec_apply_events(s.world.entities, evs, 1, true) == spec_apply_event(
                s.world.entities,
                event,
                true,
            )) by {
                assert(spec_apply_events(s.world.entities, evs, 0, true) == (s.world.entities, true));
            }
            assert(record.stored_receipt.delta->0.events == evs);
        },
        _ => {},
    }
}

/// Where the authority applies an event cleanly, a client that trusts the
/// authority applies it to the same tables with the same result.
pub proof fn lemma_trusting_application_agrees(e: super::model::EntitiesView, event: WorldEvent)
    requires
        spec_apply_event(e, event, true).1,
    ensures
        spec_apply_event(e, event, false) == spec_apply_event(e, event, true),
{
}

/// A client projection at the authority's revision, holding the authority's
/// entities, reaches the authority's new revision and entities by applying
/// the delta of a command's receipt.
pub proof fn lemma_projection_follows_delta(
    s: ServerView,
    env: EnvelopeView,
    r: ReceiptView,
    t: ServerView,
    p: ProjectionView,
)
    requires
        first_execution(s, env, r, t),
        r.delta is Some,
        p.revision == s.world.revision,
        p.entities == s.world.entities,
    ensures
        spec_apply_delta(p, r.delta->0) == (ProjectionView {
            entities: t.world.entities,
            revision: t.world.revision,
            visual_cache_key: None,
            ..p
        }, true),
{
    match spec_decide(s.world, s.sessions, env) {
        Decision::Apply(event, _) => {
            let evs = seq![event];
            lemma_trusting_application_agrees(s.world.entities, event);
            assert(spec_apply_events(p.entities, evs, 0, false) == (p.entities, true));
            assert(spec_apply_events(p.entities, evs, 1, false) == spec_apply_event(
                p.entities,
                event,
                false,
            ));
            assert(r.delta->0.events == evs);
        },
        _ => {},
    }
}

/// The authority after `process` answered the first `n` commands of `envs`
/// with `results`, one after the other.
pub open spec fn run_commands(
    s: ServerView,
    envs: Seq<EnvelopeView>,
    results: Seq<CommandProcessResult>,
    n: nat,
) -> ServerView
    decreases n,
{
    if n == 0 {
        s
    } else {
        process_after(run_commands(s, envs, results, (n - 1) as nat), envs[n - 1], results[n - 1])
    }
}

/// Whether each of the first `n` results is what `process` answers to its
/// command, on an authority that could take the command.
pub open spec fn commands_fit(
    s: ServerView,
    envs: Seq<EnvelopeView>,
    results: Seq<CommandProcessResult>,
    n: nat,
) -> bool
    decreases n,
{
    if n == 0 {
        true
    } else {
        let m = run_commands(s, envs, results, (n - 1) as nat);
        &&& commands_fit(s, envs, results, (n - 1) as nat)
        &&& m.idempotency.contains_key(envs[n - 1].command_id) || command_ready(m, envs[n - 1])
        &&& process_fits(m, envs[n - 1], results[n - 1])
    }
}


/// A run whose commands all fit has every shorter run fit too.
pub proof fn lemma_commands_fit_prefix(
    s: ServerView,
    envs: Seq<EnvelopeView>,
    results: Seq<CommandProcessResult>,
    a: nat,
    b: nat,
)
    requires
        a <= b,
        commands_fit(s, envs, results, b),
    ensures
        commands_fit(s, envs, results, a),
    decreases b - a,
{
    if a < b {
        lemma_commands_fit_prefix(s, envs, results, a, (b - 1) as nat);
    }
}

/// Whether every delta in a journal ends at or before revision `r`.
pub open spec fn deltas_end_by(journal: Seq<JournalRecordView>, r: WorldRevision) -> bool {
    forall|j: int| 0 <= j < journal.len() ==> ((#[trigger] journal[j]).stored_receipt.delta matches Some(
        d,
    ) ==> d.to_revision.0 <= r.0)
}

/// What one command does to the authority's revision, journal and entities.
proof fn lemma_step_effect(s: ServerView, env: EnvelopeView, res: CommandProcessResult)
    requires
        s.idempotency.contains_key(env.command_id) || command_ready(s, env),
        process_fits(s, env, res),
    ensures
        ({
            let t = process_after(s, env, res);
            if s.idempotency.contains_key(env.command_id) {
                t == s
            } else {
                &&& t.journal == s.journal.push(t.journal.last())
                &&& t.delta_floor_revision == s.delta_floor_revision
                &&& match t.journal.last().stored_receipt.delta {
                    Some(d) => {
                        &&& d.from_revision == s.world.revision
                        &&& d.to_revision == t.world.revision
                        &&& t.world.revision.0 == s.world.revision.0 + 1
                        &&& d.events.len() == 1
                        &&& spec_apply_event(s.world.entities, d.events[0], true) == (
                            t.world.entities,
                            true,
                        )
                    },
                    None => t.world.entities == s.world.entities && t.world.revision
                        == s.world.revision,
                }
            }
        }),
{
    if !s.idempotency.contains_key(env.command_id) {
        let t = process_after(s, env, res);
        assert(t.journal.last().stored_receipt == res.receipt@);
        match spec_decide(s.world, s.sessions, env) {
            Decision::Apply(event, _) => {
                assert(res.receipt@.delta->0.events =~= seq![event]);
            },
            _ => {},
        }
    }
}

/// Along a run, the revision never goes back, and every delta in the
/// journal ends at or before the current revision.
proof fn lemma_run_journal_behind(
    s: ServerView,
    envs: Seq<EnvelopeView>,
    results: Seq<CommandProcessResult>,
    a: nat,
    k: nat,
)
    requires
        a <= k,
        k <= envs.len(),
        k <= results.len(),
        commands_fit(s, envs, results, k),
        deltas_end_by(s.journal, s.world.revision),
    ensures
        deltas_end_by(run_commands(s, envs, results, k).journal, run_commands(s, envs, results, k).world.revision),
        run_commands(s, envs, results, a).world.revision.0 <= run_commands(s, envs, results, k).world.revision.0,
        run_commands(s, envs, results, k).delta_floor_revision == s.delta_floor_revision,
    decreases k,
{
    if k > 0 {
        let m = run_commands(s, envs, results, (k - 1) as nat);
        let t = run_commands(s, envs, results, k);
        if a < k {
            lemma_run_journal_behind(s, envs, results, a, (k - 1) as nat);
        } else {
            lemma_run_journal_behind(s, envs, results, (k - 1) as nat, (k - 1) as nat);
        }
        lemma_step_effect(m, envs[k - 1], results[k - 1]);
        if !m.idempotency.contains_key(envs[k - 1].command_id) {
            assert forall|j: int| 0 <= j < t.journal.len() implies ((#[trigger] t.journal[j]).stored_receipt.delta matches Some(
                d,
            ) ==> d.to_revision.0 <= t.world.revision.0) by {
                if j < m.journal.len() {
                    assert(t.journal[j] == m.journal[j]);
                }
            }
        }
    }
}

proof fn lemma_scan_all_behind(journal: Seq<JournalRecordView>, r: WorldRevision, m: nat)
    requires
        m <= journal.len(),
        deltas_end_by(journal, r),
    ensures
        scan_deltas(journal, r, m) == Some((r, Seq::<DeltaView>::empty())),
    decreases m,
{
    if m > 0 {
        lemma_scan_all_behind(journal, r, (m - 1) as nat);
        assert(journal[m - 1] == journal[m - 1]);
    }
}

proof fn lemma_scan_prefix(journal: Seq<JournalRecordView>, x: JournalRecordView, r: WorldRevision, m: nat)
    requires
        m <= journal.len(),
    ensures
        scan_deltas(journal.push(x), r, m) == scan_deltas(journal, r, m),
    decreases m,
{
    if m > 0 {
        lemma_scan_prefix(journal, x, r, (m - 1) as nat);
        assert(journal.push(x)[m - 1] == journal[m - 1]);
    }
}

proof fn lemma_apply_deltas_prefix(p: ProjectionView, deltas: Seq<DeltaView>, d: DeltaView, m: nat)
    requires
        m <= deltas.len(),
    ensures
        spec_apply_deltas(p, deltas.push(d), m) == spec_apply_deltas(p, deltas, m),
    decreases m,
{
    if m > 0 {
        lemma_apply_deltas_prefix(p, deltas, d, (m - 1) as nat);
        assert(deltas.push(d)[m - 1] == deltas[m - 1]);
    }
}

/// From the point at which a client matched the authority, the journal's
/// deltas chain from the client's revision to the authority's, and applying
/// them brings the client to the authority's entities.
proof fn lemma_sync_chain(
    s: ServerView,
    envs: Seq<EnvelopeView>,
    results: Seq<CommandProcessResult>,
    i: nat,
    k: nat,
    p: ProjectionView,
)
    requires
        i <= k,
        k <= envs.len(),
        k <= results.len(),
        commands_fit(s, envs, results, k),
        deltas_end_by(s.journal, s.world.revision),
        p.revision == run_commands(s, envs, results, i).world.revision,
        p.entities == run_commands(s, envs, results, i).world.entities,
    ensures
        ({
            let t = run_commands(s, envs, results, k);
            &&& p.revision.0 <= t.world.revision.0
            &&& scan_deltas(t.journal, p.revision, t.journal.len()) matches Some((cursor, deltas)) && {
                &&& cursor == t.world.revision
                &&& cursor.0 == p.revision.0 + deltas.len()
                &&& spec_apply_deltas(p, deltas, deltas.len()).1
                &&& spec_apply_deltas(p, deltas, deltas.len()).0.entities == t.world.entities
                &&& spec_apply_deltas(p, deltas, deltas.len()).0.revision == t.world.revision
            }
        }),
    decreases k,
{
    let t = run_commands(s, envs, results, k);
    if k == i {
        lemma_run_journal_behind(s, envs, results, k, k);
        lemma_scan_all_behind(t.journal, p.revision, t.journal.len());
    } else {
        lemma_sync_chain(s, envs, results, i, (k - 1) as nat, p);
        let m = run_commands(s, envs, results, (k - 1) as nat);
        lemma_step_effect(m, envs[k - 1], results[k - 1]);
        if !m.idempotency.contains_key(envs[k - 1].command_id) {
            let record = t.journal.last();
            lemma_scan_prefix(m.journal, record, p.revision, m.journal.len());
            let (cursor, deltas) = scan_deltas(m.journal, p.revision, m.journal.len())->0;
            assert(t.journal[m.journal.len() as int] == record);
            match record.stored_receipt.delta {
                Some(d) => {
                    lemma_apply_deltas_prefix(p, deltas, d, deltas.len());
                    let pm = spec_apply_deltas(p, deltas, deltas.len()).0;
                    let event = d.events[0];
                    lemma_trusting_application_agrees(m.world.entities, event);
                    assert(spec_apply_events(pm.entities, d.events, 0, false) == (pm.entities, true));
                    assert(spec_apply_events(pm.entities, d.events, 1, false) == spec_apply_event(
                        pm.entities,
                        event,
                        false,
                    ));
                    assert(deltas.push(d)[deltas.len() as int] == d);
                },
                None => {},
            }
        }
    }
}

/// A client brought up to date holds the authority's entities: a client that
/// matched the authority at some point of a run of commands, and asks for a
/// sync at the end of the run, reaches the authority's revision and entities
/// by applying the payload that the authority sends.
pub proof fn lemma_sync_brings_client_up_to_date(
    s: ServerView,
    envs: Seq<EnvelopeView>,
    results: Seq<CommandProcessResult>,
    n: nat,
    i: nat,
    p: ProjectionView,
    interest_center: HexCoord,
)
    requires
        i <= n,
        n <= envs.len(),
        n <= results.len(),
        commands_fit(s, envs, results, n),
        deltas_end_by(s.journal, s.world.revision),
        p.revision == run_commands(s, envs, results, i).world.revision,
        p.entities == run_commands(s, envs, results, i).world.entities,
    ensures
        ({
            let t = run_commands(s, envs, results, n);
            let (q, ok) = spec_apply_sync(p, spec_sync_payload(t, p.revision, interest_center));
            &&& ok
            &&& q.entities == t.world.entities
            &&& q.revision == t.world.revision
        }),
{
    lemma_sync_chain(s, envs, results, i, n, p);
}


/// Applying a receipt without a sync payload a second time changes nothing,
/// and a projection that a receipt brought to the receipt's revision holds
/// the receipt's fingerprint.
pub proof fn lemma_receipt_reapplied_changes_nothing(p: ProjectionView, r: ReceiptView)
    requires
        r.sync is None,
        spec_apply_receipt(p, r).1,
    ensures
        receipt_bounded(spec_apply_receipt(p, r).0, r),
        spec_apply_receipt(spec_apply_receipt(p, r).0, r) == (spec_apply_receipt(p, r).0, true),
        spec_apply_receipt(p, r).0.revision == r.world_revision ==> spec_apply_receipt(p, r).0.state_fingerprint
            == r.state_fingerprint,
{
}


/// Whether the journal numbers its records 0, 1, 2, … up to the next
/// sequence, each record answers a different command, and every journaled
/// command is remembered as having run.
pub open spec fn journal_contiguous(s: ServerView) -> bool {
    &&& s.next_journal_sequence == s.journal.len()
    &&& forall|i: int| 0 <= i < s.journal.len() ==> (#[trigger] s.journal[i]).sequence == i
    &&& forall|i: int, j: int|
        0 <= i < j < s.journal.len() ==> (#[trigger] s.journal[i]).envelope.command_id
            != (#[trigger] s.journal[j]).envelope.command_id
    &&& forall|i: int|
        0 <= i < s.journal.len() ==> s.idempotency.contains_key((#[trigger] s.journal[i]).envelope.command_id)
}

/// A new authority's journal is contiguous: it is empty and starts at zero.
pub proof fn lemma_new_journal_contiguous(s: ServerView)
    requires
        s.journal.len() == 0,
        s.next_journal_sequence == 0,
    ensures
        journal_contiguous(s),
{
}

/// An answer of `process` keeps the journal contiguous: a repeated command
/// changes nothing, and a new one is journaled under the next sequence.
pub proof fn lemma_process_keeps_journal_contiguous(s: ServerView, env: EnvelopeView, res: CommandProcessResult)
    requires
        journal_contiguous(s),
        s.idempotency.contains_key(env.command_id) || command_ready(s, env),
        process_fits(s, env, res),
    ensures
        journal_contiguous(process_after(s, env, res)),
{
    let t = process_after(s, env, res);
    if !s.idempotency.contains_key(env.command_id) {
        assert forall|i: int| 0 <= i < t.journal.len() implies t.idempotency.contains_key(
            (#[trigger] t.journal[i]).envelope.command_id,
        ) by {
            if i < s.journal.len() {
                assert(t.journal[i] == s.journal[i]);
            }
        }
        assert forall|i: int, j: int| 0 <= i < j < t.journal.len() implies (#[trigger] t.journal[i]).envelope.command_id
            != (#[trigger] t.journal[j]).envelope.command_id by {
            assert(t.journal[i] == s.journal[i]);
            if j == s.journal.len() {
                assert(s.idempotency.contains_key(s.journal[i].envelope.command_id));
            } else {
                assert(t.journal[j] == s.journal[j]);
            }
        }
        assert forall|i: int| 0 <= i < t.journal.len() implies (#[trigger] t.journal[i]).sequence == i by {
            if i < s.journal.len() {
                assert(t.journal[i] == s.journal[i]);
            }
        }
    }
}

/// A command whose first execution fails leaves the journal as it was.
pub proof fn lemma_failure_keeps_journal_contiguous(s: ServerView, env: EnvelopeView, t: ServerView)
    requires
        journal_contiguous(s),
        first_execution_fails(s, env, t),
    ensures
        journal_contiguous(t),
        t.journal == s.journal,
        t.next_journal_sequence == s.next_journal_sequence,
{
}

/// The authority after `process` was called on `env`: after the answer where
/// it answered (`Some`), or as the failed first execution left it (`None`).
pub open spec fn after_call(s: ServerView, env: EnvelopeView, answer: Option<CommandProcessResult>) -> ServerView {
    match answer {
        Some(res) => process_after(s, env, res),
        None => match spec_decide(s.world, s.sessions, env) {
            Decision::Apply(event, _) => ServerView {
                world: WorldView { entities: spec_apply_event(s.world.entities, event, true).0, ..s.world },
                ..s
            },
            _ => s,
        },
    }
}

/// Whether `answer` is what `process` gives for `env` on `s`: a fitting
/// answer, or a failure of the command's first execution.
pub open spec fn call_fits(s: ServerView, env: EnvelopeView, answer: Option<CommandProcessResult>) -> bool {
    match answer {
        Some(res) => process_fits(s, env, res),
        None => first_execution_fails(s, env, after_call(s, env, answer)),
    }
}

/// The authority after the first `n` calls of `process`, whatever each gave.
pub open spec fn run_calls(
    s: ServerView,
    envs: Seq<EnvelopeView>,
    answers: Seq<Option<CommandProcessResult>>,
    n: nat,
) -> ServerView
    decreases n,
{
    if n == 0 {
        s
    } else {
        after_call(run_calls(s, envs, answers, (n - 1) as nat), envs[n - 1], answers[n - 1])
    }
}

/// Along any run of calls of `process` from a contiguous journal, whether
/// each call answered or failed, the journal stays contiguous: records are
/// numbered 0, 1, 2, … up to the next sequence and no command is journaled
/// twice.
pub proof fn lemma_calls_keep_journal_contiguous(
    s: ServerView,
    envs: Seq<EnvelopeView>,
    answers: Seq<Option<CommandProcessResult>>,
    n: nat,
)
    requires
        journal_contiguous(s),
        n <= envs.len(),
        n <= answers.len(),
        forall|k: int|
            0 <= k < n ==> {
                let m = #[trigger] run_calls(s, envs, answers, k as nat);
                &&& m.idempotency.contains_key(envs[k].command_id) || command_ready(m, envs[k])
                &&& call_fits(m, envs[k], answers[k])
            },
    ensures
        journal_contiguous(run_calls(s, envs, answers, n)),
    decreases n,
{
    if n > 0 {
        lemma_calls_keep_journal_contiguous(s, envs, answers, (n - 1) as nat);
        let m = run_calls(s, envs, answers, (n - 1) as nat);
        assert(run_calls(s, envs, answers, ((n - 1) as int) as nat) == m);
        match answers[n - 1] {
            Some(res) => lemma_process_keeps_journal_contiguous(m, envs[n - 1], res),
            None => lemma_failure_keeps_journal_contiguous(m, envs[n - 1], run_calls(s, envs, answers, n)),
        }
    }
}

/// A command applies only when it may: the schema, the world, the session
/// and any expected revision and version agree, the actor is a player, and
/// the actor stands where the command acts. A route move goes between two
/// distinct cells of an existing route; a door is toggled, an item taken or
/// put, only in the actor's cell; a building is entered, a vehicle boarded,
/// only from that cell and from outside both; a building is left, a vehicle
/// left, only from inside it; an opening is added only by an editor inside
/// the building, on one of its walls, under a new identity. The applied
/// event acts for the actor on the named entity, whose version advances by
/// one. A connect, a disconnect or a sync never applies an event.
pub proof fn lemma_applied_commands_act_in_place(
    w: WorldView,
    sessions: Map<ClientId, SessionState>,
    env: EnvelopeView,
)
    requires
        spec_decide(w, sessions, env) is Apply,
    ensures
        ({
            let e = w.entities;
            let actor = e.players[env.actor_id];
            let version_ok = |v: EntityVersion| env.expected_entity_version matches Some(x) ==> x == v;
            &&& env.schema_version.0 == P5_SCHEMA_VERSION
            &&& env.target_world == w.world_id
            &&& sessions.contains_key(env.audit.client_id)
            &&& sessions[env.audit.client_id].session_id == env.audit.session_id
            &&& sessions[env.audit.client_id].actor_id == env.actor_id
            &&& (env.expected_world_revision matches Some(r) ==> r == w.revision)
            &&& e.players.contains_key(env.actor_id)
            &&& spec_decide(w, sessions, env) matches Decision::Apply(event, version) && match env.payload {
                AuthorityCommand::MoveAlongRoute { route_id, destination } => {
                    &&& w.routes.contains_key(route_id)
                    &&& w.routes[route_id].ordered_cells.contains(actor.current_cell)
                    &&& w.routes[route_id].ordered_cells.contains(destination)
                    &&& destination != actor.current_cell
                    &&& version_ok(actor.version) && version == bump(actor.version)
                    &&& event matches WorldEvent::PlayerMoved { player_id, to_cell, .. } && player_id == actor.id
                        && to_cell == destination
                },
                AuthorityCommand::ToggleDoor { door_id } => {
                    &&& e.doors.contains_key(door_id)
                    &&& e.buildings[e.doors[door_id].building_id].cell == actor.current_cell
                    &&& version_ok(e.doors[door_id].version) && version == bump(e.doors[door_id].version)
                    &&& event matches WorldEvent::DoorToggled { door_id: d, is_open, .. } && d == door_id && is_open
                        == !e.doors[door_id].is_open
                },
                AuthorityCommand::TakeItem { item_id, quantity } => {
                    &&& e.items.contains_key(item_id)
                    &&& quantity == e.items[item_id].quantity && quantity != 0
                    &&& e.items[item_id].owner matches ItemOwner::Container(c) && e.containers[c].cell
                        == actor.current_cell
                    &&& version_ok(e.items[item_id].version) && version == bump(e.items[item_id].version)
                    &&& event matches WorldEvent::ItemTransferred { item_id: i, from, to, .. } && i == item_id && from
                        == e.items[item_id].owner && to == ItemOwner::Person(actor.id)
                },
                AuthorityCommand::PutItem { item_id, quantity, container_id } => {
                    &&& e.items.contains_key(item_id)
                    &&& e.items[item_id].owner == ItemOwner::Person(actor.id)
                    &&& quantity == e.items[item_id].quantity
                    &&& e.containers.contains_key(container_id)
                    &&& e.containers[container_id].cell == actor.current_cell
                    &&& version_ok(e.items[item_id].version) && version == bump(e.items[item_id].version)
                    &&& event matches WorldEvent::ItemTransferred { item_id: i, from, to, .. } && i == item_id && from
                        == ItemOwner::Person(actor.id) && to == ItemOwner::Container(container_id)
                },
                AuthorityCommand::EnterBuilding { building_id } => {
                    &&& e.buildings.contains_key(building_id)
                    &&& e.buildings[building_id].cell == actor.current_cell
                    &&& actor.location is InCell
                    &&& version_ok(actor.version) && version == bump(actor.version)
                    &&& event matches WorldEvent::PlayerEnteredBuilding { player_id, building_id: b, .. } && player_id
                        == actor.id && b == building_id
                },
                AuthorityCommand::LeaveBuilding => {
                    &&& actor.location is InBuilding
                    &&& version_ok(actor.version) && version == bump(actor.version)
                    &&& event is PlayerLeftBuilding
                },
                AuthorityCommand::BoardVehicle { vehicle_id } => {
                    &&& e.vehicles.contains_key(vehicle_id)
                    &&& e.vehicles[vehicle_id].cell == actor.current_cell
                    &&& actor.location is InCell
                    &&& version_ok(e.vehicles[vehicle_id].version) && version == bump(e.vehicles[vehicle_id].version)
                    &&& event matches WorldEvent::PlayerBoardedVehicle { player_id, vehicle_id: v, cell, .. }
                        && player_id == actor.id && v == vehicle_id && cell == actor.current_cell
                },
                AuthorityCommand::DisembarkVehicle => {
                    &&& actor.location matches ActorLocation::InVehicle { vehicle_id, .. } && version_ok(
                        e.vehicles[vehicle_id].version,
                    ) && version == bump(e.vehicles[vehicle_id].version)
                    &&& event is PlayerDisembarkedVehicle
                },
                AuthorityCommand::AddOpening { building_id, wall_id, opening_id } => {
                    &&& e.buildings.contains_key(building_id)
                    &&& actor.location == (ActorLocation::InBuilding { cell: e.buildings[building_id].cell, building_id })
                    &&& e.buildings[building_id].editors.contains(actor.id)
                    &&& e.buildings[building_id].wall_ids.contains(wall_id)
                    &&& !e.buildings[building_id].openings.contains_key(opening_id)
                    &&& version_ok(e.buildings[building_id].version) && version == bump(
                        e.buildings[building_id].version,
                    )
                    &&& event matches WorldEvent::OpeningAdded { building_id: b, wall_id: x, opening_id: o, .. } && b
                        == building_id && x == wall_id && o == opening_id
                },
                _ => false,
            }
        }),
{
}

/// A command on something that is not where its actor stands is refused:
/// boarding a vehicle or entering a building elsewhere, or from inside
/// another, is an invalid state; toggling a door, taking an item from a
/// container or putting one into a container in another cell is not
/// permitted. Such a refusal changes nothing (see
/// `lemma_rejection_changes_nothing`).
pub proof fn lemma_commands_elsewhere_are_refused(
    w: WorldView,
    sessions: Map<ClientId, SessionState>,
    env: EnvelopeView,
)
    requires
        reaches_mutation(w, sessions, env),
        w.entities.players.contains_key(env.actor_id),
        env.expected_entity_version is None,
    ensures
        ({
            let e = w.entities;
            let actor = e.players[env.actor_id];
            let decision = spec_decide(w, sessions, env);
            match env.payload {
                AuthorityCommand::BoardVehicle { vehicle_id } => e.vehicles.contains_key(vehicle_id) && (
                e.vehicles[vehicle_id].cell != actor.current_cell || !(actor.location is InCell)) ==> decision
                    == Decision::Reject(
                    RejectionCode::InvalidState,
                    "actor cannot board this vehicle from the current location"@,
                ),
                AuthorityCommand::EnterBuilding { building_id } => e.buildings.contains_key(building_id) && (
                e.buildings[building_id].cell != actor.current_cell || !(actor.location is InCell)) ==> decision
                    == Decision::Reject(
                    RejectionCode::InvalidState,
                    "actor cannot enter this building from the current location"@,
                ),
                AuthorityCommand::ToggleDoor { door_id } => e.doors.contains_key(door_id)
                    && e.buildings[e.doors[door_id].building_id].cell != actor.current_cell ==> decision
                    == Decision::Reject(RejectionCode::PermissionDenied, "actor is not in the door's region"@),
                AuthorityCommand::TakeItem { item_id, quantity } => e.items.contains_key(item_id) && quantity
                    == e.items[item_id].quantity && quantity != 0 && (e.items[item_id].owner matches ItemOwner::Container(
                    c,
                ) && e.containers[c].cell != actor.current_cell) ==> decision == Decision::Reject(
                    RejectionCode::PermissionDenied,
                    "item container is outside the actor's region"@,
                ),
                AuthorityCommand::PutItem { item_id, quantity, container_id } => e.items.contains_key(item_id)
                    && e.items[item_id].owner == ItemOwner::Person(actor.id) && quantity == e.items[item_id].quantity
                    && e.containers.contains_key(container_id) && e.containers[container_id].cell
                    != actor.current_cell ==> decision == Decision::Reject(
                    RejectionCode::PermissionDenied,
                    "target container is outside the actor's region"@,
                ),
                _ => true,
            }
        }),
{
}

/// The checks before any command refuse in order: another schema is
/// unsupported; a command for another world is an invalid payload; a
/// connect by someone who is not a player is not permitted; any other
/// command from a client without a session, or whose session belongs to
/// another session or actor, is not permitted; and a mutation that expects
/// another world revision is a version conflict. A connect, a disconnect
/// and a sync that pass these checks are taken as such.
pub proof fn lemma_admission_checks_refuse_in_order(
    w: WorldView,
    sessions: Map<ClientId, SessionState>,
    env: EnvelopeView,
)
    ensures
        ({
            let d = spec_decide(w, sessions, env);
            let client = env.audit.client_id;
            let session_ok = sessions.contains_key(client) && sessions[client].session_id == env.audit.session_id
                && sessions[client].actor_id == env.actor_id;
            if env.schema_version.0 != P5_SCHEMA_VERSION {
                d == Decision::Reject(RejectionCode::UnsupportedSchema, "unsupported command schema"@)
            } else if env.target_world != w.world_id {
                d == Decision::Reject(RejectionCode::InvalidPayload, "command targets another world"@)
            } else if env.payload is Connect {
                &&& !w.entities.players.contains_key(env.actor_id) ==> d == Decision::Reject(
                    RejectionCode::PermissionDenied,
                    "actor is not a player in this world"@,
                )
                &&& w.entities.players.contains_key(env.actor_id)
                    && env.payload->Connect_last_acknowledged_revision.0 <= w.revision.0 ==> d == Decision::Connect
                &&& env.payload->Connect_last_acknowledged_revision.0 > w.revision.0 ==> d is Reject
            } else if !sessions.contains_key(client) {
                d == Decision::Reject(RejectionCode::PermissionDenied, "client is not connected"@)
            } else if !session_ok {
                d == Decision::Reject(
                    RejectionCode::PermissionDenied,
                    "session identity does not match the command actor"@,
                )
            } else if env.payload is Disconnect {
                d == Decision::Disconnect
            } else if env.payload is RequestSync {
                d == Decision::Sync
            } else {
                (env.expected_world_revision matches Some(r) && r != w.revision) ==> d->Reject_0
                    == RejectionCode::VersionConflict
            }
        }),
{
}

/// What an applied event does besides item transfers: the named player ends
/// in the event's cell and place (a moved player or one who left a building
/// or a vehicle stands in the cell; an entering player is inside the
/// building; a boarding player is aboard the vehicle, which lists them as a
/// passenger, and one who disembarks is no longer listed); a toggled door
/// takes the new state; a building gains the opening on the wall. The entity
/// acted on is one version on, keeps its identity and everything the event
/// does not name, and no other table changes.
pub proof fn lemma_event_effects(e: EntitiesView, event: WorldEvent)
    requires
        spec_apply_event(e, event, true).1,
    ensures
        ({
            let after = spec_apply_event(e, event, true).0;
            let moved = |pid: PersonId, cell: HexCoord, place: ActorLocation| {
                &&& after.players.contains_key(pid)
                &&& after.players[pid].current_cell == cell
                &&& after.players[pid].location == place
                &&& after.players[pid].version == bump(e.players[pid].version)
                &&& after.players[pid].id == e.players[pid].id
                &&& after.players[pid].inventory == e.players[pid].inventory
                &&& forall|q: PersonId| q != pid ==> #[trigger] after.players.contains_key(q)
                    == e.players.contains_key(q) && (e.players.contains_key(q) ==> after.players[q]
                    == e.players[q])
                &&& after.doors == e.doors && after.items == e.items && after.containers == e.containers
                &&& after.buildings == e.buildings
            };
            match event {
                WorldEvent::PlayerMoved { player_id, to_cell, .. } => moved(
                    player_id,
                    to_cell,
                    ActorLocation::InCell { cell: to_cell },
                ) && after.vehicles == e.vehicles,
                WorldEvent::PlayerEnteredBuilding { player_id, building_id, cell, .. } => moved(
                    player_id,
                    cell,
                    ActorLocation::InBuilding { cell, building_id },
                ) && after.vehicles == e.vehicles,
                WorldEvent::PlayerLeftBuilding { player_id, cell, .. } => moved(
                    player_id,
                    cell,
                    ActorLocation::InCell { cell },
                ) && after.vehicles == e.vehicles,
                WorldEvent::PlayerBoardedVehicle { player_id, vehicle_id, cell, .. } => {
                    &&& moved(player_id, cell, ActorLocation::InVehicle { cell, vehicle_id })
                    &&& after.vehicles.contains_key(vehicle_id)
                    &&& after.vehicles[vehicle_id].passengers == e.vehicles[vehicle_id].passengers.insert(player_id)
                    &&& after.vehicles[vehicle_id].cell == e.vehicles[vehicle_id].cell
                    &&& after.vehicles[vehicle_id].version == bump(e.vehicles[vehicle_id].version)
                },
                WorldEvent::PlayerDisembarkedVehicle { player_id, vehicle_id, cell, .. } => {
                    &&& moved(player_id, cell, ActorLocation::InCell { cell })
                    &&& after.vehicles.contains_key(vehicle_id)
                    &&& !after.vehicles[vehicle_id].passengers.contains(player_id)
                    &&& after.vehicles[vehicle_id].cell == e.vehicles[vehicle_id].cell
                    &&& after.vehicles[vehicle_id].version == bump(e.vehicles[vehicle_id].version)
                },
                WorldEvent::DoorToggled { door_id, is_open, .. } => {
                    &&& e.doors.contains_key(door_id)
                    &&& after.doors[door_id].is_open == is_open
                    &&& after.doors[door_id].building_id == e.doors[door_id].building_id
                    &&& after.doors[door_id].id == e.doors[door_id].id
                    &&& after.doors[door_id].version == bump(e.doors[door_id].version)
                    &&& after.doors.dom() == e.doors.dom()
                    &&& after.players == e.players && after.items == e.items && after.vehicles == e.vehicles
                },
                WorldEvent::OpeningAdded { building_id, wall_id, opening_id, .. } => {
                    &&& e.buildings.contains_key(building_id)
                    &&& after.buildings[building_id].openings == e.buildings[building_id].openings.insert(
                        opening_id,
                        wall_id,
                    )
                    &&& after.buildings[building_id].wall_ids == e.buildings[building_id].wall_ids
                    &&& after.buildings[building_id].cell == e.buildings[building_id].cell
                    &&& after.buildings[building_id].version == bump(e.buildings[building_id].version)
                    &&& after.players == e.players && after.doors == e.doors && after.items == e.items
                },
                WorldEvent::ItemTransferred { .. } => true,
            }
        }),
{
}

/// Whether an owner that an item may pass to exists.
pub open spec fn owner_exists(e: EntitiesView, owner: ItemOwner) -> bool {
    match owner {
        ItemOwner::Container(c) => e.containers.contains_key(c),
        ItemOwner::Person(p) => e.players.contains_key(p),
        ItemOwner::Vehicle(_) => true,
    }
}

/// Whether an item's owner holds it: a container lists it, a player's
/// inventory holds its quantity; a vehicle keeps no list.
pub open spec fn owner_holds(e: EntitiesView, owner: ItemOwner, item: ItemId) -> bool {
    match owner {
        ItemOwner::Container(c) => e.containers.contains_key(c) && e.containers[c].item_ids.contains(item),
        ItemOwner::Person(p) => e.players.contains_key(p) && e.players[p].inventory.contains_key(item)
            && e.players[p].inventory[item] == e.items[item].quantity,
        ItemOwner::Vehicle(_) => true,
    }
}

/// Whether inventories and container lists agree with item owners: each
/// item is held by its owner, and whatever a player or a container holds is
/// an item that it owns.
pub open spec fn items_consistent(e: EntitiesView) -> bool {
    &&& forall|k: ItemId| #[trigger] e.items.contains_key(k) ==> owner_holds(e, e.items[k].owner, k)
    &&& forall|p: PersonId, k: ItemId|
        e.players.contains_key(p) && #[trigger] e.players[p].inventory.contains_key(k) ==> e.items.contains_key(k)
            && e.items[k].owner == ItemOwner::Person(p)
    &&& forall|c: ContainerId, k: ItemId|
        e.containers.contains_key(c) && #[trigger] e.containers[c].item_ids.contains(k) ==> e.items.contains_key(k)
            && e.items[k].owner == ItemOwner::Container(c)
}

/// An item transfer keeps inventories and container lists consistent with
/// item owners: it applies exactly where the item exists with the stated
/// owner and quantity, and then the item belongs to its new owner with its
/// version one higher; where it does not apply, nothing changes.
pub proof fn lemma_transfer_keeps_items_consistent(e: EntitiesView, event: WorldEvent)
    requires
        items_consistent(e),
        event matches WorldEvent::ItemTransferred { to, .. } && owner_exists(e, to),
    ensures
        match event {
            WorldEvent::ItemTransferred { item_id, quantity, from, to, .. } => {
                let (after, ok) = spec_apply_event(e, event, true);
                &&& ok == (e.items.contains_key(item_id) && e.items[item_id].owner == from
                    && e.items[item_id].quantity == quantity)
                &&& ok ==> {
                    &&& items_consistent(after)
                    &&& after.items.contains_key(item_id)
                    &&& after.items[item_id].owner == to
                    &&& after.items[item_id].version == bump(e.items[item_id].version)
                }
                &&& !ok ==> after == e
            },
            _ => true,
        },
{
    match event {
        WorldEvent::ItemTransferred { item_id, quantity, from, to, .. } => {
            if e.items.contains_key(item_id) && e.items[item_id].owner == from && e.items[item_id].quantity
                == quantity {
                assert(owner_holds(e, from, item_id));
                let (e1, ok1) = spec_remove_reference(e, item_id, quantity, from, true);
                assert(ok1);
                let (e2, ok2) = spec_add_reference(e1, item_id, quantity, to);
                assert(ok2);
                assert(e2.items == e.items);
                let it = e2.items[item_id];
                let e3 = EntitiesView {
                    items: e2.items.insert(item_id, ItemView { owner: to, version: bump(it.version), ..it }),
                    ..e2
                };
                assert(spec_apply_event(e, event, true) == (e3, true));
                lemma_transfer_consistent(e, item_id, quantity, from, to, e1, e2, e3);
            }
        },
        _ => {},
    }
}

proof fn lemma_transfer_consistent(
    e: EntitiesView,
    item_id: ItemId,
    quantity: u32,
    from: ItemOwner,
    to: ItemOwner,
    e1: EntitiesView,
    e2: EntitiesView,
    e3: EntitiesView,
)
    requires
        items_consistent(e),
        owner_exists(e, to),
        e.items.contains_key(item_id),
        e.items[item_id].owner == from,
        e.items[item_id].quantity == quantity,
        e1 == spec_remove_reference(e, item_id, quantity, from, true).0,
        e2 == spec_add_reference(e1, item_id, quantity, to).0,
        e3 == (EntitiesView {
            items: e2.items.insert(
                item_id,
                ItemView { owner: to, version: bump(e2.items[item_id].version), ..e2.items[item_id] },
            ),
            ..e2
        }),
    ensures
        items_consistent(e3),
{
    assert forall|k: ItemId| #[trigger] e3.items.contains_key(k) implies owner_holds(e3, e3.items[k].owner, k) by {
        if k != item_id {
            assert(owner_holds(e, e.items[k].owner, k));
            match e.items[k].owner {
                ItemOwner::Person(p) => {
                    assert(e.players[p].inventory.contains_key(k));
                },
                ItemOwner::Container(c) => {
                    assert(e.containers[c].item_ids.contains(k));
                },
                ItemOwner::Vehicle(_) => {},
            }
        }
    }
    assert forall|p: PersonId, k: ItemId|
        e3.players.contains_key(p) && #[trigger] e3.players[p].inventory.contains_key(k) implies e3.items.contains_key(k)
            && e3.items[k].owner == ItemOwner::Person(p) by {
        if !(to == ItemOwner::Person(p) && k == item_id) {
            assert(e.players.contains_key(p));
            if e.players[p].inventory.contains_key(k) {
            } else {
                assert(false);
            }
        }
    }
    assert forall|c: ContainerId, k: ItemId|
        e3.containers.contains_key(c) && #[trigger] e3.containers[c].item_ids.contains(k) implies e3.items.contains_key(k)
            && e3.items[k].owner == ItemOwner::Container(c) by {
        if !(to == ItemOwner::Container(c) && k == item_id) {
            assert(e.containers.contains_key(c));
            if e.containers[c].item_ids.contains(k) {
            } else {
                assert(false);
            }
        }
    }
}


/// Taking an item out of a container and putting it back restores the
/// item's owner, the container's list and the player's inventory; the
/// item, the container and the player each end two versions on, and nothing
/// else changes.
pub proof fn lemma_take_and_put_back(
    e: EntitiesView,
    item_id: ItemId,
    container: ContainerId,
    player: PersonId,
    take: WorldEvent,
    put: WorldEvent,
)
    requires
        items_consistent(e),
        e.items.contains_key(item_id),
        e.items[item_id].owner == ItemOwner::Container(container),
        e.players.contains_key(player),
        take matches WorldEvent::ItemTransferred { item_id: i, quantity: q, from, to, .. } && i == item_id && q
            == e.items[item_id].quantity && from == ItemOwner::Container(container) && to == ItemOwner::Person(
            player,
        ),
        put matches WorldEvent::ItemTransferred { item_id: i, quantity: q, from, to, .. } && i == item_id && q
            == e.items[item_id].quantity && from == ItemOwner::Person(player) && to == ItemOwner::Container(
            container,
        ),
    ensures
        spec_apply_event(e, take, true).1,
        spec_apply_event(spec_apply_event(e, take, true).0, put, true).1,
        spec_apply_event(spec_apply_event(e, take, true).0, put, true).0 == (EntitiesView {
            items: e.items.insert(
                item_id,
                ItemView { version: bump(bump(e.items[item_id].version)), ..e.items[item_id] },
            ),
            containers: e.containers.insert(
                container,
                super::model::ContainerView {
                    version: bump(bump(e.containers[container].version)),
                    ..e.containers[container]
                },
            ),
            players: e.players.insert(
                player,
                super::model::PlayerView { version: bump(bump(e.players[player].version)), ..e.players[player] },
            ),
            ..e
        }),
{
    assert(owner_holds(e, e.items[item_id].owner, item_id));
    assert(!e.players[player].inventory.contains_key(item_id));
    lemma_transfer_keeps_items_consistent(e, take);
    let mid = spec_apply_event(e, take, true).0;
    lemma_transfer_keeps_items_consistent(mid, put);
    let end = spec_apply_event(mid, put, true).0;
    let expected = EntitiesView {
        items: e.items.insert(
            item_id,
            ItemView { version: bump(bump(e.items[item_id].version)), ..e.items[item_id] },
        ),
        containers: e.containers.insert(
            container,
            super::model::ContainerView {
                version: bump(bump(e.containers[container].version)),
                ..e.containers[container]
            },
        ),
        players: e.players.insert(
            player,
            super::model::PlayerView { version: bump(bump(e.players[player].version)), ..e.players[player] },
        ),
        ..e
    };
    assert(end.containers[container].item_ids =~= e.containers[container].item_ids);
    assert(end.players[player].inventory =~= e.players[player].inventory);
    assert(end.items =~= expected.items);
    assert(end.containers =~= expected.containers);
    assert(end.players =~= expected.players);
}

/// Whether `env` passes the checks that come before a mutation on `s`: the
/// current schema, this world, the session that the client holds for the
/// actor, and no expected revision or version.
pub open spec fn plain_command(s: ServerView, env: EnvelopeView) -> bool {
    &&& env.schema_version.0 == P5_SCHEMA_VERSION
    &&& env.target_world == s.world.world_id
    &&& s.sessions.contains_key(env.audit.client_id)
    &&& s.sessions[env.audit.client_id].session_id == env.audit.session_id
    &&& s.sessions[env.audit.client_id].actor_id == env.actor_id
    &&& env.expected_world_revision is None
    &&& env.expected_entity_version is None
}

/// An actor who takes a whole item out of a container in its cell and then
/// puts it back with a second command: both commands apply, and afterwards
/// the item's owner, the container's list and the actor's inventory are as
/// they were; the item, the container and the actor are each two versions
/// on, the revision is two higher, and nothing else changed but the clock.
pub proof fn lemma_take_then_put_back_commands(
    s: ServerView,
    take: EnvelopeView,
    put: EnvelopeView,
    first: CommandProcessResult,
    second: CommandProcessResult,
    item_id: ItemId,
    container: ContainerId,
)
    requires
        items_consistent(s.world.entities),
        plain_command(s, take),
        put.audit.client_id == take.audit.client_id,
        put.audit.session_id == take.audit.session_id,
        put.actor_id == take.actor_id,
        put.schema_version == take.schema_version,
        put.target_world == take.target_world,
        put.expected_world_revision is None,
        put.expected_entity_version is None,
        take.command_id != put.command_id,
        !s.idempotency.contains_key(take.command_id),
        !s.idempotency.contains_key(put.command_id),
        s.world.entities.players.contains_key(take.actor_id),
        s.world.entities.players[take.actor_id].id == take.actor_id,
        s.world.entities.items.contains_key(item_id),
        s.world.entities.items[item_id].owner == ItemOwner::Container(container),
        s.world.entities.items[item_id].quantity != 0,
        s.world.entities.containers.contains_key(container),
        s.world.entities.containers[container].cell == s.world.entities.players[take.actor_id].current_cell,
        take.payload == (AuthorityCommand::TakeItem { item_id, quantity: s.world.entities.items[item_id].quantity }),
        put.payload == (AuthorityCommand::PutItem {
            item_id,
            quantity: s.world.entities.items[item_id].quantity,
            container_id: container,
        }),
        command_ready(s, take),
        command_ready(process_after(s, take, first), put),
        process_fits(s, take, first),
        process_fits(process_after(s, take, first), put, second),
    ensures
        forall|t: ServerView| !first_execution_fails(s, take, t),
        forall|t: ServerView| !first_execution_fails(process_after(s, take, first), put, t),
        first.receipt.disposition == ReceiptDisposition::Applied,
        second.receipt.disposition == ReceiptDisposition::Applied,
        ({
            let e = s.world.entities;
            let actor = take.actor_id;
            let t = process_after(process_after(s, take, first), put, second);
            t.world == WorldView {
                revision: WorldRevision((s.world.revision.0 + 2) as u64),
                clock: put.issued_at,
                entities: EntitiesView {
                    items: e.items.insert(
                        item_id,
                        ItemView { version: bump(bump(e.items[item_id].version)), ..e.items[item_id] },
                    ),
                    containers: e.containers.insert(
                        container,
                        super::model::ContainerView {
                            version: bump(bump(e.containers[container].version)),
                            ..e.containers[container]
                        },
                    ),
                    players: e.players.insert(
                        actor,
                        super::model::PlayerView { version: bump(bump(e.players[actor].version)), ..e.players[actor] },
                    ),
                    ..e
                },
                ..s.world
            }
        }),
{
    let e = s.world.entities;
    let actor = take.actor_id;
    let q = e.items[item_id].quantity;
    let take_event = WorldEvent::ItemTransferred {
        event_id: spec_event_id(take.command_id, 0),
        item_id,
        quantity: q,
        from: ItemOwner::Container(container),
        to: ItemOwner::Person(actor),
    };
    assert(spec_decide(s.world, s.sessions, take) == Decision::Apply(take_event, bump(e.items[item_id].version)));
    let put_event = WorldEvent::ItemTransferred {
        event_id: spec_event_id(put.command_id, 0),
        item_id,
        quantity: q,
        from: ItemOwner::Person(actor),
        to: ItemOwner::Container(container),
    };
    lemma_take_and_put_back(e, item_id, container, actor, take_event, put_event);
    lemma_transfer_keeps_items_consistent(e, take_event);
    let m = process_after(s, take, first);
    let mid = spec_apply_event(e, take_event, true).0;
    assert(m.world.entities == mid);
    assert(mid.items[item_id].owner == ItemOwner::Person(actor));
    assert(mid.players[actor].current_cell == e.players[actor].current_cell);
    assert(mid.players[actor].id == actor);
    assert(mid.containers[container].cell == e.containers[container].cell);
    assert(m.sessions.contains_key(put.audit.client_id));
    assert(spec_decide(m.world, m.sessions, put) == Decision::Apply(put_event, bump(mid.items[item_id].version)));
}

} // verus!
