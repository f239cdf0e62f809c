//! What the authority keeps on disk and how it comes back: where the files
//! lie, how a batch of journal records extends the journal, the journal's
//! order, and the recovery of an authority from a snapshot and its journal.
//! Reading and writing the files is the caller's part.

use crate::authority::decide::{spec_decide, Decision};
use crate::authority::engine::{
    can_replay, first_execution, replayed_world, view_journal, AuthorityServer, ServerView,
};
use crate::authority::laws::{
    commands_fit, lemma_commands_fit_prefix, lemma_replay_reproduces_first_execution, run_commands,
};
use crate::authority::events::AuthorityError;
use crate::authority::fingerprint::spec_fingerprint;
use crate::authority::model::{
    AuthoritySnapshot, CommandProcessResult, EnvelopeView, JournalRecord, JournalRecordView, WorldState,
};
use crate::authority::engine::view_receipts;
use crate::key_order::{key_order, keys_of, lemma_key_order, order_by_key, pick, sorted_by};
use vstd::prelude::*;

verus! {

/// Why a journal could not be extended or an authority not recovered.
#[derive(Debug)]
pub enum PersistenceError {
    Authority(AuthorityError),
    JournalSequence { expected: u64, actual: u64 },
}

/// The directory in which an authority keeps its snapshot and journal.
#[derive(Clone, Debug)]
pub struct FilePersistenceStore {
    root: String,
}

impl View for FilePersistenceStore {
    type V = Seq<char>;

    closed spec fn view(&self) -> Seq<char> {
        self.root@
    }
}

/// A file name under a directory: the directory, a separator unless the
/// directory is empty or already ends in one, and the name.
pub open spec fn joined(root: Seq<char>, name: Seq<char>) -> Seq<char> {
    if root.len() == 0 || root.last() == '/' {
        root + name
    } else {
        root + seq!['/'] + name
    }
}

fn join(root: &String, name: &str) -> (path: String)
    ensures
        path@ == joined(root@, name@),
{
    let length = root.as_str().unicode_len();
    let mut path = root.clone();
    if length == 0 || root.as_str().get_char(length - 1) == '/' {
        path.append(name);
    } else {
        let separator = "/";
        proof {
            reveal_strlit("/");
        }
        path.append(separator);
        path.append(name);
    }
    path
}

impl FilePersistenceStore {
    pub fn new(root: String) -> (store: Self)
        ensures
            store@ == root@,
    {
        FilePersistenceStore { root }
    }

    pub fn root(&self) -> (root: &str)
        ensures
            root@ == self@,
    {
        self.root.as_str()
    }

    pub fn snapshot_path(&self) -> (path: String)
        ensures
            path@ == joined(self@, "region-snapshot.json"@),
    {
        join(&self.root, "region-snapshot.json")
    }

    pub fn journal_path(&self) -> (path: String)
        ensures
            path@ == joined(self@, "command-journal.ndjson"@),
    {
        join(&self.root, "command-journal.ndjson")
    }

    /// Where a new snapshot is written before it replaces the old one.
    pub fn snapshot_staging_path(&self) -> (path: String)
        ensures
            path@ == joined(self@, "region-snapshot.json.tmp"@),
    {
        join(&self.root, "region-snapshot.json.tmp")
    }

    /// Where a rewritten journal is written before it replaces the old one.
    pub fn journal_staging_path(&self) -> (path: String)
        ensures
            path@ == joined(self@, "command-journal.ndjson.tmp"@),
    {
        join(&self.root, "command-journal.ndjson.tmp")
    }
}

/// The sequence that the next record of a journal must carry: one past the
/// last record's, held at the largest sequence, and zero for an empty journal.
pub open spec fn next_record_sequence(journal: Seq<JournalRecordView>) -> int {
    if journal.len() == 0 {
        0
    } else if journal.last().sequence == u64::MAX {
        u64::MAX as int
    } else {
        journal.last().sequence + 1
    }
}

/// Whether the first `n` additions carry the sequences that follow on from
/// the journal, one after the other.
pub open spec fn continues(journal: Seq<JournalRecordView>, additions: Seq<JournalRecordView>, n: int) -> bool {
    forall|i: int| 0 <= i < n ==> #[trigger] additions[i].sequence == next_record_sequence(journal) + i
}

/// The journal extended by a batch of records that must follow on from it.
/// A batch that breaks the run of sequences is refused at its first record
/// out of place, with the sequence that was expected there.
pub fn extended_journal(existing: Vec<JournalRecord>, additions: &Vec<JournalRecord>) -> (result: Result<
    Vec<JournalRecord>,
    PersistenceError,
>)
    requires
        next_record_sequence(view_journal(existing@)) + additions.len() < u64::MAX,
    ensures
        ({
            let journal = view_journal(existing@);
            let adds = view_journal(additions@);
            match result {
                Ok(records) => {
                    &&& continues(journal, adds, adds.len() as int)
                    &&& view_journal(records@) == journal + adds
                },
                Err(PersistenceError::JournalSequence { expected, actual }) => {
                    let j = expected - next_record_sequence(journal);
                    &&& 0 <= j < adds.len()
                    &&& continues(journal, adds, j)
                    &&& adds[j].sequence != expected
                    &&& actual == adds[j].sequence
                },
                Err(_) => false,
            }
        }),
{
    let ghost journal = view_journal(existing@);
    let ghost adds = view_journal(additions@);
    let mut records = existing;
    let first: u64 = if records.len() == 0 {
        0
    } else {
        let last = records[records.len() - 1].sequence;
        if last == u64::MAX {
            u64::MAX
        } else {
            last + 1
        }
    };
    proof {
        if journal.len() > 0 {
            assert(journal.last() == records@.last()@);
        }
        assert(first == next_record_sequence(journal));
    }
    let mut i: usize = 0;
    while i < additions.len()
        invariant
            i <= additions.len(),
            journal == view_journal(existing@),
            first == next_record_sequence(journal),
            first + additions.len() < u64::MAX,
            adds == view_journal(additions@),
            continues(journal, adds, i as int),
            view_journal(records@) == journal + adds.take(i as int),
        decreases additions.len() - i,
    {
        let expected = first + i as u64;
        let record = &additions[i];
        if record.sequence != expected {
            assert(adds[i as int] == record@);
            assert(0 <= i < adds.len() && continues(journal, adds, i as int) && adds[i as int].sequence
                != next_record_sequence(journal) + i);
            return Err(PersistenceError::JournalSequence { expected, actual: record.sequence });
        }
        let ghost before = records@;
        records.push(record.clone());
        proof {
            assert(adds[i as int] == record@);
            assert(view_journal(records@) =~= view_journal(before).push(record@));
            assert(adds.take(i as int + 1) =~= adds.take(i as int).push(adds[i as int]));
        }
        i = i + 1;
    }
    assert(adds.take(additions.len() as int) =~= adds);
    Ok(records)
}

/// Whether a journal's records are in the order of their sequences.
pub open spec fn in_sequence_order(journal: Seq<JournalRecord>) -> bool {
    forall|i: int, j: int| 0 <= i < j < journal.len() ==> journal[i].sequence <= journal[j].sequence
}

pub open spec fn sequence_key(record: JournalRecordView) -> u128 {
    record.sequence as u128
}

/// The journal's records in the order of their sequences; records that
/// share a sequence keep their order.
pub fn sort_journal(records: Vec<JournalRecord>) -> (sorted: Vec<JournalRecord>)
    ensures
        sorted@.map_values(|r: JournalRecord| r@) == sorted_by(
            records@.map_values(|r: JournalRecord| r@),
            |r: JournalRecordView| sequence_key(r),
        ),
        in_sequence_order(sorted@),
{
    let ghost views = records@.map_values(|r: JournalRecord| r@);
    let mut keys: Vec<u128> = Vec::new();
    let mut i: usize = 0;
    while i < records.len()
        invariant
            i <= records.len(),
            views == records@.map_values(|r: JournalRecord| r@),
            keys@ == keys_of(views.take(i as int), |r: JournalRecordView| sequence_key(r)),
        decreases records.len() - i,
    {
        keys.push(records[i].sequence as u128);
        assert(views.take(i + 1) =~= views.take(i as int).push(views[i as int]));
        i = i + 1;
    }
    assert(views.take(records.len() as int) =~= views);
    let order = order_by_key(&keys);
    proof {
        assert(keys@.len() == keys.len());
        lemma_key_order(keys@, keys@.len());
    }
    let ghost target = pick(views, order@);
    assert(target == sorted_by(views, |r: JournalRecordView| sequence_key(r)));
    let mut sorted: Vec<JournalRecord> = Vec::new();
    let mut k: usize = 0;
    while k < order.len()
        invariant
            k <= order.len(),
            order.len() == records.len(),
            views == records@.map_values(|r: JournalRecord| r@),
            keys@ == keys_of(views, |r: JournalRecordView| sequence_key(r)),
            order@ == key_order(keys@, keys@.len()),
            forall|x: int| 0 <= x < order.len() ==> (#[trigger] order@[x]) < records.len(),
            forall|x: int, y: int| 0 <= x < y < order.len() ==> keys@[order@[x] as int] <= keys@[order@[y] as int],
            target == pick(views, order@),
            target.len() == order.len(),
            sorted.len() == k,
            sorted@.map_values(|r: JournalRecord| r@) == target.take(k as int),
            forall|x: int| 0 <= x < k ==> (#[trigger] sorted@[x]).sequence == records@[order@[x] as int].sequence,
        decreases order.len() - k,
    {
        let record = records[order[k]].clone();
        let ghost before = sorted@;
        assert(record@ == views[order@[k as int] as int]);
        assert(target[k as int] == views[order@[k as int] as int]);
        sorted.push(record);
        assert(sorted@ == before.push(record));
        assert forall|j: int| 0 <= j < k + 1 implies sorted@[j]@ == target[j] by {
            assert(before.len() == k);
            if j < k {
                assert(sorted@[j] == before[j]);
                assert(before.map_values(|r: JournalRecord| r@)[j] == before[j]@);
                assert(before.map_values(|r: JournalRecord| r@)[j] == target.take(k as int)[j]);
            } else {
                assert(sorted@[j] == record);
            }
        }
        assert(sorted@.map_values(|r: JournalRecord| r@) =~= target.take(k + 1));
        k = k + 1;
    }
    assert(target.take(order.len() as int) =~= target);
    assert forall|x: int, y: int| 0 <= x < y < sorted@.len() implies sorted@[x].sequence <= sorted@[y].sequence by {
        assert(keys@[order@[x] as int] == records@[order@[x] as int].sequence as u128);
        assert(keys@[order@[y] as int] == records@[order@[y] as int].sequence as u128);
    }
    sorted
}

/// The authority after replaying one journal record, where the record
/// replays: it can be replayed without an overflow, carries the next
/// sequence and a new command id, its delta starts at the current revision
/// and applies, and the replayed world has the record's fingerprint.
pub open spec fn replay_step(s: ServerView, r: JournalRecordView) -> Option<ServerView> {
    let (w2, ok) = replayed_world(s.world, r);
    if can_replay(s, r) && r.sequence == s.next_journal_sequence && !s.idempotency.contains_key(
        r.envelope.command_id,
    ) && !(r.stored_receipt.delta is Some && r.stored_receipt.delta->0.from_revision
        != s.world.revision) && ok && spec_fingerprint(w2) == r.stored_receipt.state_fingerprint {
        Some(
            ServerView {
                world: w2,
                idempotency: s.idempotency.insert(r.envelope.command_id, r.stored_receipt),
                journal: s.journal.push(r),
                next_journal_sequence: (s.next_journal_sequence + 1) as u64,
                ..s
            },
        )
    } else {
        None
    }
}

/// The authority after replaying the first `n` records of a journal, passing
/// over those that it already holds; `None` once a record fails to replay.
pub open spec fn replay_journal(s: ServerView, journal: Seq<JournalRecordView>, n: nat) -> Option<
    ServerView,
>
    decreases n,
{
    if n == 0 {
        Some(s)
    } else {
        match replay_journal(s, journal, (n - 1) as nat) {
            None => None,
            Some(m) => {
                if journal[n - 1].sequence < m.next_journal_sequence {
                    Some(m)
                } else {
                    replay_step(m, journal[n - 1])
                }
            },
        }
    }
}

/// The authority that a recovery starts from: the snapshot's, where its
/// fingerprint matches its world, or a fresh one on the baseline world.
pub open spec fn recovery_start(snapshot: Option<AuthoritySnapshot>, baseline: WorldState) -> Option<
    ServerView,
> {
    match snapshot {
        Some(snap) => {
            if spec_fingerprint(snap.world@) == snap.state_fingerprint {
                Some(
                    ServerView {
                        world: snap.world@,
                        idempotency: view_receipts(snap.idempotency@),
                        sessions: Map::empty(),
                        journal: Seq::empty(),
                        next_journal_sequence: snap.next_journal_sequence,
                        delta_floor_revision: snap.world@.revision,
                    },
                )
            } else {
                None
            }
        },
        None => Some(
            ServerView {
                world: baseline@,
                idempotency: Map::empty(),
                sessions: Map::empty(),
                journal: Seq::empty(),
                next_journal_sequence: 0,
                delta_floor_revision: baseline@.revision,
            },
        ),
    }
}

proof fn lemma_replay_stays_failed(s: ServerView, journal: Seq<JournalRecordView>, from: nat, to: nat)
    requires
        replay_journal(s, journal, from) is None,
        from <= to,
    ensures
        replay_journal(s, journal, to) is None,
    decreases to - from,
{
    if from < to {
        lemma_replay_stays_failed(s, journal, from, (to - 1) as nat);
    }
}

/// Recovers an authority: from the snapshot where there is one, else from the
/// baseline world, then replays the journal's records in order, passing over
/// those that the snapshot already holds.
pub fn recover_server(
    snapshot: Option<AuthoritySnapshot>,
    baseline: WorldState,
    journal: Vec<JournalRecord>,
) -> (result: Result<AuthorityServer, PersistenceError>)
    ensures
        match recovery_start(snapshot, baseline) {
            None => result matches Err(PersistenceError::Authority(error)) && error is JournalFingerprint,
            Some(start) => match replay_journal(start, view_journal(journal@), journal.len() as nat) {
                Some(t) => result matches Ok(server) && server@ == t,
                None => result matches Err(PersistenceError::Authority(_)),
            },
        },
{
    let ghost start = recovery_start(snapshot, baseline);
    let ghost records = view_journal(journal@);
    let started = match snapshot {
        Some(snap) => AuthorityServer::from_snapshot(snap),
        None => AuthorityServer::new(baseline),
    };
    let mut server = match started {
        Ok(server) => server,
        Err(error) => {
            return Err(PersistenceError::Authority(error));
        },
    };
    let mut i: usize = 0;
    while i < journal.len()
        invariant
            i <= journal.len(),
            records == view_journal(journal@),
            start == recovery_start(snapshot, baseline),
            start is Some,
            replay_journal(start->0, records, i as nat) == Some(server@),
        decreases journal.len() - i,
    {
        let record = journal[i].clone();
        assert(records[i as int] == record@);
        if record.sequence < server.next_journal_sequence() {
            i = i + 1;
            continue;
        }
        let refused_early = record.sequence != server.next_journal_sequence() || server.has_run(
            record.envelope.command_id,
        ) || match &record.stored_receipt.delta {
            Some(delta) => delta.from_revision != server.world().revision,
            None => false,
        };
        if !refused_early && !server.can_replay_record(&record) {
            proof {
                lemma_replay_stays_failed(start->0, records, i as nat + 1, journal.len() as nat);
            }
            return Err(
                PersistenceError::Authority(
                    AuthorityError::Invariant("journal record cannot be replayed".to_owned()),
                ),
            );
        }
        match server.apply_journal_record(record) {
            Ok(()) => {},
            Err(error) => {
                proof {
                    lemma_replay_stays_failed(start->0, records, i as nat + 1, journal.len() as nat);
                }
                return Err(PersistenceError::Authority(error));
            },
        }
        i = i + 1;
    }
    Ok(server)
}

proof fn lemma_replay_prefix(s: ServerView, journal: Seq<JournalRecordView>, x: JournalRecordView, k: nat)
    requires
        k <= journal.len(),
    ensures
        replay_journal(s, journal.push(x), k) == replay_journal(s, journal, k),
    decreases k,
{
    if k > 0 {
        lemma_replay_prefix(s, journal, x, (k - 1) as nat);
        assert(journal.push(x)[k - 1] == journal[k - 1]);
    }
}

/// The authority that a replica becomes by replaying `written`: the
/// authority's world, receipts and journal sequence, and the replica's
/// journal extended by `written`.
pub open spec fn replayed_into(replica: ServerView, t: ServerView, written: Seq<JournalRecordView>) -> ServerView {
    ServerView {
        world: t.world,
        idempotency: t.idempotency,
        journal: replica.journal + written,
        next_journal_sequence: t.next_journal_sequence,
        ..replica
    }
}

/// Whether a replica holds what the authority holds at some point: its
/// world, its receipts and its next journal sequence.
pub open spec fn replica_of(replica: ServerView, s: ServerView) -> bool {
    &&& replica.world == s.world
    &&& replica.idempotency == s.idempotency
    &&& replica.next_journal_sequence == s.next_journal_sequence
}

/// Recovery reproduces the authority: replaying the journal records that an
/// authority wrote from some point of a run of commands to its end, onto a
/// replica that held what the authority held at that point, gives the
/// replica the authority's world, receipts and journal sequence at the end.
pub proof fn lemma_recovery_reproduces_authority(
    s: ServerView,
    envs: Seq<EnvelopeView>,
    results: Seq<CommandProcessResult>,
    i: nat,
    n: nat,
    replica: ServerView,
)
    requires
        i <= n,
        n <= envs.len(),
        n <= results.len(),
        commands_fit(s, envs, results, n),
        replica_of(replica, run_commands(s, envs, results, i)),
    ensures
        ({
            let m = run_commands(s, envs, results, i);
            let t = run_commands(s, envs, results, n);
            let written = t.journal.skip(m.journal.len() as int);
            &&& t.journal.len() >= m.journal.len()
            &&& t.journal.take(m.journal.len() as int) == m.journal
            &&& replay_journal(replica, written, written.len()) == Some(replayed_into(replica, t, written))
        }),
    decreases n,
{
    let m0 = run_commands(s, envs, results, i);
    if n == i {
        assert(m0.journal.skip(m0.journal.len() as int) =~= Seq::empty());
        assert(m0.journal.take(m0.journal.len() as int) =~= m0.journal);
        assert(replica.journal + Seq::<JournalRecordView>::empty() =~= replica.journal);
    } else {
        lemma_commands_fit_prefix(s, envs, results, (n - 1) as nat, n);
        lemma_recovery_reproduces_authority(s, envs, results, i, (n - 1) as nat, replica);
        let m = run_commands(s, envs, results, (n - 1) as nat);
        let t = run_commands(s, envs, results, n);
        let env = envs[n - 1];
        let res = results[n - 1];
        let before = m.journal.skip(m0.journal.len() as int);
        let rm = replayed_into(replica, m, before);
        if !m.idempotency.contains_key(env.command_id) {
            let record = t.journal.last();
            assert(t.journal == m.journal.push(record));
            let after = t.journal.skip(m0.journal.len() as int);
            assert(after =~= before.push(record));
            assert(t.journal.take(m0.journal.len() as int) =~= m.journal.take(m0.journal.len() as int));
            lemma_replay_prefix(replica, before, record, before.len());
            assert(after[before.len() as int] == record);
            assert(first_execution(m, env, res.receipt@, t));
            lemma_replay_reproduces_first_execution(m, env, res.receipt@, t, rm);
            match spec_decide(m.world, m.sessions, env) {
                Decision::Apply(event, _) => {
                    assert(record.stored_receipt.delta->0.events.len() == 1);
                },
                _ => {},
            }
            assert(can_replay(rm, record));
            assert((replica.journal + before).push(record) =~= replica.journal + after);
            assert(replay_step(rm, record) == Some(replayed_into(replica, t, after)));
        } else {
            assert(t == m);
        }
    }
}

/// A crash loses nothing that was journaled: an authority started on a
/// baseline world that processed a run of commands is given back, all but
/// its sessions, by `recover_server` on that baseline and the journal it
/// wrote.
pub proof fn lemma_recovery_from_baseline(
    baseline: WorldState,
    envs: Seq<EnvelopeView>,
    results: Seq<CommandProcessResult>,
    n: nat,
)
    requires
        n <= envs.len(),
        n <= results.len(),
        commands_fit(recovery_start(None, baseline)->0, envs, results, n),
    ensures
        ({
            let s = recovery_start(None, baseline)->0;
            let t = run_commands(s, envs, results, n);
            replay_journal(s, t.journal, t.journal.len()) == Some(ServerView { sessions: Map::empty(), ..t })
        }),
{
    let s = recovery_start(None, baseline)->0;
    lemma_recovery_reproduces_authority(s, envs, results, 0, n, s);
    lemma_run_keeps_floor(s, envs, results, n);
    let t = run_commands(s, envs, results, n);
    assert(t.journal.skip(0) =~= t.journal);
    assert(s.journal + t.journal =~= t.journal);
}

/// A run of commands leaves the revision below which clients get snapshots
/// as it was, and numbers every journal record below the next sequence.
proof fn lemma_run_keeps_floor(
    s: ServerView,
    envs: Seq<EnvelopeView>,
    results: Seq<CommandProcessResult>,
    n: nat,
)
    requires
        n <= envs.len(),
        n <= results.len(),
        commands_fit(s, envs, results, n),
    ensures
        run_commands(s, envs, results, n).delta_floor_revision == s.delta_floor_revision,
        (forall|j: int| 0 <= j < s.journal.len() ==> (#[trigger] s.journal[j]).sequence < s.next_journal_sequence)
            ==> (forall|j: int| 0 <= j < run_commands(s, envs, results, n).journal.len()
            ==> (#[trigger] run_commands(s, envs, results, n).journal[j]).sequence
            < run_commands(s, envs, results, n).next_journal_sequence),
    decreases n,
{
    if n > 0 {
        lemma_run_keeps_floor(s, envs, results, (n - 1) as nat);
        let m = run_commands(s, envs, results, (n - 1) as nat);
        let t = run_commands(s, envs, results, n);
        if !m.idempotency.contains_key(envs[n - 1].command_id) {
            assert(t.journal == m.journal.push(t.journal.last()));
            assert forall|j: int| 0 <= j < t.journal.len() && (forall|j: int| 0 <= j < m.journal.len()
                ==> (#[trigger] m.journal[j]).sequence < m.next_journal_sequence) implies (#[trigger] t.journal[j]).sequence
                < t.next_journal_sequence by {
                if j < m.journal.len() {
                    assert(t.journal[j] == m.journal[j]);
                }
            }
        }
    }
}

/// Replaying records that the replica already holds changes nothing.
proof fn lemma_replay_passes_over(s: ServerView, journal: Seq<JournalRecordView>, m: nat)
    requires
        m <= journal.len(),
        forall|j: int| 0 <= j < m ==> (#[trigger] journal[j]).sequence < s.next_journal_sequence,
    ensures
        replay_journal(s, journal, m) == Some(s),
    decreases m,
{
    if m > 0 {
        lemma_replay_passes_over(s, journal, (m - 1) as nat);
        assert(journal[m - 1].sequence < s.next_journal_sequence);
    }
}

/// After a replay has passed over the first `skipped` records, it goes on
/// as a replay of the rest.
proof fn lemma_replay_rest(s: ServerView, journal: Seq<JournalRecordView>, skipped: nat, k: nat)
    requires
        skipped + k <= journal.len(),
        replay_journal(s, journal, skipped) == Some(s),
    ensures
        replay_journal(s, journal, skipped + k) == replay_journal(s, journal.skip(skipped as int), k),
    decreases k,
{
    if k > 0 {
        lemma_replay_rest(s, journal, skipped, (k - 1) as nat);
        assert(journal.skip(skipped as int)[k - 1] == journal[skipped + k - 1]);
    }
}

/// Recovery from a snapshot loses nothing that was journaled: where the
/// snapshot holds the authority at some point of a run of commands, recovery
/// from it and the whole journal passes over the records that the snapshot
/// already holds and gives back the authority at the end of the run, all but
/// its sessions and the records written before the snapshot.
pub proof fn lemma_recovery_from_snapshot(
    s: ServerView,
    envs: Seq<EnvelopeView>,
    results: Seq<CommandProcessResult>,
    i: nat,
    n: nat,
    snapshot: AuthoritySnapshot,
    baseline: WorldState,
)
    requires
        i <= n,
        n <= envs.len(),
        n <= results.len(),
        commands_fit(s, envs, results, n),
        forall|j: int| 0 <= j < s.journal.len() ==> (#[trigger] s.journal[j]).sequence < s.next_journal_sequence,
        snapshot.world@ == run_commands(s, envs, results, i).world,
        view_receipts(snapshot.idempotency@) == run_commands(s, envs, results, i).idempotency,
        snapshot.next_journal_sequence == run_commands(s, envs, results, i).next_journal_sequence,
        snapshot.state_fingerprint == spec_fingerprint(run_commands(s, envs, results, i).world),
    ensures
        ({
            let m = run_commands(s, envs, results, i);
            let t = run_commands(s, envs, results, n);
            &&& recovery_start(Some(snapshot), baseline) is Some
            &&& replay_journal(recovery_start(Some(snapshot), baseline)->0, t.journal, t.journal.len())
                == Some(ServerView {
                world: t.world,
                idempotency: t.idempotency,
                journal: t.journal.skip(m.journal.len() as int),
                next_journal_sequence: t.next_journal_sequence,
                sessions: Map::empty(),
                delta_floor_revision: m.world.revision,
            })
        }),
{
    let m = run_commands(s, envs, results, i);
    let t = run_commands(s, envs, results, n);
    let start = recovery_start(Some(snapshot), baseline)->0;
    lemma_commands_fit_prefix(s, envs, results, i, n);
    lemma_run_keeps_floor(s, envs, results, i);
    lemma_recovery_reproduces_authority(s, envs, results, i, n, start);
    let written = t.journal.skip(m.journal.len() as int);
    assert forall|j: int| 0 <= j < m.journal.len() implies (#[trigger] t.journal[j]).sequence
        < start.next_journal_sequence by {
        assert(t.journal.take(m.journal.len() as int)[j] == m.journal[j]);
    }
    lemma_replay_passes_over(start, t.journal, m.journal.len());
    lemma_replay_rest(start, t.journal, m.journal.len(), written.len());
    assert(start.journal + written =~= written);
}

} // verus!
