//! Ordered intake of client commands ahead of the authority, and the values
//! that travel between clients and a hosted authority.
//!
//! Each session numbers its requests from zero. A request that arrives early
//! waits until the requests before it have run; a request that arrives again
//! after it ran is answered from the authority's receipts; a different
//! request under a number already used is refused as stale.

use crate::authority::engine::{
    command_ready, first_execution_fails, process_after, process_fits, AuthorityServer, ServerView,
};
use crate::authority::events::AuthorityError;
use crate::authority::fingerprint::{semantic_fingerprint, spec_fingerprint};
use crate::authority::model::{
    AuthorityCommandEnvelope, CommandProcessResult, CommandReceipt, EnvelopeView, JournalRecord,
    JournalRecordView, ReceiptDisposition, StateFingerprint, WorldRevision,
};
use crate::ids::{CommandId, SessionId, SnapshotId};
use std::collections::BTreeMap;
use vstd::prelude::*;

verus! {

/// A request that a client sends to a hosted authority.
#[derive(Debug)]
pub enum WireRequest {
    Command(AuthorityCommandEnvelope),
    SnapshotNow { snapshot_id: SnapshotId },
    Inspect,
    Shutdown,
}

/// What a hosted authority reports about itself.
#[derive(Clone, Copy, Debug, PartialEq, Eq, Structural)]
pub struct ServerSummary {
    pub revision: WorldRevision,
    pub state_fingerprint: StateFingerprint,
    pub connected_sessions: usize,
    pub next_journal_sequence: u64,
}

/// A hosted authority's answer to one request.
#[derive(Debug)]
pub enum WireResponse {
    Receipts(Vec<CommandReceipt>),
    Buffered { session_id: SessionId, received_sequence: u64, expected_sequence: u64 },
    StaleSequence { session_id: SessionId, received_sequence: u64, expected_sequence: u64 },
    SnapshotWritten { revision: WorldRevision, state_fingerprint: StateFingerprint },
    Summary(ServerSummary),
    Ack,
    Error { message: String },
}

/// What became of one request handed to the ordered intake.
#[derive(Debug)]
pub enum IngressOutcome {
    /// The commands that ran, in order: the request and the waiting requests
    /// of its session that followed on from it.
    Processed(Vec<CommandProcessResult>),
    Buffered { session_id: SessionId, received_sequence: u64, expected_sequence: u64 },
    StaleSequence { session_id: SessionId, received_sequence: u64, expected_sequence: u64 },
}

/// Runs each session's requests in the order of their request sequence.
#[derive(Debug)]
pub struct OrderedIngress {
    next_sequence: BTreeMap<SessionId, u64>,
    processed_sequences: BTreeMap<(SessionId, u64), CommandId>,
    pending: BTreeMap<(SessionId, u64), AuthorityCommandEnvelope>,
}

#[verifier::ext_equal]
pub struct IngressView {
    /// The next request sequence that each session is to send.
    pub next_sequence: Map<SessionId, u64>,
    /// The command that ran under each session and request sequence.
    pub processed: Map<(SessionId, u64), CommandId>,
    /// Requests that arrived before their turn.
    pub pending: Map<(SessionId, u64), EnvelopeView>,
}

impl View for OrderedIngress {
    type V = IngressView;

    closed spec fn view(&self) -> IngressView {
        IngressView {
            next_sequence: self.next_sequence@,
            processed: self.processed_sequences@,
            pending: self.pending@.map_values(|e: AuthorityCommandEnvelope| e@),
        }
    }
}

/// The request sequence that a session is to send next; zero for a session
/// not seen yet.
pub open spec fn expected_sequence(v: IngressView, session: SessionId) -> u64 {
    if v.next_sequence.contains_key(session) {
        v.next_sequence[session]
    } else {
        0
    }
}

/// Every waiting request is filed under its own session and sequence, which
/// lies ahead of its session's turn and leaves room for the turn after it.
pub open spec fn well_formed(v: IngressView) -> bool {
    forall|key: (SessionId, u64)| #[trigger]
        v.pending.contains_key(key) ==> {
            &&& v.pending[key].audit.session_id == key.0
            &&& v.pending[key].audit.request_sequence == key.1
            &&& key.1 < u64::MAX
            &&& key.1 > expected_sequence(v, key.0)
        }
}

/// The intake once a session's turn has been looked up: a session seen for
/// the first time starts at zero.
pub open spec fn touched(v: IngressView, session: SessionId) -> IngressView {
    IngressView { next_sequence: v.next_sequence.insert(session, expected_sequence(v, session)), ..v }
}

/// The keys of one session from sequence `from` through `to`.
pub open spec fn session_range(session: SessionId, from: int, to: int) -> Set<(SessionId, u64)> {
    Set::new(|key: (SessionId, u64)| key.0 == session && from <= key.1 <= to)
}

/// Whether the `k` requests after `first` wait in the intake, one after the
/// other, and the one after them does not.
pub open spec fn pending_run(pending: Map<(SessionId, u64), EnvelopeView>, first: EnvelopeView, k: nat) -> bool {
    let session = first.audit.session_id;
    let e = first.audit.request_sequence;
    &&& forall|i: int| 1 <= i <= k ==> #[trigger] pending.contains_key((session, (e + i) as u64))
    &&& !pending.contains_key((session, (e + k + 1) as u64))
}

/// The `i`-th request of a run that starts with `first`.
pub open spec fn run_envelope(pending: Map<(SessionId, u64), EnvelopeView>, first: EnvelopeView, i: nat) -> EnvelopeView {
    if i == 0 {
        first
    } else {
        pending[(first.audit.session_id, (first.audit.request_sequence + i) as u64)]
    }
}

/// The authority after the first `n` requests of a run have been answered
/// with `results`.
pub open spec fn served(
    s: ServerView,
    pending: Map<(SessionId, u64), EnvelopeView>,
    first: EnvelopeView,
    results: Seq<CommandProcessResult>,
    n: nat,
) -> ServerView
    decreases n,
{
    if n == 0 {
        s
    } else {
        process_after(
            served(s, pending, first, results, (n - 1) as nat),
            run_envelope(pending, first, (n - 1) as nat),
            results[n - 1],
        )
    }
}

/// Whether each of the first `n` results is the authority's answer to its
/// request.
pub open spec fn served_fits(
    s: ServerView,
    pending: Map<(SessionId, u64), EnvelopeView>,
    first: EnvelopeView,
    results: Seq<CommandProcessResult>,
    n: nat,
) -> bool
    decreases n,
{
    if n == 0 {
        true
    } else {
        &&& served_fits(s, pending, first, results, (n - 1) as nat)
        &&& process_fits(
            served(s, pending, first, results, (n - 1) as nat),
            run_envelope(pending, first, (n - 1) as nat),
            results[n - 1],
        )
    }
}

/// The intake after a run of `k + 1` requests that starts with `first` has
/// been processed: the session's turn follows the run, each request of the
/// run is recorded under its sequence, and none of them waits any longer.
pub open spec fn after_run(v: IngressView, first: EnvelopeView, k: nat) -> IngressView {
    let session = first.audit.session_id;
    let e = first.audit.request_sequence;
    IngressView {
        next_sequence: v.next_sequence.insert(session, (e + k + 1) as u64),
        processed: v.processed.union_prefer_right(
            Map::new(
                |key: (SessionId, u64)| session_range(session, e as int, e + k).contains(key),
                |key: (SessionId, u64)| run_envelope(v.pending, first, (key.1 - e) as nat).command_id,
            ),
        ),
        pending: v.pending.remove_keys(session_range(session, e + 1, e + k)),
    }
}

/// Whether running `env` on authority `s` fails and leaves it as `t`: the
/// command has not run before, and either the authority cannot run it (and
/// stays as it was) or the command's first execution fails.
pub open spec fn step_fails(s: ServerView, env: EnvelopeView, t: ServerView) -> bool {
    &&& !s.idempotency.contains_key(env.command_id)
    &&& (!command_ready(s, env) && t == s) || first_execution_fails(s, env, t)
}

/// Whether a run that starts with `first` was answered with `results` and
/// then failed on its next request, leaving the authority as `t`.
pub open spec fn run_fails_after(
    s: ServerView,
    pending: Map<(SessionId, u64), EnvelopeView>,
    first: EnvelopeView,
    results: Seq<CommandProcessResult>,
    t: ServerView,
) -> bool {
    let k = results.len();
    &&& forall|i: int|
        1 <= i <= k ==> #[trigger] pending.contains_key(
            (first.audit.session_id, (first.audit.request_sequence + i) as u64),
        )
    &&& served_fits(s, pending, first, results, k)
    &&& step_fails(served(s, pending, first, results, k), run_envelope(pending, first, k), t)
}

/// The intake after a run that starts with `first` failed on its request
/// `k`: the `k` requests before it are recorded as after a run, and the
/// failed request, where it was waiting, waits no longer.
pub open spec fn failed_run(v: IngressView, first: EnvelopeView, k: nat) -> IngressView {
    if k == 0 {
        v
    } else {
        let done = after_run(v, first, (k - 1) as nat);
        IngressView {
            pending: done.pending.remove(
                (first.audit.session_id, (first.audit.request_sequence + k) as u64),
            ),
            ..done
        }
    }
}

/// A run that failed on a waiting request after `results` leaves the
/// authority and the intake as `run_fails_after` and `failed_run` say.
proof fn lemma_failed_step(
    v: IngressView,
    s: ServerView,
    first: EnvelopeView,
    results: Seq<CommandProcessResult>,
    before: IngressView,
    w: IngressView,
    t: ServerView,
)
    requires
        results.len() >= 1,
        forall|i: int|
            1 <= i <= results.len() ==> #[trigger] v.pending.contains_key(
                (first.audit.session_id, (first.audit.request_sequence + i) as u64),
            ),
        served_fits(s, v.pending, first, results, results.len()),
        step_fails(
            served(s, v.pending, first, results, results.len()),
            run_envelope(v.pending, first, results.len()),
            t,
        ),
        before == after_run(v, first, (results.len() - 1) as nat),
        w == (IngressView {
            pending: before.pending.remove(
                (first.audit.session_id, (first.audit.request_sequence + results.len()) as u64),
            ),
            ..before
        }),
    ensures
        run_fails_after(s, v.pending, first, results, t),
        w == failed_run(v, first, results.len()),
{
}

proof fn lemma_served_prefix(
    s: ServerView,
    pending: Map<(SessionId, u64), EnvelopeView>,
    first: EnvelopeView,
    a: Seq<CommandProcessResult>,
    b: Seq<CommandProcessResult>,
    n: nat,
)
    requires
        n <= a.len(),
        n <= b.len(),
        forall|i: int| 0 <= i < n ==> a[i] == b[i],
    ensures
        served(s, pending, first, a, n) == served(s, pending, first, b, n),
        served_fits(s, pending, first, a, n) == served_fits(s, pending, first, b, n),
    decreases n,
{
    if n > 0 {
        lemma_served_prefix(s, pending, first, a, b, (n - 1) as nat);
    }
}

proof fn lemma_touched_expected(v: IngressView, session: SessionId)
    ensures
        forall|x: SessionId| #[trigger] expected_sequence(touched(v, session), x) == expected_sequence(v, x),
        well_formed(v) ==> well_formed(touched(v, session)),
{
    assert forall|x: SessionId| #[trigger] expected_sequence(touched(v, session), x) == expected_sequence(v, x) by {
    }
}

/// An intake whose session has run through sequence `e + k` and whose
/// waiting requests are among those it had, but for the run's, stays well formed.
proof fn lemma_run_well_formed(v: IngressView, session: SessionId, e: u64, k: nat, w: IngressView)
    requires
        well_formed(v),
        e == expected_sequence(v, session),
        e + k + 1 <= u64::MAX,
        w.next_sequence == v.next_sequence.insert(session, (e + k + 1) as u64),
        forall|key: (SessionId, u64)| #[trigger] w.pending.contains_key(key) ==> {
            &&& v.pending.contains_key(key)
            &&& w.pending[key] == v.pending[key]
            &&& !(key.0 == session && e + 1 <= key.1 <= e + k + 1)
        },
    ensures
        well_formed(w),
{
    assert forall|key: (SessionId, u64)| #[trigger] w.pending.contains_key(key) implies {
        &&& w.pending[key].audit.session_id == key.0
        &&& w.pending[key].audit.request_sequence == key.1
        &&& key.1 < u64::MAX
        &&& key.1 > expected_sequence(w, key.0)
    } by {
        assert(v.pending.contains_key(key));
    }
}

proof fn lemma_served_step(
    s: ServerView,
    pending: Map<(SessionId, u64), EnvelopeView>,
    first: EnvelopeView,
    a: Seq<CommandProcessResult>,
    b: Seq<CommandProcessResult>,
    t: ServerView,
)
    requires
        b.len() == a.len() + 1,
        forall|i: int| 0 <= i < a.len() ==> a[i] == b[i],
        served_fits(s, pending, first, a, a.len()),
        process_fits(served(s, pending, first, a, a.len()), run_envelope(pending, first, a.len()), b.last()),
        t == process_after(served(s, pending, first, a, a.len()), run_envelope(pending, first, a.len()), b.last()),
    ensures
        served_fits(s, pending, first, b, b.len()),
        t == served(s, pending, first, b, b.len()),
{
    lemma_served_prefix(s, pending, first, a, b, a.len());
    assert(b[b.len() - 1] == b.last());
}

proof fn lemma_after_run_step(v: IngressView, first: EnvelopeView, c: nat, w: IngressView)
    requires
        c >= 1,
        first.audit.request_sequence + c < u64::MAX,
        v.pending.contains_key((first.audit.session_id, (first.audit.request_sequence + c) as u64)),
        w == (IngressView {
            next_sequence: after_run(v, first, (c - 1) as nat).next_sequence.insert(
                first.audit.session_id,
                (first.audit.request_sequence + c + 1) as u64,
            ),
            processed: after_run(v, first, (c - 1) as nat).processed.insert(
                (first.audit.session_id, (first.audit.request_sequence + c) as u64),
                v.pending[(first.audit.session_id, (first.audit.request_sequence + c) as u64)].command_id,
            ),
            pending: after_run(v, first, (c - 1) as nat).pending.remove(
                (first.audit.session_id, (first.audit.request_sequence + c) as u64),
            ),
        }),
    ensures
        w == after_run(v, first, c),
{
    let session = first.audit.session_id;
    let e = first.audit.request_sequence;
    let key = (session, (e + c) as u64);
    let target = after_run(v, first, c);
    assert(w.next_sequence =~= target.next_sequence);
    assert(run_envelope(v.pending, first, c) == v.pending[key]);
    assert(w.processed =~= target.processed) by {
        assert forall|k: (SessionId, u64)| #[trigger] w.processed.contains_key(k) == target.processed.contains_key(k) by {
            if k == key {
                assert(session_range(session, e as int, e + c).contains(k));
            }
        }
        assert forall|k: (SessionId, u64)| #[trigger] w.processed.contains_key(k) implies w.processed[k]
            == target.processed[k] by {
            if k == key {
                assert(session_range(session, e as int, e + c).contains(k));
            } else if session_range(session, e as int, e + c - 1).contains(k) {
                assert(session_range(session, e as int, e + c).contains(k));
            } else {
                assert(!session_range(session, e as int, e + c).contains(k));
            }
        }
    }
    assert(w.pending =~= target.pending) by {
        assert forall|k: (SessionId, u64)| #[trigger] w.pending.contains_key(k) == target.pending.contains_key(k) by {
            if session_range(session, e + 1, e + c - 1).contains(k) {
                assert(session_range(session, e + 1, e + c).contains(k));
            } else if k == key {
                assert(session_range(session, e + 1, e + c).contains(k));
            } else {
                assert(!session_range(session, e + 1, e + c).contains(k));
            }
        }
    }
}

fn not_ready() -> (error: AuthorityError)
    ensures
        error is Invariant,
{
    AuthorityError::Invariant("authority cannot take further commands".to_owned())
}

impl OrderedIngress {
    pub fn new() -> (ingress: Self)
        ensures
            ingress@.next_sequence == Map::<SessionId, u64>::empty(),
            ingress@.processed == Map::<(SessionId, u64), CommandId>::empty(),
            ingress@.pending == Map::<(SessionId, u64), EnvelopeView>::empty(),
            well_formed(ingress@),
    {
        let ingress = OrderedIngress {
            next_sequence: BTreeMap::new(),
            processed_sequences: BTreeMap::new(),
            pending: BTreeMap::new(),
        };
        assert(ingress@.pending =~= Map::empty());
        ingress
    }

    /// Takes one request of a session. A request in its turn runs, and so do
    /// the waiting requests of its session that follow on from it. A request
    /// ahead of its turn waits, unless another command already waits under
    /// its number, which makes it stale. A request behind its turn runs again
    /// where the same command ran under its number, which the authority
    /// answers as a duplicate, and is stale otherwise.
    pub fn ingest(&mut self, server: &mut AuthorityServer, envelope: AuthorityCommandEnvelope) -> (result:
        Result<IngressOutcome, AuthorityError>)
        requires
            well_formed(old(self)@),
            envelope@.audit.request_sequence < u64::MAX,
        ensures
            well_formed(final(self)@),
            ({
                let env = envelope@;
                let session = env.audit.session_id;
                let q = env.audit.request_sequence;
                let v = old(self)@;
                let e = expected_sequence(v, session);
                let s = old(server)@;
                if q < e {
                    &&& final(self)@ == touched(v, session)
                    &&& if v.processed.contains_key((session, q)) && v.processed[(session, q)]
                        == env.command_id {
                        match result {
                            Ok(IngressOutcome::Processed(results)) => {
                                &&& results@.len() == 1
                                &&& process_fits(s, env, results@[0])
                                &&& final(server)@ == process_after(s, env, results@[0])
                            },
                            Ok(_) => false,
                            Err(error) => {
                                &&& error is Invariant
                                &&& step_fails(s, env, final(server)@)
                            },
                        }
                    } else {
                        &&& final(server)@ == s
                        &&& result matches Ok(IngressOutcome::StaleSequence { session_id, received_sequence, expected_sequence })
                            && session_id == session && received_sequence == q && expected_sequence == e
                    }
                } else if q > e {
                    &&& final(server)@ == s
                    &&& if v.pending.contains_key((session, q)) && v.pending[(session, q)].command_id
                        != env.command_id {
                        &&& final(self)@ == touched(v, session)
                        &&& result matches Ok(IngressOutcome::StaleSequence { session_id, received_sequence, expected_sequence })
                            && session_id == session && received_sequence == q && expected_sequence == e
                    } else {
                        &&& final(self)@ == (IngressView {
                            pending: if v.pending.contains_key((session, q)) {
                                v.pending
                            } else {
                                v.pending.insert((session, q), env)
                            },
                            ..touched(v, session)
                        })
                        &&& result matches Ok(IngressOutcome::Buffered { session_id, received_sequence, expected_sequence })
                            && session_id == session && received_sequence == q && expected_sequence == e
                    }
                } else {
                    match result {
                        Ok(IngressOutcome::Processed(results)) => {
                            let k = (results@.len() - 1) as nat;
                            &&& results@.len() >= 1
                            &&& pending_run(v.pending, env, k)
                            &&& served_fits(s, v.pending, env, results@, k + 1)
                            &&& final(server)@ == served(s, v.pending, env, results@, k + 1)
                            &&& final(self)@ == after_run(v, env, k)
                        },
                        Ok(_) => false,
                        Err(error) => {
                            &&& error is Invariant
                            &&& exists|results: Seq<CommandProcessResult>| #[trigger] run_fails_after(
                                s,
                                v.pending,
                                env,
                                results,
                                final(server)@,
                            ) && final(self)@ == failed_run(touched(v, session), env, results.len())
                        },
                    }
                }
            }),
    {
        let ghost v0 = self@;
        let ghost s0 = server@;
        let ghost env = envelope@;
        let session_id = envelope.audit.session_id;
        let sequence = envelope.audit.request_sequence;
        let expected = match self.next_sequence.get(&session_id) {
            Some(next) => *next,
            None => {
                self.next_sequence.insert(session_id, 0);
                0
            },
        };
        proof {
            assert(self@ =~= touched(v0, session_id));
            lemma_touched_expected(v0, session_id);
        }
        if sequence < expected {
            let key = (session_id, sequence);
            let same = match self.processed_sequences.get(&key) {
                Some(command_id) => *command_id == envelope.command_id,
                None => false,
            };
            if same {
                if !server.has_run(envelope.command_id) && !server.ready_for(&envelope) {
                    return Err(not_ready());
                }
                let result = server.process(envelope)?;
                let mut results: Vec<CommandProcessResult> = Vec::new();
                results.push(result);
                return Ok(IngressOutcome::Processed(results));
            }
            return Ok(
                IngressOutcome::StaleSequence {
                    session_id,
                    received_sequence: sequence,
                    expected_sequence: expected,
                },
            );
        }
        if sequence > expected {
            let key = (session_id, sequence);
            let waiting = match self.pending.get(&key) {
                Some(existing) => Some(existing.command_id),
                None => None,
            };
            match waiting {
                Some(command_id) => {
                    if command_id != envelope.command_id {
                        return Ok(
                            IngressOutcome::StaleSequence {
                                session_id,
                                received_sequence: sequence,
                                expected_sequence: expected,
                            },
                        );
                    }
                },
                None => {
                    self.pending.insert(key, envelope);
                    proof {
                        assert(self@.pending =~= v0.pending.insert(key, env));
                    }
                },
            }
            return Ok(
                IngressOutcome::Buffered {
                    session_id,
                    received_sequence: sequence,
                    expected_sequence: expected,
                },
            );
        }
        proof {
            assert(self@.pending == v0.pending);
        }
        let results = self.run_from(server, envelope)?;
        proof {
            assert(after_run(touched(v0, session_id), env, (results@.len() - 1) as nat) =~= after_run(
                v0,
                env,
                (results@.len() - 1) as nat,
            ));
        }
        Ok(IngressOutcome::Processed(results))
    }

    /// Runs a request that is in its turn, then the waiting requests of its
    /// session that follow on from it, one after the other.
    #[verifier::rlimit(40)]
    fn run_from(&mut self, server: &mut AuthorityServer, envelope: AuthorityCommandEnvelope) -> (result: Result<
        Vec<CommandProcessResult>,
        AuthorityError,
    >)
        requires
            well_formed(old(self)@),
            envelope@.audit.request_sequence < u64::MAX,
            envelope@.audit.request_sequence == expected_sequence(old(self)@, envelope@.audit.session_id),
        ensures
            well_formed(final(self)@),
            match result {
                Ok(results) => {
                    let k = (results@.len() - 1) as nat;
                    &&& results@.len() >= 1
                    &&& pending_run(old(self)@.pending, envelope@, k)
                    &&& served_fits(old(server)@, old(self)@.pending, envelope@, results@, k + 1)
                    &&& final(server)@ == served(old(server)@, old(self)@.pending, envelope@, results@, k + 1)
                    &&& final(self)@ == after_run(old(self)@, envelope@, k)
                },
                Err(error) => {
                    &&& error is Invariant
                    &&& exists|results: Seq<CommandProcessResult>| #[trigger] run_fails_after(
                        old(server)@,
                        old(self)@.pending,
                        envelope@,
                        results,
                        final(server)@,
                    ) && final(self)@ == failed_run(old(self)@, envelope@, results.len())
                },
            },
    {
        let ghost v0 = self@;
        let ghost s0 = server@;
        let ghost env = envelope@;
        let ghost pend = v0.pending;
        let session_id = envelope.audit.session_id;
        let sequence = envelope.audit.request_sequence;
        let mut results: Vec<CommandProcessResult> = Vec::new();
        match self.process_in_order(server, envelope, &mut results) {
            Ok(()) => {},
            Err(error) => {
                proof {
                    let none = Seq::<CommandProcessResult>::empty();
                    assert(served(s0, pend, env, none, 0) == s0);
                    assert(run_envelope(pend, env, 0) == env);
                    assert(run_fails_after(s0, pend, env, none, server@));
                    assert(self@ == failed_run(v0, env, none.len()));
                }
                return Err(error);
            },
        }
        let mut next: u64 = sequence + 1;
        proof {
            assert(self@ =~= after_run(v0, env, 0));
            assert(results@.len() == 1);
            assert(results@[0] == results@.last());
            assert(served(s0, pend, env, results@, 0) == s0);
            assert(run_envelope(pend, env, 0) == env);
            assert(served_fits(s0, pend, env, results@, 0));
            assert(served_fits(s0, pend, env, results@, 1));
            assert(server@ == served(s0, pend, env, results@, 1));
        }
        let mut failure: Option<AuthorityError> = None;
        loop
            invariant_except_break
                failure is None,
                self@ == after_run(v0, env, (results@.len() - 1) as nat),
                server@ == served(s0, pend, env, results@, results@.len() as nat),
            invariant
                well_formed(v0),
                pend == v0.pending,
                env.audit.session_id == session_id,
                env.audit.request_sequence == sequence,
                sequence == expected_sequence(v0, session_id),
                sequence < u64::MAX,
                results@.len() >= 1,
                next == sequence + results@.len(),
                next <= u64::MAX,
                forall|i: int| 1 <= i < results@.len() ==> #[trigger] pend.contains_key(
                    (session_id, (sequence + i) as u64),
                ),
                served_fits(s0, pend, env, results@, results@.len() as nat),
            ensures
                results@.len() >= 1,
                failure is None ==> {
                    &&& pending_run(pend, env, (results@.len() - 1) as nat)
                    &&& self@ == after_run(v0, env, (results@.len() - 1) as nat)
                    &&& server@ == served(s0, pend, env, results@, results@.len() as nat)
                },
                failure matches Some(error) ==> {
                    &&& error is Invariant
                    &&& well_formed(self@)
                    &&& run_fails_after(s0, pend, env, results@, server@)
                    &&& self@ == failed_run(v0, env, results@.len())
                },
            decreases u64::MAX - next,
        {
            let key = (session_id, next);
            let ghost before = self@;
            let ghost raw = self.pending@;
            let ghost c = results@.len();
            proof {
                assert(!session_range(session_id, sequence + 1, sequence + c - 1).contains(key));
            }
            match self.pending.remove(&key) {
                None => {
                    proof {
                        assert(!raw.contains_key(key));
                        assert(self.pending@ =~= raw);
                        assert(self@ =~= before);
                        assert(!before.pending.contains_key(key));
                        assert(!pend.contains_key(key));
                    }
                    break;
                },
                Some(waiting) => {
                    let ghost r0 = results@;
                    proof {
                        assert(raw.contains_key(key) && raw[key] == waiting);
                        assert(before.pending.contains_key(key));
                        assert(before.pending[key] == waiting@);
                        assert(pend.contains_key(key));
                        assert(waiting@ == pend[key]);
                        assert(waiting@ == run_envelope(pend, env, c as nat));
                        assert(self@.pending =~= before.pending.remove(key));
                        assert(self@ == IngressView { pending: before.pending.remove(key), ..before });
                    }
                    match self.process_in_order(server, waiting, &mut results) {
                        Ok(()) => {},
                        Err(error) => {
                            proof {
                                lemma_run_well_formed(v0, session_id, sequence, (c - 1) as nat, self@);
                                lemma_failed_step(v0, s0, env, r0, before, self@, server@);
                            }
                            failure = Some(error);
                            break;
                        },
                    }
                    proof {
                        lemma_served_step(s0, pend, env, r0, results@, server@);
                        lemma_after_run_step(v0, env, c as nat, self@);
                    }
                    next = next + 1;
                },
            }
        }
        if let Some(error) = failure {
            return Err(error);
        }
        proof {
            lemma_run_well_formed(v0, session_id, sequence, (results@.len() - 1) as nat, self@);
        }
        Ok(results)
    }

    /// Runs one request through the authority in its turn and records it.
    fn process_in_order(
        &mut self,
        server: &mut AuthorityServer,
        envelope: AuthorityCommandEnvelope,
        results: &mut Vec<CommandProcessResult>,
    ) -> (result: Result<(), AuthorityError>)
        requires
            envelope@.audit.request_sequence < u64::MAX,
        ensures
            match result {
                Ok(()) => {
                    let res = final(results)@.last();
                    &&& final(results)@ == old(results)@.push(res)
                    &&& process_fits(old(server)@, envelope@, res)
                    &&& final(server)@ == process_after(old(server)@, envelope@, res)
                    &&& final(self)@ == IngressView {
                        next_sequence: old(self)@.next_sequence.insert(
                            envelope@.audit.session_id,
                            (envelope@.audit.request_sequence + 1) as u64,
                        ),
                        processed: old(self)@.processed.insert(
                            (envelope@.audit.session_id, envelope@.audit.request_sequence),
                            envelope@.command_id,
                        ),
                        ..old(self)@
                    }
                },
                Err(error) => {
                    &&& error is Invariant
                    &&& step_fails(old(server)@, envelope@, final(server)@)
                    &&& final(self)@ == old(self)@
                    &&& final(results)@ == old(results)@
                },
            },
    {
        if !server.has_run(envelope.command_id) && !server.ready_for(&envelope) {
            return Err(not_ready());
        }
        let session_id = envelope.audit.session_id;
        let sequence = envelope.audit.request_sequence;
        let command_id = envelope.command_id;
        let result = server.process(envelope)?;
        self.processed_sequences.insert((session_id, sequence), command_id);
        self.next_sequence.insert(session_id, sequence + 1);
        let ghost before = results@;
        results.push(result);
        proof {
            assert(results@.last() == result);
            assert(results@ =~= before.push(result));
        }
        Ok(())
    }
}

impl Clone for OrderedIngress {
    fn clone(&self) -> (copy: Self)
        ensures
            copy@ == self@,
    {
        let copy = OrderedIngress {
            next_sequence: self.next_sequence.clone(),
            processed_sequences: self.processed_sequences.clone(),
            pending: self.pending.clone(),
        };
        assert(copy@ =~= self@);
        copy
    }
}

impl Default for OrderedIngress {
    fn default() -> (ingress: Self)
        ensures
            ingress@.next_sequence == Map::<SessionId, u64>::empty(),
            ingress@.processed == Map::<(SessionId, u64), CommandId>::empty(),
            ingress@.pending == Map::<(SessionId, u64), EnvelopeView>::empty(),
            well_formed(ingress@),
    {
        OrderedIngress::new()
    }
}

/// Whether a receipt answers a command that had already run.
pub fn receipt_is_duplicate(receipt: &CommandReceipt) -> (duplicate: bool)
    ensures
        duplicate == (receipt.disposition == ReceiptDisposition::Duplicate),
{
    match receipt.disposition {
        ReceiptDisposition::Duplicate => true,
        _ => false,
    }
}

/// What a hosted authority reports about itself.
pub fn server_summary(server: &AuthorityServer) -> (summary: ServerSummary)
    ensures
        summary.revision == server@.world.revision,
        summary.state_fingerprint == spec_fingerprint(server@.world),
        summary.connected_sessions == server@.sessions.len(),
        summary.next_journal_sequence == server@.next_journal_sequence,
{
    let world = server.world();
    ServerSummary {
        revision: world.revision,
        state_fingerprint: semantic_fingerprint(world),
        connected_sessions: server.sessions().len(),
        next_journal_sequence: server.next_journal_sequence(),
    }
}

/// The journal records, in order, of the commands among `results` that ran
/// for the first time.
pub open spec fn new_records(results: Seq<CommandProcessResult>) -> Seq<JournalRecordView>
    decreases results.len(),
{
    if results.len() == 0 {
        Seq::empty()
    } else {
        let rest = new_records(results.drop_last());
        match results.last().journal_record {
            Some(record) => rest.push(record@),
            None => rest,
        }
    }
}

/// A hosted authority after an ingest that ran on copies of its authority
/// and intake: where commands ran, the host adopts both copies (once it has
/// persisted their journal records); a buffered request changes only the
/// intake; a stale one changes neither.
pub fn adopt_ingest(
    server: &mut AuthorityServer,
    ingress: &mut OrderedIngress,
    ran_server: AuthorityServer,
    ran_ingress: OrderedIngress,
    outcome: &IngressOutcome,
)
    ensures
        match outcome {
            IngressOutcome::Processed(_) => final(server)@ == ran_server@ && final(ingress)@ == ran_ingress@,
            IngressOutcome::Buffered { .. } => final(server)@ == old(server)@ && final(ingress)@ == ran_ingress@,
            IngressOutcome::StaleSequence { .. } => final(server)@ == old(server)@ && final(ingress)@
                == old(ingress)@,
        },
{
    match outcome {
        IngressOutcome::Processed(_) => {
            *server = ran_server;
            *ingress = ran_ingress;
        },
        IngressOutcome::Buffered { .. } => {
            *ingress = ran_ingress;
        },
        IngressOutcome::StaleSequence { .. } => {},
    }
}

/// The journal records that a batch of processed commands adds, in order.
pub fn journal_records(results: &Vec<CommandProcessResult>) -> (records: Vec<JournalRecord>)
    ensures
        records@.map_values(|r: JournalRecord| r@) == new_records(results@),
{
    let mut records: Vec<JournalRecord> = Vec::new();
    let mut i: usize = 0;
    while i < results.len()
        invariant
            i <= results.len(),
            records@.map_values(|r: JournalRecord| r@) == new_records(results@.take(i as int)),
        decreases results.len() - i,
    {
        let ghost before = records@;
        assert(results@.take(i as int + 1).drop_last() =~= results@.take(i as int));
        match &results[i].journal_record {
            Some(record) => {
                records.push(record.clone());
                assert(records@.map_values(|r: JournalRecord| r@) =~= before.map_values(
                    |r: JournalRecord| r@,
                ).push(record@));
            },
            None => {},
        }
        i = i + 1;
    }
    assert(results@.take(results.len() as int) =~= results@);
    records
}

/// The answer that a hosted authority sends for what its intake did with a
/// command: the receipts of the commands that ran, in order, or the reason
/// that none ran.
pub fn ingress_response(outcome: &IngressOutcome) -> (response: WireResponse)
    ensures
        match (outcome, response) {
            (IngressOutcome::Processed(results), WireResponse::Receipts(receipts)) => {
                &&& receipts@.len() == results@.len()
                &&& forall|i: int| 0 <= i < results@.len() ==> {
                    &&& #[trigger] receipts@[i]@ == results@[i].receipt@
                    &&& receipts@[i].disposition == results@[i].receipt.disposition
                }
            },
            (
                IngressOutcome::Buffered { session_id, received_sequence, expected_sequence },
                WireResponse::Buffered { session_id: s, received_sequence: r, expected_sequence: x },
            ) => s == session_id && r == received_sequence && x == expected_sequence,
            (
                IngressOutcome::StaleSequence { session_id, received_sequence, expected_sequence },
                WireResponse::StaleSequence { session_id: s, received_sequence: r, expected_sequence: x },
            ) => s == session_id && r == received_sequence && x == expected_sequence,
            _ => false,
        },
{
    match outcome {
        IngressOutcome::Processed(results) => {
            let mut receipts: Vec<CommandReceipt> = Vec::new();
            let mut i: usize = 0;
            while i < results.len()
                invariant
                    i <= results.len(),
                    receipts@.len() == i,
                    forall|j: int| 0 <= j < i ==> {
                        &&& #[trigger] receipts@[j]@ == results@[j].receipt@
                        &&& receipts@[j].disposition == results@[j].receipt.disposition
                    },
                decreases results.len() - i,
            {
                let receipt = results[i].receipt.clone();
                let ghost before = receipts@;
                receipts.push(receipt);
                assert forall|j: int| 0 <= j < i + 1 implies {
                    &&& #[trigger] receipts@[j]@ == results@[j].receipt@
                    &&& receipts@[j].disposition == results@[j].receipt.disposition
                } by {
                    if j < i {
                        assert(receipts@[j] == before[j]);
                        assert(before[j]@ == results@[j].receipt@);
                    }
                }
                i = i + 1;
            }
            WireResponse::Receipts(receipts)
        },
        IngressOutcome::Buffered { session_id, received_sequence, expected_sequence } => {
            WireResponse::Buffered {
                session_id: *session_id,
                received_sequence: *received_sequence,
                expected_sequence: *expected_sequence,
            }
        },
        IngressOutcome::StaleSequence { session_id, received_sequence, expected_sequence } => {
            WireResponse::StaleSequence {
                session_id: *session_id,
                received_sequence: *received_sequence,
                expected_sequence: *expected_sequence,
            }
        },
    }
}

} // verus!
