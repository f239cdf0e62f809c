//! Typed commands, outcomes and events, version checks, and the
//! idempotency ledger that runs each command once.

use crate::ids::{CommandId, EventId, PersonId, WorldInstant};
use std::collections::BTreeMap;
use vstd::prelude::*;

verus! {

#[derive(Clone, Copy, Debug, PartialEq, Eq, Structural, Hash)]
pub struct SchemaVersion(pub u32);

#[derive(Clone, Copy, Debug, PartialEq, Eq, Structural, Hash)]
pub struct EntityVersion(pub u64);

#[derive(Clone, Debug)]
pub struct CommandEnvelope<P> {
    pub command_id: CommandId,
    pub actor_id: PersonId,
    pub issued_at: WorldInstant,
    pub expected_entity_version: Option<EntityVersion>,
    pub schema_version: SchemaVersion,
    pub payload: P,
}

#[derive(Clone, Debug)]
pub struct DomainEventEnvelope<E> {
    pub event_id: EventId,
    pub caused_by: CommandId,
    pub occurred_at: WorldInstant,
    pub schema_version: SchemaVersion,
    pub payload: E,
}

#[derive(Debug)]
pub enum CommandOutcome<T> {
    Accepted { resulting_version: EntityVersion, value: T },
    Rejected(CommandRejection),
}

#[derive(Debug)]
pub struct CommandRejection {
    pub code: RejectionCode,
    pub message: String,
}

pub struct RejectionView {
    pub code: RejectionCode,
    pub message: Seq<char>,
}

impl View for CommandRejection {
    type V = RejectionView;

    open spec fn view(&self) -> RejectionView {
        RejectionView { code: self.code, message: self.message@ }
    }
}

#[derive(Clone, Copy, Debug, PartialEq, Eq, Structural)]
pub enum RejectionCode {
    VersionConflict,
    PermissionDenied,
    InvalidState,
    InvalidPayload,
    ResourceUnavailable,
    UnsupportedSchema,
}

/// Whether a command ran for the first time or repeated an earlier one.
#[derive(Clone, Debug, PartialEq, Eq)]
pub enum Execution<R> {
    First(R),
    Duplicate(R),
}

/// Remembers the outcome of every command it has run, by command id.
#[derive(Clone, Debug)]
pub struct IdempotencyLedger<R> {
    outcomes: BTreeMap<CommandId, R>,
}

impl<R> View for IdempotencyLedger<R> {
    type V = Map<CommandId, R>;

    /// The stored outcome of every command run so far.
    closed spec fn view(&self) -> Map<CommandId, R> {
        self.outcomes@
    }
}

impl<R: Clone> IdempotencyLedger<R> {
    pub fn new() -> (ledger: Self)
        ensures
            ledger@ == Map::<CommandId, R>::empty(),
    {
        IdempotencyLedger { outcomes: BTreeMap::new() }
    }

    /// Runs `operation` unless `command_id` already ran, in which case the
    /// stored outcome is handed out again and `operation` is not called.
    pub fn execute_once<F>(&mut self, command_id: CommandId, operation: F) -> (result: Execution<R>)
        where
            F: FnOnce() -> R,
        requires
            !old(self)@.contains_key(command_id) ==> operation.requires(()),
        ensures
            old(self)@.contains_key(command_id) ==> {
                &&& final(self)@ == old(self)@
                &&& result matches Execution::Duplicate(r) && cloned(old(self)@[command_id], r)
            },
            !old(self)@.contains_key(command_id) ==> {
                &&& final(self)@.dom() == old(self)@.dom().insert(command_id)
                &&& forall|other: CommandId|
                    #![trigger final(self)@[other]]
                    other != command_id && old(self)@.contains_key(other) ==> final(self)@[other]
                        == old(self)@[other]
                &&& result matches Execution::First(r) && operation.ensures((), r) && cloned(
                    r,
                    final(self)@[command_id],
                )
            },
    {
        if let Some(existing) = self.outcomes.get(&command_id) {
            return Execution::Duplicate(existing.clone());
        }
        let outcome = operation();
        let stored = outcome.clone();
        self.outcomes.insert(command_id, stored);
        Execution::First(outcome)
    }
}

impl<R: Clone> Default for IdempotencyLedger<R> {
    fn default() -> (ledger: Self)
        ensures
            ledger@ == Map::<CommandId, R>::empty(),
    {
        IdempotencyLedger::new()
    }
}

/// A mismatch between the entity version a command expected and the actual one.
#[derive(Clone, Copy, Debug, PartialEq, Eq, Structural)]
pub enum VersionCheckError {
    Conflict { expected: EntityVersion, actual: EntityVersion },
}

/// Accepts when no version is expected or the expected version is the actual one.
pub fn require_version(expected: Option<EntityVersion>, actual: EntityVersion) -> (result: Result<
    (),
    VersionCheckError,
>)
    ensures
        result is Ok <==> (expected is None || expected == Some(actual)),
        result matches Err(error) ==> error == (VersionCheckError::Conflict {
            expected: expected->0,
            actual,
        }),
{
    match expected {
        Some(expected) => {
            if expected != actual {
                Err(VersionCheckError::Conflict { expected, actual })
            } else {
                Ok(())
            }
        },
        None => Ok(()),
    }
}

} // verus!
