use world_prototype::protocol::{
    require_version, EntityVersion, Execution, IdempotencyLedger, VersionCheckError,
};

#[test]
fn duplicate_command_reuses_original_outcome() {
    let id: u128 = 99;
    let mut ledger = IdempotencyLedger::default();
    let first = ledger.execute_once(id, || 10_u32);
    let duplicate = ledger.execute_once(id, || 999_u32);
    assert_eq!(first, Execution::First(10));
    assert_eq!(duplicate, Execution::Duplicate(10));
}

#[test]
fn expected_version_is_enforced() {
    assert!(require_version(Some(EntityVersion(3)), EntityVersion(4)).is_err());
    assert!(require_version(Some(EntityVersion(4)), EntityVersion(4)).is_ok());
    assert!(require_version(None, EntityVersion(4)).is_ok());
}

#[test]
fn version_conflict_names_both_versions() {
    assert_eq!(
        require_version(Some(EntityVersion(3)), EntityVersion(4)),
        Err(VersionCheckError::Conflict {
            expected: EntityVersion(3),
            actual: EntityVersion(4),
        })
    );
}

#[test]
fn distinct_commands_each_run_once() {
    let mut ledger = IdempotencyLedger::new();
    let mut calls = 0;
    let a = ledger.execute_once(1, || {
        calls += 1;
        "a".to_owned()
    });
    let b = ledger.execute_once(2, || "b".to_owned());
    let again = ledger.execute_once(1, || "changed".to_owned());
    assert_eq!(calls, 1);
    assert_eq!(a, Execution::First("a".to_owned()));
    assert_eq!(b, Execution::First("b".to_owned()));
    assert_eq!(again, Execution::Duplicate("a".to_owned()));
}
