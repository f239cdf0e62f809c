//! The numbered steps of a validation run.

use vstd::prelude::*;

verus! {

/// One step of a validation run: its place in the run, what it checked,
/// what it found and whether it passed.
#[derive(Clone, Debug)]
pub struct ValidationStep {
    pub index: usize,
    pub title: String,
    pub detail: String,
    pub passed: bool,
}

/// Appends a step to a run, numbered one past the steps before it.
pub fn record(checks: &mut Vec<ValidationStep>, title: &str, detail: String, passed: bool)
    requires
        old(checks)@.len() < usize::MAX,
    ensures
        final(checks)@.len() == old(checks)@.len() + 1,
        final(checks)@.drop_last() == old(checks)@,
        final(checks)@.last().index == old(checks)@.len() + 1,
        final(checks)@.last().title@ == title@,
        final(checks)@.last().detail@ == detail@,
        final(checks)@.last().passed == passed,
{
    let step = ValidationStep { index: checks.len() + 1, title: title.to_owned(), detail, passed };
    let ghost before = checks@;
    checks.push(step);
    assert(checks@.drop_last() =~= before);
}

} // verus!
