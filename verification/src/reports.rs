//! The scan outcome: a report whose pass/fail status always agrees with
//! its finding set.

use vstd::prelude::*;

use crate::checks::{FindingKey, FindingSet};

verus! {

/// Aggregate outcome of one scan: `passed` exactly when no unsafe code was found.
#[allow(non_camel_case_types)]
#[derive(Clone, Copy, Debug, PartialEq, Eq, Structural)]
pub enum Status {
    passed,
    failed,
}

impl Status {
    /// `passed` for `true`, `failed` for `false`.
    pub fn from_bool(pass: bool) -> (r: Status)
        ensures
            r == (if pass { Status::passed } else { Status::failed }),
    {
        if pass {
            Status::passed
        } else {
            Status::failed
        }
    }
}

/// The result of one scan: the scanned target's name, the outcome,
/// and the full de-duplicated finding set. Immutable once constructed, and
/// the stored status always agrees with the set: `passed` exactly when the
/// set is empty.
pub struct SafetyReport {
    lib_name: String,
    status: Status,
    offenses: FindingSet,
}

impl SafetyReport {
    /// The name of the scanned target.
    pub closed spec fn lib_name_spec(&self) -> Seq<char> {
        self.lib_name@
    }

    /// The stored outcome.
    pub closed spec fn status_spec(&self) -> Status {
        self.status
    }

    /// The findings the report carries.
    pub closed spec fn offenses_spec(&self) -> Set<FindingKey> {
        self.offenses@
    }

    /// Validity: the status always follows the finding set, so a `passed`
    /// report can never hold a finding.
    pub closed spec fn wf(&self) -> bool {
        &&& self.offenses.wf()
        &&& self.status == (if self.offenses@.is_empty() {
            Status::passed
        } else {
            Status::failed
        })
    }

    /// Builds the report for one scanned target. The stored status is
    /// always computed from the finding set, never taken from the caller,
    /// so the two representations cannot disagree.
    #[allow(unused_variables)]
    pub fn new(lib_name: String, status: Status, offenses: FindingSet) -> (r: SafetyReport)
        requires
            offenses.wf(),
        ensures
            r.wf(),
            r.lib_name_spec() == lib_name@,
            r.offenses_spec() == offenses@,
            r.status_spec() == (if offenses@.is_empty() {
                Status::passed
            } else {
                Status::failed
            }),
    {
        let checked = Status::from_bool(offenses.is_empty());
        SafetyReport { lib_name, status: checked, offenses }
    }

    /// The name of the scanned target.
    pub fn lib_name(&self) -> (r: &String)
        ensures
            r@ == self.lib_name_spec(),
    {
        &self.lib_name
    }

    /// The outcome of the scan.
    pub fn status(&self) -> (r: Status)
        ensures
            r == self.status_spec(),
    {
        self.status
    }

    /// The findings of the scan.
    pub fn offenses(&self) -> (r: &FindingSet)
        ensures
            r@ == self.offenses_spec(),
            self.wf() ==> r.wf(),
    {
        &self.offenses
    }
}

} // verus!
