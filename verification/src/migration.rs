//! The migration data model: versioned scripts, the errors a run can end
//! with, and the ordering discipline a migration list must obey.

use vstd::prelude::*;

verus! {

/// Direction tag of a migration. Only upward migrations are defined: a
/// version, once shipped, is never rolled back by this mechanism.
#[derive(Clone, Copy, PartialEq, Eq, Structural, Debug)]
pub enum MigrationKind {
    Up,
}

/// An immutable unit of schema change: a positive version that defines its
/// place in the application order, a human-readable label with no semantic
/// effect, and the script to execute against the store as one atomic unit.
#[derive(Debug)]
pub struct Migration {
    pub version: u64,
    pub description: String,
    pub script: String,
    pub kind: MigrationKind,
}

/// Why a run failed. All three are fatal to the caller: the application must
/// not proceed to normal operation when migration fails.
#[derive(Debug)]
pub enum MigrationError {
    /// A script could not be executed or committed; `version` is the
    /// migration whose script failed and `cause` is the store's report.
    ScriptFailed { version: u64, cause: String },
    /// The supplied list is not strictly ascending in version, or holds a
    /// version below 1: a static configuration defect, rejected before any
    /// script runs.
    OrderingViolation,
    /// The persistent store could not be opened or created. Produced by the
    /// host when acquiring the store handle fails, never by a run itself.
    StoreUnavailable,
}

/// The versions of a migration list, in list order.
pub open spec fn versions_of(ms: Seq<Migration>) -> Seq<u64> {
    ms.map_values(|m: Migration| m.version)
}

/// The scripts of a migration list, in list order.
pub open spec fn scripts_of(ms: Seq<Migration>) -> Seq<String> {
    ms.map_values(|m: Migration| m.script)
}

/// A valid migration list: versions are positive and strictly ascending
/// (hence unique), so list order and version order coincide.
pub open spec fn well_ordered(ms: Seq<Migration>) -> bool {
    &&& forall|i: int, j: int| 0 <= i < j < ms.len() ==> ms[i].version < ms[j].version
    &&& forall|i: int| 0 <= i < ms.len() ==> ms[i].version >= 1
}

/// Decides `well_ordered`: whether the list may be handed to a run at all.
pub fn ordering_ok(migrations: &Vec<Migration>) -> (r: bool)
    ensures
        r == well_ordered(migrations@),
{
    let n = migrations.len();
    if n == 0 {
        return true;
    }
    if migrations[0].version < 1 {
        return false;
    }
    let mut i: usize = 1;
    while i < n
        invariant
            1 <= i <= n == migrations@.len(),
            forall|k: int| 0 <= k < i ==> migrations@[k].version >= 1,
            forall|k: int, l: int| 0 <= k < l < i ==> migrations@[k].version < migrations@[l].version,
        decreases n - i,
    {
        if migrations[i].version <= migrations[i - 1].version {
            return false;
        }
        i += 1;
    }
    true
}

} // verus!
