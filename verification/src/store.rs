//! An in-memory store that models the persistent store at exactly the level
//! a run observes: the ledger of applied versions, the schema state as the
//! sequence of scripts committed so far, and the engine's verdict on each
//! script. A script either commits as a whole or leaves the schema untouched,
//! which is the atomic-unit guarantee the runner assumes of any real store.

use vstd::prelude::*;

verus! {

/// The store as a run sees it. `ledger` is the persistent record of applied
/// versions; `schema` is the observable schema state, abstracted as the
/// scripts that have committed, in commit order; `rejects` lists the scripts
/// this store's engine cannot execute, standing for statements that fail
/// against it.
pub struct MemStore {
    pub ledger: Vec<u64>,
    pub schema: Vec<String>,
    pub rejects: Vec<String>,
}

/// The highest version a ledger records, 0 when it records none.
pub open spec fn spec_highest(ledger: Seq<u64>) -> u64 {
    if ledger.len() == 0 {
        0
    } else {
        ledger.last()
    }
}

impl MemStore {
    /// Ledger invariant: versions are positive and strictly ascending. The
    /// runner only ever appends, and only versions above the whole ledger.
    pub open spec fn wf(self) -> bool {
        &&& forall|i: int, j: int|
            0 <= i < j < self.ledger@.len() ==> self.ledger@[i] < self.ledger@[j]
        &&& forall|i: int| 0 <= i < self.ledger@.len() ==> self.ledger@[i] >= 1
    }

    /// Whether this store's engine refuses `script`.
    pub open spec fn rejects_script(self, script: Seq<char>) -> bool {
        exists|i: int| 0 <= i < self.rejects@.len() && self.rejects@[i]@ == script
    }

    /// A fresh, empty store: no versions applied, no schema, an engine that
    /// accepts every script.
    pub fn new() -> (s: MemStore)
        ensures
            s.ledger@.len() == 0,
            s.schema@.len() == 0,
            s.rejects@.len() == 0,
            s.wf(),
    {
        MemStore { ledger: Vec::new(), schema: Vec::new(), rejects: Vec::new() }
    }

    /// Reads the highest applied version from the ledger, 0 when the ledger
    /// is empty. On a well-formed store this bounds every recorded version.
    pub fn highest_version(&self) -> (v: u64)
        ensures
            v == spec_highest(self.ledger@),
            self.wf() ==> forall|i: int| 0 <= i < self.ledger@.len() ==> self.ledger@[i] <= v,
    {
        proof {
            if self.wf() {
                assert forall|i: int|
                    0 <= i < self.ledger@.len() implies self.ledger@[i] <= spec_highest(
                    self.ledger@,
                ) by {
                    if i < self.ledger@.len() - 1 {
                        assert(self.ledger@[i] < self.ledger@[self.ledger@.len() - 1]);
                    }
                }
            }
        }
        if self.ledger.len() == 0 {
            0
        } else {
            self.ledger[self.ledger.len() - 1]
        }
    }

    /// Atomically records `v` in the ledger. Models inserting one row into
    /// the ledger table; the schema and the engine are untouched.
    pub fn record_version(&mut self, v: u64)
        requires
            old(self).wf(),
            v >= 1,
            v > spec_highest(old(self).ledger@),
        ensures
            final(self).wf(),
            final(self).ledger@ == old(self).ledger@.push(v),
            final(self).schema == old(self).schema,
            final(self).rejects == old(self).rejects,
    {
        proof {
            let l = self.ledger@;
            assert forall|i: int| 0 <= i < l.len() implies l[i] < v by {
                if i < l.len() - 1 {
                    assert(l[i] < l[l.len() - 1]);
                }
            }
        }
        self.ledger.push(v);
    }

    /// Executes one script as an atomic unit. When the engine accepts it,
    /// the whole script commits and becomes part of the schema state; when
    /// it refuses, the schema is left exactly as it was and the offending
    /// script is reported back as the cause. The ledger is never touched.
    pub fn execute_script(&mut self, script: &String) -> (r: Result<(), String>)
        ensures
            final(self).ledger == old(self).ledger,
            final(self).rejects == old(self).rejects,
            match r {
                Ok(()) => {
                    &&& !old(self).rejects_script(script@)
                    &&& final(self).schema@ == old(self).schema@.push(*script)
                },
                Err(cause) => {
                    &&& old(self).rejects_script(script@)
                    &&& final(self).schema == old(self).schema
                    &&& cause@ == script@
                },
            },
    {
        let n = self.rejects.len();
        let mut i: usize = 0;
        while i < n
            invariant
                i <= n == self.rejects@.len(),
                *self == *old(self),
                forall|j: int| 0 <= j < i ==> self.rejects@[j]@ != script@,
            decreases n - i,
        {
            if self.rejects[i] == *script {
                return Err(script.clone());
            }
            i += 1;
        }
        self.schema.push(script.clone());
        Ok(())
    }
}

} // verus!
