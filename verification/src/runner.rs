//! The migration runner. A run reads the highest applied version from the
//! ledger, validates the migration list, and executes exactly the pending
//! suffix — every migration whose version is above what the ledger records —
//! in ascending version order, recording each version only after its script
//! has committed, and aborting on the first script the store refuses.

use vstd::prelude::*;
use crate::migration::{Migration, MigrationError, well_ordered, versions_of, scripts_of, ordering_ok};
use crate::store::{MemStore, spec_highest};

verus! {

/// How many leading migrations a run from baseline `v` skips: the length of
/// the maximal leading prefix whose versions are at most `v`.
pub open spec fn resume_cut(ms: Seq<Migration>, v: u64) -> int
    decreases ms.len(),
{
    if ms.len() == 0 {
        0
    } else if ms.first().version <= v {
        1 + resume_cut(ms.drop_first(), v)
    } else {
        0
    }
}

/// The migrations a run from baseline `v` executes, in order: the suffix of
/// the list past the skipped prefix.
pub open spec fn pending(ms: Seq<Migration>, v: u64) -> Seq<Migration> {
    ms.subrange(resume_cut(ms, v), ms.len() as int)
}

/// The ledger a successful run leaves behind: the old ledger extended by the
/// versions of every pending migration, in order.
pub open spec fn ledger_after(ledger: Seq<u64>, ms: Seq<Migration>) -> Seq<u64> {
    ledger + versions_of(pending(ms, spec_highest(ledger)))
}

/// The schema state a successful run leaves behind: the scripts committed so
/// far extended by the scripts of every pending migration, in order.
pub open spec fn schema_after(schema: Seq<String>, ledger: Seq<u64>, ms: Seq<Migration>) -> Seq<
    String,
> {
    schema + scripts_of(pending(ms, spec_highest(ledger)))
}

/// The skipped prefix is exactly the leading run of versions at most `v`:
/// everything before the cut is at or below `v`, and the migration at the
/// cut, when there is one, is above it.
pub proof fn lemma_resume_cut_split(ms: Seq<Migration>, v: u64)
    ensures
        0 <= resume_cut(ms, v) <= ms.len(),
        forall|i: int| 0 <= i < resume_cut(ms, v) ==> ms[i].version <= v,
        resume_cut(ms, v) < ms.len() ==> ms[resume_cut(ms, v)].version > v,
    decreases ms.len(),
{
    if ms.len() > 0 && ms.first().version <= v {
        lemma_resume_cut_split(ms.drop_first(), v);
        assert forall|i: int| 0 <= i < resume_cut(ms, v) implies ms[i].version <= v by {
            if i > 0 {
                assert(ms.drop_first()[i - 1].version <= v);
            }
        }
    }
}

/// Any position that splits the list into a leading run of versions at most
/// `v` and a remainder that opens above `v` is the resume cut.
pub proof fn lemma_resume_cut_is(ms: Seq<Migration>, v: u64, k: int)
    requires
        0 <= k <= ms.len(),
        forall|i: int| 0 <= i < k ==> ms[i].version <= v,
        k < ms.len() ==> ms[k].version > v,
    ensures
        resume_cut(ms, v) == k,
    decreases ms.len(),
{
    if ms.len() > 0 && k > 0 {
        assert(ms.first().version <= v);
        assert forall|i: int| 0 <= i < k - 1 implies ms.drop_first()[i].version <= v by {
            assert(ms[i + 1].version <= v);
        }
        if k - 1 < ms.drop_first().len() {
            assert(ms.drop_first()[k - 1] == ms[k]);
        }
        lemma_resume_cut_is(ms.drop_first(), v, k - 1);
    }
}

/// Every script a run from baseline `v` would execute is one the store's
/// engine accepts, so a run from that baseline commits them all.
pub open spec fn accepts_pending(store: MemStore, ms: Seq<Migration>, v: u64) -> bool {
    forall|i: int|
        0 <= i < pending(ms, v).len() ==> !store.rejects_script(pending(ms, v)[i].script@)
}

/// What a run over `ms` that started against `store0` and stopped at
/// `ms[k]` leaves behind in `store1`: the pending migrations strictly before
/// `k` committed and were recorded, in order; `ms[k]` is the first pending
/// script the engine refuses, and nothing of it or of any later migration
/// persists.
pub open spec fn stopped_at(store0: MemStore, store1: MemStore, ms: Seq<Migration>, k: int) -> bool {
    let c = resume_cut(ms, spec_highest(store0.ledger@));
    &&& c <= k < ms.len()
    &&& store0.rejects_script(ms[k].script@)
    &&& (forall|i: int| c <= i < k ==> !store0.rejects_script(ms[i].script@))
    &&& store1.ledger@ == store0.ledger@ + versions_of(ms.subrange(c, k))
    &&& store1.schema@ == store0.schema@ + scripts_of(ms.subrange(c, k))
}

/// The run's cursor over a validated migration list: `migrations[next]` is
/// the next migration to execute, and everything before `next` is either at
/// or below the ledger baseline or was already executed during this run.
pub struct Runner {
    pub migrations: Vec<Migration>,
    pub next: usize,
}

impl Runner {
    /// A usable cursor: the list it walks is valid and the cursor is within
    /// bounds.
    pub open spec fn wf(self) -> bool {
        &&& well_ordered(self.migrations@)
        &&& self.next <= self.migrations@.len()
    }

    /// Validates the list and positions the cursor at the first migration
    /// whose version is above `highest_applied`; everything below or at the
    /// baseline is skipped unconditionally. A list that is not strictly
    /// ascending in positive versions is rejected before any script could
    /// run.
    pub fn new(migrations: Vec<Migration>, highest_applied: u64) -> (r: Result<
        Runner,
        MigrationError,
    >)
        ensures
            match r {
                Ok(runner) => {
                    &&& well_ordered(migrations@)
                    &&& runner.wf()
                    &&& runner.migrations@ == migrations@
                    &&& runner.next == resume_cut(migrations@, highest_applied)
                },
                Err(e) => {
                    &&& !well_ordered(migrations@)
                    &&& e is OrderingViolation
                },
            },
    {
        if !ordering_ok(&migrations) {
            return Err(MigrationError::OrderingViolation);
        }
        let n = migrations.len();
        let mut i: usize = 0;
        while i < n && migrations[i].version <= highest_applied
            invariant
                i <= n == migrations@.len(),
                forall|k: int| 0 <= k < i ==> migrations@[k].version <= highest_applied,
            decreases n - i,
        {
            i += 1;
        }
        proof {
            lemma_resume_cut_is(migrations@, highest_applied, i as int);
        }
        Ok(Runner { migrations, next: i })
    }

    /// Whether every pending migration has been executed.
    pub fn is_done(&self) -> (r: bool)
        ensures
            r == (self.next == self.migrations@.len()),
    {
        self.next == self.migrations.len()
    }

    /// The next migration to execute.
    pub fn current(&self) -> (m: &Migration)
        requires
            self.next < self.migrations@.len(),
        ensures
            *m == self.migrations@[self.next as int],
    {
        &self.migrations[self.next]
    }

    /// Moves past the current migration, after its script has committed and
    /// its version has been recorded in the ledger.
    pub fn advance(&mut self)
        requires
            old(self).next < old(self).migrations@.len(),
        ensures
            final(self).migrations == old(self).migrations,
            final(self).next == old(self).next + 1,
    {
        let n = self.migrations.len();
        assert(self.next < n);
        self.next = self.next + 1;
    }
}

/// Brings `store` up to the highest version in `migrations`: reads the
/// highest applied version from the ledger, rejects an invalid list before
/// any script runs, then executes every pending migration in ascending
/// version order as one atomic unit each, recording a version only after
/// its script has committed, and aborts on the first script the store
/// refuses, leaving the store at the last committed version. The exclusive
/// borrow of the store is the run's scoped lease on it: held for the whole
/// call, released on every exit path.
#[verifier::loop_isolation(false)]
pub fn apply(store: &mut MemStore, migrations: Vec<Migration>) -> (r: Result<(), MigrationError>)
    requires
        old(store).wf(),
    ensures
        final(store).wf(),
        final(store).rejects == old(store).rejects,
        old(store).ledger@.is_prefix_of(final(store).ledger@),
        r is Ok <==> well_ordered(migrations@) && accepts_pending(
            *old(store),
            migrations@,
            spec_highest(old(store).ledger@),
        ),
        match r {
            Ok(()) => {
                &&& final(store).ledger@ == ledger_after(old(store).ledger@, migrations@)
                &&& final(store).schema@ == schema_after(
                    old(store).schema@,
                    old(store).ledger@,
                    migrations@,
                )
            },
            Err(e) => match e {
                MigrationError::OrderingViolation => {
                    &&& !well_ordered(migrations@)
                    &&& *final(store) == *old(store)
                },
                MigrationError::ScriptFailed { version, cause } => {
                    &&& well_ordered(migrations@)
                    &&& exists|k: int|
                        #![auto]
                        {
                            &&& stopped_at(*old(store), *final(store), migrations@, k)
                            &&& migrations@[k].version == version
                            &&& cause@ == migrations@[k].script@
                        }
                },
                MigrationError::StoreUnavailable => false,
            },
        },
{
    let ghost store0 = *store;
    let ghost ms = migrations@;
    let baseline = store.highest_version();
    let ghost v0 = spec_highest(store0.ledger@);
    let mut runner = match Runner::new(migrations, baseline) {
        Ok(run) => run,
        Err(e) => {
            return Err(e);
        },
    };
    let ghost c = resume_cut(ms, v0);
    proof {
        lemma_resume_cut_split(ms, v0);
        assert forall|i: int| c <= i < ms.len() implies ms[i].version > v0 by {
            if i > c {
                assert(ms[c].version < ms[i].version);
            }
        }
        assert(versions_of(ms.subrange(c, c)) =~= Seq::<u64>::empty());
        assert(scripts_of(ms.subrange(c, c)) =~= Seq::<String>::empty());
        assert(store.ledger@ =~= store0.ledger@ + versions_of(ms.subrange(c, c)));
        assert(store.schema@ =~= store0.schema@ + scripts_of(ms.subrange(c, c)));
    }
    while runner.next < runner.migrations.len()
        invariant
            runner.wf(),
            runner.migrations@ == ms,
            well_ordered(ms),
            c == resume_cut(ms, v0),
            c <= runner.next <= ms.len(),
            forall|i: int| c <= i < ms.len() ==> ms[i].version > v0,
            store.wf(),
            store.rejects == store0.rejects,
            store0.wf(),
            v0 == spec_highest(store0.ledger@),
            store.ledger@ == store0.ledger@ + versions_of(ms.subrange(c, runner.next as int)),
            store.schema@ == store0.schema@ + scripts_of(ms.subrange(c, runner.next as int)),
            forall|i: int| c <= i < runner.next ==> !store0.rejects_script(ms[i].script@),
            spec_highest(store.ledger@) == if runner.next == c {
                v0
            } else {
                ms[runner.next - 1].version
            },
        decreases ms.len() - runner.next,
    {
        let ghost nxt = runner.next as int;
        let m = runner.current();
        let ver = m.version;
        let res = store.execute_script(&m.script);
        match res {
            Ok(()) => {
                proof {
                    assert(ver > spec_highest(store.ledger@));
                    assert(ver >= 1);
                }
                store.record_version(ver);
                runner.advance();
                proof {
                    assert(ms.subrange(c, nxt + 1) =~= ms.subrange(c, nxt).push(ms[nxt]));
                    assert(versions_of(ms.subrange(c, nxt + 1)) =~= versions_of(
                        ms.subrange(c, nxt),
                    ).push(ms[nxt].version));
                    assert(scripts_of(ms.subrange(c, nxt + 1)) =~= scripts_of(
                        ms.subrange(c, nxt),
                    ).push(ms[nxt].script));
                    assert(store.ledger@ =~= store0.ledger@ + versions_of(
                        ms.subrange(c, nxt + 1),
                    ));
                    assert(store.schema@ =~= store0.schema@ + scripts_of(ms.subrange(c, nxt + 1)));
                }
            },
            Err(cause) => {
                proof {
                    assert(stopped_at(store0, *store, ms, nxt));
                    assert(pending(ms, v0)[nxt - c] == ms[nxt]);
                    assert(!accepts_pending(store0, ms, v0));
                    assert(store0.ledger@.is_prefix_of(store.ledger@)) by {
                        assert(store0.ledger@ =~= store.ledger@.subrange(
                            0,
                            store0.ledger@.len() as int,
                        ));
                    }
                }
                return Err(MigrationError::ScriptFailed { version: ver, cause });
            },
        }
    }
    proof {
        assert(ms.subrange(c, ms.len() as int) == pending(ms, v0));
        assert(store.ledger@ == ledger_after(store0.ledger@, ms));
        assert(store.schema@ == schema_after(store0.schema@, store0.ledger@, ms));
        assert forall|i: int| 0 <= i < pending(ms, v0).len() implies !store0.rejects_script(
            pending(ms, v0)[i].script@,
        ) by {
            assert(pending(ms, v0)[i] == ms[c + i]);
        }
        assert(store0.ledger@.is_prefix_of(store.ledger@)) by {
            assert(store0.ledger@ =~= store.ledger@.subrange(0, store0.ledger@.len() as int));
        }
    }
    Ok(())
}

} // verus!
