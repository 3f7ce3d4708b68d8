//! Laws of the migration runner, stated over the same spec functions its
//! contracts use and proved once and for all: running twice is running once,
//! execution order follows version order, the ledger only grows, and a
//! failed migration leaves no trace in the ledger.

use vstd::prelude::*;
use crate::migration::{Migration, well_ordered, versions_of, scripts_of};
use crate::runner::{
    resume_cut, pending, ledger_after, schema_after, stopped_at, lemma_resume_cut_split,
    lemma_resume_cut_is,
};
use crate::store::{MemStore, spec_highest};

verus! {

/// Law: a run executes migrations in strictly ascending version order, and
/// nothing at or below the baseline version is executed at all — what runs
/// is exactly the pending suffix, in list order.
pub proof fn lemma_execution_order(ms: Seq<Migration>, v: u64)
    requires
        well_ordered(ms),
    ensures
        forall|i: int, j: int|
            0 <= i < j < pending(ms, v).len() ==> pending(ms, v)[i].version < pending(
                ms,
                v,
            )[j].version,
        forall|i: int| 0 <= i < pending(ms, v).len() ==> pending(ms, v)[i].version > v,
{
    lemma_resume_cut_split(ms, v);
    let c = resume_cut(ms, v);
    assert forall|i: int| 0 <= i < pending(ms, v).len() implies pending(ms, v)[i].version > v by {
        assert(pending(ms, v)[i] == ms[c + i]);
        if i > 0 {
            assert(ms[c].version < ms[c + i].version);
        }
    }
    assert forall|i: int, j: int|
        0 <= i < j < pending(ms, v).len() implies pending(ms, v)[i].version < pending(
        ms,
        v,
    )[j].version by {
        assert(pending(ms, v)[i] == ms[c + i]);
        assert(pending(ms, v)[j] == ms[c + j]);
    }
}

/// Law: running the same list twice in a row is the same as running it
/// once. After a successful run nothing is pending any more, so a second
/// run leaves both the ledger and the schema exactly as the first run left
/// them.
pub proof fn lemma_apply_twice_is_once(ledger: Seq<u64>, schema: Seq<String>, ms: Seq<Migration>)
    requires
        well_ordered(ms),
    ensures
        pending(ms, spec_highest(ledger_after(ledger, ms))).len() == 0,
        ledger_after(ledger_after(ledger, ms), ms) == ledger_after(ledger, ms),
        schema_after(schema_after(schema, ledger, ms), ledger_after(ledger, ms), ms)
            == schema_after(schema, ledger, ms),
{
    let v0 = spec_highest(ledger);
    lemma_resume_cut_split(ms, v0);
    let c = resume_cut(ms, v0);
    let l1 = ledger_after(ledger, ms);
    let v1 = spec_highest(l1);
    if c == ms.len() {
        assert(versions_of(pending(ms, v0)) =~= Seq::<u64>::empty());
        assert(l1 =~= ledger);
        assert(l1 == ledger);
        assert(resume_cut(ms, v1) == ms.len());
    } else {
        let p = pending(ms, v0);
        assert(versions_of(p)[p.len() - 1] == p[p.len() - 1].version);
        assert(p[p.len() - 1] == ms[ms.len() - 1]);
        assert(v1 == ms[ms.len() - 1].version);
        assert forall|i: int| 0 <= i < ms.len() implies ms[i].version <= v1 by {
            if i < ms.len() - 1 {
                assert(ms[i].version < ms[ms.len() - 1].version);
            }
        }
        lemma_resume_cut_is(ms, v1, ms.len() as int);
    }
    assert(pending(ms, v1).len() == 0);
    assert(versions_of(pending(ms, v1)) =~= Seq::<u64>::empty());
    assert(scripts_of(pending(ms, v1)) =~= Seq::<String>::empty());
    assert(ledger_after(l1, ms) =~= l1);
    assert(schema_after(schema_after(schema, ledger, ms), l1, ms) =~= schema_after(
        schema,
        ledger,
        ms,
    ));
}

/// Law: the ledger only grows. A run leaves every version it found in
/// place and only appends behind it, whatever the migration list holds.
pub proof fn lemma_ledger_only_grows(ledger: Seq<u64>, ms: Seq<Migration>)
    ensures
        ledger.is_prefix_of(ledger_after(ledger, ms)),
{
    assert(ledger =~= ledger_after(ledger, ms).subrange(0, ledger.len() as int));
}

/// Law: a failed migration leaves no trace in the ledger. When a run over
/// `ms` against a well-formed store stops at `ms[k]`, the resulting ledger
/// contains neither that version nor any later version of the list.
pub proof fn lemma_failed_version_not_recorded(
    store0: MemStore,
    store1: MemStore,
    ms: Seq<Migration>,
    k: int,
)
    requires
        store0.wf(),
        well_ordered(ms),
        stopped_at(store0, store1, ms, k),
    ensures
        !store1.ledger@.contains(ms[k].version),
        forall|j: int| k <= j < ms.len() ==> !store1.ledger@.contains(ms[j].version),
{
    let v0 = spec_highest(store0.ledger@);
    let c = resume_cut(ms, v0);
    lemma_resume_cut_split(ms, v0);
    assert forall|i: int| 0 <= i < store0.ledger@.len() implies store0.ledger@[i] <= v0 by {
        if i < store0.ledger@.len() - 1 {
            assert(store0.ledger@[i] < store0.ledger@[store0.ledger@.len() - 1]);
        }
    }
    assert(ms[k].version > v0) by {
        if k > c {
            assert(ms[c].version < ms[k].version);
        }
    }
    assert forall|j: int| k <= j < ms.len() implies !store1.ledger@.contains(ms[j].version) by {
        assert(ms[k].version <= ms[j].version) by {
            if j > k {
                assert(ms[k].version < ms[j].version);
            }
        }
        assert forall|t: int| 0 <= t < store1.ledger@.len() implies store1.ledger@[t]
            != ms[j].version by {
            if t < store0.ledger@.len() {
                assert(store1.ledger@[t] == store0.ledger@[t]);
            } else {
                let idx = c + (t - store0.ledger@.len());
                assert(store1.ledger@[t] == versions_of(ms.subrange(c, k))[t
                    - store0.ledger@.len()]);
                assert(versions_of(ms.subrange(c, k))[t - store0.ledger@.len()]
                    == ms[idx].version);
                assert(ms[idx].version < ms[k].version);
            }
        }
    }
}

} // verus!
