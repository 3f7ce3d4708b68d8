use migration_runner::migration::{Migration, MigrationError, MigrationKind};
use migration_runner::runner::{apply, Runner};
use migration_runner::store::MemStore;

fn mig(version: u64, description: &str, script: &str) -> Migration {
    Migration {
        version,
        description: description.to_string(),
        script: script.to_string(),
        kind: MigrationKind::Up,
    }
}

fn sample_list() -> Vec<Migration> {
    vec![
        mig(1, "create table loans", "create table loans"),
        mig(2, "add column notes to loans", "add column notes to loans"),
        mig(3, "create table payments", "create table payments"),
    ]
}

#[test]
fn applies_all_migrations_to_empty_store() {
    let mut st = MemStore::new();
    let r = apply(&mut st, sample_list());
    assert!(r.is_ok());
    assert_eq!(st.ledger, vec![1, 2, 3]);
    assert_eq!(
        st.schema,
        vec![
            "create table loans".to_string(),
            "add column notes to loans".to_string(),
            "create table payments".to_string(),
        ]
    );
}

#[test]
fn second_run_changes_nothing() {
    let mut st = MemStore::new();
    assert!(apply(&mut st, sample_list()).is_ok());
    let ledger_once = st.ledger.clone();
    let schema_once = st.schema.clone();
    assert!(apply(&mut st, sample_list()).is_ok());
    assert_eq!(st.ledger, ledger_once);
    assert_eq!(st.schema, schema_once);
}

#[test]
fn idempotent_from_partial_baseline() {
    let mut st = MemStore::new();
    st.record_version(1);
    assert!(apply(&mut st, sample_list()).is_ok());
    let ledger_once = st.ledger.clone();
    let schema_once = st.schema.clone();
    assert!(apply(&mut st, sample_list()).is_ok());
    assert_eq!(st.ledger, ledger_once);
    assert_eq!(st.schema, schema_once);
}

#[test]
fn resumes_after_recorded_versions() {
    let mut st = MemStore::new();
    st.record_version(1);
    st.record_version(2);
    let r = apply(&mut st, sample_list());
    assert!(r.is_ok());
    assert_eq!(st.ledger, vec![1, 2, 3]);
    // only version 3's script executed
    assert_eq!(st.schema, vec!["create table payments".to_string()]);
}

#[test]
fn executes_in_ascending_version_order() {
    let mut st = MemStore::new();
    let list = vec![mig(2, "b", "second"), mig(5, "c", "third"), mig(9, "d", "fourth")];
    assert!(apply(&mut st, list).is_ok());
    assert_eq!(st.ledger, vec![2, 5, 9]);
    assert_eq!(
        st.schema,
        vec!["second".to_string(), "third".to_string(), "fourth".to_string()]
    );
}

#[test]
fn rejects_duplicate_versions() {
    let mut st = MemStore::new();
    let r = apply(&mut st, vec![mig(1, "a", "s1"), mig(1, "b", "s2"), mig(2, "c", "s3")]);
    assert!(matches!(r, Err(MigrationError::OrderingViolation)));
    // rejected before any script ran
    assert!(st.ledger.is_empty());
    assert!(st.schema.is_empty());
}

#[test]
fn rejects_out_of_order_versions() {
    let mut st = MemStore::new();
    let r = apply(&mut st, vec![mig(2, "a", "s1"), mig(1, "b", "s2")]);
    assert!(matches!(r, Err(MigrationError::OrderingViolation)));
    assert!(st.ledger.is_empty());
    assert!(st.schema.is_empty());
}

#[test]
fn rejects_version_zero() {
    let mut st = MemStore::new();
    let r = apply(&mut st, vec![mig(0, "a", "s1"), mig(1, "b", "s2")]);
    assert!(matches!(r, Err(MigrationError::OrderingViolation)));
    assert!(st.ledger.is_empty());
    assert!(st.schema.is_empty());
}

#[test]
fn failed_script_leaves_no_trace_of_its_version() {
    let mut st = MemStore::new();
    st.rejects.push("add column notes to loans".to_string());
    let r = apply(&mut st, sample_list());
    match r {
        Err(MigrationError::ScriptFailed { version, cause }) => {
            assert_eq!(version, 2);
            assert_eq!(cause, "add column notes to loans".to_string());
        }
        _ => panic!("expected the second migration to fail"),
    }
    // version 1 committed and was recorded; nothing of 2 or 3 persists
    assert_eq!(st.ledger, vec![1]);
    assert_eq!(st.schema, vec!["create table loans".to_string()]);
}

#[test]
fn failure_on_resumed_run_keeps_earlier_versions() {
    let mut st = MemStore::new();
    st.record_version(1);
    st.rejects.push("create table payments".to_string());
    let r = apply(&mut st, sample_list());
    match r {
        Err(MigrationError::ScriptFailed { version, .. }) => assert_eq!(version, 3),
        _ => panic!("expected the third migration to fail"),
    }
    assert_eq!(st.ledger, vec![1, 2]);
    assert_eq!(st.schema, vec!["add column notes to loans".to_string()]);
}

#[test]
fn empty_list_succeeds_and_changes_nothing() {
    let mut st = MemStore::new();
    st.record_version(4);
    let r = apply(&mut st, Vec::new());
    assert!(r.is_ok());
    assert_eq!(st.ledger, vec![4]);
    assert!(st.schema.is_empty());
}

#[test]
fn store_unavailable_is_its_own_error() {
    let e = MigrationError::StoreUnavailable;
    assert!(matches!(e, MigrationError::StoreUnavailable));
    assert!(!matches!(e, MigrationError::OrderingViolation));
}

#[test]
fn runner_cursor_skips_applied_versions() {
    let runner = Runner::new(sample_list(), 2).expect("valid list");
    assert!(!runner.is_done());
    assert_eq!(runner.current().version, 3);
}

#[test]
fn runner_cursor_walks_the_pending_suffix() {
    let mut runner = Runner::new(sample_list(), 0).expect("valid list");
    assert_eq!(runner.current().version, 1);
    runner.advance();
    assert_eq!(runner.current().version, 2);
    runner.advance();
    assert_eq!(runner.current().version, 3);
    runner.advance();
    assert!(runner.is_done());
}

#[test]
fn runner_is_done_when_everything_is_applied() {
    let runner = Runner::new(sample_list(), 3).expect("valid list");
    assert!(runner.is_done());
}

#[test]
fn runner_rejects_invalid_list() {
    let r = Runner::new(vec![mig(3, "a", "s1"), mig(3, "b", "s2")], 0);
    assert!(matches!(r, Err(MigrationError::OrderingViolation)));
}

#[test]
fn highest_version_reads_the_last_recorded() {
    let mut st = MemStore::new();
    assert_eq!(st.highest_version(), 0);
    st.record_version(1);
    st.record_version(7);
    assert_eq!(st.highest_version(), 7);
}

#[test]
fn execute_script_commits_whole_or_not_at_all() {
    let mut st = MemStore::new();
    st.rejects.push("bad".to_string());
    assert!(st.execute_script(&"good".to_string()).is_ok());
    assert_eq!(st.schema, vec!["good".to_string()]);
    let r = st.execute_script(&"bad".to_string());
    assert_eq!(r.unwrap_err(), "bad".to_string());
    assert_eq!(st.schema, vec!["good".to_string()]);
    assert!(st.ledger.is_empty());
}

#[test]
fn rejected_script_below_baseline_is_never_executed() {
    let mut st = MemStore::new();
    st.record_version(1);
    // the engine would refuse version 1's script, but version 1 is already
    // applied, so the run never hands it to the engine
    st.rejects.push("create table loans".to_string());
    assert!(apply(&mut st, sample_list()).is_ok());
    assert_eq!(st.ledger, vec![1, 2, 3]);
    assert_eq!(
        st.schema,
        vec![
            "add column notes to loans".to_string(),
            "create table payments".to_string(),
        ]
    );
}

#[test]
fn handles_maximum_version_numbers() {
    let mut st = MemStore::new();
    let list = vec![mig(u64::MAX - 1, "a", "s1"), mig(u64::MAX, "b", "s2")];
    assert!(apply(&mut st, list).is_ok());
    assert_eq!(st.ledger, vec![u64::MAX - 1, u64::MAX]);
    let again = vec![mig(u64::MAX - 1, "a", "s1"), mig(u64::MAX, "b", "s2")];
    assert!(apply(&mut st, again).is_ok());
    assert_eq!(st.schema.len(), 2);
}

#[test]
fn ordering_ok_decides_validity() {
    assert!(migration_runner::migration::ordering_ok(&sample_list()));
    assert!(migration_runner::migration::ordering_ok(&Vec::new()));
    assert!(!migration_runner::migration::ordering_ok(&vec![
        mig(1, "a", "s1"),
        mig(1, "b", "s2"),
    ]));
    assert!(!migration_runner::migration::ordering_ok(&vec![mig(0, "a", "s1")]));
}
