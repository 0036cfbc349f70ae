//! End-to-end runs of the migration engine against the in-memory executor:
//! ordering, idempotence, target validation, synchronization failures,
//! no-transaction splitting, and soft apply.
use tern::builder::TernBuilder;
use tern::context::{MigrationContext, StaticQueries};
use tern::error::Error;
use tern::memory::MemoryExecutor;
use tern::report::MigrationState;
use tern::runner::Runner;
use tern::source::{AppliedMigration, Migration, MigrationId, MigrationKind, MigrationSet};

fn sql_migration(version: i64, description: &str, content: &str, no_tx: bool) -> Migration {
    Migration::new(
        MigrationId::new(version, description.to_string()),
        content.to_string(),
        no_tx,
        MigrationKind::Sql,
    )
}

fn runner_for(
    executor: MemoryExecutor,
    migrations: Vec<Migration>,
) -> Runner<MemoryExecutor, StaticQueries> {
    let set = MigrationSet::new(migrations);
    let context = MigrationContext::new(
        executor,
        StaticQueries,
        "_tern_migrations".to_string(),
        set,
    );
    Runner::new(context)
}

/// Source {V1,V2,V3}, history empty: three applied results in order, and the
/// history then has exactly those three rows.
#[test]
fn apply_all_from_empty_history() {
    let migrations = vec![
        sql_migration(2, "second", "CREATE TABLE two;", false),
        sql_migration(1, "first", "CREATE TABLE one;", false),
        sql_migration(3, "third", "CREATE TABLE three;", false),
    ];
    let mut runner = runner_for(MemoryExecutor::new(), migrations);
    let report = runner.run_apply(None, false).unwrap();
    let results = report.results();
    assert_eq!(results.len(), 3);
    for (i, r) in results.iter().enumerate() {
        assert_eq!(r.version(), (i + 1) as i64);
        assert!(matches!(r.state(), MigrationState::Applied));
        assert!(!r.dryrun());
    }
    assert_eq!(results[0].content(), "CREATE TABLE one;".to_string());
    let rows = runner.context().executor().rows();
    assert_eq!(rows.len(), 3);
    let versions: Vec<i64> = rows.iter().map(|r| r.version).collect();
    assert_eq!(versions, vec![1, 2, 3]);
    let log = runner.context().executor().log();
    assert_eq!(
        log,
        vec![
            "CREATE TABLE one;".to_string(),
            "CREATE TABLE two;".to_string(),
            "CREATE TABLE three;".to_string(),
        ]
    );
}

/// Applying twice in a row: the second report is empty and the history is
/// unchanged between the two calls.
#[test]
fn apply_twice_is_idempotent() {
    let migrations = vec![
        sql_migration(1, "first", "CREATE TABLE one;", false),
        sql_migration(2, "second", "CREATE TABLE two;", false),
    ];
    let mut runner = runner_for(MemoryExecutor::new(), migrations);
    let first = runner.run_apply(None, false).unwrap();
    assert_eq!(first.count(), 2);
    let rows_before: Vec<i64> = runner
        .context()
        .executor()
        .rows()
        .iter()
        .map(|r| r.version)
        .collect();
    let second = runner.run_apply(None, false).unwrap();
    assert_eq!(second.count(), 0);
    let rows_after: Vec<i64> = runner
        .context()
        .executor()
        .rows()
        .iter()
        .map(|r| r.version)
        .collect();
    assert_eq!(rows_before, rows_after);
    assert_eq!(runner.context().executor().log().len(), 2);
}

/// Source {V1,V2,V3}, history {V1,V2}: only V3 is applied.
#[test]
fn apply_resumes_after_last_applied() {
    let migrations = vec![
        sql_migration(1, "first", "CREATE TABLE one;", false),
        sql_migration(2, "second", "CREATE TABLE two;", false),
        sql_migration(3, "third", "CREATE TABLE three;", false),
    ];
    let mut seed = runner_for(MemoryExecutor::new(), migrations);
    seed.run_apply(Some(2), false).unwrap();
    assert_eq!(seed.context().executor().rows().len(), 2);
    let report = seed.run_apply(None, false).unwrap();
    let results = report.results();
    assert_eq!(results.len(), 1);
    assert_eq!(results[0].version(), 3);
    assert_eq!(seed.context().executor().rows().len(), 3);
}

/// A target earlier than the last applied version is refused, and nothing is
/// executed.
#[test]
fn target_earlier_than_applied_is_invalid() {
    let migrations = vec![
        sql_migration(1, "first", "CREATE TABLE one;", false),
        sql_migration(2, "second", "CREATE TABLE two;", false),
    ];
    let mut runner = runner_for(MemoryExecutor::new(), migrations);
    runner.run_apply(None, false).unwrap();
    let before = runner.context().executor().log();
    let err = runner.run_apply(Some(1), false).unwrap_err();
    assert!(matches!(err, Error::Invalid(_)));
    assert_eq!(runner.context().executor().log(), before);
    assert_eq!(runner.context().executor().rows().len(), 2);
}

/// A target beyond the last source version is refused as well.
#[test]
fn target_beyond_source_is_invalid() {
    let migrations = vec![sql_migration(1, "first", "CREATE TABLE one;", false)];
    let mut runner = runner_for(MemoryExecutor::new(), migrations);
    let err = runner.run_apply(Some(9), false).unwrap_err();
    assert!(matches!(err, Error::Invalid(_)));
    assert_eq!(runner.context().executor().log().len(), 0);
}

/// History holding a migration the source lost fails out of sync, naming
/// exactly the lost id.
#[test]
fn lost_history_row_is_out_of_sync() {
    let full = vec![
        sql_migration(1, "first", "CREATE TABLE one;", false),
        sql_migration(2, "second", "CREATE TABLE two;", false),
    ];
    let mut seed = runner_for(MemoryExecutor::new(), full);
    seed.run_apply(None, false).unwrap();

    // Rebuild the context over the same history with a narrower source.
    let mut rows = seed.context().executor().rows();
    let mut replay = MemoryExecutor::new();
    let narrow = vec![sql_migration(1, "first", "CREATE TABLE one;", false)];
    for row in rows.drain(..) {
        let id = MigrationId::new(row.version, row.description.clone());
        let again = AppliedMigration::new(id, row.content.as_str(), row.duration_ms, row.applied_at);
        tern::executor::Executor::insert_applied_migration(
            &mut replay,
            "_tern_migrations",
            &again,
        )
        .unwrap();
    }
    let mut runner = runner_for(replay, narrow);
    let err = runner.run_apply(None, false).unwrap_err();
    match err {
        Error::OutOfSync { at_issue, .. } => {
            assert_eq!(at_issue, vec![MigrationId::new(2, "second".to_string())]);
        },
        other => panic!("expected an out-of-sync error, got {:?}", other),
    }
    let listed = runner.list_applied();
    assert!(matches!(listed, Err(Error::OutOfSync { .. })));
}

/// A no-transaction migration runs statement by statement; when the second
/// statement fails, no history row is written for it, but the first
/// statement stays executed.
#[test]
fn no_tx_failure_keeps_executed_prefix() {
    let migrations = vec![
        sql_migration(1, "first", "CREATE TABLE one;", false),
        sql_migration(2, "second", "CREATE INDEX a;\nCREATE INDEX b;", true),
    ];
    let poison = "CREATE INDEX b;\n".to_string();
    let mut runner = runner_for(MemoryExecutor::failing_on(poison), migrations);
    let err = runner.run_apply(None, false).unwrap_err();
    match err {
        Error::Partial { source, report } => {
            assert!(matches!(*source, Error::ExecuteMigration { .. }));
            assert_eq!(report.count(), 1);
        },
        other => panic!("expected a partial failure, got {:?}", other),
    }
    let rows = runner.context().executor().rows();
    assert_eq!(rows.len(), 1);
    assert_eq!(rows[0].version, 1);
    let log = runner.context().executor().log();
    assert_eq!(
        log,
        vec!["CREATE TABLE one;".to_string(), "CREATE INDEX a;\n".to_string()]
    );
}

/// A successful no-transaction migration logs each statement separately.
#[test]
fn no_tx_migration_splits_statements() {
    let migrations = vec![sql_migration(
        1,
        "first",
        "CREATE INDEX a;\nCREATE INDEX b;",
        true,
    )];
    let mut runner = runner_for(MemoryExecutor::new(), migrations);
    runner.run_apply(None, false).unwrap();
    let log = runner.context().executor().log();
    assert_eq!(
        log,
        vec!["CREATE INDEX a;\n".to_string(), "CREATE INDEX b;\n".to_string()]
    );
}

/// Soft apply records a single row with no run time and never executes the
/// query.
#[test]
fn soft_apply_records_without_running() {
    let migrations = vec![
        sql_migration(1, "first", "CREATE TABLE one;", false),
        sql_migration(2, "second", "CREATE TABLE two;", false),
    ];
    let mut runner = runner_for(MemoryExecutor::new(), migrations);
    let report = runner.run_soft_apply(Some(1), false).unwrap();
    let results = report.results();
    assert_eq!(results.len(), 1);
    assert!(matches!(results[0].state(), MigrationState::SoftApplied));
    let rows = runner.context().executor().rows();
    assert_eq!(rows.len(), 1);
    assert_eq!(rows[0].version, 1);
    assert_eq!(rows[0].duration_ms, 0);
    assert!(rows[0].content.starts_with("-- SOFT APPLIED:"));
    assert!(rows[0].content.contains("CREATE TABLE one;"));
    assert_eq!(runner.context().executor().log().len(), 0);
}

/// A dry run resolves the queries and reports them without executing or
/// recording anything.
#[test]
fn dry_run_reports_without_running() {
    let migrations = vec![sql_migration(1, "first", "CREATE TABLE one;", false)];
    let mut runner = runner_for(MemoryExecutor::new(), migrations);
    let report = runner.run_apply(None, true).unwrap();
    let results = report.results();
    assert_eq!(results.len(), 1);
    assert!(matches!(results[0].state(), MigrationState::Unapplied));
    assert!(results[0].dryrun());
    assert_eq!(results[0].content(), "CREATE TABLE one;".to_string());
    assert_eq!(runner.context().executor().rows().len(), 0);
    assert_eq!(runner.context().executor().log().len(), 0);
}

/// Listing projects the history rows in version order.
#[test]
fn list_applied_projects_history() {
    let migrations = vec![
        sql_migration(1, "first", "CREATE TABLE one;", false),
        sql_migration(2, "second", "CREATE TABLE two;", false),
    ];
    let mut runner = runner_for(MemoryExecutor::new(), migrations);
    runner.run_apply(None, false).unwrap();
    let report = runner.list_applied().unwrap();
    let results = report.results();
    assert_eq!(results.len(), 2);
    assert_eq!(results[0].version(), 1);
    assert_eq!(results[1].version(), 2);
    assert!(matches!(results[0].state(), MigrationState::Applied));
}

/// The builder drives the same operations through the application type.
#[test]
fn builder_runs_apply_operation() {
    let migrations = vec![sql_migration(1, "first", "CREATE TABLE one;", false)];
    let set = MigrationSet::new(migrations);
    let context = MigrationContext::new(
        MemoryExecutor::new(),
        StaticQueries,
        "_tern_migrations".to_string(),
        set,
    );
    let mut app = TernBuilder::new().apply().build_with_context(context);
    let report = app.run().unwrap().unwrap();
    assert_eq!(report.count(), 1);
}

/// Dropping the history leaves an empty history table.
#[test]
fn drop_history_empties_the_table() {
    let migrations = vec![sql_migration(1, "first", "CREATE TABLE one;", false)];
    let mut runner = runner_for(MemoryExecutor::new(), migrations);
    runner.run_apply(None, false).unwrap();
    assert_eq!(runner.context().executor().rows().len(), 1);
    runner.drop_history().unwrap();
    assert_eq!(runner.context().executor().rows().len(), 0);
}

/// Inserting a history row for a version already recorded is a conflict.
#[test]
fn insert_conflict_is_an_execute_error() {
    let migrations = vec![sql_migration(1, "first", "CREATE TABLE one;", false)];
    let set = MigrationSet::new(migrations);
    let mut context: MigrationContext<MemoryExecutor, StaticQueries> = MigrationContext::new(
        MemoryExecutor::new(),
        StaticQueries,
        "_tern_migrations".to_string(),
        set,
    );
    let row = AppliedMigration::new(MigrationId::new(1, "first".to_string()), "A;", 1, 2);
    context.insert_applied(&row).unwrap();
    let err = context.insert_applied(&row).unwrap_err();
    assert!(matches!(err, Error::Execute(_)));
    let replacement = AppliedMigration::new(MigrationId::new(1, "first".to_string()), "B;", 1, 2);
    context.upsert_applied(&replacement).unwrap();
    assert_eq!(context.executor().rows()[0].content, "B;".to_string());
}

/// A dynamically-built migration without a query builder fails to resolve,
/// wrapped with the report of what completed before it.
#[test]
fn dynamic_migration_without_builder_fails_to_resolve() {
    let migrations = vec![
        sql_migration(1, "first", "CREATE TABLE one;", false),
        Migration::new(
            MigrationId::new(2, "second".to_string()),
            "fn build() {}".to_string(),
            false,
            MigrationKind::Rust,
        ),
    ];
    let mut runner = runner_for(MemoryExecutor::new(), migrations);
    let err = runner.run_apply(None, false).unwrap_err();
    match err {
        Error::Partial { source, report } => {
            assert!(matches!(*source, Error::ResolveQuery(_)));
            assert_eq!(report.count(), 1);
        },
        other => panic!("expected a partial failure, got {:?}", other),
    }
    assert_eq!(runner.context().executor().rows().len(), 1);
}
