//! The source/history synchronization check on the runner path.
use tern::error::Error;
use tern::runner::check_migrations_in_sync;
use tern::source::MigrationId;

#[test]
fn runner_missing_source() {
    let source: Vec<MigrationId> = vec![
        MigrationId::new(1, "first".into()),
        MigrationId::new(2, "second".into()),
        MigrationId::new(3, "fourth".into()),
    ];
    let applied: Vec<MigrationId> = vec![
        MigrationId::new(1, "first".into()),
        MigrationId::new(2, "second".into()),
        MigrationId::new(3, "third".into()),
    ];
    let missing = vec![MigrationId::new(3, "third".into())];
    let result = check_migrations_in_sync(applied, source);
    assert!(result.is_err());
    let err = result.unwrap_err();
    assert!(matches!(err, Error::OutOfSync { at_issue, .. } if at_issue == missing));
}

#[test]
fn runner_fewer_in_source() {
    let source: Vec<MigrationId> = vec![
        MigrationId::new(1, "first".into()),
        MigrationId::new(2, "second".into()),
        MigrationId::new(3, "third".into()),
    ];
    let applied: Vec<MigrationId> = vec![
        MigrationId::new(1, "first".into()),
        MigrationId::new(2, "second".into()),
        MigrationId::new(3, "third".into()),
        MigrationId::new(4, "fourth".into()),
    ];
    let missing = vec![MigrationId::new(4, "fourth".into())];
    let result = check_migrations_in_sync(applied, source);
    assert!(result.is_err());
    let err = result.unwrap_err();
    assert!(matches!(err, Error::OutOfSync { at_issue, .. } if at_issue == missing));
}

#[test]
fn runner_mismatched_source() {
    let source: Vec<MigrationId> = vec![
        MigrationId::new(1, "first".into()),
        MigrationId::new(2, "second".into()),
        MigrationId::new(3, "third".into()),
        MigrationId::new(4, "fifth".into()),
        MigrationId::new(5, "sixth".into()),
        MigrationId::new(6, "seventh".into()),
        MigrationId::new(7, "eighth".into()),
    ];
    let applied: Vec<MigrationId> = vec![
        MigrationId::new(1, "first".into()),
        MigrationId::new(2, "second".into()),
        MigrationId::new(3, "third".into()),
        MigrationId::new(4, "fourth".into()),
        MigrationId::new(5, "fifth".into()),
    ];
    let divergence = vec![
        MigrationId::new(4, "fourth".into()),
        MigrationId::new(5, "fifth".into()),
    ];
    let result = check_migrations_in_sync(applied, source);
    assert!(result.is_err());
    let err = result.unwrap_err();
    assert!(matches!(err, Error::OutOfSync { at_issue, .. } if at_issue == divergence));
}
