use superkbd::migrations::{pending_migrations, LATEST_SCHEMA_VERSION};

#[test]
fn test_pending_migrations_from_fresh_store() {
    assert_eq!(pending_migrations(0), vec![1, 2]);
}

#[test]
fn test_pending_migrations_stepwise() {
    assert_eq!(pending_migrations(1), vec![2]);
    assert_eq!(pending_migrations(-3), vec![1, 2]);
}

#[test]
fn test_migrations_idempotent() {
    // A store already at (or past) the latest version needs nothing: running
    // the migrations against an already-migrated store is safe.
    assert_eq!(pending_migrations(LATEST_SCHEMA_VERSION), Vec::<i64>::new());
    assert_eq!(pending_migrations(LATEST_SCHEMA_VERSION + 1), Vec::<i64>::new());
}
