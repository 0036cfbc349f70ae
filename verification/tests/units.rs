//! Unit-level behaviour: query editing, filename parsing and naming, the
//! compatibility statement splitter and validation, and the history-table
//! query builders.
use tern::cli::{get_latest_version, migration_template, new_filename, ConnectOpts, MigrationType};
use tern::error::Error;
use tern::executor::{QueryRepository, SqlxMySqlQueryRepo, SqlxPgQueryRepo, SqlxSqliteQueryRepo};
use tern::history::{HistoryTableOptions, PgHistoryTableInfo, PgHistoryTableOptions, SqlxPgHistoryTable};
use tern::migrate::{AppliedMigration, MigrationQuery, MigrationSource, NoValidation, Validate};
use tern::parse::{MigrationSource as ParsedMigrationSource, SourceError, SourceType};
use tern::query::Query;

#[test]
fn append_joins_queries_line_by_line() {
    let mut q = Query::new("SELECT 1;".to_string());
    q.append(Query::new("SELECT 2;".to_string())).unwrap();
    assert_eq!(q.sql(), "SELECT 1;\nSELECT 2;\n");
}

#[test]
fn prepend_puts_the_other_query_first() {
    let mut q = Query::new("SELECT 2;".to_string());
    q.prepend(Query::new("SELECT 1;".to_string())).unwrap();
    assert_eq!(q.sql(), "SELECT 1;\nSELECT 2;\n");
}

#[test]
fn split_supplies_a_missing_terminator() {
    let q = Query::new("SELECT 1".to_string());
    let split = q.split_statements().unwrap();
    assert_eq!(split, vec!["SELECT 1;\n".to_string()]);
}

#[test]
fn parse_reads_the_filename_convention() {
    let parsed =
        ParsedMigrationSource::parse("V7__create_users.sql", "CREATE TABLE users;".to_string())
            .unwrap();
    match parsed {
        ParsedMigrationSource::Sql(s) => {
            assert_eq!(s.version, 7);
            assert_eq!(s.description, "create_users".to_string());
            assert_eq!(s.module, "V7__create_users".to_string());
            assert_eq!(s.content, "CREATE TABLE users;".to_string());
            assert!(!s.no_tx);
        },
        other => panic!("expected a SQL source, got {:?}", other),
    }
}

#[test]
fn parse_sees_the_no_transaction_marker() {
    let parsed = ParsedMigrationSource::parse(
        "V1__index.sql",
        "-- tern:noTransaction\nCREATE INDEX CONCURRENTLY i;".to_string(),
    )
    .unwrap();
    match parsed {
        ParsedMigrationSource::Sql(s) => assert!(s.no_tx),
        other => panic!("expected a SQL source, got {:?}", other),
    }
}

#[test]
fn parse_rejects_a_malformed_name() {
    let bad = ParsedMigrationSource::parse("create_users.sql", String::new());
    assert!(matches!(bad, Err(SourceError::Name(_))));
    let worse = ParsedMigrationSource::parse("V__x.sql", String::new());
    assert!(matches!(worse, Err(SourceError::Name(_))));
    let dotless = ParsedMigrationSource::parse("V1__x", String::new());
    assert!(matches!(dotless, Err(SourceError::Name(_))));
    let odd_ext = ParsedMigrationSource::parse("V1__x.txt", String::new());
    assert!(matches!(odd_ext, Err(SourceError::Name(_))));
}

#[test]
fn parse_rejects_an_oversized_version() {
    let big = ParsedMigrationSource::parse("V99999999999999999999__x.sql", String::new());
    assert!(matches!(big, Err(SourceError::Name(_))));
}

#[test]
fn from_migration_dir_orders_and_validates() {
    let files = vec![
        ("V2__b.sql".to_string(), "B;".to_string()),
        ("V1__a.sql".to_string(), "A;".to_string()),
        ("V3__c.rs".to_string(), "fn c() {}".to_string()),
    ];
    let sources = ParsedMigrationSource::from_migration_dir(files).unwrap();
    assert_eq!(sources.len(), 3);
    let versions: Vec<i64> = sources.iter().map(|s| s.migration_id().0).collect();
    assert_eq!(versions, vec![1, 2, 3]);
}

#[test]
fn from_migration_dir_rejects_duplicates_and_gaps() {
    let dup = vec![
        ("V1__a.sql".to_string(), "A;".to_string()),
        ("V1__b.sql".to_string(), "B;".to_string()),
    ];
    assert!(matches!(
        ParsedMigrationSource::from_migration_dir(dup),
        Err(SourceError::Version(_))
    ));
    let gap = vec![
        ("V1__a.sql".to_string(), "A;".to_string()),
        ("V3__c.sql".to_string(), "C;".to_string()),
    ];
    assert!(matches!(
        ParsedMigrationSource::from_migration_dir(gap),
        Err(SourceError::Version(_))
    ));
}

#[test]
fn from_ext_knows_both_languages() {
    assert!(matches!(SourceType::from_ext("sql"), Ok(SourceType::Sql)));
    assert!(matches!(SourceType::from_ext("rs"), Ok(SourceType::Rust)));
    assert!(matches!(SourceType::from_ext("txt"), Err(SourceError::Ext(_))));
}

#[test]
fn new_filename_slugs_the_description() {
    let name = new_filename("Add Users Table", 4, MigrationType::Sql);
    assert_eq!(name, "V5__add_users_table.sql".to_string());
    let rust = new_filename("x", 0, MigrationType::Rust);
    assert_eq!(rust, "V1__x.rs".to_string());
    // A created file parses back under the same convention.
    assert!(ParsedMigrationSource::parse(&name, String::new()).is_ok());
}

#[test]
fn migration_template_carries_the_annotation() {
    let sql = migration_template(true, MigrationType::Sql);
    assert!(sql.starts_with("-- tern:noTransaction"));
    let plain = migration_template(false, MigrationType::Sql);
    assert!(!plain.contains("tern:noTransaction"));
    let rust = migration_template(false, MigrationType::Rust);
    assert!(rust.contains("impl QueryBuilder for TernMigration"));
}

#[test]
fn latest_version_takes_the_last_positive() {
    let names = vec![
        "V1__a.sql".to_string(),
        "V2__b.sql".to_string(),
        "V3__c.sql".to_string(),
    ];
    assert_eq!(get_latest_version(&names).unwrap(), 3);
    let none: Vec<String> = Vec::new();
    assert_eq!(get_latest_version(&none).unwrap(), 0);
    let bad = vec!["notes.txt".to_string()];
    assert!(get_latest_version(&bad).is_err());
}

#[test]
fn required_db_url_reports_a_missing_string() {
    let opts = ConnectOpts { database_url: Some("postgres://localhost/db".to_string()) };
    assert_eq!(opts.required_db_url().unwrap(), "postgres://localhost/db");
    let empty = ConnectOpts { database_url: None };
    assert!(matches!(empty.required_db_url(), Err(Error::Init(_))));
}

#[test]
fn migration_query_splits_trimmed_lines() {
    let q = MigrationQuery::new("  SELECT 1;  \n-- note\nSELECT 2;".to_string(), true);
    assert!(q.no_tx());
    let stmts = q.statements().unwrap();
    assert_eq!(
        stmts,
        vec!["SELECT 1;\n".to_string(), "-- note\nSELECT 2;\n".to_string()]
    );
}

#[test]
fn run_validation_matches_sorted_pairs() {
    let source = vec![
        MigrationSource::new(2, "b".to_string(), "B;".to_string()),
        MigrationSource::new(1, "a".to_string(), "A;".to_string()),
    ];
    let applied = vec![AppliedMigration {
        version: 1,
        description: "a".to_string(),
        content: "A;".to_string(),
        duration_ms: 3,
    }];
    assert!(Validate::run_validation(source, applied).is_ok());

    let source = vec![MigrationSource::new(1, "a".to_string(), "A;".to_string())];
    let applied = vec![
        AppliedMigration {
            version: 1,
            description: "a".to_string(),
            content: "A;".to_string(),
            duration_ms: 3,
        },
        AppliedMigration {
            version: 2,
            description: "b".to_string(),
            content: "B;".to_string(),
            duration_ms: 4,
        },
    ];
    let err = Validate::run_validation(source, applied).unwrap_err();
    assert!(matches!(err, tern::migrate::Error::VersionMissing(2)));
    assert!(NoValidation::validate(Vec::new(), Vec::new()).is_ok());
}

#[test]
fn history_tables_render_their_names() {
    let opts = HistoryTableOptions::new();
    assert_eq!(opts.name(), "_derrick_migrations".to_string());
    let renamed = opts.set_name(Some("history".to_string()));
    assert_eq!(renamed.name(), "history".to_string());
    let kept = HistoryTableOptions::new().set_name(None);
    assert_eq!(kept.name(), "_derrick_migrations".to_string());

    let info = PgHistoryTableInfo::new("schema.table".to_string());
    assert_eq!(info.table(), "schema.table".to_string());
    assert!(info.create_if_not_exists_query().contains("CREATE TABLE IF NOT EXISTS schema.table"));
    assert!(info.select_star_from_query().contains("FROM\n  schema.table"));

    let pg = PgHistoryTableOptions::new("hist".to_string());
    assert_eq!(pg.name(), "hist".to_string());
    assert!(pg.create_if_not_exists_query().contains("duration_ms bigint NOT NULL"));
    assert!(pg.select_star_from_query().contains("ORDER BY"));

    let qualified = SqlxPgHistoryTable::new(Some("app".to_string()), "hist".to_string());
    assert_eq!(qualified.table(), "app.hist".to_string());
    assert_eq!(qualified.table_name(), "hist".to_string());
    assert_eq!(qualified.schema(), Some("app".to_string()));
    let bare = SqlxPgHistoryTable::new(None, "hist".to_string());
    assert_eq!(bare.table(), "hist".to_string());
}

#[test]
fn query_repositories_name_the_table() {
    let create = SqlxPgQueryRepo::create_history_if_not_exists_query("hist");
    assert!(create.sql().contains("CREATE TABLE IF NOT EXISTS hist"));
    let drop = SqlxPgQueryRepo::drop_history_query("hist");
    assert_eq!(drop.sql(), "DROP TABLE IF EXISTS hist;");
    let select = SqlxPgQueryRepo::select_star_from_history_query("hist");
    assert!(select.sql().contains("ORDER BY\n  version;"));
    let my = SqlxMySqlQueryRepo::upsert_history_query(
        "hist",
        &tern::source::AppliedMigration::new(
            tern::source::MigrationId::new(1, "a".to_string()),
            "A;",
            0,
            0,
        ),
    );
    assert!(my.sql().contains("REPLACE INTO hist"));
    let lite = SqlxSqliteQueryRepo::upsert_history_query(
        "hist",
        &tern::source::AppliedMigration::new(
            tern::source::MigrationId::new(1, "a".to_string()),
            "A;",
            0,
            0,
        ),
    );
    assert!(lite.sql().contains("INSERT OR REPLACE INTO hist"));
}

#[test]
fn resolve_query_error_keeps_the_message() {
    let err = Error::to_resolve_query_error("no runtime value".to_string());
    assert!(matches!(err, Error::ResolveQuery(m) if m == "no runtime value"));
}

#[test]
fn decimal_rendering_handles_signs() {
    assert_eq!(tern::text::u64_string(0), "0".to_string());
    assert_eq!(tern::text::u64_string(90210), "90210".to_string());
    assert_eq!(tern::text::i64_string(-42), "-42".to_string());
    assert_eq!(tern::text::i64_string(i64::MIN), "-9223372036854775808".to_string());
}

#[test]
fn parsed_source_splits_its_content() {
    let source = tern::migrate::ParsedSource {
        module: "V1__a".to_string(),
        source_type: tern::migrate::SourceType::Sql,
        version: 1,
        description: "a".to_string(),
        content: "SELECT 1;\nSELECT 2;".to_string(),
    };
    let stmts = source.statements().unwrap();
    assert_eq!(stmts, vec!["SELECT 1;\n".to_string(), "SELECT 2;\n".to_string()]);
    assert!(matches!(
        tern::migrate::SourceType::from_ext("sql"),
        Ok(tern::migrate::SourceType::Sql)
    ));
}

#[test]
fn compat_splitters_reject_unterminated_sql() {
    let open = MigrationQuery::new("SELECT 1".to_string(), true);
    assert!(matches!(open.statements(), Err(tern::migrate::Error::Sql(_))));

    // A trailing comment after the last closed statement is not a statement.
    let commented = MigrationQuery::new("SELECT 1;\n-- done".to_string(), true);
    assert_eq!(commented.statements().unwrap(), vec!["SELECT 1;\n".to_string()]);

    let source = tern::migrate::ParsedSource {
        module: "V1__a".to_string(),
        source_type: tern::migrate::SourceType::Sql,
        version: 1,
        description: "a".to_string(),
        content: "SELECT 1".to_string(),
    };
    assert!(matches!(
        source.statements(),
        Err(tern::migrate::ParseError::Sql(1, _))
    ));
}

#[test]
fn from_ext_errors_name_the_extension() {
    match SourceType::from_ext("txt") {
        Err(SourceError::Ext(m)) => assert_eq!(m, "got file extension txt, expected sql or rs"),
        other => panic!("expected an extension error, got {:?}", other),
    }
    match tern::migrate::SourceType::from_ext("py") {
        Err(tern::migrate::ParseError::Ext(m)) => {
            assert_eq!(m, "got file extension py, expected sql or rs")
        },
        other => panic!("expected an extension error, got {:?}", other),
    }
}

#[test]
fn from_migration_dir_reports_bad_names_before_versions() {
    let files = vec![
        ("V1__a.sql".to_string(), "A;".to_string()),
        ("notes.txt".to_string(), "hello".to_string()),
    ];
    assert!(matches!(
        ParsedMigrationSource::from_migration_dir(files),
        Err(SourceError::Name(_))
    ));
}
