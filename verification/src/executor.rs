//! The [`Executor`] contract: the minimal query-execution surface a database
//! backend must provide, stated over a ghost model of the history table and
//! of the migration statements executed so far.
use crate::query::{statements_of, Query};
use crate::source::{rows_view, AppliedMigration, RowView};
use vstd::prelude::*;
use vstd::string::StringExecFns;

verus! {

/// The history rows keyed by version, later rows overriding earlier ones.
pub open spec fn rows_as_map(s: Seq<RowView>) -> Map<int, RowView>
    decreases s.len(),
{
    if s.len() == 0 {
        Map::empty()
    } else {
        rows_as_map(s.drop_last()).insert(s.last().version, s.last())
    }
}

/// The rows are ordered by strictly ascending version.
pub open spec fn rows_sorted(s: Seq<RowView>) -> bool {
    forall|i: int, j: int| 0 <= i < j < s.len() ==> s[i].version < s[j].version
}

/// No two rows share a version.
pub open spec fn rows_distinct(s: Seq<RowView>) -> bool {
    forall|i: int, j: int| 0 <= i < j < s.len() ==> s[i].version != s[j].version
}

/// A version is in the history map exactly when some row carries it.
pub proof fn lemma_rows_as_map_contains(s: Seq<RowView>, v: int)
    ensures
        rows_as_map(s).contains_key(v) <==> exists|i: int| 0 <= i < s.len() && s[i].version == v,
    decreases s.len(),
{
    if s.len() > 0 {
        lemma_rows_as_map_contains(s.drop_last(), v);
        if s.last().version == v {
            assert(s[s.len() - 1].version == v);
        } else if rows_as_map(s).contains_key(v) {
            let i = choose|i: int| 0 <= i < s.drop_last().len() && s.drop_last()[i].version == v;
            assert(s[i].version == v);
        } else if exists|i: int| 0 <= i < s.len() && s[i].version == v {
            let i = choose|i: int| 0 <= i < s.len() && s[i].version == v;
            assert(s.drop_last()[i].version == v);
        }
    }
}

/// Each row of a duplicate-free sequence is the map's entry at its version.
pub proof fn lemma_rows_as_map_index(s: Seq<RowView>, i: int)
    requires
        rows_distinct(s),
        0 <= i < s.len(),
    ensures
        rows_as_map(s).contains_key(s[i].version),
        rows_as_map(s)[s[i].version] == s[i],
    decreases s.len(),
{
    if i == s.len() - 1 {
    } else {
        assert(rows_distinct(s.drop_last()));
        assert(s.drop_last()[i] == s[i]);
        lemma_rows_as_map_index(s.drop_last(), i);
        assert(s[i].version != s.last().version);
    }
}

/// Inserting a row with a fresh version anywhere in the sequence inserts it
/// in the history map.
pub proof fn lemma_rows_as_map_insert(s: Seq<RowView>, i: int, row: RowView)
    requires
        0 <= i <= s.len(),
        forall|j: int| 0 <= j < s.len() ==> s[j].version != row.version,
    ensures
        rows_as_map(s.insert(i, row)) =~= rows_as_map(s).insert(row.version, row),
    decreases s.len(),
{
    let t = s.insert(i, row);
    if i == s.len() {
        assert(t.drop_last() =~= s);
        assert(t.last() == row);
    } else {
        assert(t.last() == s.last());
        assert(t.drop_last() =~= s.drop_last().insert(i, row));
        lemma_rows_as_map_insert(s.drop_last(), i, row);
        assert(rows_as_map(t) =~= rows_as_map(s.drop_last()).insert(row.version, row).insert(
            s.last().version,
            s.last(),
        ));
        assert(s.last().version != row.version);
        assert(rows_as_map(s.drop_last()).insert(row.version, row).insert(
            s.last().version,
            s.last(),
        ) =~= rows_as_map(s).insert(row.version, row));
    }
}

/// Removing a row of a duplicate-free sequence removes its version from the
/// history map.
pub proof fn lemma_rows_as_map_remove(s: Seq<RowView>, i: int)
    requires
        rows_distinct(s),
        0 <= i < s.len(),
    ensures
        rows_as_map(s.remove(i)) =~= rows_as_map(s).remove(s[i].version),
    decreases s.len(),
{
    let t = s.remove(i);
    if i == s.len() - 1 {
        assert(t =~= s.drop_last());
        lemma_rows_as_map_contains(s.drop_last(), s[i].version);
        assert(forall|j: int|
            0 <= j < s.drop_last().len() ==> s.drop_last()[j].version != s[i].version);
        assert(!rows_as_map(s.drop_last()).contains_key(s[i].version));
        assert(rows_as_map(s.drop_last()) =~= rows_as_map(s).remove(s[i].version));
    } else {
        assert(rows_distinct(s.drop_last()));
        lemma_rows_as_map_remove(s.drop_last(), i);
        assert(t.drop_last() =~= s.drop_last().remove(i));
        assert(t.last() == s.last());
        assert(s[i].version != s.last().version);
        assert(rows_as_map(t) =~= rows_as_map(s).remove(s[i].version));
    }
}

/// The latest applied version: `None` exactly when the history is empty, and
/// otherwise the largest version in it.
pub open spec fn latest_of(h: Map<int, RowView>, l: Option<int>) -> bool {
    match l {
        Option::None => forall|v: int| !h.contains_key(v),
        Option::Some(v) => h.contains_key(v) && forall|w: int| h.contains_key(w) ==> w <= v,
    }
}

/// `Executor` is the query interface that a database backend provides for
/// migration operations.
///
/// Its behaviour is stated over two ghost quantities: [`Executor::history`],
/// the rows of the schema history table keyed by version, and
/// [`Executor::executed`], the migration statements executed against the
/// target schema so far, in order. A backend may always fail — nothing here
/// promises success — but whatever it returns must relate the new model to
/// the old one as the contracts say. Backend failures are reported as the
/// backend's error text.
pub trait Executor: Sized {
    /// The rows of the schema history table, keyed by version. A backend
    /// outside the verified world may leave the default model in place;
    /// every verified backend gives its own.
    open spec fn history(&self) -> Map<int, RowView> {
        Map::empty()
    }

    /// The migration statements executed against the target schema, oldest
    /// first.
    open spec fn executed(&self) -> Seq<Seq<char>> {
        Seq::empty()
    }

    /// Apply the query for a migration inside one transaction: it succeeds or
    /// leaves the schema unchanged, and never touches the history.
    fn apply_tx(&mut self, query: &Query) -> (r: Result<(), String>)
        ensures
            final(self).history() == old(self).history(),
            r is Ok ==> final(self).executed() == old(self).executed().push(query@),
            r is Err ==> final(self).executed() == old(self).executed(),
    ;

    /// Apply the query for a migration outside a transaction: its statements
    /// run one by one, and a failure leaves the statements already run
    /// committed.
    fn apply_no_tx(&mut self, query: &Query) -> (r: Result<(), String>)
        ensures
            final(self).history() == old(self).history(),
            r is Ok ==> final(self).executed() == old(self).executed() + statements_of(query@),
            r is Err ==> exists|k: int|
                0 <= k <= statements_of(query@).len() && final(self).executed() == old(
                    self,
                ).executed() + #[trigger] statements_of(query@).take(k),
    ;

    /// Create the history table if it does not exist; the rows and the schema
    /// are untouched either way.
    fn create_history_if_not_exists(&mut self, history_table: &str) -> (r: Result<(), String>)
        ensures
            final(self).history() == old(self).history(),
            final(self).executed() == old(self).executed(),
    ;

    /// Drop the history table: on success the history is empty.
    fn drop_history(&mut self, history_table: &str) -> (r: Result<(), String>)
        ensures
            final(self).executed() == old(self).executed(),
            r is Ok ==> final(self).history() == Map::<int, RowView>::empty(),
            r is Err ==> final(self).history() == old(self).history(),
    ;

    /// The complete history of applied migrations, ordered by ascending
    /// version.
    fn get_all_applied(&mut self, history_table: &str) -> (r: Result<
        Vec<AppliedMigration>,
        String,
    >)
        ensures
            final(self).history() == old(self).history(),
            final(self).executed() == old(self).executed(),
            r matches Ok(v) ==> {
                &&& rows_sorted(rows_view(v@))
                &&& rows_as_map(rows_view(v@)) == old(self).history()
            },
    ;

    /// Insert an applied migration into the history table; it fails on a
    /// version conflict.
    fn insert_applied_migration(&mut self, history_table: &str, applied: &AppliedMigration) -> (r:
        Result<(), String>)
        ensures
            final(self).executed() == old(self).executed(),
            r is Ok ==> {
                &&& !old(self).history().contains_key(applied@.version)
                &&& final(self).history() == old(self).history().insert(
                    applied@.version,
                    applied@,
                )
            },
            r is Err ==> final(self).history() == old(self).history(),
    ;

    /// Insert or replace an applied migration by version.
    fn upsert_applied_migration(&mut self, history_table: &str, applied: &AppliedMigration) -> (r:
        Result<(), String>)
        ensures
            final(self).executed() == old(self).executed(),
            r is Ok ==> final(self).history() == old(self).history().insert(
                applied@.version,
                applied@,
            ),
            r is Err ==> final(self).history() == old(self).history(),
    ;
}

/// A library of administrative queries needed during a migration run, in a
/// backend's own SQL dialect.
pub trait QueryRepository {
    /// The query that creates the schema history table or does nothing if it
    /// already exists.
    fn create_history_if_not_exists_query(history_table: &str) -> Query;

    /// The query that drops the history table if requested.
    fn drop_history_query(history_table: &str) -> Query;

    /// The query to update the schema history table with an applied
    /// migration; the values are bound as placeholders.
    fn insert_into_history_query(history_table: &str, applied: &AppliedMigration) -> Query;

    /// The query to return all rows from the schema history table.
    fn select_star_from_history_query(history_table: &str) -> Query;

    /// The query to insert or update a record in the history table.
    fn upsert_history_query(history_table: &str, applied: &AppliedMigration) -> Query;
}

/// The schema history table queries for postgres.
#[derive(Debug, Clone)]
pub struct SqlxPgQueryRepo;

impl QueryRepository for SqlxPgQueryRepo {
    fn create_history_if_not_exists_query(history_table: &str) -> (r: Query)
        ensures
            r@ == "\nCREATE TABLE IF NOT EXISTS "@ + history_table@
                + "(\n  version bigint PRIMARY KEY,\n  description text NOT NULL,\n  content text NOT NULL,\n  duration_ms bigint NOT NULL,\n  applied_at timestamptz NOT NULL DEFAULT now()\n);\n"@,
    {
        let mut sql = "\nCREATE TABLE IF NOT EXISTS ".to_owned();
        sql.append(history_table);
        sql.append(
            "(\n  version bigint PRIMARY KEY,\n  description text NOT NULL,\n  content text NOT NULL,\n  duration_ms bigint NOT NULL,\n  applied_at timestamptz NOT NULL DEFAULT now()\n);\n",
        );
        Query::new(sql)
    }

    fn drop_history_query(history_table: &str) -> (r: Query)
        ensures
            r@ == "DROP TABLE IF EXISTS "@ + history_table@ + ";"@,
    {
        let mut sql = "DROP TABLE IF EXISTS ".to_owned();
        sql.append(history_table);
        sql.append(";");
        Query::new(sql)
    }

    fn insert_into_history_query(history_table: &str, applied: &AppliedMigration) -> (r: Query)
        ensures
            r@ == "\nINSERT INTO "@ + history_table@
                + "(version, description, content, duration_ms, applied_at)\n  VALUES ($1, $2, $3, $4, $5);\n"@,
    {
        let mut sql = "\nINSERT INTO ".to_owned();
        sql.append(history_table);
        sql.append(
            "(version, description, content, duration_ms, applied_at)\n  VALUES ($1, $2, $3, $4, $5);\n",
        );
        Query::new(sql)
    }

    fn select_star_from_history_query(history_table: &str) -> (r: Query)
        ensures
            r@ == "\nSELECT\n  version,\n  description,\n  content,\n  duration_ms,\n  applied_at\nFROM\n  "@
                + history_table@ + "\nORDER BY\n  version;\n"@,
    {
        let mut sql =
            "\nSELECT\n  version,\n  description,\n  content,\n  duration_ms,\n  applied_at\nFROM\n  ".to_owned();
        sql.append(history_table);
        sql.append("\nORDER BY\n  version;\n");
        Query::new(sql)
    }

    fn upsert_history_query(history_table: &str, applied: &AppliedMigration) -> (r: Query)
        ensures
            r@ == "\nINSERT INTO "@ + history_table@
                + "(version, description, content, duration_ms, applied_at)\n  VALUES ($1, $2, $3, $4, $5)\n  ON CONFLICT (version) DO UPDATE\n  SET\n    description = excluded.description,\n    content = excluded.content,\n    duration_ms = excluded.duration_ms,\n    applied_at = excluded.applied_at;\n"@,
    {
        let mut sql = "\nINSERT INTO ".to_owned();
        sql.append(history_table);
        sql.append(
            "(version, description, content, duration_ms, applied_at)\n  VALUES ($1, $2, $3, $4, $5)\n  ON CONFLICT (version) DO UPDATE\n  SET\n    description = excluded.description,\n    content = excluded.content,\n    duration_ms = excluded.duration_ms,\n    applied_at = excluded.applied_at;\n",
        );
        Query::new(sql)
    }
}

/// The schema history table queries for MySQL.
#[derive(Debug, Clone)]
pub struct SqlxMySqlQueryRepo;

impl QueryRepository for SqlxMySqlQueryRepo {
    fn create_history_if_not_exists_query(history_table: &str) -> (r: Query)
        ensures
            r@ == "\nCREATE TABLE IF NOT EXISTS "@ + history_table@
                + "(\n  version bigint PRIMARY KEY,\n  description text NOT NULL,\n  content text NOT NULL,\n  duration_ms bigint NOT NULL,\n  applied_at timestamp NOT NULL DEFAULT now()\n);\n"@,
    {
        let mut sql = "\nCREATE TABLE IF NOT EXISTS ".to_owned();
        sql.append(history_table);
        sql.append(
            "(\n  version bigint PRIMARY KEY,\n  description text NOT NULL,\n  content text NOT NULL,\n  duration_ms bigint NOT NULL,\n  applied_at timestamp NOT NULL DEFAULT now()\n);\n",
        );
        Query::new(sql)
    }

    fn drop_history_query(history_table: &str) -> (r: Query)
        ensures
            r@ == "DROP TABLE IF EXISTS "@ + history_table@ + ";"@,
    {
        let mut sql = "DROP TABLE IF EXISTS ".to_owned();
        sql.append(history_table);
        sql.append(";");
        Query::new(sql)
    }

    fn insert_into_history_query(history_table: &str, applied: &AppliedMigration) -> (r: Query)
        ensures
            r@ == "\nINSERT INTO "@ + history_table@
                + "(version, description, content, duration_ms, applied_at)\n  VALUES (?, ?, ?, ?, ?);\n"@,
    {
        let mut sql = "\nINSERT INTO ".to_owned();
        sql.append(history_table);
        sql.append(
            "(version, description, content, duration_ms, applied_at)\n  VALUES (?, ?, ?, ?, ?);\n",
        );
        Query::new(sql)
    }

    fn select_star_from_history_query(history_table: &str) -> (r: Query)
        ensures
            r@ == "\nSELECT\n  version,\n  description,\n  content,\n  duration_ms,\n  applied_at\nFROM\n  "@
                + history_table@ + "\nORDER BY\n  version;\n"@,
    {
        let mut sql =
            "\nSELECT\n  version,\n  description,\n  content,\n  duration_ms,\n  applied_at\nFROM\n  ".to_owned();
        sql.append(history_table);
        sql.append("\nORDER BY\n  version;\n");
        Query::new(sql)
    }

    fn upsert_history_query(history_table: &str, applied: &AppliedMigration) -> (r: Query)
        ensures
            r@ == "\nREPLACE INTO "@ + history_table@
                + "(version, description, content, duration_ms, applied_at)\n  VALUES (?, ?, ?, ?, ?);\n"@,
    {
        let mut sql = "\nREPLACE INTO ".to_owned();
        sql.append(history_table);
        sql.append(
            "(version, description, content, duration_ms, applied_at)\n  VALUES (?, ?, ?, ?, ?);\n",
        );
        Query::new(sql)
    }
}

/// The schema history table queries for SQLite.
#[derive(Debug, Clone)]
pub struct SqlxSqliteQueryRepo;

impl QueryRepository for SqlxSqliteQueryRepo {
    fn create_history_if_not_exists_query(history_table: &str) -> (r: Query)
        ensures
            r@ == "\nCREATE TABLE IF NOT EXISTS "@ + history_table@
                + "(\n  version integer PRIMARY KEY,\n  description text NOT NULL,\n  content text NOT NULL,\n  duration_ms integer NOT NULL,\n  applied_at text NOT NULL\n);\n"@,
    {
        let mut sql = "\nCREATE TABLE IF NOT EXISTS ".to_owned();
        sql.append(history_table);
        sql.append(
            "(\n  version integer PRIMARY KEY,\n  description text NOT NULL,\n  content text NOT NULL,\n  duration_ms integer NOT NULL,\n  applied_at text NOT NULL\n);\n",
        );
        Query::new(sql)
    }

    fn drop_history_query(history_table: &str) -> (r: Query)
        ensures
            r@ == "DROP TABLE IF EXISTS "@ + history_table@ + ";"@,
    {
        let mut sql = "DROP TABLE IF EXISTS ".to_owned();
        sql.append(history_table);
        sql.append(";");
        Query::new(sql)
    }

    fn insert_into_history_query(history_table: &str, applied: &AppliedMigration) -> (r: Query)
        ensures
            r@ == "\nINSERT INTO "@ + history_table@
                + "(version, description, content, duration_ms, applied_at)\n  VALUES (?, ?, ?, ?, ?);\n"@,
    {
        let mut sql = "\nINSERT INTO ".to_owned();
        sql.append(history_table);
        sql.append(
            "(version, description, content, duration_ms, applied_at)\n  VALUES (?, ?, ?, ?, ?);\n",
        );
        Query::new(sql)
    }

    fn select_star_from_history_query(history_table: &str) -> (r: Query)
        ensures
            r@ == "\nSELECT\n  version,\n  description,\n  content,\n  duration_ms,\n  applied_at\nFROM\n  "@
                + history_table@ + "\nORDER BY\n  version;\n"@,
    {
        let mut sql =
            "\nSELECT\n  version,\n  description,\n  content,\n  duration_ms,\n  applied_at\nFROM\n  ".to_owned();
        sql.append(history_table);
        sql.append("\nORDER BY\n  version;\n");
        Query::new(sql)
    }

    fn upsert_history_query(history_table: &str, applied: &AppliedMigration) -> (r: Query)
        ensures
            r@ == "\nINSERT OR REPLACE INTO "@ + history_table@
                + "(version, description, content, duration_ms, applied_at)\n  VALUES (?, ?, ?, ?, ?);\n"@,
    {
        let mut sql = "\nINSERT OR REPLACE INTO ".to_owned();
        sql.append(history_table);
        sql.append(
            "(version, description, content, duration_ms, applied_at)\n  VALUES (?, ?, ?, ?, ?);\n",
        );
        Query::new(sql)
    }
}

} // verus!
