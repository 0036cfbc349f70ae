//! History-table naming and DDL helpers: table options, and the postgres
//! renderings of the table's queries, in both supported row layouts.
use vstd::prelude::*;
use vstd::string::StringExecFns;

verus! {

/// Configuration for a history table: its name, which defaults to
/// `_derrick_migrations`.
#[derive(Debug)]
pub struct HistoryTableOptions {
    name: String,
}

impl Clone for HistoryTableOptions {
    fn clone(&self) -> (r: Self)
        ensures
            r.name_view() == self.name_view(),
    {
        HistoryTableOptions { name: self.name.clone() }
    }
}

impl Default for HistoryTableOptions {
    fn default() -> (r: Self)
        ensures
            r.name_view() == "_derrick_migrations"@,
    {
        HistoryTableOptions { name: "_derrick_migrations".to_owned() }
    }
}

impl HistoryTableOptions {
    /// The configured table name.
    pub closed spec fn name_view(&self) -> Seq<char> {
        self.name@
    }

    /// Options naming the default table.
    pub fn new() -> (r: Self)
        ensures
            r.name_view() == "_derrick_migrations"@,
    {
        Self::default()
    }

    /// Replace the table name where one is given; keep the default where not.
    pub fn set_name(self, name: Option<String>) -> (r: Self)
        ensures
            match name {
                Option::None => r.name_view() == self.name_view(),
                Option::Some(n) => r.name_view() == n@,
            },
    {
        let Some(n) = name else {
            return self;
        };
        let mut this = self;
        this.name = n;
        this
    }

    /// The table name.
    pub fn name(&self) -> (r: String)
        ensures
            r@ == self.name_view(),
    {
        self.name.clone()
    }
}

/// History table syntax for postgres, keyed by the full table name.
#[derive(Debug)]
pub struct PgHistoryTableInfo {
    table: String,
}

impl Clone for PgHistoryTableInfo {
    fn clone(&self) -> (r: Self)
        ensures
            r.table_view() == self.table_view(),
    {
        PgHistoryTableInfo { table: self.table.clone() }
    }
}

impl PgHistoryTableInfo {
    /// The table this instance renders queries for.
    pub closed spec fn table_view(&self) -> Seq<char> {
        self.table@
    }

    pub fn new(table: String) -> (r: Self)
        ensures
            r.table_view() == table@,
    {
        PgHistoryTableInfo { table }
    }

    /// The table name.
    pub fn table(&self) -> (r: String)
        ensures
            r@ == self.table_view(),
    {
        self.table.clone()
    }

    /// The DDL that creates this history table if it does not exist.
    pub fn create_if_not_exists_query(&self) -> (r: String)
        ensures
            r@ == "\nCREATE TABLE IF NOT EXISTS "@ + self.table_view()
                + "(\n  version bigint PRIMARY KEY,\n  description text NOT NULL,\n  applied_at timestamptz NOT NULL DEFAULT now(),\n  content text NOT NULL,\n  checksum text NOT NULL,\n  duration_sec bigint NOT NULL\n);\n"@,
    {
        let mut sql = "\nCREATE TABLE IF NOT EXISTS ".to_owned();
        sql.append(self.table.as_str());
        sql.append(
            "(\n  version bigint PRIMARY KEY,\n  description text NOT NULL,\n  applied_at timestamptz NOT NULL DEFAULT now(),\n  content text NOT NULL,\n  checksum text NOT NULL,\n  duration_sec bigint NOT NULL\n);\n",
        );
        sql
    }

    /// The query that reads every row of this history table in version order.
    pub fn select_star_from_query(&self) -> (r: String)
        ensures
            r@ == "\nSELECT\n  version,\n  description,\n  applied_at,\n  content,\n  checksum,\n  duration_sec\nFROM\n  "@
                + self.table_view() + "\nORDER BY\n  version;\n"@,
    {
        let mut sql =
            "\nSELECT\n  version,\n  description,\n  applied_at,\n  content,\n  checksum,\n  duration_sec\nFROM\n  ".to_owned();
        sql.append(self.table.as_str());
        sql.append("\nORDER BY\n  version;\n");
        sql
    }
}

/// History table syntax for postgres in the current row layout.
#[derive(Debug)]
pub struct PgHistoryTableOptions {
    name: String,
}

impl Clone for PgHistoryTableOptions {
    fn clone(&self) -> (r: Self)
        ensures
            r.name_view() == self.name_view(),
    {
        PgHistoryTableOptions { name: self.name.clone() }
    }
}

impl PgHistoryTableOptions {
    /// The table this instance renders queries for.
    pub closed spec fn name_view(&self) -> Seq<char> {
        self.name@
    }

    pub fn new(name: String) -> (r: Self)
        ensures
            r.name_view() == name@,
    {
        PgHistoryTableOptions { name }
    }

    /// The table name.
    pub fn name(&self) -> (r: String)
        ensures
            r@ == self.name_view(),
    {
        self.name.clone()
    }

    /// The DDL that creates this history table if it does not exist.
    pub fn create_if_not_exists_query(&self) -> (r: String)
        ensures
            r@ == "\nCREATE TABLE IF NOT EXISTS "@ + self.name_view()
                + "(\n  version bigint PRIMARY KEY,\n  description text NOT NULL,\n  content text NOT NULL,\n  duration_ms bigint NOT NULL,\n  applied_at timestamptz NOT NULL DEFAULT now()\n);\n"@,
    {
        let mut sql = "\nCREATE TABLE IF NOT EXISTS ".to_owned();
        sql.append(self.name.as_str());
        sql.append(
            "(\n  version bigint PRIMARY KEY,\n  description text NOT NULL,\n  content text NOT NULL,\n  duration_ms bigint NOT NULL,\n  applied_at timestamptz NOT NULL DEFAULT now()\n);\n",
        );
        sql
    }

    /// The query that reads every row of this history table in version order.
    pub fn select_star_from_query(&self) -> (r: String)
        ensures
            r@ == "\nSELECT\n  version,\n  description,\n  content,\n  duration_ms,\n  applied_at\nFROM\n  "@
                + self.name_view() + "\nORDER BY\n  version;\n"@,
    {
        let mut sql =
            "\nSELECT\n  version,\n  description,\n  content,\n  duration_ms,\n  applied_at\nFROM\n  ".to_owned();
        sql.append(self.name.as_str());
        sql.append("\nORDER BY\n  version;\n");
        sql
    }
}

/// The history-table location for a postgres backend: an optional schema and
/// a table name.
#[derive(Debug)]
pub struct SqlxPgHistoryTable {
    schema: Option<String>,
    table_name: String,
}

impl Clone for SqlxPgHistoryTable {
    fn clone(&self) -> (r: Self)
        ensures
            r.schema_view() == self.schema_view(),
            r.table_name_view() == self.table_name_view(),
    {
        SqlxPgHistoryTable {
            schema: match &self.schema {
                Option::None => None,
                Option::Some(s) => Some(s.clone()),
            },
            table_name: self.table_name.clone(),
        }
    }
}

impl SqlxPgHistoryTable {
    /// The schema, where one was configured.
    pub closed spec fn schema_view(&self) -> Option<Seq<char>> {
        match self.schema {
            Option::None => Option::None,
            Option::Some(ref s) => Option::Some(s@),
        }
    }

    /// The bare table name.
    pub closed spec fn table_name_view(&self) -> Seq<char> {
        self.table_name@
    }

    pub fn new(schema: Option<String>, table_name: String) -> (r: Self)
        ensures
            r.table_name_view() == table_name@,
            match schema {
                Option::None => r.schema_view() is None,
                Option::Some(s) => r.schema_view() matches Some(v) && v == s@,
            },
    {
        SqlxPgHistoryTable { schema, table_name }
    }

    /// The configured schema, if any.
    pub fn schema(&self) -> (r: Option<String>)
        ensures
            match r {
                Option::None => self.schema_view() is None,
                Option::Some(s) => self.schema_view() matches Some(v) && v == s@,
            },
    {
        match &self.schema {
            Option::None => None,
            Option::Some(s) => Some(s.clone()),
        }
    }

    /// The bare table name.
    pub fn table_name(&self) -> (r: String)
        ensures
            r@ == self.table_name_view(),
    {
        self.table_name.clone()
    }

    /// The schema-qualified table name; unqualified where no schema was
    /// given, which goes to the backend's default location.
    pub fn table(&self) -> (r: String)
        ensures
            match self.schema_view() {
                Option::None => r@ == self.table_name_view(),
                Option::Some(s) => r@ == s + "."@ + self.table_name_view(),
            },
    {
        match &self.schema {
            Option::None => self.table_name.clone(),
            Option::Some(s) => {
                let mut q = s.clone();
                q.append(".");
                q.append(self.table_name.as_str());
                q
            },
        }
    }
}

} // verus!
