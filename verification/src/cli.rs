//! The bare command-line data types — the clap-decorated copies live in the
//! application crate — together with the helpers that name and seed a new
//! migration file.
use crate::error::Error;
use crate::parse::{digits_val, parses_as, well_named, MigrationSource};
use crate::source::Versioned;
use crate::text::{chars_of, push_char, string_of, u64_string};
use vstd::prelude::*;
use vstd::string::StringExecFns;

verus! {

/// Whether to create a SQL or a Rust migration.
#[derive(Debug, Clone, Copy, PartialEq, Eq, Structural)]
pub enum MigrationType {
    /// A static SQL migration file.
    Sql,
    /// A migration written in Rust.
    Rust,
}

/// Where the migration source files live.
#[derive(Debug)]
pub struct Source {
    /// Path to the folder containing migrations.
    pub path: String,
}

/// How to reach the database: a connection string, typically from the
/// command line or the environment.
#[derive(Debug)]
pub struct ConnectOpts {
    /// Connection string for the database.
    pub database_url: Option<String>,
}

impl ConnectOpts {
    /// The connection string, or an initialization error where none was
    /// provided.
    pub fn required_db_url(&self) -> (r: Result<&str, Error>)
        ensures
            match &self.database_url {
                Option::Some(u) => r matches Ok(s) && s@ == u@,
                Option::None => r matches Err(e) && e is Init,
            },
    {
        match &self.database_url {
            Option::Some(u) => Ok(u.as_str()),
            Option::None => Err(
                Error::Init(
                    "the database connection string option or environment variable must be provided".to_owned(),
                ),
            ),
        }
    }
}

/// Operations on the set of migration files.
#[derive(Debug)]
pub enum MigrateCommands {
    /// Run the apply operation for a specific range of unapplied migrations.
    Apply { dryrun: bool, target_version: Option<i64>, connect_opts: ConnectOpts },
    /// Run any available unapplied migrations.
    ApplyAll { dryrun: bool, connect_opts: ConnectOpts },
    /// Insert migrations into the history table without applying them.
    SoftApply { dryrun: bool, target_version: Option<i64>, connect_opts: ConnectOpts },
    /// List previously applied migrations.
    ListApplied { connect_opts: ConnectOpts },
    /// Create a migration with the description and an auto-selected version.
    New { description: String, no_tx: bool, migration_type: MigrationType, source: Source },
}

/// Operations on the table storing the history of these migrations.
#[derive(Debug)]
pub enum HistoryCommands {
    /// Create the schema history table.
    Init { connect_opts: ConnectOpts },
    /// Drop the schema history table.
    Drop { connect_opts: ConnectOpts },
    /// Record migrations as applied without running them.
    SoftApply { from_version: Option<i64>, to_version: Option<i64>, connect_opts: ConnectOpts },
}

/// The subcommands of the application, in builder terms: which operation a
/// run performs, with its flags.
#[derive(Debug, Clone, Copy, PartialEq, Eq, Structural)]
pub enum MigrateOpts {
    /// Run the apply operation for all unapplied versions or a range.
    Apply { dry_run: bool, skip_validate: bool, target_version: Option<i64> },
    /// Insert migrations into the history table without applying them.
    SoftApply { dry_run: bool, skip_validate: bool, target_version: Option<i64> },
    /// List previously applied migrations.
    ListApplied,
}

/// The history-table subcommands of the application.
#[derive(Debug, Clone, Copy, PartialEq, Eq, Structural)]
pub enum HistoryOpts {
    /// Create the schema history table.
    Init,
    /// Drop the schema history table.
    Drop,
}

/// Operations on the set of migration files.
#[derive(Debug)]
pub struct Migrate {
    /// The chosen subcommand.
    pub commands: MigrateCommands,
}

/// Operations on the table storing the history of these migrations.
#[derive(Debug)]
pub struct History {
    /// The chosen subcommand.
    pub commands: HistoryCommands,
}

/// The lower-case form of an ASCII capital; everything else is unchanged.
pub open spec fn lower_char(c: char) -> char {
    if c == 'A' {
        'a'
    } else if c == 'B' {
        'b'
    } else if c == 'C' {
        'c'
    } else if c == 'D' {
        'd'
    } else if c == 'E' {
        'e'
    } else if c == 'F' {
        'f'
    } else if c == 'G' {
        'g'
    } else if c == 'H' {
        'h'
    } else if c == 'I' {
        'i'
    } else if c == 'J' {
        'j'
    } else if c == 'K' {
        'k'
    } else if c == 'L' {
        'l'
    } else if c == 'M' {
        'm'
    } else if c == 'N' {
        'n'
    } else if c == 'O' {
        'o'
    } else if c == 'P' {
        'p'
    } else if c == 'Q' {
        'q'
    } else if c == 'R' {
        'r'
    } else if c == 'S' {
        's'
    } else if c == 'T' {
        't'
    } else if c == 'U' {
        'u'
    } else if c == 'V' {
        'v'
    } else if c == 'W' {
        'w'
    } else if c == 'X' {
        'x'
    } else if c == 'Y' {
        'y'
    } else if c == 'Z' {
        'z'
    } else {
        c
    }
}

/// A description character as the filename carries it: lower-cased, with
/// spaces turned into underscores.
pub open spec fn slug_char(c: char) -> char {
    if c == ' ' {
        '_'
    } else {
        lower_char(c)
    }
}

/// Whether `c` maps to `r` under [`slug_char`].
fn slug_char_exec(c: char) -> (r: char)
    ensures
        r == slug_char(c),
{
    match c {
        ' ' => '_',
        'A' => 'a',
        'B' => 'b',
        'C' => 'c',
        'D' => 'd',
        'E' => 'e',
        'F' => 'f',
        'G' => 'g',
        'H' => 'h',
        'I' => 'i',
        'J' => 'j',
        'K' => 'k',
        'L' => 'l',
        'M' => 'm',
        'N' => 'n',
        'O' => 'o',
        'P' => 'p',
        'Q' => 'q',
        'R' => 'r',
        'S' => 's',
        'T' => 't',
        'U' => 'u',
        'V' => 'v',
        'W' => 'w',
        'X' => 'x',
        'Y' => 'y',
        'Z' => 'z',
        _ => c,
    }
}

/// The filename for a new migration: the next version, the slugged
/// description, and the extension for its type, following the
/// `V<version>__<description>.<ext>` convention that the parser reads back.
#[verifier::loop_isolation(false)]
pub fn new_filename(descr: &str, version: u16, ty: MigrationType) -> (r: String)
    requires
        version < u16::MAX,
    ensures
        r@ == seq!['V'] + crate::text::dec_rep((version + 1) as nat) + seq!['_', '_']
            + descr@.map_values(|c: char| slug_char(c)) + (if ty == MigrationType::Rust {
            ".rs"@
        } else {
            ".sql"@
        }),
{
    let mut out = "V".to_owned();
    let ver = u64_string((version as u64) + 1);
    out.append(ver.as_str());
    out.append("__");
    let cs = chars_of(descr);
    let mut slug: Vec<char> = Vec::new();
    for i in 0..cs.len()
        invariant
            i <= cs@.len(),
            slug@ =~= cs@.subrange(0, i as int).map_values(|c: char| slug_char(c)),
    {
        slug.push(slug_char_exec(cs[i]));
        proof {
            let prefix = cs@.subrange(0, i as int);
            assert(cs@.subrange(0, i + 1) =~= prefix.push(cs@[i as int]));
            assert(cs@.subrange(0, i + 1).map_values(|c: char| slug_char(c)) =~= prefix.map_values(
                |c: char| slug_char(c),
            ).push(slug_char(cs@[i as int])));
        }
    }
    proof {
        assert(cs@.subrange(0, cs@.len() as int) =~= cs@);
    }
    out.append(string_of(&slug).as_str());
    match ty {
        MigrationType::Rust => {
            out.append(".rs");
        },
        MigrationType::Sql => {
            out.append(".sql");
        },
    }
    proof {
        reveal_strlit("V");
        reveal_strlit("__");
        assert("V"@ =~= seq!['V']);
        assert("__"@ =~= seq!['_', '_']);
    }
    out
}

/// The seed content of a new migration file: a comment inviting the query
/// for a SQL migration — with the no-transaction annotation where asked —
/// and a query-builder skeleton for a Rust migration.
pub fn migration_template(no_tx: bool, ty: MigrationType) -> (r: String)
    ensures
        ty == MigrationType::Sql && no_tx ==> r@ == "-- tern:noTransaction"@
            + "\n-- Add the SQL query for the migration below.\n"@,
        ty == MigrationType::Sql && !no_tx ==> r@
            == "\n-- Add the SQL query for the migration below.\n"@,
        ty == MigrationType::Rust ==> r@ == "\nuse tern::error::{Error, TernResult};\nuse tern::migration::{Query, QueryBuilder};\nuse tern::Migration;\n"@
            + (if no_tx {
            "\n#[derive(Migration)]\n#[tern(no_transaction)]\n"@
        } else {
            "\n#[derive(Migration)]\n"@
        })
            + "pub struct TernMigration;\n\nimpl QueryBuilder for TernMigration {\n    /// A `MigrationContext` defined in `super`.\n    type Ctx = ();\n\n    /// How to build the query for this migration.\n    async fn build(&self, ctx: &mut Self::Ctx) -> TernResult<Query> {\n        let query = Query::new(String::new());\n\n        Ok(query)\n    }\n}\n"@,
{
    let mut content = String::new();
    match ty {
        MigrationType::Sql => {
            if no_tx {
                content.append("-- tern:noTransaction");
            }
            content.append("\n-- Add the SQL query for the migration below.\n");
        },
        MigrationType::Rust => {
            content.append(
                "\nuse tern::error::{Error, TernResult};\nuse tern::migration::{Query, QueryBuilder};\nuse tern::Migration;\n",
            );
            if no_tx {
                content.append("\n#[derive(Migration)]\n#[tern(no_transaction)]\n");
            } else {
                content.append("\n#[derive(Migration)]\n");
            }
            content.append(
                "pub struct TernMigration;\n\nimpl QueryBuilder for TernMigration {\n    /// A `MigrationContext` defined in `super`.\n    type Ctx = ();\n\n    /// How to build the query for this migration.\n    async fn build(&self, ctx: &mut Self::Ctx) -> TernResult<Query> {\n        let query = Query::new(String::new());\n\n        Ok(query)\n    }\n}\n",
            );
        },
    }
    content
}

/// The filename decomposes with a version of exactly `v`, within the range
/// of a new migration's version.
pub open spec fn name_has_version(name: Seq<char>, v: int) -> bool {
    exists|ver: Seq<char>, desc: Seq<char>, ext: Seq<char>|
        #[trigger] parses_as(name, ver, desc, ext) && digits_val(ver) == v && 0 <= v <= 65535
}

/// The version a run of filenames folds to: the last positive version wins,
/// and a set with none keeps zero.
pub open spec fn fold_latest(vs: Seq<int>) -> int
    decreases vs.len(),
{
    if vs.len() == 0 {
        0
    } else if vs.last() > 0 {
        vs.last()
    } else {
        fold_latest(vs.drop_last())
    }
}

/// The version for the next migration file: every filename must follow the
/// naming convention with a version below 2^16, and the last positive
/// version of the list is taken.
#[verifier::loop_isolation(false)]
pub fn get_latest_version(filenames: &Vec<String>) -> (r: Result<u16, String>)
    ensures
        r matches Ok(v) ==> exists|vs: Seq<int>|
            {
                &&& #[trigger] vs.len() == filenames@.len()
                &&& forall|i: int|
                    0 <= i < vs.len() ==> name_has_version(#[trigger] filenames@[i]@, vs[i])
                &&& v as int == fold_latest(vs)
            },
        r is Err ==> exists|i: int|
            0 <= i < filenames@.len() && (!well_named(#[trigger] filenames@[i]@) || exists|
                ver: Seq<char>,
                desc: Seq<char>,
                ext: Seq<char>,
            |
                #[trigger] parses_as(filenames@[i]@, ver, desc, ext) && digits_val(ver) > 65535),
{
    let mut acc: u16 = 0;
    let mut fi: usize = 0;
    let n = filenames.len();
    let mut versions: Ghost<Seq<int>> = Ghost(Seq::empty());
    while fi < n
        invariant
            fi <= n,
            n == filenames@.len(),
            versions@.len() == fi,
            forall|i: int|
                0 <= i < fi ==> name_has_version(
                    #[trigger] filenames@[i]@,
                    versions@[i],
                ),
            acc as int == fold_latest(versions@),
        decreases n - fi,
    {
        let name = &filenames[fi];
        let empty = String::new();
        let ghost cview = empty@;
        let parsed = match MigrationSource::parse(name.as_str(), empty) {
            Ok(ms) => ms,
            Err(_) => {
                proof {
                    assert(!well_named(filenames@[fi as int]@));
                }
                return Err("filename does not match the expected format".to_owned());
            },
        };
        let version = parsed.version_value();
        if version > 65535 {
            proof {
                let (ver, desc, ext) = choose|ver: Seq<char>, desc: Seq<char>, ext: Seq<char>|
                    #[trigger] parses_as(name@, ver, desc, ext) && digits_val(ver)
                        < 0x8000000000000000 && crate::parse::source_matches(
                        parsed,
                        name@,
                        ver,
                        desc,
                        ext,
                        cview,
                    );
                assert(digits_val(ver) == parsed.vkey());
                assert(parses_as(filenames@[fi as int]@, ver, desc, ext) && digits_val(ver)
                    > 65535);
            }
            return Err("version is too large for a new migration".to_owned());
        }
        let ghost prev = versions@;
        proof {
            versions@ = prev.push(parsed.vkey());
        }
        if version > 0 {
            acc = version as u16;
        }
        proof {
            let grown = versions@;
            assert(grown.drop_last() =~= prev);
            assert(grown.last() == parsed.vkey());
            assert forall|i: int| 0 <= i < fi implies grown[i] == prev[i] by {}
            let (ver, desc, ext) = choose|ver: Seq<char>, desc: Seq<char>, ext: Seq<char>|
                #[trigger] parses_as(name@, ver, desc, ext) && digits_val(ver)
                    < 0x8000000000000000 && crate::parse::source_matches(
                    parsed,
                    name@,
                    ver,
                    desc,
                    ext,
                    cview,
                );
            assert(digits_val(ver) == parsed.vkey());
            assert(grown.len() == fi + 1);
            assert(grown[fi as int] == grown.last());
            crate::parse::lemma_digits_nonneg(ver);
            assert(digits_val(ver) >= 0);
            assert(parses_as(filenames@[fi as int]@, ver, desc, ext) && digits_val(ver)
                == grown[fi as int] && 0 <= grown[fi as int] <= 65535);
            assert(name_has_version(filenames@[fi as int]@, grown[fi as int]));
            assert forall|i: int| 0 <= i < fi + 1 implies name_has_version(
                #[trigger] filenames@[i]@,
                grown[i],
            ) by {
                if i < fi {
                    assert(grown[i] == prev[i]);
                    assert(name_has_version(filenames@[i]@, prev[i]));
                }
            }
            assert(acc as int == fold_latest(grown));
        }
        fi = fi + 1;
    }
    proof {
        assert(versions@.len() == filenames@.len());
    }
    Ok(acc)
}

} // verus!
