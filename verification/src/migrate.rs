//! Compatibility value types for the tool's previous major version: the
//! resolved migration query with its statement splitter, raw migration
//! sources, the pairwise source/history validation, and that version's
//! error types.
use crate::source::{sort_by_version, sorted_by_version, Versioned};
use crate::text::{seqs_view, string_of, strings_view, subvec, text_lines, trim, trim_chars};
use vstd::prelude::*;

verus! {

broadcast use vstd::seq_lib::group_to_multiset_ensures;

/// All the ways the previous major version's migration lifecycle can end in
/// failure.
#[derive(Debug)]
pub enum Error {
    /// An error that came from applying migrations.
    Execute(String),
    /// Error from one migration, named by version.
    ExecuteMigration(String, i64),
    /// Error resolving a query before migration.
    ResolveQuery(String),
    /// Error assembling a migration query from its source.
    Sql(String),
    /// A migration was applied before but is missing from the source.
    VersionMissing(i64),
    /// A migration's content changed since it was applied.
    VersionModified(i64, String, String),
    /// A version specified does not exist in the source.
    VersionNotPresent(i64),
    /// A version specified is older than is valid for the operation.
    VersionTooOld(i64),
    /// A version specified is newer than is valid for the operation.
    VersionTooNew(i64),
}

/// The line opens a `--` comment.
pub open spec fn dash_dash(l: Seq<char>) -> bool {
    l.len() >= 2 && l[0] == '-' && l[1] == '-'
}

/// Gather trimmed lines into statements, as the previous major version
/// splits them: a comment line or one that does not end the statement grows
/// the open statement; a line ending in a semicolon closes it. An
/// unterminated trailing statement is dropped.
pub open spec fn derrick_fold(ls: Seq<Seq<char>>, buf: Seq<char>) -> Seq<Seq<char>>
    decreases ls.len(),
{
    if ls.len() == 0 {
        Seq::empty()
    } else {
        let t = trim(ls[0]);
        if dash_dash(t) || !(t.len() > 0 && t.last() == ';') {
            derrick_fold(ls.skip(1), buf + t.push('\n'))
        } else {
            seq![buf + t.push('\n')] + derrick_fold(ls.skip(1), Seq::empty())
        }
    }
}

/// The statements of a raw query text, split line by line.
pub open spec fn derrick_statements(sql: Seq<char>) -> Seq<Seq<char>> {
    derrick_fold(text_lines(sql), Seq::empty())
}

/// Whether, after walking the lines, the open statement still holds real
/// SQL — a non-blank line that is not a comment — that no semicolon closed.
/// Such a remainder must not be dropped silently.
pub open spec fn open_statement(ls: Seq<Seq<char>>, open: bool) -> bool
    decreases ls.len(),
{
    if ls.len() == 0 {
        open
    } else {
        let t = trim(ls[0]);
        if dash_dash(t) || !(t.len() > 0 && t.last() == ';') {
            open_statement(ls.skip(1), open || (t.len() > 0 && !dash_dash(t)))
        } else {
            open_statement(ls.skip(1), false)
        }
    }
}

/// The raw query text ends in an unterminated statement that holds real SQL.
pub open spec fn unterminated_sql(sql: Seq<char>) -> bool {
    open_statement(text_lines(sql), false)
}

/// Split `v` into statements, as [`derrick_statements`] describes it, and
/// report whether an unterminated statement with real SQL was left open.
#[verifier::loop_isolation(false)]
fn derrick_split(v: &Vec<char>) -> (r: (Vec<Vec<char>>, bool))
    ensures
        seqs_view(r.0@) == derrick_statements(v@),
        r.1 == unterminated_sql(v@),
{
    let lines = crate::text::lines_of(v);
    let ghost full = text_lines(v@);
    let mut out: Vec<Vec<char>> = Vec::new();
    let mut buf: Vec<char> = Vec::new();
    let mut open = false;
    proof {
        assert(full.skip(0) =~= full);
        assert(derrick_fold(full, Seq::empty()) =~= seqs_view(out@) + derrick_fold(
            full.skip(0),
            buf@,
        ));
        assert(open_statement(full, false) == open_statement(full.skip(0), open));
    }
    for i in 0..lines.len()
        invariant
            i <= lines@.len(),
            seqs_view(lines@) == full,
            derrick_fold(full, Seq::empty()) =~= seqs_view(out@) + derrick_fold(
                full.skip(i as int),
                buf@,
            ),
            open_statement(full, false) == open_statement(full.skip(i as int), open),
    {
        let ghost rest = full.skip(i as int);
        let ghost buf0 = buf@;
        let ghost open0 = open;
        let ghost before = seqs_view(out@);
        let t = trim_chars(&lines[i]);
        proof {
            assert(rest[0] == lines@[i as int]@);
            assert(rest.skip(1) =~= full.skip(i + 1));
            assert(t@ == trim(rest[0]));
        }
        let comment = t.len() >= 2 && t[0] == '-' && t[1] == '-';
        let ends = t.len() > 0 && t[t.len() - 1] == ';';
        let mut piece = subvec(&t, 0, t.len());
        buf.append(&mut piece);
        buf.push('\n');
        proof {
            assert(buf@ =~= buf0 + trim(rest[0]).push('\n'));
        }
        if comment || !ends {
            open = open || (t.len() > 0 && !comment);
            proof {
                assert(derrick_fold(rest, buf0) == derrick_fold(
                    full.skip(i + 1),
                    buf0 + trim(rest[0]).push('\n'),
                ));
                assert(open_statement(rest, open0) == open_statement(full.skip(i + 1), open));
            }
        } else {
            out.push(buf);
            buf = Vec::new();
            open = false;
            proof {
                assert(seqs_view(out@) =~= before.push(buf0 + trim(rest[0]).push('\n')));
                assert(derrick_fold(rest, buf0) == seq![buf0 + trim(rest[0]).push('\n')]
                    + derrick_fold(full.skip(i + 1), Seq::empty()));
                assert(before.push(buf0 + trim(rest[0]).push('\n')) =~= before + seq![buf0 + trim(
                    rest[0],
                ).push('\n')]);
                assert(open_statement(rest, open0) == open_statement(full.skip(i + 1), false));
            }
        }
    }
    proof {
        assert(full.skip(full.len() as int) =~= Seq::<Seq<char>>::empty());
        assert(derrick_fold(full, Seq::empty()) =~= seqs_view(out@));
    }
    (out, open)
}

/// A resolved migration query and whether it must run outside a transaction.
#[derive(Debug)]
pub struct MigrationQuery {
    sql: String,
    no_tx: bool,
}

impl Clone for MigrationQuery {
    fn clone(&self) -> (r: Self)
        ensures
            r.sql_view() == self.sql_view(),
            r.no_tx_view() == self.no_tx_view(),
    {
        MigrationQuery { sql: self.sql.clone(), no_tx: self.no_tx }
    }
}

impl MigrationQuery {
    /// The SQL text of the query.
    pub closed spec fn sql_view(&self) -> Seq<char> {
        self.sql@
    }

    /// Whether the query must run outside a transaction.
    pub closed spec fn no_tx_view(&self) -> bool {
        self.no_tx
    }

    pub fn new(sql: String, no_tx: bool) -> (r: Self)
        ensures
            r.sql_view() == sql@,
            r.no_tx_view() == no_tx,
    {
        MigrationQuery { sql, no_tx }
    }

    /// The SQL text.
    pub fn sql(&self) -> (r: &str)
        ensures
            r@ == self.sql_view(),
    {
        self.sql.as_str()
    }

    /// Whether the query must run outside a transaction.
    pub fn no_tx(&self) -> (r: bool)
        ensures
            r == self.no_tx_view(),
    {
        self.no_tx
    }

    /// The query split into its individual statements, for running a no-tx
    /// migration statement by statement. A trailing statement that no
    /// semicolon closed is an error, never dropped.
    #[verifier::loop_isolation(false)]
    pub fn statements(&self) -> (r: Result<Vec<String>, Error>)
        ensures
            !unterminated_sql(self.sql_view()) ==> (r matches Ok(v) && strings_view(v@)
                == derrick_statements(self.sql_view())),
            unterminated_sql(self.sql_view()) ==> r matches Err(Error::Sql(_)),
    {
        let cs = crate::text::chars_of(self.sql.as_str());
        let (parts, open) = derrick_split(&cs);
        if open {
            return Err(Error::Sql("a statement is missing its terminating semicolon".to_owned()));
        }
        let mut out: Vec<String> = Vec::new();
        for i in 0..parts.len()
            invariant
                i <= parts@.len(),
                strings_view(out@) =~= seqs_view(parts@).take(i as int),
        {
            out.push(string_of(&parts[i]));
            proof {
                assert(strings_view(out@) =~= seqs_view(parts@).take(i + 1));
            }
        }
        proof {
            assert(seqs_view(parts@).take(parts@.len() as int) =~= seqs_view(parts@));
        }
        Ok(out)
    }
}

/// The static values parsed from the name and content of one migration
/// source file.
#[derive(Debug)]
pub struct MigrationSource {
    /// Version parsed from the migration filename.
    pub version: i64,
    /// The description parsed from the filename.
    pub description: String,
    /// The actual content of the file.
    pub content: String,
}

impl Clone for MigrationSource {
    fn clone(&self) -> (r: Self)
        ensures
            r == *self,
    {
        MigrationSource {
            version: self.version,
            description: self.description.clone(),
            content: self.content.clone(),
        }
    }
}

impl Versioned for MigrationSource {
    open spec fn vkey(&self) -> int {
        self.version as int
    }

    fn version_value(&self) -> (r: i64)
        ensures
            r as int == self.vkey(),
    {
        self.version
    }
}

impl MigrationSource {
    pub fn new(version: i64, description: String, content: String) -> (r: MigrationSource)
        ensures
            r.version == version,
            r.description@ == description@,
            r.content@ == content@,
    {
        MigrationSource { version, description, content }
    }

    /// Arrange a migration set in ascending order by version. The contract
    /// leaves the relative order of equal versions unspecified; validation
    /// rejects duplicate versions.
    pub fn order_by_asc(source: Vec<MigrationSource>) -> (r: Vec<MigrationSource>)
        ensures
            sorted_by_version(r@),
            r@.to_multiset() == source@.to_multiset(),
    {
        sort_by_version(source)
    }
}

/// A migration that was applied, in the previous major version's row
/// layout: there is no timestamp column.
#[derive(Debug)]
pub struct AppliedMigration {
    /// Migration version.
    pub version: i64,
    /// Migration description.
    pub description: String,
    /// The encoding of the SQL that ran when it was applied.
    pub content: String,
    /// Apply duration in milliseconds.
    pub duration_ms: i64,
}

impl Clone for AppliedMigration {
    fn clone(&self) -> (r: Self)
        ensures
            r == *self,
    {
        AppliedMigration {
            version: self.version,
            description: self.description.clone(),
            content: self.content.clone(),
            duration_ms: self.duration_ms,
        }
    }
}

impl Versioned for AppliedMigration {
    open spec fn vkey(&self) -> int {
        self.version as int
    }

    fn version_value(&self) -> (r: i64)
        ensures
            r as int == self.vkey(),
    {
        self.version
    }
}

impl AppliedMigration {
    /// Arrange applied migrations in ascending order by version. The
    /// contract leaves the relative order of equal versions unspecified;
    /// the history table keys rows by version, so they cannot repeat.
    pub fn order_by_asc(applied: Vec<AppliedMigration>) -> (r: Vec<AppliedMigration>)
        ensures
            sorted_by_version(r@),
            r@.to_multiset() == applied@.to_multiset(),
    {
        sort_by_version(applied)
    }
}

/// Position `i` is the first applied row (in sorted order) with no matching
/// source entry at its index, and `v` is its version.
pub open spec fn first_mismatch(
    ss: Seq<MigrationSource>,
    aa: Seq<AppliedMigration>,
    i: int,
    v: i64,
) -> bool {
    &&& 0 <= i < aa.len()
    &&& v == aa[i].version
    &&& (i >= ss.len() || ss[i].version != aa[i].version)
    &&& forall|j: int| 0 <= j < i ==> j < ss.len() && #[trigger] aa[j].version == ss[j].version
}

/// What the positional source/history check decides, for one pair of
/// version-sorted arrangements `ss` and `aa` of the source and the applied
/// rows: success exactly when every applied row has a source entry with its
/// version at its index, and otherwise the first mismatching applied version.
pub open spec fn validation_verdict(
    ss: Seq<MigrationSource>,
    aa: Seq<AppliedMigration>,
    source: Seq<MigrationSource>,
    applied: Seq<AppliedMigration>,
    r: Result<(), Error>,
) -> bool {
    &&& ss.to_multiset() == source.to_multiset()
    &&& sorted_by_version(ss)
    &&& aa.to_multiset() == applied.to_multiset()
    &&& sorted_by_version(aa)
    &&& (r is Ok <==> forall|i: int|
        0 <= i < aa.len() ==> i < ss.len() && #[trigger] aa[i].version == ss[i].version)
}

/// The positional source/history check: sorted by version, the applied
/// migrations must match the source pairwise.
#[derive(Debug, Clone)]
pub struct Validate;

impl Validate {
    /// Verify that every applied migration lines up, by position and version,
    /// with the sorted source; the first mismatch is reported as missing.
    #[verifier::loop_isolation(false)]
    #[verifier::spinoff_prover]
    #[verifier::rlimit(100)]
    pub fn run_validation(source: Vec<MigrationSource>, applied: Vec<AppliedMigration>) -> (r:
        Result<(), Error>)
        ensures
            exists|ss: Seq<MigrationSource>, aa: Seq<AppliedMigration>|
                #![trigger sorted_by_version(ss), sorted_by_version(aa)]
                validation_verdict(ss, aa, source@, applied@, r),
            r matches Err(Error::VersionMissing(v)) ==> exists|
                ss: Seq<MigrationSource>,
                aa: Seq<AppliedMigration>,
                i: int,
            |
                {
                    &&& #[trigger] first_mismatch(ss, aa, i, v)
                    &&& ss.to_multiset() == source@.to_multiset()
                    &&& sorted_by_version(ss)
                    &&& aa.to_multiset() == applied@.to_multiset()
                    &&& sorted_by_version(aa)
                },
            r is Err ==> r matches Err(Error::VersionMissing(_)),
    {
        let all = MigrationSource::order_by_asc(source);
        let existing = AppliedMigration::order_by_asc(applied);
        let ghost ss = all@;
        let ghost aa = existing@;
        let mut ix: usize = 0;
        let mut bad: Option<i64> = None;
        while ix < existing.len() && bad.is_none()
            invariant
                ix <= aa.len(),
                all@ == ss,
                existing@ == aa,
                bad is None ==> ix <= ss.len(),
                bad is None ==> forall|j: int|
                    0 <= j < ix ==> #[trigger] aa[j].version == ss[j].version,
                bad matches Some(v) ==> first_mismatch(ss, aa, ix as int, v),
            decreases aa.len() - ix, (if bad is None {
                1int
            } else {
                0int
            }),
        {
            if ix >= all.len() {
                bad = Some(existing[ix].version);
                proof {
                    assert(first_mismatch(ss, aa, ix as int, existing@[ix as int].version));
                }
            } else if all[ix].version != existing[ix].version {
                bad = Some(existing[ix].version);
                proof {
                    assert(first_mismatch(ss, aa, ix as int, existing@[ix as int].version));
                }
            } else {
                ix = ix + 1;
            }
        }
        proof {
            assert(sorted_by_version(ss));
            assert(sorted_by_version(aa));
        }
        let result: Result<(), Error> = match bad {
            Option::None => Ok(()),
            Option::Some(v) => Err(Error::VersionMissing(v)),
        };
        proof {
            match bad {
                Option::None => {
                    assert(ix == aa.len());
                    assert(ix <= ss.len());
                    assert forall|i: int|
                        0 <= i < aa.len() implies i < ss.len() && #[trigger] aa[i].version
                        == ss[i].version by {
                        assert(0 <= i < ix);
                    }
                },
                Option::Some(v) => {
                    assert(first_mismatch(ss, aa, ix as int, v));
                    assert(exists|i: int| #[trigger] first_mismatch(ss, aa, i, v));
                    assert(!(ix < ss.len() && aa[ix as int].version == ss[ix as int].version));
                    assert(!(forall|i: int|
                        0 <= i < aa.len() ==> i < ss.len() && #[trigger] aa[i].version
                            == ss[i].version));
                },
            }
            assert(validation_verdict(ss, aa, source@, applied@, result));
            match result {
                Result::Err(Error::VersionMissing(vv)) => {
                    assert(first_mismatch(ss, aa, ix as int, vv));
                },
                _ => {},
            }
        }
        result
    }
}

/// A validation that accepts everything.
#[derive(Debug, Clone)]
pub struct NoValidation;

impl NoValidation {
    /// Accept any source/history pair.
    pub fn validate(source: Vec<MigrationSource>, applied: Vec<AppliedMigration>) -> (r: Result<
        (),
        Error,
    >)
        ensures
            r is Ok,
    {
        Ok(())
    }
}

/// The error of parsing one migration source file, in the previous major
/// version's shape.
#[derive(Debug)]
pub enum ParseError {
    /// The migration directory could not be read.
    Directory(String),
    /// The migration path is invalid.
    Path(String, String),
    /// A filename does not follow the naming convention.
    Name(String),
    /// A file extension is neither `sql` nor `rs`.
    Ext(String),
    /// A file could not be read.
    Io(String),
    /// A migration's statements could not be assembled.
    Sql(i64, String),
}

/// The language of a migration source file.
#[derive(Debug, Clone, Copy, PartialEq, Eq, Structural)]
pub enum SourceType {
    /// A static SQL file.
    Sql,
    /// A Rust file.
    Rust,
}

impl SourceType {
    /// The source type of a file extension: only `sql` and `rs` are known,
    /// and the error names the extension it got.
    pub fn from_ext(ext: &str) -> (r: Result<Self, ParseError>)
        ensures
            ext@ == "sql"@ ==> (r matches Ok(t) && t == SourceType::Sql),
            ext@ == "rs"@ ==> (r matches Ok(t) && t == SourceType::Rust),
            ext@ != "sql"@ && ext@ != "rs"@ ==> (r matches Err(ParseError::Ext(m)) && m@
                == "got file extension "@ + ext@ + ", expected sql or rs"@),
    {
        match crate::parse::SourceType::from_ext(ext) {
            Ok(crate::parse::SourceType::Sql) => Ok(SourceType::Sql),
            Ok(crate::parse::SourceType::Rust) => Ok(SourceType::Rust),
            Err(crate::parse::SourceError::Ext(m)) => Err(ParseError::Ext(m)),
            Err(_) => Err(ParseError::Ext("expected the extension sql or rs".to_owned())),
        }
    }
}

/// The values parsed from the name and content of one migration source
/// file, in the previous major version's shape.
#[derive(Debug)]
pub struct ParsedSource {
    /// The module name: the filename without its extension.
    pub module: String,
    /// The language of the file.
    pub source_type: SourceType,
    /// The version parsed from the filename.
    pub version: i64,
    /// The description parsed from the filename.
    pub description: String,
    /// The file's content.
    pub content: String,
}

impl ParsedSource {
    /// The statements of a static SQL migration, split line by line. A
    /// trailing statement that no semicolon closed is an error naming this
    /// migration's version, never dropped.
    #[verifier::loop_isolation(false)]
    pub fn statements(&self) -> (r: Result<Vec<String>, ParseError>)
        ensures
            !unterminated_sql(self.content@) ==> (r matches Ok(v) && strings_view(v@)
                == derrick_statements(self.content@)),
            unterminated_sql(self.content@) ==> (r matches Err(ParseError::Sql(v, _)) && v
                == self.version),
    {
        let cs = crate::text::chars_of(self.content.as_str());
        let (parts, open) = derrick_split(&cs);
        if open {
            return Err(
                ParseError::Sql(
                    self.version,
                    "a statement is missing its terminating semicolon".to_owned(),
                ),
            );
        }
        let mut out: Vec<String> = Vec::new();
        for i in 0..parts.len()
            invariant
                i <= parts@.len(),
                strings_view(out@) =~= seqs_view(parts@).take(i as int),
        {
            out.push(string_of(&parts[i]));
            proof {
                assert(strings_view(out@) =~= seqs_view(parts@).take(i + 1));
            }
        }
        proof {
            assert(seqs_view(parts@).take(parts@.len() as int) =~= seqs_view(parts@));
        }
        Ok(out)
    }
}

} // verus!
