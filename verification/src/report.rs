//! The presentation of a migration run: a [`Report`] is an ordered,
//! append-only list of [`MigrationResult`], one per migration whose outcome is
//! known.
use crate::source::{AppliedMigration, Migration, RowView};
use vstd::prelude::*;

verus! {

/// The outcome recorded for one migration.
#[derive(Debug, Clone, Copy, PartialEq, Eq, Structural)]
pub enum MigrationState {
    /// The migration ran and its history row was written.
    Applied,
    /// A history row was written without running the query.
    SoftApplied,
    /// The migration was not applied (a dry run).
    Unapplied,
}

/// Whether the migration ran inside a database transaction.
#[derive(Debug)]
pub enum Transactional {
    /// The migration ran outside a transaction.
    NoTransaction,
    /// The migration ran inside a transaction.
    InTransaction,
    /// The policy is not known or not applicable; the text says why.
    Other(String),
}

/// The mathematical content of a [`Transactional`].
pub ghost enum TransactionalView {
    NoTransaction,
    InTransaction,
    Other(Seq<char>),
}

impl View for Transactional {
    type V = TransactionalView;

    closed spec fn view(&self) -> TransactionalView {
        match self {
            Transactional::NoTransaction => TransactionalView::NoTransaction,
            Transactional::InTransaction => TransactionalView::InTransaction,
            Transactional::Other(s) => TransactionalView::Other(s@),
        }
    }
}

impl Clone for Transactional {
    fn clone(&self) -> (r: Self)
        ensures
            r@ == self@,
    {
        match self {
            Transactional::NoTransaction => Transactional::NoTransaction,
            Transactional::InTransaction => Transactional::InTransaction,
            Transactional::Other(s) => Transactional::Other(s.clone()),
        }
    }
}

impl Transactional {
    /// The transaction policy read off a migration's `no_tx` flag.
    pub fn from_boolean(v: bool) -> (r: Self)
        ensures
            r@ == (if v {
                TransactionalView::NoTransaction
            } else {
                TransactionalView::InTransaction
            }),
    {
        if v {
            return Transactional::NoTransaction;
        }
        Transactional::InTransaction
    }
}

/// How long a migration ran, where that is known.
#[derive(Debug, Clone, Copy, PartialEq, Eq, Structural)]
pub enum RunDuration {
    /// The run took this many milliseconds.
    Duration(i64),
    /// The migration was not applied, so there is no duration.
    Unapplied,
}

/// One migration's outcome, formatted for a [`Report`].
#[derive(Debug)]
pub struct MigrationResult {
    dryrun: bool,
    version: i64,
    state: MigrationState,
    applied_at: Option<i64>,
    description: String,
    content: String,
    transactional: Transactional,
    duration_ms: RunDuration,
}

/// The mathematical content of a [`MigrationResult`].
pub ghost struct ResultView {
    pub dryrun: bool,
    pub version: int,
    pub state: MigrationState,
    pub applied_at: Option<int>,
    pub description: Seq<char>,
    pub content: Seq<char>,
    pub transactional: TransactionalView,
    pub duration_ms: RunDuration,
}

impl View for MigrationResult {
    type V = ResultView;

    closed spec fn view(&self) -> ResultView {
        ResultView {
            dryrun: self.dryrun,
            version: self.version as int,
            state: self.state,
            applied_at: match self.applied_at {
                Option::None => Option::None,
                Option::Some(t) => Option::Some(t as int),
            },
            description: self.description@,
            content: self.content@,
            transactional: self.transactional@,
            duration_ms: self.duration_ms,
        }
    }
}

impl Clone for MigrationResult {
    fn clone(&self) -> (r: Self)
        ensures
            r@ == self@,
    {
        MigrationResult {
            dryrun: self.dryrun,
            version: self.version,
            state: self.state,
            applied_at: self.applied_at,
            description: self.description.clone(),
            content: self.content.clone(),
            transactional: self.transactional.clone(),
            duration_ms: self.duration_ms,
        }
    }
}

/// The view of a result recording `applied` as applied with the transaction
/// policy `no_tx` (where known).
pub open spec fn applied_result(applied: RowView, no_tx: Option<bool>) -> ResultView {
    ResultView {
        dryrun: false,
        version: applied.version,
        state: MigrationState::Applied,
        applied_at: Option::Some(applied.applied_at),
        description: applied.description,
        content: applied.content,
        transactional: match no_tx {
            Option::Some(true) => TransactionalView::NoTransaction,
            Option::Some(false) => TransactionalView::InTransaction,
            Option::None => TransactionalView::Other("Previously applied"@),
        },
        duration_ms: RunDuration::Duration(applied.duration_ms as i64),
    }
}

/// The view of a result recording `applied` as soft applied.
pub open spec fn soft_applied_result(applied: RowView, dryrun: bool) -> ResultView {
    ResultView {
        dryrun,
        version: applied.version,
        state: MigrationState::SoftApplied,
        applied_at: Option::Some(applied.applied_at),
        description: applied.description,
        content: applied.content,
        transactional: TransactionalView::Other("Soft applied"@),
        duration_ms: RunDuration::Duration(applied.duration_ms as i64),
    }
}

/// The view of a result recording a migration a dry run did not apply,
/// carrying its resolved query text.
pub open spec fn unapplied_result(
    version: int,
    description: Seq<char>,
    no_tx: bool,
    content: Seq<char>,
) -> ResultView {
    ResultView {
        dryrun: true,
        version,
        state: MigrationState::Unapplied,
        applied_at: Option::None,
        description,
        content,
        transactional: if no_tx {
            TransactionalView::NoTransaction
        } else {
            TransactionalView::InTransaction
        },
        duration_ms: RunDuration::Unapplied,
    }
}

impl MigrationResult {
    /// A result for a migration found applied, with its transaction policy
    /// where the caller knows it.
    pub fn from_applied(applied: &AppliedMigration, no_tx: Option<bool>) -> (r: Self)
        ensures
            r@ == applied_result(applied@, no_tx),
    {
        let duration_ms = applied.duration_ms;
        let transactional = match no_tx {
            Option::Some(v) => Transactional::from_boolean(v),
            Option::None => Transactional::Other("Previously applied".to_owned()),
        };
        MigrationResult {
            dryrun: false,
            version: applied.version,
            state: MigrationState::Applied,
            applied_at: Some(applied.applied_at),
            description: applied.description.clone(),
            content: applied.content.clone(),
            transactional,
            duration_ms: RunDuration::Duration(duration_ms),
        }
    }

    /// A result for a migration that was soft applied.
    pub fn from_soft_applied(applied: &AppliedMigration, dryrun: bool) -> (r: Self)
        ensures
            r@ == soft_applied_result(applied@, dryrun),
    {
        MigrationResult {
            dryrun,
            version: applied.version,
            state: MigrationState::SoftApplied,
            applied_at: Some(applied.applied_at),
            description: applied.description.clone(),
            content: applied.content.clone(),
            transactional: Transactional::Other("Soft applied".to_owned()),
            duration_ms: RunDuration::Duration(applied.duration_ms),
        }
    }

    /// A result for a migration a dry run did not apply, carrying the query
    /// text it resolved to.
    pub fn from_unapplied(migration: &Migration, content: &str) -> (r: Self)
        ensures
            r@ == unapplied_result(
                migration@.id.version,
                migration@.id.description,
                migration@.no_tx,
                content@,
            ),
    {
        MigrationResult {
            dryrun: true,
            version: migration.version(),
            state: MigrationState::Unapplied,
            applied_at: None,
            description: migration.migration_id().description(),
            content: content.to_owned(),
            transactional: Transactional::from_boolean(migration.no_tx()),
            duration_ms: RunDuration::Unapplied,
        }
    }

    /// The migration version this result is about.
    pub fn version(&self) -> (r: i64)
        ensures
            r as int == self@.version,
    {
        self.version
    }

    /// The outcome this result records.
    pub fn state(&self) -> (r: MigrationState)
        ensures
            r == self@.state,
    {
        self.state
    }

    /// Whether this result came from a dry run.
    pub fn dryrun(&self) -> (r: bool)
        ensures
            r == self@.dryrun,
    {
        self.dryrun
    }

    /// The description of the migration this result is about.
    pub fn description(&self) -> (r: String)
        ensures
            r@ == self@.description,
    {
        self.description.clone()
    }

    /// The query or file content this result carries.
    pub fn content(&self) -> (r: String)
        ensures
            r@ == self@.content,
    {
        self.content.clone()
    }

    /// When the migration was applied, in milliseconds since the Unix epoch,
    /// where it was applied at all.
    pub fn applied_at(&self) -> (r: Option<i64>)
        ensures
            self@.applied_at == (match r {
                Option::None => Option::<int>::None,
                Option::Some(t) => Option::<int>::Some(t as int),
            }),
    {
        self.applied_at
    }

    /// How long the migration ran, where that is known.
    pub fn duration(&self) -> (r: RunDuration)
        ensures
            r == self@.duration_ms,
    {
        self.duration_ms
    }
}

/// The views of a sequence of migration results.
pub open spec fn results_view(s: Seq<MigrationResult>) -> Seq<ResultView> {
    s.map_values(|m: MigrationResult| m@)
}

/// An ordered collection of migration results, reflecting exactly the prefix
/// of work a run completed, in order.
#[derive(Debug)]
pub struct Report {
    migrations: Vec<MigrationResult>,
}

impl View for Report {
    type V = Seq<ResultView>;

    closed spec fn view(&self) -> Seq<ResultView> {
        results_view(self.migrations@)
    }
}

impl Clone for Report {
    #[verifier::loop_isolation(false)]
    fn clone(&self) -> (r: Self)
        ensures
            r@ == self@,
    {
        Report { migrations: clone_results(&self.migrations) }
    }
}

/// Copy a vector of results, preserving each result's content.
#[verifier::loop_isolation(false)]
fn clone_results(v: &Vec<MigrationResult>) -> (r: Vec<MigrationResult>)
    ensures
        results_view(r@) == results_view(v@),
{
    let mut r: Vec<MigrationResult> = Vec::new();
    for i in 0..v.len()
        invariant
            i <= v@.len(),
            results_view(r@) =~= results_view(v@.subrange(0, i as int)),
    {
        let ghost prefix = v@.subrange(0, i as int);
        r.push(v[i].clone());
        proof {
            assert(v@.subrange(0, i + 1) =~= prefix.push(v@[i as int]));
            assert(results_view(prefix.push(v@[i as int])) =~= results_view(prefix).push(
                v@[i as int]@,
            ));
            assert(results_view(r@) =~= results_view(prefix).push(v@[i as int]@));
        }
    }
    proof {
        assert(v@.subrange(0, v@.len() as int) =~= v@);
    }
    r
}

impl Default for Report {
    fn default() -> (r: Self)
        ensures
            r@ == Seq::<ResultView>::empty(),
    {
        Report { migrations: Vec::new() }
    }
}

impl Report {
    /// A report holding exactly the given results, in order.
    pub fn new(migrations: Vec<MigrationResult>) -> (r: Self)
        ensures
            r@ == results_view(migrations@),
    {
        Report { migrations }
    }

    /// The number of results in this report.
    pub fn count(&self) -> (r: usize)
        ensures
            r == self@.len(),
    {
        self.migrations.len()
    }

    /// The results of this report, in order.
    pub fn results(&self) -> (r: Vec<MigrationResult>)
        ensures
            results_view(r@) == self@,
    {
        clone_results(&self.migrations)
    }
}

} // verus!
