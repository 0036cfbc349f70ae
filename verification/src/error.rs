//! Error type for migration operations.
use crate::report::Report;
use crate::source::{IdView, MigrationId};
use vstd::prelude::*;

verus! {

/// All the ways the lifecycle of applying migrations can end in failure.
///
/// Backend failures are carried as the backend's error text.
#[derive(Debug)]
pub enum Error {
    /// Error arising from initialization.
    Init(String),
    /// A backend call failed outside the context of a specific migration.
    Execute(String),
    /// A specific migration's query failed; carries the backend error text,
    /// the migration's identity and its transaction policy.
    ExecuteMigration { msg: String, id: MigrationId, no_tx: bool },
    /// The query of a migration could not be resolved before any SQL ran.
    ResolveQuery(String),
    /// The history table holds migrations that are absent from the source.
    OutOfSync { at_issue: Vec<MigrationId>, msg: String },
    /// The options passed are not valid for the operation requested.
    Invalid(String),
    /// An error occurred mid-run; carries the report of everything completed
    /// before the failure.
    Partial { source: Box<Error>, report: Report },
}

/// The views of a sequence of migration ids.
pub open spec fn ids_view(s: Seq<MigrationId>) -> Seq<IdView> {
    s.map_values(|m: MigrationId| m@)
}

impl Error {
    /// Wrap the display of an arbitrary failure as a query-resolution error.
    pub fn to_resolve_query_error(e: String) -> (r: Self)
        ensures
            r matches Error::ResolveQuery(m) && m@ == e@,
    {
        Error::ResolveQuery(e)
    }
}

} // verus!
