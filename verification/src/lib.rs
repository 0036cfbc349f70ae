//! A schema-migration engine: it applies an ordered set of versioned database
//! change scripts exactly once, records what ran in a history table, and can
//! report on planned or past changes without executing them.
//!
//! The crate is organised around a few core pieces:
//!
//! * [`source`] holds the migration value types: [`source::MigrationId`],
//!   [`source::Migration`], [`source::MigrationSet`] and
//!   [`source::AppliedMigration`].
//! * [`query`] holds [`query::Query`], an owned SQL text that can split itself
//!   into discrete, comment-stripped statements.
//! * [`executor`] defines the [`executor::Executor`] contract that a database
//!   backend must meet, stated over a ghost model of the history table and of
//!   the statements executed so far.
//! * [`context`] couples an executor, a history-table name and a migration set.
//! * [`runner`] sequences apply, soft-apply, dry-run and list operations and
//!   produces a [`report::Report`].
//! * [`builder`] assembles one configured operation into a runnable
//!   [`builder::Tern`] application.
use vstd::prelude::*;

pub use builder::{Tern, TernBuilder};
pub use report::{MigrationResult, Report};

pub mod builder;
pub mod cli;
pub mod context;
pub mod error;
pub mod executor;
pub mod history;
pub mod memory;
pub mod parse;
pub mod migrate;
pub mod query;
pub mod report;
pub mod runner;
pub mod source;
pub mod text;

verus! {

} // verus!
