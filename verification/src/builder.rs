//! The application layer: [`TernBuilder`] assembles the configuration for a
//! run — operation, dry-run flag, validation flag, target version — and
//! [`Tern`] executes that configuration against a [`MigrationContext`].
use crate::context::{MigrationContext, QueryBuilder};
use crate::error::Error;
use crate::executor::Executor;
use crate::report::Report;
use crate::runner::{list_post, run_apply_post, soft_apply_post, Runner};
use crate::source::{opt_version, MigView, RowView};
use vstd::prelude::*;

verus! {

/// The possible migration operations.
#[derive(Debug, Clone, Copy, PartialEq, Eq, Structural)]
pub enum MigrateOp {
    /// List previously applied migrations.
    ListApplied,
    /// Apply unapplied migrations.
    Apply,
    /// Record unapplied migrations without running their queries.
    SoftApply,
}

/// The possible history-table operations.
#[derive(Debug, Clone, Copy, PartialEq, Eq, Structural)]
pub enum HistoryOp {
    /// Create the history table if it does not exist.
    Init,
    /// Drop the history table.
    Drop,
}

/// The operation an application run performs.
#[derive(Debug, Clone, Copy, PartialEq, Eq, Structural)]
pub enum TernOp {
    /// An operation on the migration set.
    Migrate(MigrateOp),
    /// An operation on the history table.
    History(HistoryOp),
}

/// The configuration of a [`Tern`] application.
pub ghost struct BuilderView {
    pub dry_run: bool,
    pub skip_validate: bool,
    pub target: Option<int>,
    pub op: TernOp,
}

/// `TernBuilder` builds a runnable [`Tern`] migration application.
#[derive(Debug, Clone, Copy)]
pub struct TernBuilder {
    dry_run: bool,
    skip_validate: bool,
    target: Option<i64>,
    op: TernOp,
}

impl View for TernBuilder {
    type V = BuilderView;

    closed spec fn view(&self) -> BuilderView {
        BuilderView {
            dry_run: self.dry_run,
            skip_validate: self.skip_validate,
            target: opt_version(self.target),
            op: self.op,
        }
    }
}

impl Default for TernBuilder {
    fn default() -> (r: Self)
        ensures
            r@ == (BuilderView {
                dry_run: false,
                skip_validate: false,
                target: Option::None,
                op: TernOp::Migrate(MigrateOp::ListApplied),
            }),
    {
        TernBuilder {
            dry_run: false,
            skip_validate: false,
            target: None,
            op: TernOp::Migrate(MigrateOp::ListApplied),
        }
    }
}

impl TernBuilder {
    /// A builder with the default configuration: list applied migrations,
    /// with validation, not a dry run, no target.
    pub fn new() -> (r: Self)
        ensures
            r@ == (BuilderView {
                dry_run: false,
                skip_validate: false,
                target: Option::None,
                op: TernOp::Migrate(MigrateOp::ListApplied),
            }),
    {
        Self::default()
    }

    /// Return a report detailing what would have been done if it were not a
    /// dry run.
    pub fn dry_run(self) -> (r: Self)
        ensures
            r@ == (BuilderView { dry_run: true, ..self@ }),
    {
        let mut this = self;
        this.dry_run = true;
        this
    }

    /// Do not validate the local source migrations against the history table
    /// before the operation.
    pub fn skip_validate(self) -> (r: Self)
        ensures
            r@ == (BuilderView { skip_validate: true, ..self@ }),
    {
        let mut this = self;
        this.skip_validate = true;
        this
    }

    /// Where applicable, only do the operation up to and including the
    /// target version.
    pub fn with_target_version(self, target: i64) -> (r: Self)
        ensures
            r@ == (BuilderView { target: Option::Some(target as int), ..self@ }),
    {
        let mut this = self;
        this.target = Some(target);
        this
    }

    /// Set the operation to initialize the history table.
    pub fn init_history(self) -> (r: Self)
        ensures
            r@ == (BuilderView { op: TernOp::History(HistoryOp::Init), ..self@ }),
    {
        let mut this = self;
        this.op = TernOp::History(HistoryOp::Init);
        this
    }

    /// Set the operation to drop the history table.
    pub fn drop_history(self) -> (r: Self)
        ensures
            r@ == (BuilderView { op: TernOp::History(HistoryOp::Drop), ..self@ }),
    {
        let mut this = self;
        this.op = TernOp::History(HistoryOp::Drop);
        this
    }

    /// Set the operation to list migrations that have been applied.
    pub fn list_applied(self) -> (r: Self)
        ensures
            r@ == (BuilderView { op: TernOp::Migrate(MigrateOp::ListApplied), ..self@ }),
    {
        let mut this = self;
        this.op = TernOp::Migrate(MigrateOp::ListApplied);
        this
    }

    /// Set the operation to apply unapplied migrations with this
    /// configuration.
    pub fn apply(self) -> (r: Self)
        ensures
            r@ == (BuilderView { op: TernOp::Migrate(MigrateOp::Apply), ..self@ }),
    {
        let mut this = self;
        this.op = TernOp::Migrate(MigrateOp::Apply);
        this
    }

    /// Set the operation to soft apply unapplied migrations with this
    /// configuration's target version: record them without running their
    /// queries.
    pub fn soft_apply(self) -> (r: Self)
        ensures
            r@ == (BuilderView { op: TernOp::Migrate(MigrateOp::SoftApply), ..self@ }),
    {
        let mut this = self;
        this.op = TernOp::Migrate(MigrateOp::SoftApply);
        this
    }

    /// Build the [`Tern`] application from this configuration for the given
    /// context.
    pub fn build_with_context<E: Executor, B: QueryBuilder<E>>(
        self,
        context: MigrationContext<E, B>,
    ) -> (r: Tern<E, B>)
        ensures
            r.config() == self@,
            r.history() == context.history(),
            r.executed() == context.executed(),
            r.source_view() == context.source_view(),
    {
        Tern {
            runner: Runner::new(context),
            dry_run: self.dry_run,
            skip_validate: self.skip_validate,
            target: self.target,
            op: self.op,
        }
    }
}

/// `Tern` is the main application: one configured operation over one
/// migration context.
pub struct Tern<E, B> {
    runner: Runner<E, B>,
    dry_run: bool,
    skip_validate: bool,
    target: Option<i64>,
    op: TernOp,
}

impl<E: Executor, B: QueryBuilder<E>> Tern<E, B> {
    /// The configuration this application runs.
    pub closed spec fn config(&self) -> BuilderView {
        BuilderView {
            dry_run: self.dry_run,
            skip_validate: self.skip_validate,
            target: opt_version(self.target),
            op: self.op,
        }
    }

    /// The rows of the schema history table, keyed by version.
    pub closed spec fn history(&self) -> Map<int, RowView> {
        self.runner.history()
    }

    /// The migration statements executed against the target schema so far.
    pub closed spec fn executed(&self) -> Seq<Seq<char>> {
        self.runner.executed()
    }

    /// The source migrations, in set order.
    pub closed spec fn source_view(&self) -> Seq<MigView> {
        self.runner.source_view()
    }

    /// Run this application with its configuration: a history operation
    /// returns no report, a migrate operation returns one on success.
    pub fn run(&mut self) -> (r: Result<Option<Report>, Error>)
        ensures
            final(self).source_view() == old(self).source_view(),
            final(self).config() == old(self).config(),
            ({
                let h0 = old(self).history();
                let e0 = old(self).executed();
                let h1 = final(self).history();
                let e1 = final(self).executed();
                let src = old(self).source_view();
                let cfg = old(self).config();
                match cfg.op {
                    TernOp::History(HistoryOp::Init) => {
                        &&& h1 == h0
                        &&& e1 == e0
                        &&& (r matches Ok(o) ==> o is None)
                        &&& (r matches Err(e) ==> e is Execute)
                    },
                    TernOp::History(HistoryOp::Drop) => {
                        &&& e1 == e0
                        &&& (r matches Ok(o) ==> o is None && h1 == Map::<int, RowView>::empty())
                        &&& (r matches Err(e) ==> e is Execute && h1 == h0)
                    },
                    TernOp::Migrate(MigrateOp::ListApplied) => {
                        &&& (r matches Ok(o) ==> o matches Some(rep) && list_post(
                            h0,
                            e0,
                            h1,
                            e1,
                            src,
                            !cfg.skip_validate,
                            Result::Ok(rep),
                        ))
                        &&& (r matches Err(e) ==> list_post(
                            h0,
                            e0,
                            h1,
                            e1,
                            src,
                            !cfg.skip_validate,
                            Result::Err(e),
                        ))
                    },
                    TernOp::Migrate(MigrateOp::Apply) => {
                        &&& (r matches Ok(o) ==> o matches Some(rep) && run_apply_post(
                            h0,
                            e0,
                            h1,
                            e1,
                            src,
                            cfg.target,
                            cfg.dry_run,
                            !cfg.skip_validate,
                            Result::Ok(rep),
                        ))
                        &&& (r matches Err(e) ==> run_apply_post(
                            h0,
                            e0,
                            h1,
                            e1,
                            src,
                            cfg.target,
                            cfg.dry_run,
                            !cfg.skip_validate,
                            Result::Err(e),
                        ))
                    },
                    TernOp::Migrate(MigrateOp::SoftApply) => {
                        &&& (r matches Ok(o) ==> o matches Some(rep) && soft_apply_post(
                            h0,
                            e0,
                            h1,
                            e1,
                            src,
                            cfg.target,
                            cfg.dry_run,
                            !cfg.skip_validate,
                            Result::Ok(rep),
                        ))
                        &&& (r matches Err(e) ==> soft_apply_post(
                            h0,
                            e0,
                            h1,
                            e1,
                            src,
                            cfg.target,
                            cfg.dry_run,
                            !cfg.skip_validate,
                            Result::Err(e),
                        ))
                    },
                }
            }),
    {
        let validate = !self.skip_validate;
        match self.op {
            TernOp::History(HistoryOp::Init) => {
                match self.runner.init_history() {
                    Ok(()) => Ok(None),
                    Err(e) => Err(e),
                }
            },
            TernOp::History(HistoryOp::Drop) => {
                match self.runner.drop_history() {
                    Ok(()) => Ok(None),
                    Err(e) => Err(e),
                }
            },
            TernOp::Migrate(MigrateOp::ListApplied) => {
                match self.runner.list_run(validate) {
                    Ok(rep) => Ok(Some(rep)),
                    Err(e) => Err(e),
                }
            },
            TernOp::Migrate(MigrateOp::Apply) => {
                match self.runner.apply_run(self.target, self.dry_run, validate) {
                    Ok(rep) => Ok(Some(rep)),
                    Err(e) => Err(e),
                }
            },
            TernOp::Migrate(MigrateOp::SoftApply) => {
                match self.runner.soft_apply_run(self.target, self.dry_run, validate) {
                    Ok(rep) => Ok(Some(rep)),
                    Err(e) => Err(e),
                }
            },
        }
    }
}

} // verus!
