//! [`MigrationContext`] binds one migration set to one live connection: it
//! owns the [`Executor`], the history-table name and the source
//! [`MigrationSet`], and implements the apply/insert/select protocol.
use crate::error::Error;
use crate::executor::{latest_of, rows_as_map, rows_sorted, Executor};
use crate::query::{statements_of, Query};
use crate::source::{
    migs_view, opt_version, rows_view, AppliedMigration, MigView, Migration, MigrationKind,
    MigrationSet, RowView,
};
use vstd::prelude::*;

verus! {

/// The entries that applying a query with the given resolved text adds to the
/// log of executed statements: split into statements outside a transaction,
/// one unit inside one.
pub open spec fn batch_of(content: Seq<char>, no_tx: bool) -> Seq<Seq<char>> {
    if no_tx {
        statements_of(content)
    } else {
        seq![content]
    }
}

/// `QueryBuilder` resolves the query of a dynamically-built migration, using
/// the executor for whatever reads the query depends on.
///
/// Library users implement this for migrations written in code rather than
/// SQL. A builder may read through the executor, but it must leave the
/// history and the schema alone.
pub trait QueryBuilder<E: Executor>: Sized {
    /// Resolve the query of `migration`; errors are reported as text.
    fn build(&mut self, executor: &mut E, migration: &Migration) -> (r: Result<Query, String>)
        ensures
            final(executor).history() == old(executor).history(),
            final(executor).executed() == old(executor).executed(),
    ;
}

/// The builder for migration sets that hold static SQL only: asked to
/// resolve a dynamically-built migration, it refuses.
pub struct StaticQueries;

impl<E: Executor> QueryBuilder<E> for StaticQueries {
    fn build(&mut self, executor: &mut E, migration: &Migration) -> (r: Result<Query, String>) {
        Err("no query builder supplied for a dynamically-built migration".to_owned())
    }
}

/// Relies on std's `SystemTime::now` for the wall-clock time, converted to
/// milliseconds since the Unix epoch; a clock set before the epoch gives a
/// negative count. Nothing is assumed of the value: a clock may read
/// anything.
#[verifier::external_body]
pub(crate) fn now_epoch_millis() -> i64 {
    match std::time::SystemTime::now().duration_since(std::time::UNIX_EPOCH) {
        Ok(since) => since.as_millis() as i64,
        Err(before) => -(before.duration().as_millis() as i64),
    }
}

/// The context in which a set of migrations is applied: one executor, one
/// history-table name, one source migration set.
pub struct MigrationContext<E, B> {
    executor: E,
    builder: B,
    history_table: String,
    source: MigrationSet,
}

impl<E: Executor, B: QueryBuilder<E>> MigrationContext<E, B> {
    /// The rows of the schema history table, keyed by version.
    pub closed spec fn history(&self) -> Map<int, RowView> {
        self.executor.history()
    }

    /// The migration statements executed against the target schema so far.
    pub closed spec fn executed(&self) -> Seq<Seq<char>> {
        self.executor.executed()
    }

    /// The source migrations, in set order.
    pub closed spec fn source_view(&self) -> Seq<MigView> {
        migs_view(self.source.migrations@)
    }

    /// The name of the history table.
    pub closed spec fn table_view(&self) -> Seq<char> {
        self.history_table@
    }

    /// Couple an executor, a history-table name and a migration set.
    pub fn new(executor: E, builder: B, history_table: String, source: MigrationSet) -> (r: Self)
        ensures
            r.history() == executor.history(),
            r.executed() == executor.executed(),
            r.source_view() == migs_view(source.migrations@),
            r.table_view() == history_table@,
    {
        MigrationContext { executor, builder, history_table, source }
    }

    /// The source migrations whose version is beyond `last_applied`.
    pub fn migration_set(&self, last_applied: Option<i64>) -> (r: MigrationSet)
        ensures
            migs_view(r.migrations@) == crate::source::selected(
                self.source_view(),
                opt_version(last_applied),
                Option::None,
            ),
    {
        let r = self.source.subset_after(last_applied);
        proof {
            crate::source::lemma_filter_congruent(
                self.source_view(),
                |m: MigView| crate::source::above_version(m, opt_version(last_applied)),
                |m: MigView|
                    crate::source::above_version(m, opt_version(last_applied))
                        && crate::source::through_version(m, Option::None),
            );
        }
        r
    }

    /// A reference to the underlying executor.
    pub fn executor(&self) -> (r: &E)
        ensures
            r.history() == self.history(),
            r.executed() == self.executed(),
    {
        &self.executor
    }

    /// The whole source migration set.
    pub fn source_set(&self) -> (r: MigrationSet)
        ensures
            migs_view(r.migrations@) == self.source_view(),
    {
        self.source.clone()
    }

    /// Check that the history table exists and create it if not.
    pub fn check_history_table(&mut self) -> (r: Result<(), Error>)
        ensures
            final(self).history() == old(self).history(),
            final(self).executed() == old(self).executed(),
            final(self).source_view() == old(self).source_view(),
            r matches Err(e) ==> e is Execute,
    {
        match self.executor.create_history_if_not_exists(self.history_table.as_str()) {
            Ok(()) => Ok(()),
            Err(msg) => Err(Error::Execute(msg)),
        }
    }

    /// Drop the history table: on success the history is empty.
    pub fn drop_history_table(&mut self) -> (r: Result<(), Error>)
        ensures
            final(self).executed() == old(self).executed(),
            final(self).source_view() == old(self).source_view(),
            r is Ok ==> final(self).history() == Map::<int, RowView>::empty(),
            r matches Err(e) ==> e is Execute && final(self).history() == old(self).history(),
    {
        match self.executor.drop_history(self.history_table.as_str()) {
            Ok(()) => Ok(()),
            Err(msg) => Err(Error::Execute(msg)),
        }
    }

    /// All previously applied migrations, ordered by ascending version.
    pub fn previously_applied(&mut self) -> (r: Result<Vec<AppliedMigration>, Error>)
        ensures
            final(self).history() == old(self).history(),
            final(self).executed() == old(self).executed(),
            final(self).source_view() == old(self).source_view(),
            r matches Ok(v) ==> {
                &&& rows_sorted(rows_view(v@))
                &&& rows_as_map(rows_view(v@)) == old(self).history()
            },
            r matches Err(e) ==> e is Execute,
    {
        match self.executor.get_all_applied(self.history_table.as_str()) {
            Ok(v) => Ok(v),
            Err(msg) => Err(Error::Execute(msg)),
        }
    }

    /// The version of the most recently applied migration, or `None` when
    /// the history is empty.
    #[verifier::loop_isolation(false)]
    pub fn latest_version(&mut self) -> (r: Result<Option<i64>, Error>)
        ensures
            final(self).history() == old(self).history(),
            final(self).executed() == old(self).executed(),
            final(self).source_view() == old(self).source_view(),
            r matches Ok(l) ==> latest_of(old(self).history(), opt_version(l)),
            r matches Err(e) ==> e is Execute,
    {
        let rows = match self.previously_applied() {
            Ok(v) => v,
            Err(e) => {
                return Err(e);
            },
        };
        let ghost h = old(self).history();
        let mut latest: Option<i64> = None;
        for i in 0..rows.len()
            invariant
                i <= rows@.len(),
                rows_as_map(rows_view(rows@)) == h,
                match latest {
                    Option::None => true,
                    Option::Some(v) => exists|j: int|
                        0 <= j < i && rows@[j]@.version == v as int,
                },
                match latest {
                    Option::None => i == 0,
                    Option::Some(v) => forall|j: int|
                        0 <= j < i ==> rows@[j]@.version <= v as int,
                },
        {
            let v = rows[i].version;
            let take = match latest {
                Option::None => true,
                Option::Some(m) => v > m,
            };
            if take {
                latest = Some(v);
                proof {
                    assert(rows@[i as int]@.version == v as int);
                }
            }
        }
        proof {
            match latest {
                Option::None => {
                    assert(rows@.len() == 0);
                    assert forall|w: int| !h.contains_key(w) by {
                        crate::executor::lemma_rows_as_map_contains(rows_view(rows@), w);
                    }
                },
                Option::Some(v) => {
                    let j = choose|j: int|
                        0 <= j < rows@.len() && rows@[j]@.version == v as int;
                    crate::executor::lemma_rows_as_map_contains(rows_view(rows@), v as int);
                    assert(rows_view(rows@)[j].version == v as int);
                    assert(h.contains_key(v as int));
                    assert forall|w: int| h.contains_key(w) implies w <= v as int by {
                        crate::executor::lemma_rows_as_map_contains(rows_view(rows@), w);
                        let k = choose|k: int|
                            0 <= k < rows_view(rows@).len() && rows_view(rows@)[k].version == w;
                        assert(rows@[k]@.version == w);
                    }
                },
            }
        }
        Ok(latest)
    }

    /// Insert an applied migration into the history table; it fails on a
    /// version conflict.
    pub fn insert_applied(&mut self, applied: &AppliedMigration) -> (r: Result<(), Error>)
        ensures
            final(self).executed() == old(self).executed(),
            final(self).source_view() == old(self).source_view(),
            r is Ok ==> {
                &&& !old(self).history().contains_key(applied@.version)
                &&& final(self).history() == old(self).history().insert(
                    applied@.version,
                    applied@,
                )
            },
            r matches Err(e) ==> e is Execute && final(self).history() == old(self).history(),
    {
        match self.executor.insert_applied_migration(self.history_table.as_str(), applied) {
            Ok(()) => Ok(()),
            Err(msg) => Err(Error::Execute(msg)),
        }
    }

    /// Insert or replace an applied migration by version; used by soft apply.
    pub fn upsert_applied(&mut self, applied: &AppliedMigration) -> (r: Result<(), Error>)
        ensures
            final(self).executed() == old(self).executed(),
            final(self).source_view() == old(self).source_view(),
            r is Ok ==> final(self).history() == old(self).history().insert(
                applied@.version,
                applied@,
            ),
            r matches Err(e) ==> e is Execute && final(self).history() == old(self).history(),
    {
        match self.executor.upsert_applied_migration(self.history_table.as_str(), applied) {
            Ok(()) => Ok(()),
            Err(msg) => Err(Error::Execute(msg)),
        }
    }

    /// Resolve the query of `migration`: the content itself for a static SQL
    /// migration, and whatever the builder produces for a dynamically-built
    /// one. Resolution reads at most; it never changes the model.
    pub fn build(&mut self, migration: &Migration) -> (r: Result<Query, Error>)
        ensures
            final(self).history() == old(self).history(),
            final(self).executed() == old(self).executed(),
            final(self).source_view() == old(self).source_view(),
            migration@.kind == MigrationKind::Sql ==> (r matches Ok(q) && q@
                == migration@.content),
            r matches Err(e) ==> e is ResolveQuery,
    {
        match migration.kind() {
            MigrationKind::Sql => Ok(Query::new(migration.content())),
            MigrationKind::Rust => {
                match self.builder.build(&mut self.executor, migration) {
                    Ok(q) => Ok(q),
                    Err(msg) => Err(Error::ResolveQuery(msg)),
                }
            },
        }
    }

    /// Apply one migration: resolve its query, run it under the migration's
    /// transaction policy, and on success stamp and record an
    /// [`AppliedMigration`] in the history table.
    ///
    /// On success the history gains exactly the new row and the executed
    /// statements grow by the migration's batch. On failure the history is
    /// unchanged; for a no-transaction migration the statements already run
    /// stay executed, which is the documented inconsistency window.
    pub fn apply(&mut self, migration: &Migration) -> (r: Result<AppliedMigration, Error>)
        ensures
            final(self).source_view() == old(self).source_view(),
            r matches Ok(a) ==> {
                &&& a@.version == migration@.id.version
                &&& a@.description == migration@.id.description
                &&& a@.duration_ms >= 0
                &&& migration@.kind == MigrationKind::Sql ==> a@.content == migration@.content
                &&& !old(self).history().contains_key(migration@.id.version)
                &&& final(self).history() == old(self).history().insert(
                    migration@.id.version,
                    a@,
                )
                &&& final(self).executed() == old(self).executed() + batch_of(
                    a@.content,
                    migration@.no_tx,
                )
            },
            r matches Err(e) ==> {
                &&& final(self).history() == old(self).history()
                &&& (e is ResolveQuery ==> final(self).executed() == old(self).executed())
                &&& (e matches Error::ExecuteMigration { id, no_tx, .. } ==> id@
                    == migration@.id && no_tx == migration@.no_tx)
                &&& exists|q: Seq<char>, k: int|
                    {
                        &&& migration@.kind == MigrationKind::Sql ==> q == migration@.content
                        &&& 0 <= k <= batch_of(q, migration@.no_tx).len()
                        &&& final(self).executed() == old(self).executed() + #[trigger] batch_of(
                            q,
                            migration@.no_tx,
                        ).take(k)
                    }
                &&& (e is Execute || e is ExecuteMigration || e is ResolveQuery)
            },
    {
        let start = now_epoch_millis();
        let query = match self.build(migration) {
            Ok(q) => q,
            Err(e) => {
                proof {
                    let q0 = migration@.content;
                    assert(batch_of(q0, migration@.no_tx).take(0) =~= Seq::<Seq<char>>::empty());
                    assert(self.executed() =~= old(self).executed() + batch_of(
                        q0,
                        migration@.no_tx,
                    ).take(0));
                }
                return Err(e);
            },
        };
        let outcome = if migration.no_tx() {
            self.executor.apply_no_tx(&query)
        } else {
            self.executor.apply_tx(&query)
        };
        match outcome {
            Ok(()) => (),
            Err(msg) => {
                proof {
                    if migration@.no_tx {
                        let k = choose|k: int|
                            0 <= k <= statements_of(query@).len() && self.executor.executed()
                                == old(self).executed() + #[trigger] statements_of(
                                query@,
                            ).take(k);
                        assert(batch_of(query@, migration@.no_tx).take(k) =~= statements_of(
                            query@,
                        ).take(k));
                    } else {
                        let b = batch_of(query@, migration@.no_tx);
                        assert(b.take(0) =~= Seq::<Seq<char>>::empty());
                        assert(self.executor.executed() =~= old(self).executed() + b.take(0));
                    }
                }
                return Err(
                    Error::ExecuteMigration {
                        msg,
                        id: migration.migration_id(),
                        no_tx: migration.no_tx(),
                    },
                );
            },
        }
        let end = now_epoch_millis();
        let duration_ms: i64 = if start >= 0 && end >= start {
            end - start
        } else {
            0
        };
        let applied = migration.to_applied(duration_ms, end, query.sql());
        match self.executor.insert_applied_migration(self.history_table.as_str(), &applied) {
            Ok(()) => {
                proof {
                    if migration@.no_tx {
                        let b = batch_of(applied@.content, migration@.no_tx);
                        assert(applied@.content == query@);
                        assert(self.executed() =~= old(self).executed() + b);
                    } else {
                        assert(batch_of(applied@.content, migration@.no_tx) =~= seq![query@]);
                        assert(old(self).executed().push(query@) =~= old(self).executed() + seq![
                            query@,
                        ]);
                    }
                }
                Ok(applied)
            },
            Err(msg) => {
                proof {
                    let b = batch_of(query@, migration@.no_tx);
                    assert(b.take(b.len() as int) =~= b);
                    if migration@.no_tx {
                    } else {
                        assert(old(self).executed().push(query@) =~= old(self).executed() + seq![
                            query@,
                        ]);
                    }
                }
                Err(Error::Execute(msg))
            },
        }
    }
}

} // verus!
