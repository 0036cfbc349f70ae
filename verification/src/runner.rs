//! The [`Runner`] sequences full migration operations — apply, soft apply,
//! dry run, list — atop a [`MigrationContext`], producing a [`Report`] of
//! [`MigrationResult`]s and wrapping any mid-run failure together with the
//! report of everything completed before it.
use crate::context::{batch_of, MigrationContext, QueryBuilder};
use crate::error::{ids_view, Error};
use crate::executor::{latest_of, rows_as_map, rows_sorted, Executor};
use crate::report::{
    applied_result, results_view, soft_applied_result, unapplied_result, MigrationResult,
    MigrationState, Report, ResultView, RunDuration, TransactionalView,
};
use crate::source::{
    migs_view, opt_version, rows_view, IdView, MigView, MigrationId, MigrationKind, RowView,
};
use crate::text::push_char;
use vstd::prelude::*;
use vstd::string::StringExecFns;

verus! {

/// The identity a history row carries.
pub open spec fn row_id(r: RowView) -> IdView {
    IdView { version: r.version, description: r.description }
}

/// The id occurs in the source migrations.
pub open spec fn id_in_source(src: Seq<MigView>, id: IdView) -> bool {
    exists|i: int| 0 <= i < src.len() && src[i].id == id
}

/// The id occurs in the list.
pub open spec fn id_in_list(ids: Seq<IdView>, id: IdView) -> bool {
    exists|i: int| 0 <= i < ids.len() && ids[i] == id
}

/// Every migration recorded in the history also stands in the source.
pub open spec fn in_sync(h: Map<int, RowView>, src: Seq<MigView>) -> bool {
    forall|v: int| #[trigger] h.contains_key(v) ==> id_in_source(src, row_id(h[v]))
}

/// `at` is exactly the list of history ids missing from the source, in
/// history order: the version-sorted rows of `h`, filtered.
pub open spec fn sync_failure(at: Seq<IdView>, h: Map<int, RowView>, src: Seq<MigView>) -> bool {
    exists|rows: Seq<RowView>|
        {
            &&& rows_sorted(rows)
            &&& #[trigger] rows_as_map(rows) == h
            &&& at == rows.map_values(|r: RowView| row_id(r)).filter(
                |id: IdView| !id_in_source(src, id),
            )
        }
}

/// The migration's version is beyond every version in the history.
pub open spec fn hist_above(h: Map<int, RowView>, m: MigView) -> bool {
    forall|v: int| #[trigger] h.contains_key(v) ==> m.id.version > v
}

/// The selection test: beyond everything applied, within the target.
pub open spec fn sel_pred(h: Map<int, RowView>, target: Option<int>) -> spec_fn(MigView) -> bool {
    |m: MigView| hist_above(h, m) && crate::source::through_version(m, target)
}

/// The migrations an operation selects: those of the source beyond everything
/// applied and within the target, in source order.
pub open spec fn selected_from(src: Seq<MigView>, h: Map<int, RowView>, target: Option<
    int,
>) -> Seq<MigView> {
    src.filter(sel_pred(h, target))
}

/// The requested target version is acceptable: not earlier than anything
/// applied, and not beyond the last source version. An empty source accepts
/// every target.
pub open spec fn target_ok(src: Seq<MigView>, h: Map<int, RowView>, target: Option<int>) -> bool {
    match target {
        Option::None => true,
        Option::Some(t) => src.len() == 0 || {
            &&& forall|v: int| #[trigger] h.contains_key(v) ==> v <= t
            &&& exists|i: int| 0 <= i < src.len() && src[i].id.version >= t
        },
    }
}

/// The result records `m` as applied, not as a dry run.
pub open spec fn applied_matches(rv: ResultView, m: MigView) -> bool {
    &&& rv.dryrun == false
    &&& rv.version == m.id.version
    &&& rv.state == MigrationState::Applied
    &&& rv.description == m.id.description
    &&& (m.kind == MigrationKind::Sql ==> rv.content == m.content)
    &&& rv.transactional == (if m.no_tx {
        TransactionalView::NoTransaction
    } else {
        TransactionalView::InTransaction
    })
    &&& rv.applied_at is Some
    &&& rv.duration_ms matches RunDuration::Duration(d) && d >= 0
}

/// The result records `m` as left unapplied by a dry run, carrying its
/// resolved query.
pub open spec fn unapplied_matches(rv: ResultView, m: MigView) -> bool {
    &&& rv.dryrun == true
    &&& rv.version == m.id.version
    &&& rv.state == MigrationState::Unapplied
    &&& rv.description == m.id.description
    &&& (m.kind == MigrationKind::Sql ==> rv.content == m.content)
    &&& rv.transactional == (if m.no_tx {
        TransactionalView::NoTransaction
    } else {
        TransactionalView::InTransaction
    })
    &&& rv.applied_at is None
    &&& rv.duration_ms == RunDuration::Unapplied
}

/// The content a soft apply records: a fixed marker, then the resolved query
/// on its own line.
pub open spec fn soft_content(q: Seq<char>) -> Seq<char> {
    "-- SOFT APPLIED:\n\n"@ + q + "\n"@
}

/// The result records `m` as soft applied with no run time.
pub open spec fn soft_matches(rv: ResultView, m: MigView, dryrun: bool) -> bool {
    &&& rv.dryrun == dryrun
    &&& rv.version == m.id.version
    &&& rv.state == MigrationState::SoftApplied
    &&& rv.description == m.id.description
    &&& (m.kind == MigrationKind::Sql ==> rv.content == soft_content(m.content))
    &&& rv.transactional == TransactionalView::Other("Soft applied"@)
    &&& rv.applied_at is Some
    &&& rv.duration_ms == RunDuration::Duration(0)
}

/// The history row a recorded result stands for.
pub open spec fn row_of_result(rv: ResultView) -> RowView {
    RowView {
        version: rv.version,
        description: rv.description,
        content: rv.content,
        duration_ms: match rv.duration_ms {
            RunDuration::Duration(d) => d as int,
            RunDuration::Unapplied => 0,
        },
        applied_at: match rv.applied_at {
            Option::Some(t) => t,
            Option::None => 0,
        },
    }
}

/// The history extended with the row of each recorded result, in order.
pub open spec fn with_results(h: Map<int, RowView>, rs: Seq<ResultView>) -> Map<int, RowView>
    decreases rs.len(),
{
    if rs.len() == 0 {
        h
    } else {
        with_results(h, rs.drop_last()).insert(rs.last().version, row_of_result(rs.last()))
    }
}

/// Whether a recorded result ran outside a transaction.
pub open spec fn result_no_tx(rv: ResultView) -> bool {
    rv.transactional == TransactionalView::NoTransaction
}

/// The executed-statement entries of the recorded results, in order.
pub open spec fn batches_of(rs: Seq<ResultView>) -> Seq<Seq<char>>
    decreases rs.len(),
{
    if rs.len() == 0 {
        Seq::empty()
    } else {
        batches_of(rs.drop_last()) + batch_of(rs.last().content, result_no_tx(rs.last()))
    }
}

/// Extending the history never loses a key.
pub proof fn lemma_with_results_monotone(h: Map<int, RowView>, rs: Seq<ResultView>, v: int)
    requires
        h.contains_key(v),
    ensures
        with_results(h, rs).contains_key(v),
    decreases rs.len(),
{
    if rs.len() > 0 {
        lemma_with_results_monotone(h, rs.drop_last(), v);
    }
}

/// Filtering twice is filtering by the conjunction.
pub proof fn lemma_filter_compose<A>(s: Seq<A>, p: spec_fn(A) -> bool, q: spec_fn(A) -> bool)
    ensures
        s.filter(p).filter(q) =~= s.filter(|x: A| p(x) && q(x)),
    decreases s.len(),
{
    reveal_with_fuel(Seq::filter, 2);
    if s.len() > 0 {
        lemma_filter_compose(s.drop_last(), p, q);
        let t = s.drop_last();
        let a = s.last();
        assert(s.filter(p) == if p(a) {
            t.filter(p).push(a)
        } else {
            t.filter(p)
        });
        if p(a) {
            assert(t.filter(p).push(a).drop_last() =~= t.filter(p));
        }
    }
}

/// Check that every migration in the history is also in the source: report
/// exactly the applied ids that the source does not hold, in applied order.
#[verifier::loop_isolation(false)]
pub fn check_migrations_in_sync(applied: Vec<MigrationId>, source: Vec<MigrationId>) -> (r: Result<
    (),
    Error,
>)
    ensures
        r is Ok <==> forall|i: int|
            0 <= i < applied@.len() ==> id_in_list(
                ids_view(source@),
                #[trigger] applied@[i]@,
            ),
        r matches Err(e) ==> e matches Error::OutOfSync { at_issue, .. } && ids_view(at_issue@)
            == ids_view(applied@).filter(|id: IdView| !id_in_list(ids_view(source@), id)),
{
    let ghost pred = (|id: IdView| !id_in_list(ids_view(source@), id));
    let mut missing: Vec<MigrationId> = Vec::new();
    proof {
        reveal_with_fuel(Seq::filter, 2);
        assert(ids_view(applied@).take(0) =~= Seq::<IdView>::empty());
        assert(ids_view(missing@) =~= ids_view(applied@).take(0).filter(pred));
    }
    for i in 0..applied.len()
        invariant
            i <= applied@.len(),
            ids_view(missing@) =~= ids_view(applied@).take(i as int).filter(pred),
    {
        let ghost prefix = ids_view(applied@).take(i as int);
        let ghost before = ids_view(missing@);
        let found = id_in_exec(&source, &applied[i]);
        if !found {
            missing.push(applied[i].clone());
            proof {
                assert(ids_view(missing@) =~= before.push(applied@[i as int]@));
            }
        }
        proof {
            reveal_with_fuel(Seq::filter, 2);
            let w = ids_view(applied@).take(i + 1);
            assert(w =~= prefix.push(applied@[i as int]@));
            assert(w.drop_last() =~= prefix);
            assert(w.last() == applied@[i as int]@);
            assert(pred(applied@[i as int]@) == !found);
            assert(w.filter(pred) == if pred(applied@[i as int]@) {
                prefix.filter(pred).push(applied@[i as int]@)
            } else {
                prefix.filter(pred)
            });
            assert(ids_view(missing@) =~= w.filter(pred));
        }
    }
    proof {
        assert(ids_view(applied@).take(applied@.len() as int) =~= ids_view(applied@));
    }
    if missing.len() == 0 {
        proof {
            let full = ids_view(applied@);
            assert forall|i: int|
                0 <= i < applied@.len() implies id_in_list(
                ids_view(source@),
                #[trigger] applied@[i]@,
            ) by {
                if !id_in_list(ids_view(source@), applied@[i]@) {
                    full.lemma_filter_contains(pred, i);
                }
            }
        }
        return Ok(());
    }
    proof {
        let full = ids_view(applied@);
        let m = full.filter(pred);
        assert(m.len() > 0);
        full.lemma_filter_pred(pred, 0);
        let bad = m[0];
        assert(m.contains(bad));
        full.lemma_filter_contains_rev(pred, bad);
        let i = choose|i: int| 0 <= i < full.len() && full[i] == bad;
        assert(applied@[i]@ == bad);
        assert(!id_in_list(ids_view(source@), applied@[i]@));
    }
    Err(
        Error::OutOfSync {
            at_issue: missing,
            msg: "version/name applied but missing in source".to_owned(),
        },
    )
}

/// Whether `id` occurs in `ids`.
#[verifier::loop_isolation(false)]
fn id_in_exec(ids: &Vec<MigrationId>, id: &MigrationId) -> (r: bool)
    ensures
        r == id_in_list(ids_view(ids@), id@),
{
    for i in 0..ids.len()
        invariant
            i <= ids@.len(),
            forall|j: int| 0 <= j < i ==> ids@[j]@ != id@,
    {
        let same = ids[i].version() == id.version() && ids[i].description().eq(
            &id.description(),
        );
        if same {
            proof {
                assert(ids_view(ids@)[i as int] == id@);
            }
            return true;
        }
    }
    false
}

/// Run operations on a set of migrations for the chosen context.
pub struct Runner<E, B> {
    context: MigrationContext<E, B>,
}

impl<E: Executor, B: QueryBuilder<E>> Runner<E, B> {
    /// The rows of the schema history table, keyed by version.
    pub closed spec fn history(&self) -> Map<int, RowView> {
        self.context.history()
    }

    /// The migration statements executed against the target schema so far.
    pub closed spec fn executed(&self) -> Seq<Seq<char>> {
        self.context.executed()
    }

    /// The source migrations, in set order.
    pub closed spec fn source_view(&self) -> Seq<MigView> {
        self.context.source_view()
    }

    /// Create a new `Runner` from a context.
    pub fn new(context: MigrationContext<E, B>) -> (r: Self)
        ensures
            r.history() == context.history(),
            r.executed() == context.executed(),
            r.source_view() == context.source_view(),
    {
        Runner { context }
    }

    /// A reference to the underlying context.
    pub fn context(&self) -> (r: &MigrationContext<E, B>)
        ensures
            r.history() == self.history(),
            r.executed() == self.executed(),
            r.source_view() == self.source_view(),
    {
        &self.context
    }

    /// Create the history table if it does not exist.
    pub fn init_history(&mut self) -> (r: Result<(), Error>)
        ensures
            final(self).history() == old(self).history(),
            final(self).executed() == old(self).executed(),
            final(self).source_view() == old(self).source_view(),
            r matches Err(e) ==> e is Execute,
    {
        self.context.check_history_table()
    }

    /// Drop the history table.
    pub fn drop_history(&mut self) -> (r: Result<(), Error>)
        ensures
            final(self).executed() == old(self).executed(),
            final(self).source_view() == old(self).source_view(),
            r is Ok ==> final(self).history() == Map::<int, RowView>::empty(),
            r matches Err(e) ==> e is Execute && final(self).history() == old(self).history(),
    {
        self.context.drop_history_table()
    }

    /// Check the history table exists, then that every applied migration is
    /// still in the source.
    fn validate_source(&mut self) -> (r: Result<(), Error>)
        ensures
            final(self).history() == old(self).history(),
            final(self).executed() == old(self).executed(),
            final(self).source_view() == old(self).source_view(),
            r is Ok ==> in_sync(old(self).history(), old(self).source_view()),
            r matches Err(e) ==> {
                &&& (e is Execute || e is OutOfSync)
                &&& (e matches Error::OutOfSync { at_issue, .. } ==> {
                    &&& sync_failure(
                        ids_view(at_issue@),
                        old(self).history(),
                        old(self).source_view(),
                    )
                    &&& !in_sync(old(self).history(), old(self).source_view())
                })
            },
    {
        let ghost h = old(self).history();
        let ghost src = old(self).source_view();
        match self.context.check_history_table() {
            Ok(()) => (),
            Err(e) => {
                return Err(e);
            },
        }
        let rows = match self.context.previously_applied() {
            Ok(v) => v,
            Err(e) => {
                return Err(e);
            },
        };
        let mut applied: Vec<MigrationId> = Vec::new();
        for i in 0..rows.len()
            invariant
                i <= rows@.len(),
                applied@.len() == i,
                forall|j: int|
                    0 <= j < i ==> #[trigger] applied@[j]@ == row_id(rows_view(rows@)[j]),
        {
            applied.push(MigrationId::new(rows[i].version, rows[i].description.clone()));
        }
        let source = self.context.source_set().migration_ids();
        let ghost src_ids = ids_view(source@);
        proof {
            assert forall|id: IdView| id_in_list(src_ids, id) == id_in_source(src, id) by {
                if id_in_list(src_ids, id) {
                    let i = choose|i: int| 0 <= i < src_ids.len() && src_ids[i] == id;
                    assert(src[i].id == id);
                }
                if id_in_source(src, id) {
                    let i = choose|i: int| 0 <= i < src.len() && src[i].id == id;
                    assert(src_ids[i] == id);
                }
            }
        }
        let r = check_migrations_in_sync(applied, source);
        proof {
            let rv = rows_view(rows@);
            match r {
                Result::Ok(_) => {
                    assert forall|v: int| #[trigger] h.contains_key(v) implies id_in_source(
                        src,
                        row_id(h[v]),
                    ) by {
                        crate::executor::lemma_rows_as_map_contains(rv, v);
                        let i = choose|i: int| 0 <= i < rv.len() && rv[i].version == v;
                        crate::executor::lemma_rows_as_map_index(rv, i);
                        assert(h[v] == rv[i]);
                        assert(ids_view(applied@)[i] == row_id(rv[i]));
                        assert(id_in_list(src_ids, row_id(rv[i])));
                    }
                },
                Result::Err(ref e) => {
                    if let Error::OutOfSync { ref at_issue, .. } = e {
                        let at = ids_view(at_issue@);
                        assert(ids_view(applied@) =~= rv.map_values(|r0: RowView| row_id(r0)));
                        crate::source::lemma_filter_congruent(
                            ids_view(applied@),
                            |id: IdView| !id_in_list(ids_view(source@), id),
                            |id: IdView| !id_in_source(src, id),
                        );
                        assert(at == ids_view(applied@).filter(
                            |id: IdView| !id_in_list(ids_view(source@), id),
                        ));
                        assert(at == rv.map_values(|r0: RowView| row_id(r0)).filter(
                            |id: IdView| !id_in_source(src, id),
                        ));
                        assert(sync_failure(at, h, src));
                        let i = choose|i: int|
                            0 <= i < applied@.len() && !id_in_list(
                                ids_view(source@),
                                #[trigger] applied@[i]@,
                            );
                        assert(applied@[i]@ == row_id(rv[i]));
                        assert(crate::executor::rows_distinct(rv));
                        crate::executor::lemma_rows_as_map_index(rv, i);
                        assert(h.contains_key(rv[i].version));
                        assert(row_id(h[rv[i].version]) == applied@[i]@);
                        assert(!id_in_source(src, row_id(h[rv[i].version])));
                        assert(!in_sync(h, src));
                    }
                },
            }
        }
        r
    }

    /// Check that the requested target version is acceptable for the run.
    fn validate_target(&self, last_applied: Option<i64>, target_version: Option<i64>) -> (r:
        Result<(), Error>)
        ensures
            r is Ok <==> allowed_target(
                self.source_view(),
                opt_version(last_applied),
                opt_version(target_version),
            ),
            r matches Err(e) ==> e is Invalid,
    {
        let set = self.context.source_set();
        let ghost src = self.source_view();
        proof {
            assert(src.len() == set.migrations@.len());
        }
        let source = match set.max() {
            Option::Some(s) => s,
            Option::None => {
                return Ok(());
            },
        };
        proof {
            let i = choose|i: int|
                0 <= i < set.migrations@.len() && set.migrations@[i]@.id.version == source as int;
            assert(src[i] == set.migrations@[i]@);
            assert(forall|j: int| 0 <= j < src.len() ==> src[j] == set.migrations@[j]@);
        }
        let target = match target_version {
            Option::Some(t) => t,
            Option::None => {
                return Ok(());
            },
        };
        match last_applied {
            Option::Some(applied) if target < applied => Err(
                Error::Invalid("target version earlier than latest applied version".to_owned()),
            ),
            _ if target > source => Err(
                Error::Invalid("target version does not exist in the source".to_owned()),
            ),
            _ => Ok(()),
        }
    }

    /// Apply unapplied migrations up to and including the target version —
    /// or, on a dry run, only resolve their queries and report what would be
    /// applied, executing and recording nothing.
    ///
    /// Validation failures come first and leave the database untouched; a
    /// mid-run failure is wrapped as `Partial`, carrying the report of what
    /// completed before it. See [`run_apply_post`] for the full guarantee.
    #[verifier::loop_isolation(false)]
    pub fn run_apply(&mut self, target_version: Option<i64>, dryrun: bool) -> (r: Result<
        Report,
        Error,
    >)
        ensures
            final(self).source_view() == old(self).source_view(),
            run_apply_post(
                old(self).history(),
                old(self).executed(),
                final(self).history(),
                final(self).executed(),
                old(self).source_view(),
                opt_version(target_version),
                dryrun,
                true,
                r,
            ),
    {
        self.apply_run(target_version, dryrun, true)
    }

    /// The body of an apply run, optionally without the validation step.
    #[verifier::loop_isolation(false)]
    #[verifier::rlimit(60)]
    pub(crate) fn apply_run(&mut self, target_version: Option<i64>, dryrun: bool, validate: bool) -> (r: Result<
        Report,
        Error,
    >)
        ensures
            final(self).source_view() == old(self).source_view(),
            run_apply_post(
                old(self).history(),
                old(self).executed(),
                final(self).history(),
                final(self).executed(),
                old(self).source_view(),
                opt_version(target_version),
                dryrun,
                validate,
                r,
            ),
    {
        let ghost h0 = old(self).history();
        let ghost e0 = old(self).executed();
        let ghost src = old(self).source_view();
        if validate {
            match self.validate_source() {
                Ok(()) => (),
                Err(e) => {
                    return Err(e);
                },
            }
        }
        let last_applied = match self.context.latest_version() {
            Ok(l) => l,
            Err(e) => {
                return Err(e);
            },
        };
        if validate {
            match self.validate_target(last_applied, target_version) {
                Ok(()) => (),
                Err(e) => {
                    proof {
                        lemma_target_bridge(src, h0, opt_version(last_applied), opt_version(target_version));
                    }
                    return Err(e);
                },
            }
        }
        let unapplied = self.context.migration_set(last_applied);
        let set = unapplied.subset_through(target_version);
        let ghost sel = selected_from(src, h0, opt_version(target_version));
        proof {
            lemma_target_bridge(src, h0, opt_version(last_applied), opt_version(target_version));
            let pa = (|m: MigView| crate::source::above_version(m, opt_version(last_applied))
                && crate::source::through_version(m, Option::<int>::None));
            let pt = (|m: MigView| crate::source::through_version(m, opt_version(target_version)));
            let ps = sel_pred(h0, opt_version(target_version));
            assert(migs_view(unapplied.migrations@) == src.filter(pa));
            assert(migs_view(set.migrations@) == migs_view(unapplied.migrations@).filter(pt));
            lemma_filter_compose(src, pa, pt);
            assert forall|m: MigView| (pa(m) && pt(m)) == #[trigger] ps(m) by {
                match opt_version(last_applied) {
                    Option::None => {},
                    Option::Some(la) => {
                        if crate::source::above_version(m, opt_version(last_applied)) {
                            assert(forall|v: int|
                                #[trigger] h0.contains_key(v) ==> m.id.version > v);
                        }
                        if hist_above(h0, m) {
                            assert(h0.contains_key(la));
                        }
                    },
                }
            }
            crate::source::lemma_filter_congruent(src, |x: MigView| pa(x) && pt(x), ps);
            assert(migs_view(set.migrations@) =~= sel);
            assert forall|i: int| 0 <= i < sel.len() implies !h0.contains_key(
                #[trigger] sel[i].id.version,
            ) by {
                src.lemma_filter_pred(ps, i);
                assert(hist_above(h0, sel[i]));
                if h0.contains_key(sel[i].id.version) {
                    assert(sel[i].id.version > sel[i].id.version);
                }
            }
        }
        let mut results: Vec<MigrationResult> = Vec::new();
        let n = set.migrations.len();
        for i in 0..n
            invariant
                n == set.migrations@.len(),
                migs_view(set.migrations@) == sel,
                self.source_view() == src,
                results_view(results@).len() == i,
                forall|j: int|
                    0 <= j < i ==> if dryrun {
                        unapplied_matches(#[trigger] results_view(results@)[j], sel[j])
                    } else {
                        applied_matches(results_view(results@)[j], sel[j])
                    },
                dryrun ==> self.history() == h0 && self.executed() == e0,
                !dryrun ==> self.history() == with_results(h0, results_view(results@))
                    && self.executed() == e0 + batches_of(results_view(results@)),
        {
            let m = &set.migrations[i];
            let ghost mv = sel[i as int];
            proof {
                assert(migs_view(set.migrations@)[i as int] == m@);
                assert(m@ == mv);
            }
            let ghost rs = results_view(results@);
            if dryrun {
                let query = match self.context.build(m) {
                    Ok(q) => q,
                    Err(e) => {
                        let rep = Report::new(results);
                        proof {
                            assert(rep@ == rs);
                            assert(rep@.len() <= sel.len());
                            assert(self.history() == h0 && self.executed() == e0);
                        }
                        return Err(Error::Partial { source: Box::new(e), report: rep });
                    },
                };
                let res = MigrationResult::from_unapplied(m, query.sql());
                results.push(res);
                proof {
                    assert(results_view(results@) =~= rs.push(res@));
                    assert(unapplied_matches(res@, mv));
                }
            } else {
                let ghost prev_exec = self.executed();
                let applied = match self.context.apply(m) {
                    Ok(a) => a,
                    Err(e) => {
                        let rep = Report::new(results);
                        proof {
                            let (q, k) = choose|q: Seq<char>, k: int|
                                {
                                    &&& m@.kind == MigrationKind::Sql ==> q == m@.content
                                    &&& 0 <= k <= batch_of(q, m@.no_tx).len()
                                    &&& self.executed() == prev_exec + #[trigger] batch_of(
                                        q,
                                        m@.no_tx,
                                    ).take(k)
                                };
                            assert(rep@ == rs);
                            assert(prev_exec == e0 + batches_of(rep@));
                            assert(self.executed() == e0 + batches_of(rep@) + batch_of(
                                q,
                                m@.no_tx,
                            ).take(k));
                            let pre = e0 + batches_of(rep@);
                            assert(self.executed().subrange(0, pre.len() as int) =~= pre);
                            assert(pre.is_prefix_of(self.executed()));
                            assert(rep@.len() <= sel.len());
                            assert(self.history() == with_results(h0, rep@));
                        }
                        return Err(Error::Partial { source: Box::new(e), report: rep });
                    },
                };
                let res = MigrationResult::from_applied(&applied, Some(m.no_tx()));
                results.push(res);
                proof {
                    assert(results_view(results@) =~= rs.push(res@));
                    assert(applied_matches(res@, mv));
                    assert(row_of_result(res@) == applied@);
                    assert(results_view(results@).drop_last() =~= rs);
                    assert(with_results(h0, results_view(results@)) =~= with_results(
                        h0,
                        rs,
                    ).insert(mv.id.version, applied@));
                    assert(result_no_tx(res@) == mv.no_tx);
                    assert(batches_of(results_view(results@)) =~= batches_of(rs) + batch_of(
                        applied@.content,
                        mv.no_tx,
                    ));
                    assert(self.executed() =~= e0 + batches_of(results_view(results@)));
                }
            }
        }
        let ghost rs = results_view(results@);
        let rep = Report::new(results);
        proof {
            assert(rep@ == rs);
        }
        Ok(rep)
    }

    /// Apply all unapplied migrations, or report them on a dry run.
    pub fn run_apply_all(&mut self, dryrun: bool) -> (r: Result<Report, Error>)
        ensures
            final(self).source_view() == old(self).source_view(),
            run_apply_post(
                old(self).history(),
                old(self).executed(),
                final(self).history(),
                final(self).executed(),
                old(self).source_view(),
                Option::None,
                dryrun,
                true,
                r,
            ),
    {
        self.run_apply(None, dryrun)
    }

    /// Soft apply the unapplied migrations up to and including the target
    /// version: each query is resolved, to show it still can be, and a
    /// history row with a marker content and no run time is upserted — the
    /// query itself is never executed. Used for backfilling history.
    #[verifier::loop_isolation(false)]
    pub fn run_soft_apply(&mut self, target_version: Option<i64>, dryrun: bool) -> (r: Result<
        Report,
        Error,
    >)
        ensures
            final(self).source_view() == old(self).source_view(),
            soft_apply_post(
                old(self).history(),
                old(self).executed(),
                final(self).history(),
                final(self).executed(),
                old(self).source_view(),
                opt_version(target_version),
                dryrun,
                true,
                r,
            ),
    {
        self.soft_apply_run(target_version, dryrun, true)
    }

    /// The body of a soft-apply run, optionally without the validation step.
    #[verifier::loop_isolation(false)]
    pub(crate) fn soft_apply_run(&mut self, target_version: Option<i64>, dryrun: bool, validate: bool) -> (r: Result<
        Report,
        Error,
    >)
        ensures
            final(self).source_view() == old(self).source_view(),
            soft_apply_post(
                old(self).history(),
                old(self).executed(),
                final(self).history(),
                final(self).executed(),
                old(self).source_view(),
                opt_version(target_version),
                dryrun,
                validate,
                r,
            ),
    {
        let ghost h0 = old(self).history();
        let ghost e0 = old(self).executed();
        let ghost src = old(self).source_view();
        if validate {
            match self.validate_source() {
                Ok(()) => (),
                Err(e) => {
                    return Err(e);
                },
            }
        }
        let last_applied = match self.context.latest_version() {
            Ok(l) => l,
            Err(e) => {
                return Err(e);
            },
        };
        if validate {
            match self.validate_target(last_applied, target_version) {
                Ok(()) => (),
                Err(e) => {
                    proof {
                        lemma_target_bridge(src, h0, opt_version(last_applied), opt_version(target_version));
                    }
                    return Err(e);
                },
            }
        }
        let unapplied = self.context.migration_set(last_applied);
        let set = unapplied.subset_through(target_version);
        let ghost sel = selected_from(src, h0, opt_version(target_version));
        proof {
            lemma_target_bridge(src, h0, opt_version(last_applied), opt_version(target_version));
            let pa = (|m: MigView| crate::source::above_version(m, opt_version(last_applied))
                && crate::source::through_version(m, Option::<int>::None));
            let pt = (|m: MigView| crate::source::through_version(m, opt_version(target_version)));
            let ps = sel_pred(h0, opt_version(target_version));
            assert(migs_view(unapplied.migrations@) == src.filter(pa));
            assert(migs_view(set.migrations@) == migs_view(unapplied.migrations@).filter(pt));
            lemma_filter_compose(src, pa, pt);
            assert forall|m: MigView| (pa(m) && pt(m)) == #[trigger] ps(m) by {
                match opt_version(last_applied) {
                    Option::None => {},
                    Option::Some(la) => {
                        if crate::source::above_version(m, opt_version(last_applied)) {
                            assert(forall|v: int|
                                #[trigger] h0.contains_key(v) ==> m.id.version > v);
                        }
                        if hist_above(h0, m) {
                            assert(h0.contains_key(la));
                        }
                    },
                }
            }
            crate::source::lemma_filter_congruent(src, |x: MigView| pa(x) && pt(x), ps);
            assert(migs_view(set.migrations@) =~= sel);
            assert forall|i: int| 0 <= i < sel.len() implies !h0.contains_key(
                #[trigger] sel[i].id.version,
            ) by {
                src.lemma_filter_pred(ps, i);
                assert(hist_above(h0, sel[i]));
                if h0.contains_key(sel[i].id.version) {
                    assert(sel[i].id.version > sel[i].id.version);
                }
            }
        }
        let mut results: Vec<MigrationResult> = Vec::new();
        let n = set.migrations.len();
        for i in 0..n
            invariant
                n == set.migrations@.len(),
                migs_view(set.migrations@) == sel,
                self.source_view() == src,
                self.executed() == e0,
                results_view(results@).len() == i,
                forall|j: int|
                    0 <= j < i ==> soft_matches(#[trigger] results_view(results@)[j], sel[j], dryrun),
                dryrun ==> self.history() == h0,
                !dryrun ==> self.history() == with_results(h0, results_view(results@)),
        {
            let m = &set.migrations[i];
            let ghost mv = sel[i as int];
            proof {
                assert(migs_view(set.migrations@)[i as int] == m@);
                assert(m@ == mv);
            }
            let ghost rs = results_view(results@);
            let query = match self.context.build(m) {
                Ok(q) => q,
                Err(e) => {
                    let rep = Report::new(results);
                    return Err(Error::Partial { source: Box::new(e), report: rep });
                },
            };
            let mut content = "-- SOFT APPLIED:\n\n".to_owned();
            content.append(query.sql());
            push_char(&mut content, '\n');
            proof {
                reveal_strlit("\n");
                assert("\n"@ =~= Seq::<char>::empty().push('\n'));
                assert(content@ =~= soft_content(query@));
            }
            let now = crate::context::now_epoch_millis();
            let applied = m.to_applied(0, now, content.as_str());
            let res = MigrationResult::from_soft_applied(&applied, dryrun);
            if !dryrun {
                match self.context.upsert_applied(&applied) {
                    Ok(()) => (),
                    Err(e) => {
                        let rep = Report::new(results);
                        return Err(Error::Partial { source: Box::new(e), report: rep });
                    },
                }
            }
            results.push(res);
            proof {
                assert(results_view(results@) =~= rs.push(res@));
                assert(soft_matches(res@, mv, dryrun));
                if !dryrun {
                    assert(row_of_result(res@) == applied@);
                    assert(results_view(results@).drop_last() =~= rs);
                    assert(with_results(h0, results_view(results@)) =~= with_results(
                        h0,
                        rs,
                    ).insert(mv.id.version, applied@));
                }
            }
        }
        let ghost rs = results_view(results@);
        let rep = Report::new(results);
        proof {
            assert(rep@ == rs);
        }
        Ok(rep)
    }

    /// List the migrations that have already been applied, in version order,
    /// executing nothing.
    #[verifier::loop_isolation(false)]
    pub fn list_applied(&mut self) -> (r: Result<Report, Error>)
        ensures
            final(self).source_view() == old(self).source_view(),
            list_post(
                old(self).history(),
                old(self).executed(),
                final(self).history(),
                final(self).executed(),
                old(self).source_view(),
                true,
                r,
            ),
    {
        self.list_run(true)
    }

    /// The body of a listing, optionally without the validation step.
    #[verifier::loop_isolation(false)]
    pub(crate) fn list_run(&mut self, validate: bool) -> (r: Result<Report, Error>)
        ensures
            final(self).source_view() == old(self).source_view(),
            list_post(
                old(self).history(),
                old(self).executed(),
                final(self).history(),
                final(self).executed(),
                old(self).source_view(),
                validate,
                r,
            ),
    {
        if validate {
            match self.validate_source() {
                Ok(()) => (),
                Err(e) => {
                    return Err(e);
                },
            }
        }
        let rows = match self.context.previously_applied() {
            Ok(v) => v,
            Err(e) => {
                return Err(e);
            },
        };
        let ghost rv = rows_view(rows@);
        let mut results: Vec<MigrationResult> = Vec::new();
        for i in 0..rows.len()
            invariant
                i <= rows@.len(),
                results_view(results@) =~= rv.map_values(
                    |row: RowView| applied_result(row, Option::<bool>::None),
                ).take(i as int),
        {
            let ghost rs = results_view(results@);
            results.push(MigrationResult::from_applied(&rows[i], None));
            proof {
                let mapped = rv.map_values(|row: RowView| applied_result(row, Option::<bool>::None));
                assert(results_view(results@) =~= rs.push(applied_result(rv[i as int], Option::None)));
                assert(mapped.take(i + 1) =~= mapped.take(i as int).push(mapped[i as int]));
            }
        }
        proof {
            let mapped = rv.map_values(|row: RowView| applied_result(row, Option::<bool>::None));
            assert(mapped.take(mapped.len() as int) =~= mapped);
        }
        let rep = Report::new(results);
        Ok(rep)
    }
}

/// With `last` the latest applied version, a target acceptable against
/// `last` and the source is acceptable against the whole history, and the
/// other way round.
proof fn lemma_target_bridge(
    src: Seq<MigView>,
    h: Map<int, RowView>,
    last: Option<int>,
    target: Option<int>,
)
    requires
        latest_of(h, last),
    ensures
        allowed_target(src, last, target) == target_ok(src, h, target),
{
}


/// The requested target is not earlier than the last applied version and not
/// beyond the last source version; trivial without a target or a source.
pub open spec fn allowed_target(src: Seq<MigView>, last: Option<int>, target: Option<int>) -> bool {
    match target {
        Option::None => true,
        Option::Some(t) => src.len() == 0 || {
            &&& (last matches Some(la) ==> t >= la)
            &&& exists|i: int| 0 <= i < src.len() && #[trigger] src[i].id.version >= t
        },
    }
}

/// What `run_apply` guarantees, relating the model before the call (`h0`,
/// `e0`) to the model after it (`h1`, `e1`) and to the outcome `r`.
///
/// On success the report records, in source order, exactly the selected
/// migrations — beyond everything applied and within the target — and, when
/// not a dry run, the history gains exactly the reported rows and the schema
/// exactly the reported batches. Validation failures leave the model
/// untouched; a mid-run failure is wrapped as `Partial`, whose report is the
/// prefix of the work that completed.
pub open spec fn run_apply_post(
    h0: Map<int, RowView>,
    e0: Seq<Seq<char>>,
    h1: Map<int, RowView>,
    e1: Seq<Seq<char>>,
    src: Seq<MigView>,
    target: Option<int>,
    dryrun: bool,
    validate: bool,
    r: Result<Report, Error>,
) -> bool {
    match r {
        Result::Ok(rep) => {
            let sel = selected_from(src, h0, target);
            &&& (validate ==> in_sync(h0, src))
            &&& (validate ==> target_ok(src, h0, target))
            &&& rep@.len() == sel.len()
            &&& forall|i: int|
                0 <= i < sel.len() ==> if dryrun {
                    unapplied_matches(#[trigger] rep@[i], sel[i])
                } else {
                    applied_matches(rep@[i], sel[i])
                }
            &&& forall|i: int|
                0 <= i < sel.len() ==> !h0.contains_key(#[trigger] sel[i].id.version)
            &&& if dryrun {
                h1 == h0 && e1 == e0
            } else {
                h1 == with_results(h0, rep@) && e1 == e0 + batches_of(rep@)
            }
        },
        Result::Err(e) => {
            &&& (e is Execute ==> h1 == h0 && e1 == e0)
            &&& (e matches Error::OutOfSync { at_issue, .. } ==> h1 == h0 && e1 == e0
                && sync_failure(ids_view(at_issue@), h0, src) && !in_sync(h0, src))
            &&& (e is Invalid ==> h1 == h0 && e1 == e0 && !target_ok(src, h0, target) && in_sync(
                h0,
                src,
            ))
            &&& (e matches Error::Partial { source, report } ==> {
                let sel = selected_from(src, h0, target);
                &&& (validate ==> in_sync(h0, src))
                &&& (validate ==> target_ok(src, h0, target))
                &&& report@.len() <= sel.len()
                &&& forall|i: int|
                    0 <= i < report@.len() ==> if dryrun {
                        unapplied_matches(#[trigger] report@[i], sel[i])
                    } else {
                        applied_matches(report@[i], sel[i])
                    }
                &&& if dryrun {
                    h1 == h0 && e1 == e0
                } else {
                    h1 == with_results(h0, report@) && (e0 + batches_of(report@)).is_prefix_of(e1)
                }
            })
            &&& (e is Execute || e is OutOfSync || e is Invalid || e is Partial)
        },
    }
}

/// What `run_soft_apply` guarantees: like `run_apply_post`, except that the
/// reported migrations are soft applied — their rows are written with a
/// marker content and no run time — and nothing is ever executed against the
/// schema.
pub open spec fn soft_apply_post(
    h0: Map<int, RowView>,
    e0: Seq<Seq<char>>,
    h1: Map<int, RowView>,
    e1: Seq<Seq<char>>,
    src: Seq<MigView>,
    target: Option<int>,
    dryrun: bool,
    validate: bool,
    r: Result<Report, Error>,
) -> bool {
    &&& e1 == e0
    &&& match r {
        Result::Ok(rep) => {
            let sel = selected_from(src, h0, target);
            &&& (validate ==> in_sync(h0, src))
            &&& (validate ==> target_ok(src, h0, target))
            &&& rep@.len() == sel.len()
            &&& forall|i: int| 0 <= i < sel.len() ==> soft_matches(#[trigger] rep@[i], sel[i], dryrun)
            &&& forall|i: int|
                0 <= i < sel.len() ==> !h0.contains_key(#[trigger] sel[i].id.version)
            &&& if dryrun {
                h1 == h0
            } else {
                h1 == with_results(h0, rep@)
            }
        },
        Result::Err(e) => {
            &&& (e is Execute ==> h1 == h0)
            &&& (e matches Error::OutOfSync { at_issue, .. } ==> h1 == h0 && sync_failure(
                ids_view(at_issue@),
                h0,
                src,
            ) && !in_sync(h0, src))
            &&& (e is Invalid ==> h1 == h0 && !target_ok(src, h0, target) && in_sync(h0, src))
            &&& (e matches Error::Partial { source, report } ==> {
                let sel = selected_from(src, h0, target);
                &&& (validate ==> in_sync(h0, src))
                &&& (validate ==> target_ok(src, h0, target))
                &&& report@.len() <= sel.len()
                &&& forall|i: int|
                    0 <= i < report@.len() ==> soft_matches(#[trigger] report@[i], sel[i], dryrun)
                &&& if dryrun {
                    h1 == h0
                } else {
                    h1 == with_results(h0, report@)
                }
            })
            &&& (e is Execute || e is OutOfSync || e is Invalid || e is Partial)
        },
    }
}

/// Applying is idempotent: after a run that applied every selected
/// migration and recorded it in the history, nothing is selected any more —
/// a second run returns an empty report and leaves the history unchanged.
pub proof fn lemma_apply_idempotent(src: Seq<MigView>, h0: Map<int, RowView>, rep: Seq<ResultView>)
    requires
        rep.len() == selected_from(src, h0, Option::None).len(),
        forall|i: int|
            0 <= i < rep.len() ==> applied_matches(
                #[trigger] rep[i],
                selected_from(src, h0, Option::None)[i],
            ),
    ensures
        selected_from(src, with_results(h0, rep), Option::None) =~= Seq::<MigView>::empty(),
{
    let sel = selected_from(src, h0, Option::None);
    let h1 = with_results(h0, rep);
    let p = sel_pred(h1, Option::None);
    assert forall|j: int| 0 <= j < src.len() implies !#[trigger] p(src[j]) by {
        if hist_above(h0, src[j]) {
            // The migration was selected and applied: its version is now a key.
            src.lemma_filter_contains(sel_pred(h0, Option::None), j);
            let i = choose|i: int| 0 <= i < sel.len() && sel[i] == src[j];
            assert(rep[i].version == src[j].id.version);
            lemma_with_results_has(h0, rep, i);
            assert(h1.contains_key(src[j].id.version));
        } else {
            // Some applied version was already at or beyond it, and stays.
            let v = choose|v: int| #[trigger] h0.contains_key(v) && !(src[j].id.version > v);
            lemma_with_results_monotone(h0, rep, v);
            assert(h1.contains_key(v));
        }
    }
    lemma_filter_none(src, p);
}

/// The history extended with recorded results holds each result's version.
proof fn lemma_with_results_has(h: Map<int, RowView>, rs: Seq<ResultView>, i: int)
    requires
        0 <= i < rs.len(),
    ensures
        with_results(h, rs).contains_key(rs[i].version),
    decreases rs.len(),
{
    if i < rs.len() - 1 {
        lemma_with_results_has(h, rs.drop_last(), i);
        assert(rs.drop_last()[i] == rs[i]);
    }
}

/// A filter by a predicate no element meets keeps nothing.
proof fn lemma_filter_none<A>(s: Seq<A>, p: spec_fn(A) -> bool)
    requires
        forall|j: int| 0 <= j < s.len() ==> !#[trigger] p(s[j]),
    ensures
        s.filter(p) =~= Seq::<A>::empty(),
    decreases s.len(),
{
    reveal_with_fuel(Seq::filter, 2);
    if s.len() > 0 {
        assert(!p(s.last()));
        lemma_filter_none(s.drop_last(), p);
    }
}

/// What `list_applied` guarantees: the model is untouched, and on success
/// the report projects the version-sorted history rows, in order.
pub open spec fn list_post(
    h0: Map<int, RowView>,
    e0: Seq<Seq<char>>,
    h1: Map<int, RowView>,
    e1: Seq<Seq<char>>,
    src: Seq<MigView>,
    validate: bool,
    r: Result<Report, Error>,
) -> bool {
    &&& h1 == h0
    &&& e1 == e0
    &&& match r {
        Result::Ok(rep) => {
            &&& (validate ==> in_sync(h0, src))
            &&& exists|rows: Seq<RowView>|
                {
                    &&& rows_sorted(rows)
                    &&& #[trigger] rows_as_map(rows) == h0
                    &&& rep@ == rows.map_values(|row: RowView| applied_result(row, Option::None))
                }
        },
        Result::Err(e) => {
            &&& (e matches Error::OutOfSync { at_issue, .. } ==> sync_failure(
                ids_view(at_issue@),
                h0,
                src,
            ) && !in_sync(h0, src))
            &&& (e is Execute || e is OutOfSync)
        },
    }
}

} // verus!
