//! An in-memory [`Executor`]: the verified reference backend. It keeps the
//! history rows and a log of the statements executed against the schema, and
//! can be told to fail on one chosen statement, which is how tests exercise
//! partial-failure behaviour.
use crate::executor::{
    lemma_rows_as_map_contains, lemma_rows_as_map_insert, lemma_rows_as_map_remove, rows_as_map,
    rows_sorted, Executor,
};
use crate::query::{statements_of, Query};
use crate::source::{rows_view, strictly_sorted_by_version, AppliedMigration, RowView, Versioned};
use crate::text::strings_view;
use vstd::prelude::*;

verus! {

/// A database standing in memory: history rows ordered by version, and the
/// log of executed migration statements.
#[derive(Debug)]
pub struct MemoryExecutor {
    rows: Vec<AppliedMigration>,
    log: Vec<String>,
    fail_on: Option<String>,
}

impl MemoryExecutor {
    #[verifier::type_invariant]
    spec fn wf(self) -> bool {
        strictly_sorted_by_version(self.rows@)
    }

    /// An empty database that never fails.
    pub fn new() -> (r: Self)
        ensures
            r.history() == Map::<int, RowView>::empty(),
            r.executed() == Seq::<Seq<char>>::empty(),
            r.failing_statement() is None,
    {
        MemoryExecutor { rows: Vec::new(), log: Vec::new(), fail_on: None }
    }

    /// An empty database in which executing the given statement fails.
    pub fn failing_on(statement: String) -> (r: Self)
        ensures
            r.history() == Map::<int, RowView>::empty(),
            r.executed() == Seq::<Seq<char>>::empty(),
            r.failing_statement() matches Some(f) && f == statement@,
    {
        MemoryExecutor { rows: Vec::new(), log: Vec::new(), fail_on: Some(statement) }
    }

    /// The statement this executor refuses to run, if any.
    pub closed spec fn failing_statement(&self) -> Option<Seq<char>> {
        match self.fail_on {
            Option::None => Option::None,
            Option::Some(ref f) => Option::Some(f@),
        }
    }

    /// The history rows, ordered by ascending version.
    pub fn rows(&self) -> (r: Vec<AppliedMigration>)
        ensures
            rows_sorted(rows_view(r@)),
            rows_as_map(rows_view(r@)) == self.history(),
    {
        proof {
            use_type_invariant(&*self);
        }
        clone_rows(&self.rows)
    }

    /// The statements executed against the schema, oldest first.
    pub fn log(&self) -> (r: Vec<String>)
        ensures
            strings_view(r@) == self.executed(),
    {
        let mut r: Vec<String> = Vec::new();
        for i in 0..self.log.len()
            invariant
                i <= self.log@.len(),
                strings_view(r@) =~= strings_view(self.log@).take(i as int),
        {
            r.push(self.log[i].clone());
            proof {
                assert(strings_view(self.log@).take(i + 1) =~= strings_view(self.log@).take(
                    i as int,
                ).push(self.log@[i as int]@));
                assert(strings_view(r@) =~= strings_view(self.log@).take(i + 1));
            }
        }
        proof {
            assert(strings_view(self.log@).take(self.log@.len() as int) =~= strings_view(
                self.log@,
            ));
        }
        r
    }

    /// Whether running `statement` is refused here.
    fn is_poison(&self, statement: &String) -> (r: bool)
        ensures
            r == (self.failing_statement() matches Some(f) && f == statement@),
    {
        match &self.fail_on {
            Option::None => false,
            Option::Some(f) => f.eq(statement),
        }
    }
}

/// Copy a vector of rows, preserving each row.
#[verifier::loop_isolation(false)]
fn clone_rows(v: &Vec<AppliedMigration>) -> (r: Vec<AppliedMigration>)
    ensures
        r@ == v@,
{
    let mut r: Vec<AppliedMigration> = Vec::new();
    for i in 0..v.len()
        invariant
            i <= v@.len(),
            r@ =~= v@.subrange(0, i as int),
    {
        r.push(v[i].clone());
        proof {
            assert(r@ =~= v@.subrange(0, i + 1));
        }
    }
    proof {
        assert(v@.subrange(0, v@.len() as int) =~= v@);
    }
    r
}

impl Executor for MemoryExecutor {
    closed spec fn history(&self) -> Map<int, RowView> {
        rows_as_map(rows_view(self.rows@))
    }

    closed spec fn executed(&self) -> Seq<Seq<char>> {
        strings_view(self.log@)
    }

    fn apply_tx(&mut self, query: &Query) -> (r: Result<(), String>) {
        proof {
            use_type_invariant(&*self);
        }
        let sql = query.sql().to_owned();
        if self.is_poison(&sql) {
            return Err("statement refused".to_owned());
        }
        let mut log: Vec<String> = Vec::new();
        std::mem::swap(&mut log, &mut self.log);
        log.push(sql);
        proof {
            assert(strings_view(log@) =~= old(self).executed().push(query@));
        }
        self.log = log;
        Ok(())
    }

    #[verifier::loop_isolation(false)]
    fn apply_no_tx(&mut self, query: &Query) -> (r: Result<(), String>) {
        proof {
            use_type_invariant(&*self);
        }
        let statements = match query.split_statements() {
            Ok(v) => v,
            Err(_) => {
                proof {
                    assert(self.executed() =~= old(self).executed() + statements_of(
                        query@,
                    ).take(0));
                }
                return Err("cannot split statements".to_owned());
            },
        };
        let ghost stmts = statements_of(query@);
        let mut log: Vec<String> = Vec::new();
        std::mem::swap(&mut log, &mut self.log);
        let mut i: usize = 0;
        while i < statements.len()
            invariant
                i <= statements@.len(),
                strings_view(statements@) == stmts,
                self.fail_on == old(self).fail_on,
                self.rows@ == old(self).rows@,
                strings_view(log@) =~= old(self).executed() + stmts.take(i as int),
            decreases statements@.len() - i,
        {
            if self.is_poison(&statements[i]) {
                self.log = log;
                proof {
                    assert(self.executed() =~= old(self).executed() + stmts.take(i as int));
                }
                return Err("statement refused".to_owned());
            }
            let ghost prev = strings_view(log@);
            log.push(statements[i].clone());
            proof {
                assert(stmts[i as int] == statements@[i as int]@);
                assert(stmts.take(i + 1) =~= stmts.take(i as int).push(stmts[i as int]));
                assert(strings_view(log@) =~= prev.push(stmts[i as int]));
                assert(strings_view(log@) =~= old(self).executed() + stmts.take(i + 1));
            }
            i = i + 1;
        }
        self.log = log;
        proof {
            assert(stmts.take(stmts.len() as int) =~= stmts);
        }
        Ok(())
    }

    fn create_history_if_not_exists(&mut self, history_table: &str) -> (r: Result<(), String>) {
        Ok(())
    }

    fn drop_history(&mut self, history_table: &str) -> (r: Result<(), String>) {
        self.rows = Vec::new();
        proof {
            assert(rows_view(self.rows@) =~= Seq::<RowView>::empty());
            assert(self.history() =~= Map::<int, RowView>::empty());
        }
        Ok(())
    }

    fn get_all_applied(&mut self, history_table: &str) -> (r: Result<
        Vec<AppliedMigration>,
        String,
    >) {
        proof {
            use_type_invariant(&*self);
        }
        Ok(clone_rows(&self.rows))
    }

    #[verifier::loop_isolation(false)]
    fn insert_applied_migration(&mut self, history_table: &str, applied: &AppliedMigration) -> (r:
        Result<(), String>) {
        proof {
            use_type_invariant(&*self);
        }
        let version = applied.version;
        let mut idx: usize = 0;
        while idx < self.rows.len() && self.rows[idx].version < version
            invariant
                idx <= self.rows@.len(),
                forall|j: int| 0 <= j < idx ==> self.rows@[j]@.version < version as int,
            decreases self.rows@.len() - idx,
        {
            idx = idx + 1;
        }
        if idx < self.rows.len() && self.rows[idx].version == version {
            return Err("version already in history".to_owned());
        }
        let ghost before = rows_view(self.rows@);
        proof {
            assert(forall|j: int|
                idx <= j < before.len() ==> before[j].version > version as int);
            assert(forall|j: int| 0 <= j < before.len() ==> before[j].version != applied@.version);
            lemma_rows_as_map_contains(before, applied@.version);
            lemma_rows_as_map_insert(before, idx as int, applied@);
        }
        let mut rows: Vec<AppliedMigration> = Vec::new();
        std::mem::swap(&mut rows, &mut self.rows);
        rows.insert(idx, applied.clone());
        proof {
            assert(rows_view(rows@) =~= before.insert(idx as int, applied@));
            assert(strictly_sorted_by_version(rows@));
        }
        self.rows = rows;
        Ok(())
    }

    #[verifier::loop_isolation(false)]
    fn upsert_applied_migration(&mut self, history_table: &str, applied: &AppliedMigration) -> (r:
        Result<(), String>) {
        proof {
            use_type_invariant(&*self);
        }
        let version = applied.version;
        let mut idx: usize = 0;
        while idx < self.rows.len() && self.rows[idx].version < version
            invariant
                idx <= self.rows@.len(),
                forall|j: int| 0 <= j < idx ==> self.rows@[j]@.version < version as int,
            decreases self.rows@.len() - idx,
        {
            idx = idx + 1;
        }
        let ghost before = rows_view(self.rows@);
        if idx < self.rows.len() && self.rows[idx].version == version {
            // Replace the row that carries this version.
            proof {
                assert(forall|j: int, k: int|
                    0 <= j < k < before.len() ==> before[j].version != before[k].version);
                lemma_rows_as_map_remove(before, idx as int);
            }
            let mut rows: Vec<AppliedMigration> = Vec::new();
            std::mem::swap(&mut rows, &mut self.rows);
            let ghost removed = before.remove(idx as int);
            rows.remove(idx);
            proof {
                assert(rows_view(rows@) =~= removed);
                assert(forall|j: int|
                    0 <= j < removed.len() ==> removed[j].version != applied@.version);
                lemma_rows_as_map_insert(removed, idx as int, applied@);
            }
            rows.insert(idx, applied.clone());
            proof {
                assert(rows_view(rows@) =~= removed.insert(idx as int, applied@));
                assert(strictly_sorted_by_version(rows@));
                assert(rows_as_map(rows_view(rows@)) =~= rows_as_map(before).insert(
                    applied@.version,
                    applied@,
                ));
            }
            self.rows = rows;
            return Ok(());
        }
        proof {
            assert(forall|j: int| idx <= j < before.len() ==> before[j].version > version as int);
            assert(forall|j: int| 0 <= j < before.len() ==> before[j].version != applied@.version);
            lemma_rows_as_map_insert(before, idx as int, applied@);
        }
        let mut rows: Vec<AppliedMigration> = Vec::new();
        std::mem::swap(&mut rows, &mut self.rows);
        rows.insert(idx, applied.clone());
        proof {
            assert(rows_view(rows@) =~= before.insert(idx as int, applied@));
            assert(strictly_sorted_by_version(rows@));
        }
        self.rows = rows;
        Ok(())
    }
}

} // verus!
