//! The migration value types: identity, a single migration, the validated
//! migration set, and the record of an applied migration.
use vstd::prelude::*;

verus! {

broadcast use {vstd::seq_lib::group_to_multiset_ensures, vstd::seq_lib::group_seq_lib_default};

/// Name and version derived from the migration source filename.
#[derive(Debug, Hash, PartialEq, Eq, PartialOrd, Ord)]
pub struct MigrationId {
    version: i64,
    description: String,
}

/// The mathematical content of a [`MigrationId`].
pub ghost struct IdView {
    pub version: int,
    pub description: Seq<char>,
}

impl View for MigrationId {
    type V = IdView;

    closed spec fn view(&self) -> IdView {
        IdView { version: self.version as int, description: self.description@ }
    }
}

impl Clone for MigrationId {
    fn clone(&self) -> (r: Self)
        ensures
            r == *self,
    {
        MigrationId { version: self.version, description: self.description.clone() }
    }
}

impl MigrationId {
    pub fn new(version: i64, description: String) -> (r: Self)
        ensures
            r@ == (IdView { version: version as int, description: description@ }),
    {
        MigrationId { version, description }
    }

    pub fn version(&self) -> (r: i64)
        ensures
            r as int == self@.version,
    {
        self.version
    }

    pub fn description(&self) -> (r: String)
        ensures
            r@ == self@.description,
    {
        self.description.clone()
    }
}

/// One row of the schema history table: a migration that completed
/// successfully, together with when it ran and how long it took.
///
/// `applied_at` is a timestamp in milliseconds since the Unix epoch.
#[derive(Debug)]
pub struct AppliedMigration {
    /// The migration version.
    pub version: i64,
    /// The description of the migration.
    pub description: String,
    /// The contents of the migration file at the time it was applied.
    pub content: String,
    /// How long the migration took to run in milliseconds.
    pub duration_ms: i64,
    /// When the migration was applied, in milliseconds since the Unix epoch.
    pub applied_at: i64,
}

/// The mathematical content of an [`AppliedMigration`]: one history row.
pub ghost struct RowView {
    pub version: int,
    pub description: Seq<char>,
    pub content: Seq<char>,
    pub duration_ms: int,
    pub applied_at: int,
}

impl View for AppliedMigration {
    type V = RowView;

    open spec fn view(&self) -> RowView {
        RowView {
            version: self.version as int,
            description: self.description@,
            content: self.content@,
            duration_ms: self.duration_ms as int,
            applied_at: self.applied_at as int,
        }
    }
}

impl Clone for AppliedMigration {
    fn clone(&self) -> (r: Self)
        ensures
            r == *self,
    {
        AppliedMigration {
            version: self.version,
            description: self.description.clone(),
            content: self.content.clone(),
            duration_ms: self.duration_ms,
            applied_at: self.applied_at,
        }
    }
}

impl AppliedMigration {
    pub fn new(id: MigrationId, content: &str, duration_ms: i64, applied_at: i64) -> (r: Self)
        ensures
            r@ == (RowView {
                version: id@.version,
                description: id@.description,
                content: content@,
                duration_ms: duration_ms as int,
                applied_at: applied_at as int,
            }),
    {
        AppliedMigration {
            version: id.version(),
            description: id.description(),
            content: content.to_owned(),
            duration_ms,
            applied_at,
        }
    }
}

/// The views of a sequence of applied migrations.
pub open spec fn rows_view(s: Seq<AppliedMigration>) -> Seq<RowView> {
    s.map_values(|m: AppliedMigration| m@)
}

/// How the query of a migration is obtained: a static SQL source file whose
/// content is the query itself, or a dynamically-built query that a
/// [`QueryBuilder`](crate::context::QueryBuilder) resolves at run time.
#[derive(Debug, Clone, Copy, PartialEq, Eq, Structural)]
pub enum MigrationKind {
    /// A static SQL migration; its content is the query.
    Sql,
    /// A dynamically-built migration; its query is resolved by a builder.
    Rust,
}

/// A single migration in a migration set.
#[derive(Debug)]
pub struct Migration {
    id: MigrationId,
    content: String,
    no_tx: bool,
    kind: MigrationKind,
}

/// The mathematical content of a [`Migration`].
pub ghost struct MigView {
    pub id: IdView,
    pub content: Seq<char>,
    pub no_tx: bool,
    pub kind: MigrationKind,
}

impl View for Migration {
    type V = MigView;

    closed spec fn view(&self) -> MigView {
        MigView { id: self.id@, content: self.content@, no_tx: self.no_tx, kind: self.kind }
    }
}

impl Clone for Migration {
    fn clone(&self) -> (r: Self)
        ensures
            r == *self,
    {
        Migration {
            id: self.id.clone(),
            content: self.content.clone(),
            no_tx: self.no_tx,
            kind: self.kind,
        }
    }
}

impl Migration {
    pub fn new(id: MigrationId, content: String, no_tx: bool, kind: MigrationKind) -> (r: Self)
        ensures
            r@ == (MigView { id: id@, content: content@, no_tx, kind }),
    {
        Migration { id, content, no_tx, kind }
    }

    /// The version/name of this migration.
    pub fn migration_id(&self) -> (r: MigrationId)
        ensures
            r@ == self@.id,
    {
        self.id.clone()
    }

    /// The raw content of the migration source: for a static SQL migration it
    /// is the query text itself.
    pub fn content(&self) -> (r: String)
        ensures
            r@ == self@.content,
    {
        self.content.clone()
    }

    /// Whether this migration must not be applied in a database transaction.
    pub fn no_tx(&self) -> (r: bool)
        ensures
            r == self@.no_tx,
    {
        self.no_tx
    }

    /// How the query of this migration is obtained.
    pub fn kind(&self) -> (r: MigrationKind)
        ensures
            r == self@.kind,
    {
        self.kind
    }

    /// The migration version.
    pub fn version(&self) -> (r: i64)
        ensures
            r as int == self@.id.version,
    {
        self.id.version()
    }

    /// Convert this migration to an [`AppliedMigration`], assuming that it was
    /// applied successfully with the given query content.
    pub fn to_applied(&self, duration_ms: i64, applied_at: i64, content: &str) -> (r:
        AppliedMigration)
        ensures
            r@ == (RowView {
                version: self@.id.version,
                description: self@.id.description,
                content: content@,
                duration_ms: duration_ms as int,
                applied_at: applied_at as int,
            }),
    {
        AppliedMigration::new(self.migration_id(), content, duration_ms, applied_at)
    }
}

/// A type ordered by an `i64` migration version.
pub trait Versioned {
    /// The version in the mathematical ordering.
    spec fn vkey(&self) -> int;

    /// The version as a machine integer.
    fn version_value(&self) -> (r: i64)
        ensures
            r as int == self.vkey(),
    ;
}

impl Versioned for Migration {
    open spec fn vkey(&self) -> int {
        self@.id.version
    }

    fn version_value(&self) -> (r: i64)
        ensures
            r as int == self.vkey(),
    {
        self.version()
    }
}

impl Versioned for AppliedMigration {
    open spec fn vkey(&self) -> int {
        self@.version
    }

    fn version_value(&self) -> (r: i64)
        ensures
            r as int == self.vkey(),
    {
        self.version
    }
}

/// The sequence is ordered by ascending version.
pub open spec fn sorted_by_version<T: Versioned>(s: Seq<T>) -> bool {
    forall|i: int, j: int| 0 <= i <= j < s.len() ==> s[i].vkey() <= s[j].vkey()
}

/// The sequence is ordered by strictly ascending version: no duplicates.
pub open spec fn strictly_sorted_by_version<T: Versioned>(s: Seq<T>) -> bool {
    forall|i: int, j: int| 0 <= i < j < s.len() ==> s[i].vkey() < s[j].vkey()
}

/// Arrange the elements in ascending order by version: the result is a
/// permutation of the input, sorted by [`sorted_by_version`].
///
/// The contract leaves the relative order of equal versions unspecified.
/// Set validation rejects duplicate versions, so equal versions only occur
/// in sets that fail validation anyway.
#[verifier::loop_isolation(false)]
pub fn sort_by_version<T: Versioned>(input: Vec<T>) -> (r: Vec<T>)
    ensures
        sorted_by_version(r@),
        r@.to_multiset() == input@.to_multiset(),
{
    let mut v = input;
    let ghost all = v@.to_multiset();
    let mut r: Vec<T> = Vec::new();
    proof {
        assert(r@.to_multiset().add(v@.to_multiset()) =~= all);
    }
    while v.len() > 0
        invariant
            sorted_by_version(r@),
            r@.to_multiset().add(v@.to_multiset()) == all,
            forall|i: int, j: int|
                0 <= i < r@.len() && 0 <= j < v@.len() ==> r@[i].vkey() <= v@[j].vkey(),
        decreases v.len(),
    {
        // Find the index of a minimal remaining version.
        let mut mi: usize = 0;
        let mut k: usize = 1;
        while k < v.len()
            invariant
                0 <= mi < v@.len(),
                k <= v@.len(),
                forall|j: int| 0 <= j < k ==> v@[mi as int].vkey() <= v@[j].vkey(),
            decreases v.len() - k,
        {
            if v[k].version_value() < v[mi].version_value() {
                mi = k;
            }
            k = k + 1;
        }
        let ghost prev_r = r@;
        let ghost prev_v = v@;
        let x = v.remove(mi);
        r.push(x);
        proof {
            assert(prev_v.remove(mi as int).to_multiset() =~= prev_v.to_multiset().remove(
                prev_v[mi as int],
            ));
            assert(r@.to_multiset() =~= prev_r.to_multiset().insert(prev_v[mi as int]));
            assert(r@.to_multiset().add(v@.to_multiset()) =~= all);
            assert forall|i: int, j: int|
                0 <= i < r@.len() && 0 <= j < v@.len() implies r@[i].vkey() <= v@[j].vkey() by {
                assert(v@[j] == prev_v[if j < mi as int {
                    j
                } else {
                    j + 1
                }]);
            }
            assert(sorted_by_version(r@));
        }
    }
    proof {
        assert(r@.to_multiset() =~= all);
    }
    r
}

/// True when the version of `m` is beyond `last`: with no last-applied version
/// every migration qualifies.
pub open spec fn above_version(m: MigView, last: Option<int>) -> bool {
    match last {
        Option::None => true,
        Option::Some(l) => m.id.version > l,
    }
}

/// True when the version of `m` does not exceed the target: with no target
/// every migration qualifies.
pub open spec fn through_version(m: MigView, target: Option<int>) -> bool {
    match target {
        Option::None => true,
        Option::Some(t) => m.id.version <= t,
    }
}

/// The views of a sequence of migrations.
pub open spec fn migs_view(s: Seq<Migration>) -> Seq<MigView> {
    s.map_values(|m: Migration| m@)
}

/// The migrations that a run starting after `last` and ending at `target`
/// selects, in source order.
pub open spec fn selected(s: Seq<MigView>, last: Option<int>, target: Option<int>) -> Seq<MigView> {
    s.filter(|m: MigView| above_version(m, last) && through_version(m, target))
}

/// The `Migration`s derived from the migration source that an operation works
/// through, ordered by ascending version.
#[derive(Debug)]
pub struct MigrationSet {
    /// The migrations, in ascending version order.
    pub migrations: Vec<Migration>,
}

impl Clone for MigrationSet {
    #[verifier::loop_isolation(false)]
    fn clone(&self) -> (r: Self)
        ensures
            r.migrations@ == self.migrations@,
    {
        let mut ms: Vec<Migration> = Vec::new();
        for i in 0..self.migrations.len()
            invariant
                i <= self.migrations@.len(),
                ms@ =~= self.migrations@.subrange(0, i as int),
        {
            ms.push(self.migrations[i].clone());
        }
        proof {
            assert(ms@ =~= self.migrations@);
        }
        MigrationSet { migrations: ms }
    }
}

impl MigrationSet {
    /// Build a set from migrations in any order; the result is sorted by
    /// ascending version.
    pub fn new(vs: Vec<Migration>) -> (r: MigrationSet)
        ensures
            sorted_by_version(r.migrations@),
            r.migrations@.to_multiset() == vs@.to_multiset(),
    {
        MigrationSet { migrations: sort_by_version(vs) }
    }

    /// Number of migrations in the set.
    pub fn len(&self) -> (r: usize)
        ensures
            r == self.migrations@.len(),
    {
        self.migrations.len()
    }

    /// The set is empty for the requested operation.
    pub fn is_empty(&self) -> (r: bool)
        ensures
            r == (self.migrations@.len() == 0),
    {
        self.migrations.len() == 0
    }

    /// Versions present in this migration set.
    #[verifier::loop_isolation(false)]
    pub fn versions(&self) -> (r: Vec<i64>)
        ensures
            r@.len() == self.migrations@.len(),
            forall|i: int|
                0 <= i < r@.len() ==> r@[i] as int == migs_view(self.migrations@)[i].id.version,
    {
        let mut r: Vec<i64> = Vec::new();
        for i in 0..self.migrations.len()
            invariant
                i <= self.migrations@.len(),
                r@.len() == i,
                forall|j: int| 0 <= j < i ==> r@[j] as int == self.migrations@[j]@.id.version,
        {
            r.push(self.migrations[i].version());
        }
        r
    }

    /// The version/name of each migration in this migration set.
    #[verifier::loop_isolation(false)]
    pub fn migration_ids(&self) -> (r: Vec<MigrationId>)
        ensures
            r@.len() == self.migrations@.len(),
            forall|i: int| 0 <= i < r@.len() ==> r@[i]@ == migs_view(self.migrations@)[i].id,
    {
        let mut r: Vec<MigrationId> = Vec::new();
        for i in 0..self.migrations.len()
            invariant
                i <= self.migrations@.len(),
                r@.len() == i,
                forall|j: int| 0 <= j < i ==> r@[j]@ == self.migrations@[j]@.id,
        {
            r.push(self.migrations[i].migration_id());
        }
        r
    }

    /// The latest version in the set, or `None` when the set is empty.
    #[verifier::loop_isolation(false)]
    pub fn max(&self) -> (r: Option<i64>)
        ensures
            match r {
                Option::None => self.migrations@.len() == 0,
                Option::Some(m) => {
                    &&& self.migrations@.len() > 0
                    &&& exists|i: int|
                        0 <= i < self.migrations@.len() && self.migrations@[i]@.id.version
                            == m as int
                    &&& forall|i: int|
                        0 <= i < self.migrations@.len() ==> self.migrations@[i]@.id.version
                            <= m as int
                },
            },
    {
        if self.migrations.len() == 0 {
            return None;
        }
        let mut m: i64 = self.migrations[0].version();
        proof {
            assert(self.migrations@[0]@.id.version == m as int);
        }
        for i in 1..self.migrations.len()
            invariant
                1 <= i <= self.migrations@.len(),
                self.migrations@.len() > 0,
                exists|j: int|
                    0 <= j < self.migrations@.len() && self.migrations@[j]@.id.version == m as int,
                forall|j: int| 0 <= j < i ==> self.migrations@[j]@.id.version <= m as int,
        {
            let v = self.migrations[i].version();
            if v > m {
                m = v;
                proof {
                    assert(self.migrations@[i as int]@.id.version == m as int);
                }
            }
        }
        Some(m)
    }

    /// The subset of migrations whose version is strictly greater than
    /// `last`; the original set is not changed.
    #[verifier::loop_isolation(false)]
    pub fn subset_after(&self, last: Option<i64>) -> (r: MigrationSet)
        ensures
            migs_view(r.migrations@) == migs_view(self.migrations@).filter(
                |m: MigView| above_version(m, opt_version(last)),
            ),
    {
        let ghost pred = (|m: MigView| above_version(m, opt_version(last)));
        let mut r: Vec<Migration> = Vec::new();
        for i in 0..self.migrations.len()
            invariant
                i <= self.migrations@.len(),
                migs_view(r@) =~= migs_view(self.migrations@.subrange(0, i as int)).filter(pred),
        {
            let ghost prefix = self.migrations@.subrange(0, i as int);
            let ghost before = migs_view(r@);
            let keep = match last {
                Option::None => true,
                Option::Some(l) => self.migrations[i].version() > l,
            };
            if keep {
                r.push(self.migrations[i].clone());
            }
            proof {
                reveal_with_fuel(Seq::filter, 2);
                let x = self.migrations@[i as int];
                let w = migs_view(self.migrations@.subrange(0, i + 1));
                assert(self.migrations@.subrange(0, i + 1) =~= prefix.push(x));
                assert(w =~= migs_view(prefix).push(x@));
                assert(w.drop_last() =~= migs_view(prefix));
                assert(w.last() == x@);
                assert(keep == pred(x@));
                if keep {
                    assert(migs_view(r@) =~= before.push(x@));
                }
                assert(w.filter(pred) == if pred(x@) {
                    migs_view(prefix).filter(pred).push(x@)
                } else {
                    migs_view(prefix).filter(pred)
                });
                assert(migs_view(r@) =~= w.filter(pred));
            }
        }
        proof {
            assert(self.migrations@.subrange(0, self.migrations@.len() as int)
                =~= self.migrations@);
        }
        MigrationSet { migrations: r }
    }

    /// The subset of migrations whose version does not exceed `target`; the
    /// original set is not changed.
    #[verifier::loop_isolation(false)]
    pub fn subset_through(&self, target: Option<i64>) -> (r: MigrationSet)
        ensures
            migs_view(r.migrations@) == migs_view(self.migrations@).filter(
                |m: MigView| through_version(m, opt_version(target)),
            ),
    {
        let ghost pred = (|m: MigView| through_version(m, opt_version(target)));
        let mut r: Vec<Migration> = Vec::new();
        for i in 0..self.migrations.len()
            invariant
                i <= self.migrations@.len(),
                migs_view(r@) =~= migs_view(self.migrations@.subrange(0, i as int)).filter(pred),
        {
            let ghost prefix = self.migrations@.subrange(0, i as int);
            let ghost before = migs_view(r@);
            let keep = match target {
                Option::None => true,
                Option::Some(t) => self.migrations[i].version() <= t,
            };
            if keep {
                r.push(self.migrations[i].clone());
            }
            proof {
                reveal_with_fuel(Seq::filter, 2);
                let x = self.migrations@[i as int];
                let w = migs_view(self.migrations@.subrange(0, i + 1));
                assert(self.migrations@.subrange(0, i + 1) =~= prefix.push(x));
                assert(w =~= migs_view(prefix).push(x@));
                assert(w.drop_last() =~= migs_view(prefix));
                assert(w.last() == x@);
                assert(keep == pred(x@));
                if keep {
                    assert(migs_view(r@) =~= before.push(x@));
                }
                assert(w.filter(pred) == if pred(x@) {
                    migs_view(prefix).filter(pred).push(x@)
                } else {
                    migs_view(prefix).filter(pred)
                });
                assert(migs_view(r@) =~= w.filter(pred));
            }
        }
        proof {
            assert(self.migrations@.subrange(0, self.migrations@.len() as int)
                =~= self.migrations@);
        }
        MigrationSet { migrations: r }
    }
}

/// Two filters with pointwise-equal predicates keep the same elements.
pub proof fn lemma_filter_congruent<A>(s: Seq<A>, p: spec_fn(A) -> bool, q: spec_fn(A) -> bool)
    requires
        forall|x: A| #[trigger] p(x) == #[trigger] q(x),
    ensures
        s.filter(p) =~= s.filter(q),
    decreases s.len(),
{
    reveal_with_fuel(Seq::filter, 2);
    if s.len() > 0 {
        lemma_filter_congruent(s.drop_last(), p, q);
    }
}

/// A valid migration set's versions are strictly increasing and contain no
/// duplicate value: ordering together with pairwise-distinct versions — what
/// set validation rejects — makes the order strict.
pub proof fn lemma_sorted_distinct_strict<T: Versioned>(s: Seq<T>)
    requires
        sorted_by_version(s),
        forall|i: int, j: int| 0 <= i < j < s.len() ==> s[i].vkey() != s[j].vkey(),
    ensures
        strictly_sorted_by_version(s),
{
}

/// An optional machine version as an optional mathematical one.
pub open spec fn opt_version(o: Option<i64>) -> Option<int> {
    match o {
        Option::None => Option::None,
        Option::Some(v) => Option::Some(v as int),
    }
}

} // verus!
