//! Parsing of migration source files: the `V<version>__<description>.<ext>`
//! filename convention, the first-line no-transaction marker, and the
//! validation — no duplicate versions, no gaps — of a parsed set.
use crate::source::{sort_by_version, sorted_by_version, strictly_sorted_by_version, Versioned};
use crate::text::{chars_of, text_lines};
use vstd::prelude::*;
use vstd::string::StringExecFns;

verus! {

broadcast use {
    vstd::seq_lib::group_to_multiset_ensures,
    vstd::multiset::group_multiset_axioms,
};

/// A decimal digit.
pub open spec fn is_digit(c: char) -> bool {
    '0' <= c && c <= '9'
}

/// A word character of the filename convention: letters, digits, underscore.
pub open spec fn is_word_char(c: char) -> bool {
    is_digit(c) || ('a' <= c && c <= 'z') || ('A' <= c && c <= 'Z') || c == '_'
}

/// The value of a run of decimal digits.
pub open spec fn digits_val(s: Seq<char>) -> int
    decreases s.len(),
{
    if s.len() == 0 {
        0
    } else {
        digits_val(s.drop_last()) * 10 + (s.last() as int - '0' as int)
    }
}

/// The filename decomposes as `V`, a version of digits, `__`, a word
/// description, a dot, and the extension.
pub open spec fn parses_as(name: Seq<char>, ver: Seq<char>, desc: Seq<char>, ext: Seq<char>) -> bool {
    &&& name == seq!['V'] + ver + seq!['_', '_'] + desc + seq!['.'] + ext
    &&& ver.len() > 0
    &&& forall|k: int| 0 <= k < ver.len() ==> is_digit(#[trigger] ver[k])
    &&& desc.len() > 0
    &&& forall|k: int| 0 <= k < desc.len() ==> is_word_char(#[trigger] desc[k])
    &&& (ext == seq!['s', 'q', 'l'] || ext == seq!['r', 's'])
}

/// Some decomposition of the filename parses, with a version that fits.
pub open spec fn well_named(name: Seq<char>) -> bool {
    exists|ver: Seq<char>, desc: Seq<char>, ext: Seq<char>|
        {
            &&& #[trigger] parses_as(name, ver, desc, ext)
            &&& digits_val(ver) < 0x8000000000000000
        }
}

/// `n` occurs as a contiguous substring of `h`.
pub open spec fn contains_sub(h: Seq<char>, n: Seq<char>) -> bool {
    exists|k: int| 0 <= k && k + n.len() <= h.len() && #[trigger] h.subrange(k, k + n.len()) == n
}

/// The first line of the content carries the no-transaction annotation.
pub open spec fn no_tx_marked(content: Seq<char>) -> bool {
    text_lines(content).len() > 0 && contains_sub(text_lines(content)[0], "tern:noTransaction"@)
}

/// Whether `n` occurs as a contiguous substring of `h`.
#[verifier::loop_isolation(false)]
fn contains_sub_exec(h: &Vec<char>, n: &Vec<char>) -> (r: bool)
    ensures
        r == contains_sub(h@, n@),
{
    if n.len() > h.len() {
        proof {
            assert(!contains_sub(h@, n@));
        }
        return false;
    }
    if n.len() == 0 {
        proof {
            assert(h@.subrange(0, 0 + n@.len() as int) =~= n@);
        }
        return true;
    }
    let last = h.len() - n.len();
    proof {
        assert(last < h@.len());
    }
    let mut k: usize = 0;
    while k <= last
        invariant
            k <= last + 1,
            n@.len() <= h@.len(),
            last == h@.len() - n@.len(),
            forall|k0: int|
                0 <= k0 < k ==> #[trigger] h@.subrange(k0, k0 + n@.len() as int) != n@,
        decreases last + 1 - k,
    {
        let mut m: usize = 0;
        let mut same = true;
        while m < n.len()
            invariant
                m <= n@.len(),
                k + n@.len() <= h@.len(),
                same ==> forall|m0: int| 0 <= m0 < m ==> h@[k + m0] == n@[m0],
                !same ==> h@.subrange(k as int, k + n@.len() as int) != n@,
            decreases n@.len() - m,
        {
            if h[k + m] != n[m] {
                proof {
                    assert(h@.subrange(k as int, k + n@.len() as int)[m as int] != n@[m as int]);
                }
                same = false;
            }
            m = m + 1;
        }
        if same {
            proof {
                assert(h@.subrange(k as int, k + n@.len() as int) =~= n@);
            }
            return true;
        }
        k = k + 1;
    }
    proof {
        assert forall|k0: int| !(0 <= k0 && k0 + n@.len() <= h@.len() && #[trigger] h@.subrange(
            k0,
            k0 + n@.len() as int,
        ) == n@) by {
            if 0 <= k0 && k0 + n@.len() <= h@.len() {
                assert(k0 < k);
            }
        }
    }
    false
}

/// A source file written in SQL, with its parsed identity and content.
#[derive(Debug, Clone)]
pub struct SqlSource {
    /// The module name: the filename without its extension.
    pub module: String,
    /// The version parsed from the filename.
    pub version: i64,
    /// The description parsed from the filename.
    pub description: String,
    /// The file's content.
    pub content: String,
    /// Whether the first line carries the no-transaction annotation.
    pub no_tx: bool,
}

/// A source file written in Rust, with its parsed identity and content.
#[derive(Debug, Clone)]
pub struct RustSource {
    /// The module name: the filename without its extension.
    pub module: String,
    /// The version parsed from the filename.
    pub version: i64,
    /// The description parsed from the filename.
    pub description: String,
    /// The file's content.
    pub content: String,
}

/// One migration source file, by language.
#[derive(Debug, Clone)]
pub enum MigrationSource {
    /// A static SQL migration.
    Sql(SqlSource),
    /// A migration written in Rust.
    Rs(RustSource),
}

impl Versioned for MigrationSource {
    open spec fn vkey(&self) -> int {
        match self {
            MigrationSource::Sql(s) => s.version as int,
            MigrationSource::Rs(s) => s.version as int,
        }
    }

    fn version_value(&self) -> (r: i64)
        ensures
            r as int == self.vkey(),
    {
        match self {
            MigrationSource::Sql(s) => s.version,
            MigrationSource::Rs(s) => s.version,
        }
    }
}

/// The parsed source has exactly the identity and content the decomposition
/// of its filename gives.
pub open spec fn source_matches(
    ms: MigrationSource,
    name: Seq<char>,
    ver: Seq<char>,
    desc: Seq<char>,
    ext: Seq<char>,
    content: Seq<char>,
) -> bool {
    match ms {
        MigrationSource::Sql(s) => {
            &&& ext == seq!['s', 'q', 'l']
            &&& s.version as int == digits_val(ver)
            &&& s.description@ == desc
            &&& s.module@ == name.take(name.len() - ext.len() - 1)
            &&& s.content@ == content
            &&& s.no_tx == no_tx_marked(content)
        },
        MigrationSource::Rs(s) => {
            &&& ext == seq!['r', 's']
            &&& s.version as int == digits_val(ver)
            &&& s.description@ == desc
            &&& s.module@ == name.take(name.len() - ext.len() - 1)
            &&& s.content@ == content
        },
    }
}

impl MigrationSource {
    /// The version and description of this source.
    pub fn migration_id(&self) -> (r: (i64, String))
        ensures
            r.0 as int == self.vkey(),
            match self {
                MigrationSource::Sql(s) => r.1@ == s.description@,
                MigrationSource::Rs(s) => r.1@ == s.description@,
            },
    {
        match self {
            MigrationSource::Sql(s) => (s.version, s.description.clone()),
            MigrationSource::Rs(s) => (s.version, s.description.clone()),
        }
    }

    /// Whether the first line of a static SQL migration carries the
    /// `tern:noTransaction` annotation.
    pub fn no_tx(content: &str) -> (r: bool)
        ensures
            r == no_tx_marked(content@),
    {
        let cs = chars_of(content);
        let lines = crate::text::lines_of(&cs);
        if lines.len() == 0 {
            return false;
        }
        let marker = chars_of("tern:noTransaction");
        let first = &lines[0];
        proof {
            assert(first@ == text_lines(content@)[0]);
        }
        contains_sub_exec(first, &marker)
    }

    /// Parse one migration source file from its filename and content.
    ///
    /// The filename must match `V<version>__<description>.<sql|rs>` with a
    /// version that fits a signed 64-bit integer; everything else is a
    /// naming error.
    #[verifier::loop_isolation(false)]
    pub fn parse(filename: &str, content: String) -> (r: Result<MigrationSource, SourceError>)
        ensures
            r matches Ok(ms) ==> exists|ver: Seq<char>, desc: Seq<char>, ext: Seq<char>|
                {
                    &&& #[trigger] parses_as(filename@, ver, desc, ext)
                    &&& digits_val(ver) < 0x8000000000000000
                    &&& source_matches(ms, filename@, ver, desc, ext, content@)
                },
            r matches Err(e) ==> e is Name && !well_named(filename@),
    {
        let cs = chars_of(filename);
        let n = cs.len();
        if n == 0 || cs[0] != 'V' {
            proof {
                lemma_not_named_head(cs@);
            }
            return Err(SourceError::Name("filename does not start with V".to_owned()));
        }
        // The maximal run of digits after the leading V.
        let mut i: usize = 1;
        while i < n && cs[i] >= '0' && cs[i] <= '9'
            invariant
                1 <= i <= n,
                n == cs@.len(),
                forall|k: int| 1 <= k < i ==> is_digit(#[trigger] cs@[k]),
            decreases n - i,
        {
            i = i + 1;
        }
        if i == 1 {
            proof {
                lemma_not_named_no_digits(cs@);
            }
            return Err(SourceError::Name("filename has no version digits".to_owned()));
        }
        if n - i < 2 || cs[i] != '_' || cs[i + 1] != '_' {
            proof {
                lemma_not_named_no_sep(cs@, i as int);
            }
            return Err(SourceError::Name("filename lacks the __ separator".to_owned()));
        }
        // The maximal run of word characters after the separator.
        let d0 = i + 2;
        let mut j: usize = d0;
        while j < n && is_word_char_exec(cs[j])
            invariant
                d0 <= j <= n,
                n == cs@.len(),
                forall|k: int| d0 <= k < j ==> is_word_char(#[trigger] cs@[k]),
            decreases n - j,
        {
            j = j + 1;
        }
        if j == d0 {
            proof {
                lemma_desc_forced(cs@, i as int);
            }
            return Err(SourceError::Name("filename has no description".to_owned()));
        }
        if j >= n || cs[j] != '.' {
            proof {
                lemma_desc_forced(cs@, i as int);
                lemma_not_named_no_dot(cs@, i as int, j as int);
            }
            return Err(SourceError::Name("filename has no extension".to_owned()));
        }
        let ghost gver = cs@.subrange(1, i as int);
        let ghost gdesc = cs@.subrange(d0 as int, j as int);
        let ghost gext = cs@.subrange(j + 1, n as int);
        proof {
            lemma_desc_forced(cs@, i as int);
            lemma_ext_forced(cs@, i as int, j as int);
            assert(cs@ =~= seq!['V'] + gver + seq!['_', '_'] + gdesc + seq!['.'] + gext);
        }
        let ext = crate::text::subvec(&cs, j + 1, n);
        let sql_ext = chars_of("sql");
        let rs_ext = chars_of("rs");
        let is_sql = chars_eq(&ext, &sql_ext);
        let is_rs = chars_eq(&ext, &rs_ext);
        proof {
            reveal_strlit("sql");
            reveal_strlit("rs");
            assert("sql"@ =~= seq!['s', 'q', 'l']);
            assert("rs"@ =~= seq!['r', 's']);
        }
        if !is_sql && !is_rs {
            proof {
                assert forall|ver: Seq<char>, desc: Seq<char>, ext0: Seq<char>| !#[trigger] parses_as(
                    cs@,
                    ver,
                    desc,
                    ext0,
                ) by {
                    if parses_as(cs@, ver, desc, ext0) {
                        assert(ext0 == gext);
                    }
                }
            }
            return Err(SourceError::Name("extension is neither sql nor rs".to_owned()));
        }
        // The version digits as a value, rejecting overflow.
        let mut value: i64 = 0;
        let mut k: usize = 1;
        while k < i
            invariant
                1 <= k <= i <= n,
                n == cs@.len(),
                forall|p: int| 1 <= p < i ==> is_digit(#[trigger] cs@[p]),
                0 <= value,
                value as int == digits_val(cs@.subrange(1, k as int)),
            decreases i - k,
        {
            proof {
                assert(is_digit(cs@[k as int]));
                assert(cs@[k as int] >= '0' && cs@[k as int] <= '9');
            }
            let d = (cs[k] as u32) - ('0' as u32);
            if value > (i64::MAX - (d as i64)) / 10 {
                proof {
                    assert(value * 10 + d >= 0x8000000000000000) by {
                        assert(value >= (i64::MAX - (d as i64)) / 10 + 1);
                    }
                    lemma_digits_val_grows(cs@, i as int, k as int, value as int, d as int);
                    assert forall|ver: Seq<char>, desc: Seq<char>, ext0: Seq<char>| !(
                    #[trigger] parses_as(cs@, ver, desc, ext0) && digits_val(ver)
                        < 0x8000000000000000) by {
                        if parses_as(cs@, ver, desc, ext0) {
                            assert(ver == gver);
                            assert(digits_val(ver) >= 0x8000000000000000);
                        }
                    }
                }
                return Err(SourceError::Name("version does not fit a 64-bit integer".to_owned()));
            }
            let ghost prev = value;
            value = value * 10 + (d as i64);
            proof {
                assert(cs@.subrange(1, k + 1).drop_last() =~= cs@.subrange(1, k as int));
                assert(cs@.subrange(1, k + 1).last() == cs@[k as int]);
                assert(value as int == digits_val(cs@.subrange(1, k + 1)));
            }
            k = k + 1;
        }
        proof {
            assert(cs@.subrange(1, i as int) == gver);
        }
        let module = crate::text::string_of(&crate::text::subvec(&cs, 0, j));
        let description = crate::text::string_of(&crate::text::subvec(&cs, d0, j));
        proof {
            assert(cs@.subrange(0, j as int) =~= cs@.take(cs@.len() - gext.len() - 1));
            assert(parses_as(cs@, gver, gdesc, gext));
        }
        if is_sql {
            let no_tx = Self::no_tx(content.as_str());
            Ok(
                MigrationSource::Sql(
                    SqlSource { module, version: value, description, content, no_tx },
                ),
            )
        } else {
            Ok(MigrationSource::Rs(RustSource { module, version: value, description, content }))
        }
    }

    /// Parse, order and validate a whole migration directory, given each
    /// file's name and content.
    ///
    /// Success is owed exactly when the directory is [`loadable`]: every
    /// filename parses with a version that fits, no version repeats, and
    /// the largest version equals the size of the set. On success the
    /// result is the version-sorted arrangement of exactly the files'
    /// parses. A version error arises only from a set whose names all
    /// parse; any other error names a file that does not.
    #[verifier::loop_isolation(false)]
    #[verifier::spinoff_prover]
    #[verifier::rlimit(100)]
    pub fn from_migration_dir(files: Vec<(String, String)>) -> (r: Result<
        Vec<MigrationSource>,
        SourceError,
    >)
        ensures
            r matches Ok(v) ==> {
                &&& v@.len() == files@.len()
                &&& strictly_sorted_by_version(v@)
                &&& exists|parsed: Seq<MigrationSource>|
                    #[trigger] sources_correspond(parsed, files@) && set_valid(parsed)
                        && v@.to_multiset() == parsed.to_multiset()
            },
            r is Ok <==> loadable(files@),
            r matches Err(e) ==> ((e matches SourceError::Version(_)) <==> forall|i: int|
                0 <= i < files@.len() ==> well_named(#[trigger] files@[i].0@)),
    {
        let mut sources: Vec<MigrationSource> = Vec::new();
        let m = files.len();
        for fi in 0..m
            invariant
                m == files@.len(),
                sources@.len() == fi,
                forall|i: int| 0 <= i < fi ==> well_named(#[trigger] files@[i].0@),
                forall|i: int|
                    0 <= i < fi ==> parsed_from(
                        #[trigger] sources@[i],
                        files@[i].0@,
                        files@[i].1@,
                    ),
        {
            let name = files[fi].0.clone();
            let content = files[fi].1.clone();
            let ghost before = sources@;
            match Self::parse(name.as_str(), content) {
                Ok(ms) => {
                    sources.push(ms);
                    proof {
                        assert forall|i: int|
                            0 <= i < fi + 1 implies parsed_from(
                            #[trigger] sources@[i],
                            files@[i].0@,
                            files@[i].1@,
                        ) by {
                            if i < fi {
                                assert(sources@[i] == before[i]);
                            } else {
                                assert(sources@[i] == ms);
                            }
                        }
                    }
                },
                Err(e) => {
                    proof {
                        assert(!well_named(files@[fi as int].0@));
                        if loadable(files@) {
                            let parsed = choose|parsed: Seq<MigrationSource>|
                                #[trigger] sources_correspond(parsed, files@) && set_valid(
                                    parsed,
                                );
                            assert(parsed_from(
                                parsed[fi as int],
                                files@[fi as int].0@,
                                files@[fi as int].1@,
                            ));
                            let (ver, desc, ext) = choose|
                                ver: Seq<char>,
                                desc: Seq<char>,
                                ext: Seq<char>,
                            |
                                #[trigger] parses_as(files@[fi as int].0@, ver, desc, ext)
                                    && digits_val(ver) < 0x8000000000000000 && source_matches(
                                    parsed[fi as int],
                                    files@[fi as int].0@,
                                    ver,
                                    desc,
                                    ext,
                                    files@[fi as int].1@,
                                );
                            assert(well_named(files@[fi as int].0@));
                        }
                        assert(!loadable(files@));
                    }
                    return Err(e);
                },
            }
        }
        let ghost unsorted = sources@;
        proof {
            assert(sources_correspond(unsorted, files@));
        }
        let sources = sort_by_version(sources);
        let n = sources.len();
        proof {
            assert(sources@.to_multiset().len() == sources@.len());
            assert(unsorted.to_multiset().len() == unsorted.len());
            assert(sources@.len() == files@.len());
        }
        // Reject duplicate versions: in a version-sorted set, a duplicate is
        // a version equal to its predecessor.
        let mut offending: Vec<i64> = Vec::new();
        let mut si: usize = 1;
        while si < n
            invariant
                1 <= si,
                n == sources@.len(),
                n > 0 ==> si <= n,
                sorted_by_version(sources@),
                offending@.len() == 0 <==> forall|p: int, q: int|
                    0 <= p < q < si && q < n ==> sources@[p].vkey() != sources@[q].vkey(),
            decreases n - si,
        {
            if sources[si].version_value() == sources[si - 1].version_value() {
                offending.push(sources[si].version_value());
            } else {
                proof {
                    if offending@.len() == 0 {
                        assert forall|p: int, q: int|
                            0 <= p < q < si + 1 && q < n implies sources@[p].vkey()
                            != sources@[q].vkey() by {
                            if q == si as int {
                                assert(sources@[p].vkey() <= sources@[si - 1].vkey());
                                assert(sources@[si - 1].vkey() != sources@[si as int].vkey());
                            }
                        }
                    }
                }
            }
            si = si + 1;
        }
        if offending.len() > 0 {
            proof {
                if loadable(files@) {
                    let parsed = choose|parsed: Seq<MigrationSource>|
                        #[trigger] sources_correspond(parsed, files@) && set_valid(parsed);
                    lemma_correspond_versions(unsorted, parsed, files@);
                    assert(exists|p: int, q: int|
                        0 <= p < q < sources@.len() && #[trigger] sources@[p].vkey()
                            == #[trigger] sources@[q].vkey());
                    lemma_version_pair_transfer(sources@, unsorted);
                    let (p, q) = choose|p: int, q: int|
                        0 <= p < q < unsorted.len() && #[trigger] unsorted[p].vkey()
                            == #[trigger] unsorted[q].vkey();
                    assert(parsed[p].vkey() == unsorted[p].vkey());
                    assert(parsed[q].vkey() == unsorted[q].vkey());
                    assert(false);
                }
                assert(!loadable(files@));
            }
            return Err(
                SourceError::Version(
                    Version {
                        message: "duplicate migration version found".to_owned(),
                        offending_versions: offending,
                    },
                ),
            );
        }
        // Reject a gap: the last version must be the size of the set.
        if n > 0 {
            let last = sources[n - 1].version_value();
            if !((n as u64) <= (i64::MAX as u64)) || last != n as i64 {
                proof {
                    if loadable(files@) {
                        let parsed = choose|parsed: Seq<MigrationSource>|
                            #[trigger] sources_correspond(parsed, files@) && set_valid(parsed);
                        lemma_correspond_versions(unsorted, parsed, files@);
                        let k = choose|k: int|
                            0 <= k < parsed.len() && #[trigger] parsed[k].vkey() == parsed.len();
                        assert(unsorted[k].vkey() == n as int);
                        assert(unsorted.contains(unsorted[k]));
                        assert(sources@.to_multiset().count(unsorted[k]) > 0);
                        assert(sources@.contains(unsorted[k]));
                        let t = choose|t: int|
                            0 <= t < sources@.len() && sources@[t] == unsorted[k];
                        assert(sources@[t].vkey() == n as int);
                        assert(sources@[n - 1].vkey() >= n as int);
                        assert(sources@.contains(sources@[n - 1]));
                        assert(unsorted.to_multiset().count(sources@[n - 1]) > 0);
                        assert(unsorted.contains(sources@[n - 1]));
                        let u = choose|u: int|
                            0 <= u < unsorted.len() && unsorted[u] == sources@[n - 1];
                        assert(unsorted[u].vkey() == parsed[u].vkey());
                        assert(parsed[u].vkey() <= n as int);
                        assert(sources@[n - 1].vkey() == n as int);
                        assert(last == n as i64);
                        assert((n as u64) <= (i64::MAX as u64));
                        assert(false);
                    }
                    assert(!loadable(files@));
                }
                let mut ix: usize = 0;
                while ix < n
                    invariant
                        ix <= n,
                        n == sources@.len(),
                        forall|j: int| 0 <= j < ix ==> #[trigger] sources@[j].vkey() == j + 1,
                    decreases n - ix,
                {
                    let fits = (ix as u64) < (i64::MAX as u64);
                    let expected = if fits {
                        (ix as i64) + 1
                    } else {
                        i64::MAX
                    };
                    if sources[ix].version_value() != expected || !fits {
                        return Err(
                            SourceError::Version(
                                Version {
                                    message: "missing version for the size of the set".to_owned(),
                                    offending_versions: vec![sources[ix].version_value()],
                                },
                            ),
                        );
                    }
                    ix = ix + 1;
                }
                proof {
                    // Every version is its index plus one, so the last is the
                    // size of the set, against the branch condition.
                    assert(sources@[n - 1].vkey() == n as int);
                    if (n as u64) <= (i64::MAX as u64) {
                        assert(last as int == n as int);
                    } else {
                        assert(n as int > i64::MAX as int);
                        assert(sources@[n - 1].vkey() <= i64::MAX as int);
                    }
                }
            }
        }
        proof {
            assert forall|p: int, q: int|
                0 <= p < q < sources@.len() implies sources@[p].vkey() < sources@[q].vkey() by {
                assert(sources@[p].vkey() != sources@[q].vkey());
                assert(sources@[p].vkey() <= sources@[q].vkey());
            }
            // The unsorted parses pass set validation: distinct versions,
            // with the largest equal to the size of the set.
            if exists|p: int, q: int|
                0 <= p < q < unsorted.len() && #[trigger] unsorted[p].vkey()
                    == #[trigger] unsorted[q].vkey() {
                lemma_version_pair_transfer(unsorted, sources@);
                let (p, q) = choose|p: int, q: int|
                    0 <= p < q < sources@.len() && #[trigger] sources@[p].vkey()
                        == #[trigger] sources@[q].vkey();
                assert(false);
            }
            if n > 0 {
                assert(sources@[n - 1].vkey() == n as int);
                assert forall|t: int| 0 <= t < unsorted.len() implies #[trigger] unsorted[t].vkey()
                    <= unsorted.len() by {
                    assert(unsorted.contains(unsorted[t]));
                    assert(sources@.to_multiset().count(unsorted[t]) > 0);
                    assert(sources@.contains(unsorted[t]));
                    let w = choose|w: int| 0 <= w < sources@.len() && sources@[w] == unsorted[t];
                    assert(sources@[w].vkey() <= sources@[n - 1].vkey());
                }
                assert(sources@.contains(sources@[n - 1]));
                assert(unsorted.to_multiset().count(sources@[n - 1]) > 0);
                assert(unsorted.contains(sources@[n - 1]));
                let u = choose|u: int| 0 <= u < unsorted.len() && unsorted[u] == sources@[n - 1];
                assert(unsorted[u].vkey() == unsorted.len());
                assert(exists|i: int|
                    0 <= i < unsorted.len() && #[trigger] unsorted[i].vkey() == unsorted.len());
            }
            assert(set_valid(unsorted));
            assert(sources_correspond(unsorted, files@) && set_valid(unsorted)
                && sources@.to_multiset() == unsorted.to_multiset());
            assert(loadable(files@));
        }
        Ok(sources)
    }
}

/// The parsed source is what parsing this filename and content gives: some
/// decomposition of the name matches it exactly, with a version that fits.
pub open spec fn parsed_from(ms: MigrationSource, name: Seq<char>, content: Seq<char>) -> bool {
    exists|ver: Seq<char>, desc: Seq<char>, ext: Seq<char>|
        #[trigger] parses_as(name, ver, desc, ext) && digits_val(ver) < 0x8000000000000000
            && source_matches(ms, name, ver, desc, ext, content)
}

/// Each element of `parsed` is the parse of the file at its index.
pub open spec fn sources_correspond(
    parsed: Seq<MigrationSource>,
    files: Seq<(String, String)>,
) -> bool {
    &&& parsed.len() == files.len()
    &&& forall|i: int|
        0 <= i < files.len() ==> parsed_from(#[trigger] parsed[i], files[i].0@, files[i].1@)
}

/// What set validation accepts: pairwise-distinct versions whose largest is
/// the size of the set, or an empty set.
pub open spec fn set_valid(parsed: Seq<MigrationSource>) -> bool {
    &&& forall|i: int, j: int|
        0 <= i < j < parsed.len() ==> #[trigger] parsed[i].vkey() != #[trigger] parsed[j].vkey()
    &&& (parsed.len() == 0 || {
        &&& forall|i: int| 0 <= i < parsed.len() ==> #[trigger] parsed[i].vkey() <= parsed.len()
        &&& exists|i: int| 0 <= i < parsed.len() && #[trigger] parsed[i].vkey() == parsed.len()
    })
}

/// The whole directory loads: every file parses, and the parses pass set
/// validation.
pub open spec fn loadable(files: Seq<(String, String)>) -> bool {
    exists|parsed: Seq<MigrationSource>|
        #[trigger] sources_correspond(parsed, files) && set_valid(parsed)
}

/// Two decompositions of one filename carry the same version digits: the
/// digit run after `V` ends at the separator, wherever the description and
/// extension are cut.
proof fn lemma_version_determined(
    name: Seq<char>,
    ver1: Seq<char>,
    desc1: Seq<char>,
    ext1: Seq<char>,
    ver2: Seq<char>,
    desc2: Seq<char>,
    ext2: Seq<char>,
)
    requires
        parses_as(name, ver1, desc1, ext1),
        parses_as(name, ver2, desc2, ext2),
    ensures
        ver1 == ver2,
{
    if ver1.len() < ver2.len() {
        assert(name[1 + ver1.len() as int] == '_');
        assert(name[1 + ver1.len() as int] == ver2[ver1.len() as int]);
        assert(is_digit(ver2[ver1.len() as int]));
        assert(false);
    }
    if ver2.len() < ver1.len() {
        assert(name[1 + ver2.len() as int] == '_');
        assert(name[1 + ver2.len() as int] == ver1[ver2.len() as int]);
        assert(is_digit(ver1[ver2.len() as int]));
        assert(false);
    }
    assert forall|k: int| 0 <= k < ver1.len() implies ver1[k] == ver2[k] by {
        assert(name[1 + k] == ver1[k]);
        assert(name[1 + k] == ver2[k]);
    }
    assert(ver1 =~= ver2);
}

/// Two parses of one filename carry the same version, whatever the contents.
proof fn lemma_parsed_version_unique(
    a: MigrationSource,
    b: MigrationSource,
    name: Seq<char>,
    ca: Seq<char>,
    cb: Seq<char>,
)
    requires
        parsed_from(a, name, ca),
        parsed_from(b, name, cb),
    ensures
        a.vkey() == b.vkey(),
{
    let (ver1, desc1, ext1) = choose|ver: Seq<char>, desc: Seq<char>, ext: Seq<char>|
        #[trigger] parses_as(name, ver, desc, ext) && digits_val(ver) < 0x8000000000000000
            && source_matches(a, name, ver, desc, ext, ca);
    let (ver2, desc2, ext2) = choose|ver: Seq<char>, desc: Seq<char>, ext: Seq<char>|
        #[trigger] parses_as(name, ver, desc, ext) && digits_val(ver) < 0x8000000000000000
            && source_matches(b, name, ver, desc, ext, cb);
    lemma_version_determined(name, ver1, desc1, ext1, ver2, desc2, ext2);
}

/// Two corresponding parses of the same files agree on every version.
proof fn lemma_correspond_versions(
    a: Seq<MigrationSource>,
    b: Seq<MigrationSource>,
    files: Seq<(String, String)>,
)
    requires
        sources_correspond(a, files),
        sources_correspond(b, files),
    ensures
        forall|i: int| 0 <= i < a.len() ==> #[trigger] a[i].vkey() == b[i].vkey(),
{
    assert forall|i: int| 0 <= i < a.len() implies #[trigger] a[i].vkey() == b[i].vkey() by {
        lemma_parsed_version_unique(a[i], b[i], files[i].0@, files[i].1@, files[i].1@);
    }
}

/// An element repeated at two positions has multiplicity at least two.
proof fn lemma_dup_count(s: Seq<MigrationSource>, i: int, j: int)
    requires
        0 <= i < j < s.len(),
        s[i] == s[j],
    ensures
        s.to_multiset().count(s[i]) >= 2,
{
    let removed = s.remove(j);
    assert(removed.to_multiset() =~= s.to_multiset().remove(s[j]));
    assert(removed[i] == s[i]);
    assert(removed.contains(s[i]));
    assert(removed.to_multiset().count(s[i]) > 0);
}

/// Multiplicity at least two gives two distinct positions.
proof fn lemma_count_two_positions(s: Seq<MigrationSource>, x: MigrationSource)
    requires
        s.to_multiset().count(x) >= 2,
    ensures
        exists|i: int, j: int| 0 <= i < j < s.len() && #[trigger] s[i] == x && #[trigger] s[j]
            == x,
    decreases s.len(),
{
    assert(s.len() > 0) by {
        if s.len() == 0 {
            assert(s.to_multiset().count(x) == 0);
        }
    }
    let rest = s.skip(1);
    assert(s =~= rest.insert(0, s[0]));
    assert(rest.insert(0, s[0]).to_multiset() =~= rest.to_multiset().insert(s[0]));
    assert(s.to_multiset() =~= rest.to_multiset().insert(s[0]));
    if s[0] == x {
        assert(rest.to_multiset().count(x) >= 1);
        assert(rest.contains(x));
        let k = choose|k: int| 0 <= k < rest.len() && rest[k] == x;
        assert(s[k + 1] == x);
        assert(0 <= 0 < k + 1 < s.len() && s[0] == x && s[k + 1] == x);
    } else {
        assert(rest.to_multiset().count(x) >= 2);
        lemma_count_two_positions(rest, x);
        let (i, j) = choose|i: int, j: int|
            0 <= i < j < rest.len() && #[trigger] rest[i] == x && #[trigger] rest[j] == x;
        assert(s[i + 1] == x && s[j + 1] == x);
        assert(0 <= i + 1 < j + 1 < s.len() && s[i + 1] == x && s[j + 1] == x);
    }
}

/// A pair of positions with one version moves across a permutation.
proof fn lemma_version_pair_transfer(a: Seq<MigrationSource>, b: Seq<MigrationSource>)
    requires
        a.to_multiset() == b.to_multiset(),
        exists|i: int, j: int|
            0 <= i < j < a.len() && #[trigger] a[i].vkey() == #[trigger] a[j].vkey(),
    ensures
        exists|i: int, j: int|
            0 <= i < j < b.len() && #[trigger] b[i].vkey() == #[trigger] b[j].vkey(),
{
    let (i, j) = choose|i: int, j: int|
        0 <= i < j < a.len() && #[trigger] a[i].vkey() == #[trigger] a[j].vkey();
    if a[i] == a[j] {
        lemma_dup_count(a, i, j);
        lemma_count_two_positions(b, a[i]);
        let (p, q) = choose|p: int, q: int|
            0 <= p < q < b.len() && #[trigger] b[p] == a[i] && #[trigger] b[q] == a[i];
        assert(b[p].vkey() == b[q].vkey());
    } else {
        assert(a.contains(a[i]));
        assert(b.to_multiset().count(a[i]) > 0);
        assert(b.contains(a[i]));
        let p = choose|p: int| 0 <= p < b.len() && b[p] == a[i];
        assert(a.contains(a[j]));
        assert(b.to_multiset().count(a[j]) > 0);
        assert(b.contains(a[j]));
        let q = choose|q: int| 0 <= q < b.len() && b[q] == a[j];
        assert(p != q);
        if p < q {
            assert(b[p].vkey() == b[q].vkey());
        } else {
            assert(b[q].vkey() == b[p].vkey());
            assert(0 <= q < p < b.len() && b[q].vkey() == b[p].vkey());
        }
    }
}

/// Whether `c` is a word character, as [`is_word_char`] says.
fn is_word_char_exec(c: char) -> (r: bool)
    ensures
        r == is_word_char(c),
{
    (c >= '0' && c <= '9') || (c >= 'a' && c <= 'z') || (c >= 'A' && c <= 'Z') || c == '_'
}

/// Whether two character vectors hold the same text.
#[verifier::loop_isolation(false)]
fn chars_eq(a: &Vec<char>, b: &Vec<char>) -> (r: bool)
    ensures
        r == (a@ == b@),
{
    if a.len() != b.len() {
        proof {
            assert(a@ != b@);
        }
        return false;
    }
    for i in 0..a.len()
        invariant
            a@.len() == b@.len(),
            forall|j: int| 0 <= j < i ==> a@[j] == b@[j],
    {
        if a[i] != b[i] {
            return false;
        }
    }
    proof {
        assert(a@ =~= b@);
    }
    true
}

/// A name that is empty or does not start with `V` has no decomposition.
proof fn lemma_not_named_head(name: Seq<char>)
    requires
        name.len() == 0 || name[0] != 'V',
    ensures
        !well_named(name),
{
    assert forall|ver: Seq<char>, desc: Seq<char>, ext: Seq<char>| !#[trigger] parses_as(
        name,
        ver,
        desc,
        ext,
    ) by {
        if parses_as(name, ver, desc, ext) {
            assert(name[0] == 'V');
        }
    }
}

/// A name whose second character is not a digit has no decomposition.
proof fn lemma_not_named_no_digits(name: Seq<char>)
    requires
        name.len() >= 1,
        name.len() > 1 ==> !is_digit(name[1]),
    ensures
        !well_named(name),
{
    assert forall|ver: Seq<char>, desc: Seq<char>, ext: Seq<char>| !#[trigger] parses_as(
        name,
        ver,
        desc,
        ext,
    ) by {
        if parses_as(name, ver, desc, ext) {
            assert(name[1] == ver[0]);
            assert(is_digit(ver[0]));
            assert(name.len() > 1);
        }
    }
}

/// In any decomposition the version is the maximal digit run after `V`.
proof fn lemma_ver_forced(name: Seq<char>, i: int, ver: Seq<char>, desc: Seq<char>, ext: Seq<char>)
    requires
        1 <= i <= name.len(),
        forall|k: int| 1 <= k < i ==> is_digit(#[trigger] name[k]),
        i < name.len() ==> !is_digit(name[i]),
        parses_as(name, ver, desc, ext),
    ensures
        ver == name.subrange(1, i),
        i + 2 <= name.len(),
        name[i] == '_',
        name[i + 1] == '_',
{
    if ver.len() < i - 1 {
        // The separator would stand inside the digit run.
        assert(name[1 + ver.len() as int] == '_');
        assert(is_digit(name[1 + ver.len() as int]));
        assert(false);
    }
    if ver.len() > i - 1 {
        // The version would extend past the digit run.
        assert(ver[i - 1] == name[i]);
        assert(is_digit(ver[i - 1]));
        assert(i < name.len() || name.len() >= 1 + ver.len() + 2);
        assert(i < name.len());
        assert(false);
    }
    assert(ver.len() == i - 1);
    assert(ver =~= name.subrange(1, i));
    assert(name[i] == '_');
    assert(name[i + 1] == '_');
}

/// A name whose digit run is not followed by `__` has no decomposition.
proof fn lemma_not_named_no_sep(name: Seq<char>, i: int)
    requires
        1 < i <= name.len(),
        forall|k: int| 1 <= k < i ==> is_digit(#[trigger] name[k]),
        i < name.len() ==> !is_digit(name[i]),
        i + 2 > name.len() || name[i] != '_' || name[i + 1] != '_',
    ensures
        !well_named(name),
{
    assert forall|ver: Seq<char>, desc: Seq<char>, ext: Seq<char>| !#[trigger] parses_as(
        name,
        ver,
        desc,
        ext,
    ) by {
        if parses_as(name, ver, desc, ext) {
            lemma_ver_forced(name, i, ver, desc, ext);
        }
    }
}

/// In any decomposition the description is the maximal word run after the
/// separator; where that run is empty or runs to the end of the name, there
/// is no decomposition.
proof fn lemma_desc_forced(name: Seq<char>, i: int)
    requires
        1 < i,
        i + 2 <= name.len(),
        forall|k: int| 1 <= k < i ==> is_digit(#[trigger] name[k]),
        i < name.len() ==> !is_digit(name[i]),
        name[i] == '_',
        name[i + 1] == '_',
    ensures
        forall|ver: Seq<char>, desc: Seq<char>, ext: Seq<char>|
            #[trigger] parses_as(name, ver, desc, ext) ==> ver == name.subrange(1, i)
                && desc.len() > 0 && name[i + 2] == desc[0],
{
    assert forall|ver: Seq<char>, desc: Seq<char>, ext: Seq<char>| #[trigger] parses_as(
        name,
        ver,
        desc,
        ext,
    ) implies ver == name.subrange(1, i) && desc.len() > 0 && name[i + 2] == desc[0] by {
        lemma_ver_forced(name, i, ver, desc, ext);
        assert(name[i + 2] == desc[0]);
    }
}

/// A name whose word run after the separator is empty or not followed by a
/// dot has no decomposition.
proof fn lemma_not_named_no_dot(name: Seq<char>, i: int, j: int)
    requires
        1 < i,
        i + 2 <= name.len(),
        forall|k: int| 1 <= k < i ==> is_digit(#[trigger] name[k]),
        i < name.len() ==> !is_digit(name[i]),
        name[i] == '_',
        name[i + 1] == '_',
        i + 2 <= j <= name.len(),
        forall|k: int| i + 2 <= k < j ==> is_word_char(#[trigger] name[k]),
        j < name.len() ==> !is_word_char(name[j]),
        j == name.len() || name[j] != '.',
    ensures
        !well_named(name),
{
    assert forall|ver: Seq<char>, desc: Seq<char>, ext: Seq<char>| !#[trigger] parses_as(
        name,
        ver,
        desc,
        ext,
    ) by {
        if parses_as(name, ver, desc, ext) {
            lemma_ver_forced(name, i, ver, desc, ext);
            let d0 = i + 2;
            if desc.len() < j - d0 {
                assert(name[d0 + desc.len() as int] == '.');
                assert(is_word_char(name[d0 + desc.len() as int]));
                assert(false);
            }
            if desc.len() > j - d0 {
                assert(desc[j - d0] == name[j]);
                assert(is_word_char(desc[j - d0]));
                assert(j < name.len());
                assert(false);
            }
            assert(desc.len() == j - d0);
            assert(name[j] == '.');
            assert(j < name.len());
            assert(false);
        }
    }
}

/// In any decomposition, with the version and description runs fixed, the
/// extension is the rest of the name after the dot.
proof fn lemma_ext_forced(name: Seq<char>, i: int, j: int)
    requires
        1 < i,
        i + 2 <= name.len(),
        forall|k: int| 1 <= k < i ==> is_digit(#[trigger] name[k]),
        i < name.len() ==> !is_digit(name[i]),
        name[i] == '_',
        name[i + 1] == '_',
        i + 2 < j < name.len(),
        forall|k: int| i + 2 <= k < j ==> is_word_char(#[trigger] name[k]),
        j < name.len() ==> !is_word_char(name[j]),
        name[j] == '.',
    ensures
        forall|ver: Seq<char>, desc: Seq<char>, ext: Seq<char>|
            #[trigger] parses_as(name, ver, desc, ext) ==> ver == name.subrange(1, i) && desc
                == name.subrange(i + 2, j) && ext == name.subrange(j + 1, name.len() as int),
{
    assert forall|ver: Seq<char>, desc: Seq<char>, ext: Seq<char>| #[trigger] parses_as(
        name,
        ver,
        desc,
        ext,
    ) implies ver == name.subrange(1, i) && desc == name.subrange(i + 2, j) && ext == name.subrange(
        j + 1,
        name.len() as int,
    ) by {
        lemma_ver_forced(name, i, ver, desc, ext);
        let d0 = i + 2;
        if desc.len() < j - d0 {
            assert(name[d0 + desc.len() as int] == '.');
            assert(is_word_char(name[d0 + desc.len() as int]));
            assert(false);
        }
        if desc.len() > j - d0 {
            assert(desc[j - d0] == name[j]);
            assert(is_word_char(desc[j - d0]));
            assert(false);
        }
        assert(desc =~= name.subrange(d0, j));
        assert(ext =~= name.subrange(j + 1, name.len() as int));
    }
}

/// Once the version prefix no longer fits, the whole version cannot fit.
proof fn lemma_digits_val_grows(name: Seq<char>, i: int, k: int, value: int, d: int)
    requires
        1 <= k < i <= name.len(),
        forall|p: int| 1 <= p < i ==> is_digit(#[trigger] name[p]),
        value == digits_val(name.subrange(1, k)),
        d == name[k] as int - '0' as int,
        value * 10 + d >= 0x8000000000000000,
    ensures
        digits_val(name.subrange(1, i)) >= 0x8000000000000000,
{
    lemma_digits_monotone(name, i, k + 1);
    assert(name.subrange(1, k + 1).drop_last() =~= name.subrange(1, k));
    assert(name.subrange(1, k + 1).last() == name[k]);
    assert(digits_val(name.subrange(1, k + 1)) == value * 10 + d);
}

/// A longer digit prefix never has a smaller value.
proof fn lemma_digits_monotone(name: Seq<char>, i: int, k: int)
    requires
        1 <= k <= i <= name.len(),
        forall|p: int| 1 <= p < i ==> is_digit(#[trigger] name[p]),
    ensures
        digits_val(name.subrange(1, i)) >= digits_val(name.subrange(1, k)),
        digits_val(name.subrange(1, k)) >= 0,
    decreases i - k,
{
    if k == i {
        lemma_digits_nonneg(name.subrange(1, k));
    } else {
        lemma_digits_monotone(name, i, k + 1);
        lemma_digits_nonneg(name.subrange(1, k));
        assert(name.subrange(1, k + 1).drop_last() =~= name.subrange(1, k));
        assert(name.subrange(1, k + 1).last() == name[k]);
        assert(is_digit(name[k]));
        assert(digits_val(name.subrange(1, k + 1)) == digits_val(name.subrange(1, k)) * 10 + (
        name[k] as int - '0' as int));
    }
}

/// The value of a digit run is not negative.
pub proof fn lemma_digits_nonneg(s: Seq<char>)
    ensures
        digits_val(s) >= 0 || exists|k: int| 0 <= k < s.len() && !is_digit(#[trigger] s[k]),
    decreases s.len(),
{
    if s.len() > 0 {
        lemma_digits_nonneg(s.drop_last());
        if digits_val(s) < 0 {
            if is_digit(s.last()) && digits_val(s.drop_last()) >= 0 {
                assert(false);
            }
        }
    }
}

/// The error of parsing or validating a migration source set.
#[derive(Debug)]
pub enum SourceError {
    /// The migration directory could not be read.
    Directory(String),
    /// The migration path is invalid.
    Path(String, String),
    /// A filename does not follow the naming convention.
    Name(String),
    /// A file extension is neither `sql` nor `rs`.
    Ext(String),
    /// A file could not be read.
    Io(String),
    /// A migration's statements could not be assembled.
    Sql(i64, String),
    /// The set of versions is invalid.
    Version(Version),
}

/// An invalid set of versions: the message and the versions at issue.
#[derive(Debug)]
pub struct Version {
    /// What is wrong with the set.
    pub message: String,
    /// The versions at issue.
    pub offending_versions: Vec<i64>,
}

/// Position `i` is the first whose version is not its one-based index.
pub open spec fn first_gap(ids: Seq<(i64, String)>, i: int) -> bool {
    &&& 0 <= i < ids.len()
    &&& ids[i].0 as int != i + 1
    &&& forall|j: int| 0 <= j < i ==> #[trigger] ids[j].0 as int == j + 1
}

/// The versions that repeat an earlier version, in order of appearance.
pub open spec fn repeated_versions(s: Seq<(i64, String)>) -> Seq<i64>
    decreases s.len(),
{
    if s.len() == 0 {
        Seq::empty()
    } else {
        repeated_versions(s.drop_last()) + (if exists|j: int|
            0 <= j < s.len() - 1 && s[j].0 == s.last().0 {
            seq![s.last().0]
        } else {
            Seq::empty()
        })
    }
}

/// A nonempty repetition list comes from an actual repeated version.
proof fn lemma_repeated_nonempty(s: Seq<(i64, String)>)
    requires
        repeated_versions(s).len() > 0,
    ensures
        exists|i: int, j: int| 0 <= i < j < s.len() && #[trigger] s[i].0 == #[trigger] s[j].0,
    decreases s.len(),
{
    if s.len() > 0 {
        if exists|j: int| 0 <= j < s.len() - 1 && s[j].0 == s.last().0 {
            let j = choose|j: int| 0 <= j < s.len() - 1 && s[j].0 == s.last().0;
            assert(s[j].0 == s[s.len() - 1].0);
        } else {
            lemma_repeated_nonempty(s.drop_last());
            let (i, j) = choose|i: int, j: int|
                0 <= i < j < s.drop_last().len() && #[trigger] s.drop_last()[i].0
                    == #[trigger] s.drop_last()[j].0;
            assert(s[i].0 == s[j].0);
        }
    }
}

/// Validates the version/name pairs of a migration set: duplicate versions
/// are rejected, and so is a set whose last version is not its size.
#[derive(Debug)]
pub struct Validator {
    ids: Vec<(i64, String)>,
}

impl Versioned for (i64, String) {
    open spec fn vkey(&self) -> int {
        self.0 as int
    }

    fn version_value(&self) -> (r: i64)
        ensures
            r as int == self.vkey(),
    {
        self.0
    }
}

impl Validator {
    /// The version/name pairs under validation, in ascending version order.
    pub closed spec fn ids_view(&self) -> Seq<(i64, String)> {
        self.ids@
    }

    /// A validator over the given pairs, arranged by ascending version.
    pub fn new(ids: Vec<(i64, String)>) -> (r: Self)
        ensures
            sorted_by_version(r.ids_view()),
            r.ids_view().to_multiset() == ids@.to_multiset(),
    {
        Validator { ids: sort_by_version(ids) }
    }

    /// Reject duplicate versions: the offending list holds each version that
    /// repeats an earlier one, in order.
    #[verifier::loop_isolation(false)]
    pub fn duplicate_versions(&self) -> (r: Result<(), SourceError>)
        ensures
            r is Ok <==> forall|i: int, j: int|
                0 <= i < j < self.ids_view().len() ==> self.ids_view()[i].0
                    != self.ids_view()[j].0,
            r matches Err(SourceError::Version(v)) ==> v.offending_versions@ == repeated_versions(
                self.ids_view(),
            ) && v.offending_versions@.len() > 0,
            r is Err ==> r matches Err(SourceError::Version(_)),
    {
        let ghost ids = self.ids@;
        let mut offending: Vec<i64> = Vec::new();
        let n = self.ids.len();
        proof {
            assert(ids.subrange(0, 0) =~= Seq::<(i64, String)>::empty());
            assert(offending@ =~= repeated_versions(ids.subrange(0, 0)));
        }
        for i in 0..n
            invariant
                n == ids.len(),
                offending@ =~= repeated_versions(ids.subrange(0, i as int)),
                offending@.len() == 0 <==> forall|p: int, q: int|
                    0 <= p < q < i ==> ids[p].0 != ids[q].0,
        {
            let ghost prefix = ids.subrange(0, i as int);
            let ghost before = offending@;
            let mut dup = false;
            let mut j: usize = 0;
            while j < i
                invariant
                    j <= i < ids.len(),
                    dup <==> exists|p: int| 0 <= p < j && ids[p].0 == ids[i as int].0,
                decreases i - j,
            {
                if self.ids[j].0 == self.ids[i].0 {
                    dup = true;
                }
                j = j + 1;
            }
            if dup {
                offending.push(self.ids[i].0);
            }
            proof {
                let grown = ids.subrange(0, i + 1);
                assert(grown.drop_last() =~= prefix);
                assert(grown.last() == ids[i as int]);
                assert forall|p: int| 0 <= p < grown.len() - 1 implies grown[p] == ids[p] by {}
                if dup {
                    let p = choose|p: int| 0 <= p < i && ids[p].0 == ids[i as int].0;
                    assert(grown[p].0 == grown.last().0);
                }
                if exists|p: int| 0 <= p < grown.len() - 1 && grown[p].0 == grown.last().0 {
                    let p = choose|p: int| 0 <= p < grown.len() - 1 && grown[p].0
                        == grown.last().0;
                    assert(ids[p].0 == ids[i as int].0);
                    assert(dup);
                }
                assert(dup == (exists|p: int|
                    0 <= p < grown.len() - 1 && grown[p].0 == grown.last().0));
                if dup {
                    assert(offending@ =~= before.push(ids[i as int].0));
                    assert(repeated_versions(grown) =~= before + seq![ids[i as int].0]);
                    assert(before.push(ids[i as int].0) =~= before + seq![ids[i as int].0]);
                } else {
                    assert(repeated_versions(grown) =~= before);
                }
                assert(offending@ =~= repeated_versions(grown));
            }
        }
        proof {
            assert(ids.subrange(0, n as int) =~= ids);
        }
        if offending.len() == 0 {
            return Ok(());
        }
        proof {
            lemma_repeated_nonempty(ids);
            let (p, q) = choose|p: int, q: int|
                0 <= p < q < ids.len() && #[trigger] ids[p].0 == #[trigger] ids[q].0;
            assert(self.ids_view()[p].0 == self.ids_view()[q].0);
            assert(!(forall|i: int, j: int|
                0 <= i < j < self.ids_view().len() ==> self.ids_view()[i].0
                    != self.ids_view()[j].0));
        }
        Err(
            SourceError::Version(
                Version {
                    message: "duplicate migration version found".to_owned(),
                    offending_versions: offending,
                },
            ),
        )
    }

    /// Reject a gap: where the last version is not the size of the set, the
    /// first position whose version is not its one-based index is reported.
    #[verifier::loop_isolation(false)]
    pub fn missing_versions(&self) -> (r: Result<(), SourceError>)
        ensures
            r is Ok <==> (self.ids_view().len() == 0 || self.ids_view().last().0 as int
                == self.ids_view().len()),
            r matches Err(SourceError::Version(v)) ==> exists|i: int|
                #[trigger] first_gap(self.ids_view(), i) && v.offending_versions@ == seq![
                    self.ids_view()[i].0,
                ],
            r is Err ==> r matches Err(SourceError::Version(_)),
    {
        let n = self.ids.len();
        if n == 0 {
            return Ok(());
        }
        if (n as u64) <= (i64::MAX as u64) && self.ids[n - 1].0 == n as i64 {
            proof {
                assert(self.ids@[n - 1].0 as int == n as int);
            }
            return Ok(());
        }
        proof {
            if (n as u64) <= (i64::MAX as u64) {
                assert(self.ids@[n - 1].0 as int != n as int);
            } else {
                assert(n as int > i64::MAX as int);
                assert(self.ids@[n - 1].0 <= i64::MAX);
                assert(self.ids@[n - 1].0 as int != n as int);
            }
        }
        let mut ix: usize = 0;
        while ix < n
            invariant
                ix <= n,
                n == self.ids@.len(),
                forall|j: int| 0 <= j < ix ==> #[trigger] self.ids@[j].0 as int == j + 1,
            decreases n - ix,
        {
            let fits = (ix as u64) < (i64::MAX as u64);
            let expected = if fits {
                (ix as i64) + 1
            } else {
                i64::MAX
            };
            if self.ids[ix].0 != expected || !fits {
                let gap = Version {
                    message: "missing version for the size of the set".to_owned(),
                    offending_versions: vec![self.ids[ix].0],
                };
                proof {
                    assert(self.ids@[ix as int].0 <= i64::MAX);
                    assert(self.ids@[ix as int].0 as int != ix + 1);
                    assert(first_gap(self.ids_view(), ix as int));
                    assert(gap.offending_versions@ =~= seq![self.ids_view()[ix as int].0]);
                }
                return Err(SourceError::Version(gap));
            }
            ix = ix + 1;
        }
        proof {
            assert(self.ids@[n - 1].0 as int == n as int);
            assert(self.ids@[n - 1].0 <= i64::MAX);
        }
        Ok(())
    }

    /// Run both checks: duplicates first, then gaps.
    pub fn validate(&self) -> (r: Result<(), SourceError>)
        ensures
            r is Ok <==> {
                &&& forall|i: int, j: int|
                    0 <= i < j < self.ids_view().len() ==> self.ids_view()[i].0
                        != self.ids_view()[j].0
                &&& (self.ids_view().len() == 0 || self.ids_view().last().0 as int
                    == self.ids_view().len())
            },
            r is Err ==> r matches Err(SourceError::Version(_)),
    {
        match self.duplicate_versions() {
            Ok(()) => (),
            Err(e) => {
                return Err(e);
            },
        }
        match self.missing_versions() {
            Ok(()) => (),
            Err(e) => {
                return Err(e);
            },
        }
        Ok(())
    }
}

/// The language of a migration source file.
#[derive(Debug, Clone, Copy, PartialEq, Eq, Structural)]
pub enum SourceType {
    /// A static SQL file.
    Sql,
    /// A Rust file.
    Rust,
}

impl SourceType {
    /// The source type of a file extension: only `sql` and `rs` are known,
    /// and the error names the extension it got.
    pub fn from_ext(ext: &str) -> (r: Result<Self, SourceError>)
        ensures
            ext@ == "sql"@ ==> (r matches Ok(t) && t == SourceType::Sql),
            ext@ == "rs"@ ==> (r matches Ok(t) && t == SourceType::Rust),
            ext@ != "sql"@ && ext@ != "rs"@ ==> (r matches Err(SourceError::Ext(m)) && m@
                == "got file extension "@ + ext@ + ", expected sql or rs"@),
    {
        proof {
            reveal_strlit("sql");
            reveal_strlit("rs");
        }
        let cs = chars_of(ext);
        if chars_eq(&cs, &chars_of("sql")) {
            proof {
                assert("sql"@.len() == 3);
                assert("rs"@.len() == 2);
                assert(ext@ != "rs"@);
            }
            Ok(SourceType::Sql)
        } else if chars_eq(&cs, &chars_of("rs")) {
            proof {
                assert(ext@ != "sql"@);
            }
            Ok(SourceType::Rust)
        } else {
            proof {
                assert(ext@ != "sql"@ && ext@ != "rs"@);
            }
            let mut message = "got file extension ".to_owned();
            message.append(ext);
            message.append(", expected sql or rs");
            Err(SourceError::Ext(message))
        }
    }
}

} // verus!
