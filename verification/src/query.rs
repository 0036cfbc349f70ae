//! [`Query`] is an owned SQL text. It can split itself into discrete,
//! self-terminating statements, stripping `--` line comments and C-style
//! `/* ... */` block comments first, so that a no-transaction migration can
//! run its statements one by one.
use crate::error::Error;
use crate::text::{
    chars_of, find_pair, is_space, lines_of, nl_index, pair_index, push_char, seqs_view, split_nl,
    string_of, strings_view, subvec, text_lines, trim, trim_back, trim_chars, trim_end_chars,
    trim_front,
};
use vstd::prelude::*;
use vstd::string::StringExecFns;

verus! {

/// A line is kept when, after trimming, it does not start a `--` comment.
pub open spec fn keep_line(l: Seq<char>) -> bool {
    !(trim(l).len() >= 2 && trim(l)[0] == '-' && trim(l)[1] == '-')
}

/// A kept line with any trailing `--` comment removed and its end trimmed.
pub open spec fn clean_line(l: Seq<char>) -> Seq<char> {
    trim_back(l.take(pair_index(l, '-', '-')))
}

/// The kept lines of a query, each cleaned, in order.
pub open spec fn kept_lines(ls: Seq<Seq<char>>) -> Seq<Seq<char>>
    decreases ls.len(),
{
    if ls.len() == 0 {
        Seq::empty()
    } else if keep_line(ls[0]) {
        seq![clean_line(ls[0])] + kept_lines(ls.skip(1))
    } else {
        kept_lines(ls.skip(1))
    }
}

/// The lines joined by single line breaks.
pub open spec fn join_rest(ls: Seq<Seq<char>>) -> Seq<char>
    decreases ls.len(),
{
    if ls.len() == 0 {
        Seq::empty()
    } else {
        seq!['\n'] + ls[0] + join_rest(ls.skip(1))
    }
}

/// The lines joined by single line breaks, with no break at either end.
pub open spec fn join_nl(ls: Seq<Seq<char>>) -> Seq<char> {
    if ls.len() == 0 {
        Seq::empty()
    } else {
        ls[0] + join_rest(ls.skip(1))
    }
}

/// `s` with every non-overlapping, minimally-extending `/* ... */` block
/// removed, scanning from the left; an unterminated `/*` stays.
pub open spec fn strip_blocks(s: Seq<char>) -> Seq<char>
    decreases s.len(),
{
    if s.len() < 2 {
        s
    } else if s[0] == '/' && s[1] == '*' {
        let j = pair_index(s.skip(2), '*', '/');
        if 0 <= j && j + 2 <= s.len() - 2 {
            strip_blocks(s.skip(4 + j))
        } else {
            s
        }
    } else {
        seq![s[0]] + strip_blocks(s.skip(1))
    }
}

/// `s`, terminated by a semicolon if it does not already end in one.
pub open spec fn ensure_semi(s: Seq<char>) -> Seq<char> {
    if s.len() > 0 && s.last() == ';' {
        s
    } else {
        s.push(';')
    }
}

/// The query with comments stripped: the text is trimmed, comment-only lines
/// are dropped, trailing `--` comments are cut, block comments are removed,
/// and a terminating semicolon is supplied where missing.
pub open spec fn sanitized(q: Seq<char>) -> Seq<char> {
    ensure_semi(strip_blocks(join_nl(kept_lines(text_lines(trim(q))))))
}

/// A line that holds only white space.
pub open spec fn blank_line(l: Seq<char>) -> bool {
    trim(l).len() == 0
}

/// Gather lines into statements: blank lines are dropped, every other line is
/// added to the open statement, and a line ending in a semicolon closes it.
pub open spec fn fold_statements(ls: Seq<Seq<char>>, buf: Seq<char>) -> Seq<Seq<char>>
    decreases ls.len(),
{
    if ls.len() == 0 {
        Seq::empty()
    } else {
        let l = ls[0];
        if blank_line(l) {
            fold_statements(ls.skip(1), buf)
        } else {
            let grown = buf + l.push('\n');
            if l.len() > 0 && l.last() == ';' {
                seq![grown] + fold_statements(ls.skip(1), Seq::empty())
            } else {
                fold_statements(ls.skip(1), grown)
            }
        }
    }
}

/// The statements of a query: the sanitized text, split after each line that
/// ends a statement.
pub open spec fn statements_of(q: Seq<char>) -> Seq<Seq<char>> {
    fold_statements(text_lines(sanitized(q)), Seq::empty())
}

/// The first `c1 c2` pair lies within `s`, or there is none and the reported
/// index is `s.len()`.
pub proof fn lemma_pair_index_range(s: Seq<char>, c1: char, c2: char)
    ensures
        0 <= pair_index(s, c1, c2) <= s.len(),
        pair_index(s, c1, c2) + 2 <= s.len() ==> {
            &&& s[pair_index(s, c1, c2)] == c1
            &&& s[pair_index(s, c1, c2) + 1] == c2
        },
    decreases s.len(),
{
    if s.len() >= 2 && !(s[0] == c1 && s[1] == c2) {
        lemma_pair_index_range(s.skip(1), c1, c2);
    }
}

/// A SQL query.
#[derive(Debug)]
pub struct Query(pub(crate) String);

impl View for Query {
    type V = Seq<char>;

    closed spec fn view(&self) -> Seq<char> {
        self.0@
    }
}

impl Clone for Query {
    fn clone(&self) -> (r: Self)
        ensures
            r@ == self@,
    {
        Query(self.0.clone())
    }
}

impl Query {
    /// A query made of the given SQL text.
    pub fn new(sql: String) -> (r: Self)
        ensures
            r@ == sql@,
    {
        Query(sql)
    }

    /// The SQL text of the query.
    pub fn sql(&self) -> (r: &str)
        ensures
            r@ == self@,
    {
        self.0.as_str()
    }

    /// Add another query to the end of this one, each on its own line.
    pub fn append(&mut self, other: Self) -> (r: Result<(), Error>)
        ensures
            r is Ok,
            final(self)@ == old(self)@.push('\n') + other@.push('\n'),
    {
        push_char(&mut self.0, '\n');
        self.0.append(other.0.as_str());
        push_char(&mut self.0, '\n');
        proof {
            assert(self.0@ =~= old(self)@.push('\n') + other@.push('\n'));
        }
        Ok(())
    }

    /// Insert another query before this one, each on its own line.
    pub fn prepend(&mut self, other: Self) -> (r: Result<(), Error>)
        ensures
            r is Ok,
            final(self)@ == other@.push('\n') + old(self)@.push('\n'),
    {
        let mut buf = other.0;
        push_char(&mut buf, '\n');
        buf.append(self.0.as_str());
        push_char(&mut buf, '\n');
        proof {
            assert(buf@ =~= other@.push('\n') + old(self)@.push('\n'));
        }
        self.0 = buf;
        Ok(())
    }

    /// The query text with comments stripped, as [`sanitized`] describes it.
    #[verifier::loop_isolation(false)]
    fn sanitize(&self) -> (r: Vec<char>)
        ensures
            r@ == sanitized(self@),
    {
        let cs = chars_of(self.0.as_str());
        let t = trim_chars(&cs);
        let ls = lines_of(&t);
        let kept = kept_exec(&ls);
        let joined = join_exec(&kept);
        let mut stripped: Vec<char> = Vec::new();
        strip_blocks_into(&joined, 0, &mut stripped);
        proof {
            assert(joined@.skip(0) =~= joined@);
        }
        if stripped.len() > 0 && stripped[stripped.len() - 1] == ';' {
            proof {
                assert(ensure_semi(stripped@) == stripped@);
            }
            stripped
        } else {
            let mut out = stripped;
            out.push(';');
            out
        }
    }

    /// Split a query comprised of multiple statements.
    ///
    /// For queries having `no_tx = true`, a migration comprised of multiple,
    /// separate SQL statements needs to be broken up so that the statements
    /// can run sequentially. Otherwise, many backends will run the collection
    /// of statements in a transaction automatically, which breaches the
    /// `no_tx` contract.
    ///
    /// Only `--` and C-style `/* ... */` comment syntax is understood; a line
    /// starting a comment in some other dialect is treated as SQL.
    #[verifier::loop_isolation(false)]
    pub fn split_statements(&self) -> (r: Result<Vec<String>, Error>)
        ensures
            r matches Ok(v) && strings_view(v@) == statements_of(self@),
    {
        let san = self.sanitize();
        let ls = lines_of(&san);
        let parts = fold_exec(&ls);
        let mut out: Vec<String> = Vec::new();
        for i in 0..parts.len()
            invariant
                i <= parts@.len(),
                strings_view(out@) =~= seqs_view(parts@).take(i as int),
        {
            out.push(string_of(&parts[i]));
            proof {
                assert(strings_view(out@) =~= seqs_view(parts@).take(i + 1));
            }
        }
        proof {
            assert(seqs_view(parts@).take(parts@.len() as int) =~= seqs_view(parts@));
        }
        Ok(out)
    }
}

/// The kept, cleaned lines of `ls`, as [`kept_lines`] describes them.
#[verifier::loop_isolation(false)]
fn kept_exec(ls: &Vec<Vec<char>>) -> (r: Vec<Vec<char>>)
    ensures
        seqs_view(r@) == kept_lines(seqs_view(ls@)),
{
    let ghost full = seqs_view(ls@);
    let mut r: Vec<Vec<char>> = Vec::new();
    proof {
        assert(full.skip(0) =~= full);
        assert(kept_lines(full) =~= seqs_view(r@) + kept_lines(full.skip(0)));
    }
    for i in 0..ls.len()
        invariant
            i <= ls@.len(),
            kept_lines(full) =~= seqs_view(r@) + kept_lines(full.skip(i as int)),
    {
        let ghost before = seqs_view(r@);
        let l = &ls[i];
        let t = trim_chars(l);
        let keep = !(t.len() >= 2 && t[0] == '-' && t[1] == '-');
        proof {
            assert(keep == keep_line(l@));
        }
        if keep {
            let j = find_pair(l, 0, '-', '-');
            proof {
                assert(l@.skip(0) =~= l@);
            }
            let cut = subvec(l, 0, j);
            proof {
                assert(cut@ =~= l@.take(pair_index(l@, '-', '-')));
            }
            let cleaned = trim_end_chars(&cut);
            proof {
                assert(cleaned@ == clean_line(l@));
            }
            r.push(cleaned);
            proof {
                assert(seqs_view(r@) =~= before.push(clean_line(l@)));
            }
        }
        proof {
            let rest = full.skip(i as int);
            assert(rest.len() > 0);
            assert(rest[0] == l@);
            assert(rest.skip(1) =~= full.skip(i + 1));
            if keep {
                assert(kept_lines(rest) == seq![clean_line(l@)] + kept_lines(full.skip(i + 1)));
                assert(before.push(clean_line(l@)) =~= before + seq![clean_line(l@)]);
                assert(seqs_view(r@) + kept_lines(full.skip(i + 1)) =~= before + kept_lines(rest));
            } else {
                assert(kept_lines(rest) == kept_lines(full.skip(i + 1)));
            }
        }
    }
    proof {
        assert(full.skip(full.len() as int) =~= Seq::<Seq<char>>::empty());
        assert(kept_lines(full) =~= seqs_view(r@));
    }
    r
}

/// The lines joined by single line breaks, as [`join_nl`] describes it.
#[verifier::loop_isolation(false)]
fn join_exec(ls: &Vec<Vec<char>>) -> (r: Vec<char>)
    ensures
        r@ == join_nl(seqs_view(ls@)),
{
    let ghost full = seqs_view(ls@);
    if ls.len() == 0 {
        let r: Vec<char> = Vec::new();
        proof {
            assert(r@ =~= join_nl(full));
        }
        return r;
    }
    let mut out = subvec(&ls[0], 0, ls[0].len());
    proof {
        assert(out@ =~= full[0]);
        assert(full.skip(1).len() == full.len() - 1);
        assert(out@ + join_rest(full.skip(1)) =~= join_nl(full));
    }
    for i in 1..ls.len()
        invariant
            1 <= i <= ls@.len(),
            out@ + join_rest(full.skip(i as int)) =~= join_nl(full),
    {
        let ghost before = out@;
        out.push('\n');
        let mut piece = subvec(&ls[i], 0, ls[i].len());
        out.append(&mut piece);
        proof {
            let rest = full.skip(i as int);
            assert(rest[0] == full[i as int]);
            assert(rest.skip(1) =~= full.skip(i + 1));
            assert(join_rest(rest) == seq!['\n'] + full[i as int] + join_rest(full.skip(i + 1)));
            assert(out@ =~= before + (seq!['\n'] + full[i as int]));
        }
    }
    proof {
        assert(full.skip(full.len() as int) =~= Seq::<Seq<char>>::empty());
        assert(out@ =~= join_nl(full));
    }
    out
}

/// Append to `out` the text of `v` from `from` on with block comments
/// removed, as [`strip_blocks`] describes it.
fn strip_blocks_into(v: &Vec<char>, from: usize, out: &mut Vec<char>)
    requires
        from <= v@.len(),
    ensures
        final(out)@ == old(out)@ + strip_blocks(v@.skip(from as int)),
    decreases v@.len() - from,
{
    let ghost s = v@.skip(from as int);
    proof {
        assert(s.len() == v@.len() - from);
    }
    if v.len() - from < 2 {
        // Fewer than two characters are left: copy them as they stand.
        let mut rest = subvec(v, from, v.len());
        proof {
            assert(rest@ =~= s);
            assert(strip_blocks(s) == s);
        }
        out.append(&mut rest);
        return ;
    }
    if v[from] == '/' && v[from + 1] == '*' {
        proof {
            assert(s[0] == '/' && s[1] == '*');
            assert(v@.skip(from + 2) =~= s.skip(2));
            lemma_pair_index_range(s.skip(2), '*', '/');
        }
        let j = find_pair(v, from + 2, '*', '/');
        let ghost jj = pair_index(s.skip(2), '*', '/');
        if j <= v.len() - 2 {
            proof {
                assert(j - (from + 2) == jj);
                assert(jj + 2 <= s.len() - 2);
                assert(v@.skip(j + 2) =~= s.skip(4 + jj));
                assert(strip_blocks(s) == strip_blocks(s.skip(4 + jj)));
            }
            strip_blocks_into(v, j + 2, out);
        } else {
            proof {
                assert(j - (from + 2) == jj);
                assert(!(jj + 2 <= s.len() - 2));
                assert(strip_blocks(s) == s);
            }
            let mut rest = subvec(v, from, v.len());
            proof {
                assert(rest@ =~= s);
            }
            out.append(&mut rest);
        }
        return ;
    }
    let ghost before = out@;
    out.push(v[from]);
    proof {
        assert(s[0] == v@[from as int]);
        assert(v@.skip(from + 1) =~= s.skip(1));
        assert(strip_blocks(s) == seq![s[0]] + strip_blocks(s.skip(1)));
    }
    strip_blocks_into(v, from + 1, out);
    proof {
        assert(before.push(s[0]) =~= before + seq![s[0]]);
        assert(out@ =~= before + strip_blocks(s));
    }
}

/// Gather lines into statements, as [`fold_statements`] describes it.
#[verifier::loop_isolation(false)]
fn fold_exec(ls: &Vec<Vec<char>>) -> (r: Vec<Vec<char>>)
    ensures
        seqs_view(r@) == fold_statements(seqs_view(ls@), Seq::empty()),
{
    let ghost full = seqs_view(ls@);
    let mut out: Vec<Vec<char>> = Vec::new();
    let mut buf: Vec<char> = Vec::new();
    proof {
        assert(full.skip(0) =~= full);
        assert(fold_statements(full, Seq::empty()) =~= seqs_view(out@) + fold_statements(
            full.skip(0),
            buf@,
        ));
    }
    for i in 0..ls.len()
        invariant
            i <= ls@.len(),
            fold_statements(full, Seq::empty()) =~= seqs_view(out@) + fold_statements(
                full.skip(i as int),
                buf@,
            ),
    {
        let ghost rest = full.skip(i as int);
        let ghost buf0 = buf@;
        let ghost before = seqs_view(out@);
        let l = &ls[i];
        proof {
            assert(rest[0] == l@);
            assert(rest.skip(1) =~= full.skip(i + 1));
        }
        let t = trim_chars(l);
        if t.len() > 0 {
            let mut piece = subvec(l, 0, l.len());
            buf.append(&mut piece);
            buf.push('\n');
            proof {
                assert(piece@ =~= Seq::<char>::empty() || true);
                assert(buf@ =~= buf0 + l@.push('\n'));
            }
            if l.len() > 0 && l[l.len() - 1] == ';' {
                out.push(buf);
                buf = Vec::new();
                proof {
                    assert(seqs_view(out@) =~= before.push(buf0 + l@.push('\n')));
                    assert(fold_statements(rest, buf0) == seq![buf0 + l@.push('\n')]
                        + fold_statements(full.skip(i + 1), Seq::empty()));
                    assert(before.push(buf0 + l@.push('\n')) =~= before + seq![buf0 + l@.push(
                        '\n',
                    )]);
                }
            } else {
                proof {
                    assert(fold_statements(rest, buf0) == fold_statements(
                        full.skip(i + 1),
                        buf0 + l@.push('\n'),
                    ));
                }
            }
        } else {
            proof {
                assert(blank_line(l@));
                assert(fold_statements(rest, buf0) == fold_statements(full.skip(i + 1), buf0));
            }
        }
    }
    proof {
        assert(full.skip(full.len() as int) =~= Seq::<Seq<char>>::empty());
        assert(fold_statements(full, Seq::empty()) =~= seqs_view(out@));
    }
    out
}

/// The non-blank lines, each closed by a line break, joined in order.
pub open spec fn nonblank_join(ls: Seq<Seq<char>>) -> Seq<char>
    decreases ls.len(),
{
    if ls.len() == 0 {
        Seq::empty()
    } else if blank_line(ls[0]) {
        nonblank_join(ls.skip(1))
    } else {
        ls[0].push('\n') + nonblank_join(ls.skip(1))
    }
}

/// Every line holds only white space.
pub open spec fn all_blank(ls: Seq<Seq<char>>) -> bool {
    forall|i: int| 0 <= i < ls.len() ==> blank_line(#[trigger] ls[i])
}

/// The last non-blank line, where there is one, ends in a semicolon.
pub open spec fn tail_closed(ls: Seq<Seq<char>>) -> bool
    decreases ls.len(),
{
    if ls.len() == 0 {
        true
    } else if !blank_line(ls[0]) && all_blank(ls.skip(1)) {
        ls[0].len() > 0 && ls[0].last() == ';'
    } else {
        tail_closed(ls.skip(1))
    }
}

/// A run of blank lines closes nothing.
proof fn lemma_all_blank_closed(ls: Seq<Seq<char>>)
    requires
        all_blank(ls),
    ensures
        tail_closed(ls),
    decreases ls.len(),
{
    if ls.len() > 0 {
        assert(blank_line(ls[0]));
        assert(all_blank(ls.skip(1)));
        lemma_all_blank_closed(ls.skip(1));
    }
}

/// When the last line is non-blank and ends in a semicolon, the last
/// non-blank line does.
proof fn lemma_tail_closed_from_last(ls: Seq<Seq<char>>)
    requires
        ls.len() > 0,
        !blank_line(ls.last()),
        ls.last().len() > 0,
        ls.last().last() == ';',
    ensures
        tail_closed(ls),
    decreases ls.len(),
{
    if ls.len() == 1 {
        assert(ls[0] == ls.last());
        assert(all_blank(ls.skip(1)));
    } else {
        assert(ls.skip(1).last() == ls.last());
        lemma_tail_closed_from_last(ls.skip(1));
        assert(!all_blank(ls.skip(1))) by {
            assert(ls.skip(1)[ls.skip(1).len() - 1] == ls.last());
        }
    }
}

/// A string whose leading white space leaves nothing is white space all
/// through.
proof fn lemma_trim_front_all_space(s: Seq<char>)
    requires
        trim_front(s).len() == 0,
    ensures
        forall|i: int| 0 <= i < s.len() ==> is_space(#[trigger] s[i]),
    decreases s.len(),
{
    if s.len() > 0 {
        if is_space(s[0]) {
            lemma_trim_front_all_space(s.skip(1));
            assert forall|i: int| 0 <= i < s.len() implies is_space(#[trigger] s[i]) by {
                if i > 0 {
                    assert(s.skip(1)[i - 1] == s[i]);
                }
            }
        }
    }
}

/// A string whose trailing white space leaves nothing is white space all
/// through.
proof fn lemma_trim_back_all_space(s: Seq<char>)
    requires
        trim_back(s).len() == 0,
    ensures
        forall|i: int| 0 <= i < s.len() ==> is_space(#[trigger] s[i]),
    decreases s.len(),
{
    if s.len() > 0 {
        if is_space(s.last()) {
            lemma_trim_back_all_space(s.drop_last());
            assert forall|i: int| 0 <= i < s.len() implies is_space(#[trigger] s[i]) by {
                if i < s.len() - 1 {
                    assert(s.drop_last()[i] == s[i]);
                }
            }
        }
    }
}

/// Leading trim removes a prefix: what is left is a suffix of the input.
proof fn lemma_trim_front_suffix(s: Seq<char>)
    ensures
        exists|k: int| 0 <= k <= s.len() && trim_front(s) == #[trigger] s.skip(k),
    decreases s.len(),
{
    if s.len() > 0 && is_space(s[0]) {
        lemma_trim_front_suffix(s.skip(1));
        let k = choose|k: int| 0 <= k <= s.skip(1).len() && trim_front(s.skip(1)) == #[trigger] s.skip(
            1,
        ).skip(k);
        assert(s.skip(1).skip(k) =~= s.skip(k + 1));
        assert(trim_front(s) == s.skip(k + 1));
    } else {
        assert(trim_front(s) == s.skip(0));
    }
}

/// A line that ends in a semicolon is not blank.
proof fn lemma_semi_not_blank(l: Seq<char>)
    requires
        l.len() > 0,
        l.last() == ';',
    ensures
        !blank_line(l),
{
    if blank_line(l) {
        lemma_trim_front_suffix(l);
        let k = choose|k: int| 0 <= k <= l.len() && trim_front(l) == #[trigger] l.skip(k);
        if k == l.len() {
            assert(trim_front(l).len() == 0);
            lemma_trim_front_all_space(l);
            assert(is_space(l[l.len() - 1]));
            assert(false);
        } else {
            assert(trim_back(trim_front(l)).len() == 0);
            lemma_trim_back_all_space(trim_front(l));
            assert(l.skip(k)[l.len() - 1 - k] == l[l.len() - 1]);
            assert(is_space(l[l.len() - 1]));
            assert(false);
        }
    }
}

/// The final piece of a split keeps the last character of a text that does
/// not end in a line break.
proof fn lemma_split_nl_last(s: Seq<char>)
    requires
        s.len() > 0,
        s.last() != '\n',
    ensures
        split_nl(s).last().len() > 0,
        split_nl(s).last().last() == s.last(),
    decreases s.len(),
{
    crate::text::lemma_nl_index_range(s);
    let i = nl_index(s);
    if !(0 <= i && i < s.len()) {
        assert(split_nl(s) =~= seq![s]);
    } else {
        assert(s[i] == '\n');
        assert(i < s.len() - 1);
        assert(s.skip(i + 1).len() > 0);
        assert(s.skip(i + 1).last() == s.last());
        lemma_split_nl_last(s.skip(i + 1));
        assert(split_nl(s).last() == split_nl(s.skip(i + 1)).last());
    }
}

/// The last line of a text ending in a semicolon is non-blank and ends in
/// that semicolon.
proof fn lemma_lines_of_closed(s: Seq<char>)
    requires
        s.len() > 0,
        s.last() == ';',
    ensures
        text_lines(s).len() > 0,
        text_lines(s).last().len() > 0,
        text_lines(s).last().last() == ';',
    decreases s.len(),
{
    lemma_split_nl_last(s);
    let ps = split_nl(s);
    assert(ps.last().len() > 0);
    assert(text_lines(s).last() == ps.last());
}

/// Folding lines into statements loses exactly the blank lines: with the
/// last non-blank line closed by a semicolon, the statements concatenate to
/// the non-blank lines joined in order, and every statement ends in a
/// semicolon and a line break.
proof fn lemma_fold_complete(ls: Seq<Seq<char>>, buf: Seq<char>)
    requires
        all_blank(ls) ==> buf.len() == 0,
        tail_closed(ls),
    ensures
        fold_statements(ls, buf).flatten() == buf + nonblank_join(ls),
        forall|k: int|
            0 <= k < fold_statements(ls, buf).len() ==> {
                let st = #[trigger] fold_statements(ls, buf)[k];
                st.len() >= 2 && st.last() == '\n' && st[st.len() - 2] == ';'
            },
    decreases ls.len(),
{
    if ls.len() == 0 {
        assert(all_blank(ls));
        assert(fold_statements(ls, buf).flatten() =~= buf + nonblank_join(ls));
    } else {
        let l = ls[0];
        let rest = ls.skip(1);
        if blank_line(l) {
            assert(tail_closed(ls) == tail_closed(rest));
            assert(all_blank(rest) ==> all_blank(ls)) by {
                if all_blank(rest) {
                    assert forall|i: int| 0 <= i < ls.len() implies blank_line(
                        #[trigger] ls[i],
                    ) by {
                        if i > 0 {
                            assert(rest[i - 1] == ls[i]);
                        }
                    }
                }
            }
            lemma_fold_complete(rest, buf);
            assert(fold_statements(ls, buf) == fold_statements(rest, buf));
            assert(nonblank_join(ls) == nonblank_join(rest));
        } else {
            let grown = buf + l.push('\n');
            if l.len() > 0 && l.last() == ';' {
                if !all_blank(rest) {
                    assert(tail_closed(rest));
                } else {
                    lemma_all_blank_closed(rest);
                }
                lemma_fold_complete(rest, Seq::empty());
                let folded = fold_statements(ls, buf);
                assert(folded == seq![grown] + fold_statements(rest, Seq::empty()));
                assert(folded.first() == grown);
                assert(folded.drop_first() =~= fold_statements(rest, Seq::empty()));
                assert(folded.flatten() == grown + fold_statements(rest, Seq::empty()).flatten());
                assert(folded.flatten() =~= buf + nonblank_join(ls));
                assert forall|k: int|
                    0 <= k < folded.len() implies {
                    let st = #[trigger] folded[k];
                    st.len() >= 2 && st.last() == '\n' && st[st.len() - 2] == ';'
                } by {
                    if k == 0 {
                        assert(folded[0] == grown);
                        assert(grown.last() == '\n');
                        assert(grown[grown.len() - 2] == l.last());
                    } else {
                        assert(folded[k] == fold_statements(rest, Seq::empty())[k - 1]);
                    }
                }
            } else {
                // The open statement grows; the tail still closes it later.
                assert(!(all_blank(rest) && !blank_line(l) && tail_closed(ls) == (l.len() > 0
                    && l.last() == ';')) ==> true);
                if all_blank(rest) {
                    assert(tail_closed(ls) == (l.len() > 0 && l.last() == ';'));
                    assert(false);
                }
                assert(tail_closed(rest));
                lemma_fold_complete(rest, grown);
                assert(fold_statements(ls, buf) == fold_statements(rest, grown));
                assert(buf + (l.push('\n') + nonblank_join(rest)) =~= grown + nonblank_join(
                    rest,
                ));
                assert(fold_statements(ls, buf).flatten() =~= buf + nonblank_join(ls));
            }
        }
    }
}

/// Splitting loses nothing but blank lines: for any query, the statements of
/// [`statements_of`] concatenate, in order, to exactly the non-blank lines
/// of the comment-stripped text, each line closed by a line break — and
/// every statement is self-terminating, ending in a semicolon followed by a
/// line break.
pub proof fn lemma_split_statements_complete(q: Seq<char>)
    ensures
        statements_of(q).flatten() == nonblank_join(text_lines(sanitized(q))),
        forall|k: int|
            0 <= k < statements_of(q).len() ==> {
                let st = #[trigger] statements_of(q)[k];
                st.len() >= 2 && st.last() == '\n' && st[st.len() - 2] == ';'
            },
{
    let s = sanitized(q);
    assert(s.len() > 0 && s.last() == ';') by {
        let t = strip_blocks(join_nl(kept_lines(text_lines(trim(q)))));
        if t.len() > 0 && t.last() == ';' {
        } else {
            assert(ensure_semi(t) == t.push(';'));
        }
    }
    lemma_lines_of_closed(s);
    let ls = text_lines(s);
    lemma_semi_not_blank(ls.last());
    lemma_tail_closed_from_last(ls);
    lemma_fold_complete(ls, Seq::empty());
    assert(Seq::empty() + nonblank_join(ls) =~= nonblank_join(ls));
}

} // verus!
