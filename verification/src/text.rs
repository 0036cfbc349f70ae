//! Verified text primitives: character classification, trimming, line
//! splitting, substring search and decimal rendering, stated over `Seq<char>`.
use vstd::prelude::*;

verus! {

/// The characters that `str::trim` removes: the Unicode white-space set.
pub open spec fn is_space(c: char) -> bool {
    ||| c == ' '
    ||| c == '\t'
    ||| c == '\n'
    ||| c == '\u{000B}'
    ||| c == '\u{000C}'
    ||| c == '\r'
    ||| c == '\u{0085}'
    ||| c == '\u{00A0}'
    ||| c == '\u{1680}'
    ||| c == '\u{2000}'
    ||| c == '\u{2001}'
    ||| c == '\u{2002}'
    ||| c == '\u{2003}'
    ||| c == '\u{2004}'
    ||| c == '\u{2005}'
    ||| c == '\u{2006}'
    ||| c == '\u{2007}'
    ||| c == '\u{2008}'
    ||| c == '\u{2009}'
    ||| c == '\u{200A}'
    ||| c == '\u{2028}'
    ||| c == '\u{2029}'
    ||| c == '\u{202F}'
    ||| c == '\u{205F}'
    ||| c == '\u{3000}'
}

/// Whether `c` is white space, as [`is_space`] says.
pub fn is_space_char(c: char) -> (r: bool)
    ensures
        r == is_space(c),
{
    match c {
        ' ' | '\t' | '\n' | '\u{000B}' | '\u{000C}' | '\r' | '\u{0085}' | '\u{00A0}' | '\u{1680}'
            | '\u{2000}' | '\u{2001}' | '\u{2002}' | '\u{2003}' | '\u{2004}' | '\u{2005}'
            | '\u{2006}' | '\u{2007}' | '\u{2008}' | '\u{2009}' | '\u{200A}' | '\u{2028}'
            | '\u{2029}' | '\u{202F}' | '\u{205F}' | '\u{3000}' => true,
        _ => false,
    }
}

/// `s` without its leading white space.
pub open spec fn trim_front(s: Seq<char>) -> Seq<char>
    decreases s.len(),
{
    if s.len() > 0 && is_space(s[0]) {
        trim_front(s.skip(1))
    } else {
        s
    }
}

/// `s` without its trailing white space.
pub open spec fn trim_back(s: Seq<char>) -> Seq<char>
    decreases s.len(),
{
    if s.len() > 0 && is_space(s.last()) {
        trim_back(s.drop_last())
    } else {
        s
    }
}

/// `s` without its leading and trailing white space, as `str::trim` leaves it.
pub open spec fn trim(s: Seq<char>) -> Seq<char> {
    trim_back(trim_front(s))
}

/// The index of the first line break in `s`, or `s.len()` if there is none.
pub open spec fn nl_index(s: Seq<char>) -> int
    decreases s.len(),
{
    if s.len() == 0 {
        0
    } else if s[0] == '\n' {
        0
    } else {
        1 + nl_index(s.skip(1))
    }
}

/// `s` split at each line break; the breaks themselves are removed, and there
/// is always at least one (possibly empty) piece.
pub open spec fn split_nl(s: Seq<char>) -> Seq<Seq<char>>
    decreases s.len(),
{
    let i = nl_index(s);
    if !(0 <= i && i < s.len()) {
        seq![s]
    } else {
        seq![s.take(i)] + split_nl(s.skip(i + 1))
    }
}

/// `l` without one trailing carriage return, if it has one.
pub open spec fn strip_cr(l: Seq<char>) -> Seq<char> {
    if l.len() > 0 && l.last() == '\r' {
        l.drop_last()
    } else {
        l
    }
}

/// The lines of `s`, as `str::lines` yields them: pieces between line breaks,
/// each followed break's optional carriage return removed, without a final
/// empty piece.
pub open spec fn text_lines(s: Seq<char>) -> Seq<Seq<char>> {
    if s.len() == 0 {
        Seq::empty()
    } else {
        let ps = split_nl(s);
        let body = ps.take(ps.len() - 1).map_values(|l: Seq<char>| strip_cr(l));
        if ps.last().len() == 0 {
            body
        } else {
            body.push(ps.last())
        }
    }
}

/// The index in `s` where the two-character pattern `c1 c2` first occurs;
/// where it does not occur the result is at least `s.len() - 1`.
pub open spec fn pair_index(s: Seq<char>, c1: char, c2: char) -> int
    decreases s.len(),
{
    if s.len() < 2 {
        s.len() as int
    } else if s[0] == c1 && s[1] == c2 {
        0
    } else {
        1 + pair_index(s.skip(1), c1, c2)
    }
}

/// The views of a sequence of character vectors.
pub open spec fn seqs_view(s: Seq<Vec<char>>) -> Seq<Seq<char>> {
    s.map_values(|v: Vec<char>| v@)
}

/// The views of a sequence of strings.
pub open spec fn strings_view(s: Seq<String>) -> Seq<Seq<char>> {
    s.map_values(|v: String| v@)
}

/// Relies on std's `String::push`: it appends exactly one character at the
/// end of the string.
#[verifier::external_body]
pub fn push_char(s: &mut String, c: char)
    ensures
        final(s)@ == old(s)@.push(c),
{
    s.push(c);
}

/// The characters of `s`, one vector element per character.
#[verifier::loop_isolation(false)]
pub fn chars_of(s: &str) -> (r: Vec<char>)
    ensures
        r@ == s@,
{
    let n = s.unicode_len();
    let mut r: Vec<char> = Vec::new();
    for i in 0..n
        invariant
            n == s@.len(),
            r@ =~= s@.subrange(0, i as int),
    {
        r.push(s.get_char(i));
        proof {
            assert(r@ =~= s@.subrange(0, i + 1));
        }
    }
    proof {
        assert(s@.subrange(0, n as int) =~= s@);
    }
    r
}

/// The characters of `v` as an owned string.
#[verifier::loop_isolation(false)]
pub fn string_of(v: &Vec<char>) -> (r: String)
    ensures
        r@ == v@,
{
    let mut r = String::new();
    for i in 0..v.len()
        invariant
            r@ =~= v@.subrange(0, i as int),
    {
        push_char(&mut r, v[i]);
        proof {
            assert(r@ =~= v@.subrange(0, i + 1));
        }
    }
    proof {
        assert(v@.subrange(0, v@.len() as int) =~= v@);
    }
    r
}

/// The characters of `v` between `from` and `to`.
#[verifier::loop_isolation(false)]
pub fn subvec(v: &Vec<char>, from: usize, to: usize) -> (r: Vec<char>)
    requires
        from <= to <= v@.len(),
    ensures
        r@ == v@.subrange(from as int, to as int),
{
    let mut r: Vec<char> = Vec::new();
    for i in from..to
        invariant
            from <= i <= to,
            r@ =~= v@.subrange(from as int, i as int),
    {
        r.push(v[i]);
        proof {
            assert(r@ =~= v@.subrange(from as int, i + 1));
        }
    }
    r
}

/// `v` without its leading and trailing white space.
#[verifier::loop_isolation(false)]
pub fn trim_chars(v: &Vec<char>) -> (r: Vec<char>)
    ensures
        r@ == trim(v@),
{
    let mut a: usize = 0;
    proof {
        assert(v@.skip(0) =~= v@);
    }
    while a < v.len() && is_space_char(v[a])
        invariant
            a <= v@.len(),
            trim_front(v@) == trim_front(v@.skip(a as int)),
        decreases v@.len() - a,
    {
        proof {
            assert(v@.skip(a as int).skip(1) =~= v@.skip(a + 1));
        }
        a = a + 1;
    }
    proof {
        if a < v@.len() {
            assert(trim_front(v@.skip(a as int)) == v@.skip(a as int));
        } else {
            assert(v@.skip(a as int) =~= Seq::<char>::empty());
        }
        assert(trim_front(v@) == v@.skip(a as int));
    }
    let mut b: usize = v.len();
    proof {
        assert(v@.subrange(a as int, v@.len() as int) =~= v@.skip(a as int));
    }
    while b > a && is_space_char(v[b - 1])
        invariant
            a <= b <= v@.len(),
            trim_back(v@.skip(a as int)) == trim_back(v@.subrange(a as int, b as int)),
        decreases b,
    {
        proof {
            assert(v@.subrange(a as int, b as int).drop_last() =~= v@.subrange(a as int, b - 1));
            assert(v@.subrange(a as int, b as int).last() == v@[b - 1]);
        }
        b = b - 1;
    }
    proof {
        assert(trim_back(v@.subrange(a as int, b as int)) == v@.subrange(a as int, b as int));
    }
    subvec(v, a, b)
}

/// `v` without its trailing white space.
#[verifier::loop_isolation(false)]
pub fn trim_end_chars(v: &Vec<char>) -> (r: Vec<char>)
    ensures
        r@ == trim_back(v@),
{
    let mut b: usize = v.len();
    proof {
        assert(v@.subrange(0, v@.len() as int) =~= v@);
    }
    while b > 0 && is_space_char(v[b - 1])
        invariant
            b <= v@.len(),
            trim_back(v@) == trim_back(v@.subrange(0, b as int)),
        decreases b,
    {
        proof {
            assert(v@.subrange(0, b as int).drop_last() =~= v@.subrange(0, b - 1));
            assert(v@.subrange(0, b as int).last() == v@[b - 1]);
            if b == v@.len() {
                assert(v@.subrange(0, b as int) =~= v@);
            }
        }
        b = b - 1;
    }
    proof {
        if b == v@.len() {
            assert(v@.subrange(0, b as int) =~= v@);
        }
        assert(trim_back(v@.subrange(0, b as int)) == v@.subrange(0, b as int));
    }
    subvec(v, 0, b)
}

/// The index of the first line break in `v` at or after `from`, or `v.len()`
/// if there is none.
pub fn find_nl(v: &Vec<char>, from: usize) -> (r: usize)
    requires
        from <= v@.len(),
    ensures
        r as int == from + nl_index(v@.skip(from as int)),
        from <= r <= v@.len(),
    decreases v@.len() - from,
{
    if from == v.len() {
        return from;
    }
    if v[from] == '\n' {
        return from;
    }
    proof {
        assert(v@.skip(from as int).skip(1) =~= v@.skip(from + 1));
    }
    find_nl(v, from + 1)
}

/// Push onto `out` the pieces of `v` from `from` on, split at line breaks.
fn split_nl_from(v: &Vec<char>, from: usize, out: &mut Vec<Vec<char>>)
    requires
        from <= v@.len(),
    ensures
        seqs_view(final(out)@) == seqs_view(old(out)@) + split_nl(v@.skip(from as int)),
    decreases v@.len() - from,
{
    let ghost s = v@.skip(from as int);
    proof {
        assert(s.len() == v@.len() - from);
    }
    let j = find_nl(v, from);
    let piece = subvec(v, from, j);
    proof {
        assert(piece@ =~= s.take(nl_index(s)));
    }
    let ghost before = seqs_view(out@);
    out.push(piece);
    if j == v.len() {
        proof {
            assert(nl_index(s) == s.len());
            assert(s.take(nl_index(s)) =~= s);
            assert(seqs_view(out@) =~= before.push(s));
            assert(split_nl(s) =~= seq![s]);
            assert(before.push(s) =~= before + split_nl(s));
        }
    } else {
        proof {
            assert(seqs_view(out@) =~= before.push(s.take(nl_index(s))));
        }
        split_nl_from(v, j + 1, out);
        proof {
            assert(v@.skip(j + 1) =~= s.skip(nl_index(s) + 1));
            assert(split_nl(s) == seq![s.take(nl_index(s))] + split_nl(s.skip(nl_index(s) + 1)));
            assert(before.push(s.take(nl_index(s))) =~= before + seq![s.take(nl_index(s))]);
            assert(seqs_view(out@) =~= before + split_nl(s));
        }
    }
}

/// `l` without one trailing carriage return, if it has one.
pub fn strip_cr_chars(l: &Vec<char>) -> (r: Vec<char>)
    ensures
        r@ == strip_cr(l@),
{
    if l.len() > 0 && l[l.len() - 1] == '\r' {
        let r = subvec(l, 0, l.len() - 1);
        proof {
            assert(l@.subrange(0, l@.len() - 1) =~= l@.drop_last());
        }
        r
    } else {
        subvec(l, 0, l.len())
    }
}

/// The lines of `v`, as [`text_lines`] describes them.
#[verifier::loop_isolation(false)]
pub fn lines_of(v: &Vec<char>) -> (r: Vec<Vec<char>>)
    ensures
        seqs_view(r@) == text_lines(v@),
{
    if v.len() == 0 {
        let r: Vec<Vec<char>> = Vec::new();
        proof {
            assert(seqs_view(r@) =~= text_lines(v@));
        }
        return r;
    }
    let mut pieces: Vec<Vec<char>> = Vec::new();
    split_nl_from(v, 0, &mut pieces);
    proof {
        assert(v@.skip(0) =~= v@);
        assert(seqs_view(pieces@) =~= split_nl(v@));
        lemma_split_nl_len(v@);
    }
    let ghost ps = split_nl(v@);
    let n = pieces.len();
    let mut r: Vec<Vec<char>> = Vec::new();
    for i in 0..n - 1
        invariant
            n == ps.len(),
            n == pieces@.len(),
            seqs_view(pieces@) == ps,
            seqs_view(r@) =~= ps.take(ps.len() - 1).map_values(|l: Seq<char>| strip_cr(l)).take(
                i as int,
            ),
    {
        let ghost before = seqs_view(r@);
        r.push(strip_cr_chars(&pieces[i]));
        proof {
            let mapped = ps.take(ps.len() - 1).map_values(|l: Seq<char>| strip_cr(l));
            assert(mapped[i as int] == strip_cr(ps[i as int]));
            assert(seqs_view(r@) =~= before.push(strip_cr(ps[i as int])));
            assert(mapped.take(i + 1) =~= mapped.take(i as int).push(mapped[i as int]));
        }
    }
    proof {
        let mapped = ps.take(ps.len() - 1).map_values(|l: Seq<char>| strip_cr(l));
        assert(mapped.take(mapped.len() as int) =~= mapped);
    }
    if pieces[n - 1].len() > 0 {
        let last = subvec(&pieces[n - 1], 0, pieces[n - 1].len());
        proof {
            assert(last@ =~= ps.last());
        }
        r.push(last);
        proof {
            assert(seqs_view(r@) =~= ps.take(ps.len() - 1).map_values(
                |l: Seq<char>| strip_cr(l),
            ).push(ps.last()));
        }
    }
    r
}

/// A split always yields at least one piece.
proof fn lemma_split_nl_len(s: Seq<char>)
    ensures
        split_nl(s).len() >= 1,
    decreases s.len(),
{
    if nl_index(s) != s.len() {
        lemma_nl_index_range(s);
    }
}

/// The first line break of `s` lies within `s`, or just past it.
pub proof fn lemma_nl_index_range(s: Seq<char>)
    ensures
        0 <= nl_index(s) <= s.len(),
        nl_index(s) < s.len() ==> s[nl_index(s)] == '\n',
    decreases s.len(),
{
    if s.len() > 0 && s[0] != '\n' {
        lemma_nl_index_range(s.skip(1));
    }
}

/// The index of the first occurrence of `c1 c2` in `v` at or after `from`, or
/// an index past `v.len() - 2` where there is none.
pub fn find_pair(v: &Vec<char>, from: usize, c1: char, c2: char) -> (r: usize)
    requires
        from <= v@.len(),
    ensures
        r as int == from + pair_index(v@.skip(from as int), c1, c2),
        from <= r <= v@.len(),
    decreases v@.len() - from,
{
    if v.len() - from < 2 {
        return v.len();
    }
    if v[from] == c1 && v[from + 1] == c2 {
        return from;
    }
    proof {
        assert(v@.skip(from as int).skip(1) =~= v@.skip(from + 1));
    }
    find_pair(v, from + 1, c1, c2)
}

/// The decimal digit character for `d`.
pub open spec fn dec_digit(d: int) -> char {
    if d == 0 {
        '0'
    } else if d == 1 {
        '1'
    } else if d == 2 {
        '2'
    } else if d == 3 {
        '3'
    } else if d == 4 {
        '4'
    } else if d == 5 {
        '5'
    } else if d == 6 {
        '6'
    } else if d == 7 {
        '7'
    } else if d == 8 {
        '8'
    } else {
        '9'
    }
}

/// The decimal digits of `n`, most significant first.
pub open spec fn dec_rep(n: nat) -> Seq<char>
    decreases n,
{
    if n < 10 {
        seq![dec_digit(n as int)]
    } else {
        dec_rep(n / 10).push(dec_digit((n % 10) as int))
    }
}

/// The decimal rendering of `n`, with a leading minus sign when negative.
pub open spec fn int_dec(n: int) -> Seq<char> {
    if n < 0 {
        seq!['-'] + dec_rep((-n) as nat)
    } else {
        dec_rep(n as nat)
    }
}

/// Append the decimal digits of `n` to `out`.
fn u64_dec_into(n: u64, out: &mut Vec<char>)
    ensures
        final(out)@ == old(out)@ + dec_rep(n as nat),
    decreases n,
{
    if n >= 10 {
        u64_dec_into(n / 10, out);
    }
    let d = n % 10;
    let c = match d {
        0 => '0',
        1 => '1',
        2 => '2',
        3 => '3',
        4 => '4',
        5 => '5',
        6 => '6',
        7 => '7',
        8 => '8',
        _ => '9',
    };
    proof {
        assert(c == dec_digit(d as int));
    }
    out.push(c);
    proof {
        assert(out@ =~= old(out)@ + dec_rep(n as nat));
    }
}

/// The decimal rendering of `n`.
pub fn u64_string(n: u64) -> (r: String)
    ensures
        r@ == dec_rep(n as nat),
{
    let mut v: Vec<char> = Vec::new();
    u64_dec_into(n, &mut v);
    proof {
        assert(v@ =~= dec_rep(n as nat));
    }
    string_of(&v)
}

/// The decimal rendering of `n`, with a leading minus sign when negative.
pub fn i64_string(n: i64) -> (r: String)
    ensures
        r@ == int_dec(n as int),
{
    if n >= 0 {
        u64_string(n as u64)
    } else {
        let m: u64 = if n == i64::MIN {
            9223372036854775808u64
        } else {
            (-n) as u64
        };
        proof {
            assert(m as nat == (-(n as int)) as nat);
        }
        let mut v: Vec<char> = Vec::new();
        v.push('-');
        u64_dec_into(m, &mut v);
        proof {
            assert(v@ =~= seq!['-'] + dec_rep(m as nat));
        }
        string_of(&v)
    }
}

} // verus!
