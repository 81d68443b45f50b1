//! Cutting texts into pieces and putting pieces together: separators, words,
//! lines, joins and replacements.

use crate::text::{append, find_from, first_occurrence, is_space, is_space_char, slice, to_chars, views};
use vstd::prelude::*;

verus! {

// ---------------------------------------------------------------------------
// Splitting on a separator
// ---------------------------------------------------------------------------

/// The pieces of `s` between the non-overlapping occurrences of `sep`, found
/// from the left. A text without the separator is its own single piece.
pub open spec fn split(s: Seq<char>, sep: Seq<char>) -> Seq<Seq<char>>
    decreases s.len(),
{
    match first_occurrence(s, sep) {
        Some(i) => if sep.len() > 0 && 0 <= i && i + sep.len() <= s.len() {
            seq![s.take(i)] + split(s.skip(i + sep.len()), sep)
        } else {
            seq![s]
        },
        None => seq![s],
    }
}

/// Splits `s` on the separator `sep`.
pub fn split_on(s: &Vec<char>, sep: &Vec<char>) -> (r: Vec<Vec<char>>)
    ensures
        views(r@) == split(s@, sep@),
        r.len() >= 1,
{
    let mut out: Vec<Vec<char>> = Vec::new();
    if sep.len() == 0 {
        out.push(slice(s, 0, s.len()));
        assert(s@.subrange(0, s.len() as int) =~= s@);
        assert(views(out@) =~= seq![s@]);
        return out;
    }
    let mut start: usize = 0;
    assert(s@.skip(0) =~= s@);
    assert(views(out@) =~= Seq::<Seq<char>>::empty());
    loop
        invariant
            start <= s.len(),
            sep.len() > 0,
            split(s@, sep@) == views(out@) + split(s@.skip(start as int), sep@),
        decreases s.len() - start,
    {
        let ghost rest = s@.skip(start as int);
        let ghost before = views(out@);
        match find_from(s, sep, start) {
            Some(i) => {
                let piece = slice(s, start, i);
                out.push(piece);
                proof {
                    assert(rest.take(i - start) =~= s@.subrange(start as int, i as int));
                    assert(rest.skip(i - start + sep.len()) =~= s@.skip(i + sep.len()));
                    assert(views(out@) =~= before + seq![rest.take(i - start)]);
                }
                start = i + sep.len();
            },
            None => {
                let piece = slice(s, start, s.len());
                out.push(piece);
                proof {
                    assert(rest =~= s@.subrange(start as int, s.len() as int));
                    assert(views(out@) =~= before + seq![rest]);
                }
                return out;
            },
        }
    }
}

/// Splits `s` on the one-character separator `sep`.
pub fn split_on_char(s: &Vec<char>, sep: char) -> (r: Vec<Vec<char>>)
    ensures
        views(r@) == split(s@, seq![sep]),
        r.len() >= 1,
{
    let mut sv: Vec<char> = Vec::new();
    sv.push(sep);
    assert(sv@ =~= seq![sep]);
    split_on(s, &sv)
}

/// Splits `s` on the text `sep`.
pub fn split_on_str(s: &Vec<char>, sep: &str) -> (r: Vec<Vec<char>>)
    ensures
        views(r@) == split(s@, sep@),
        r.len() >= 1,
{
    let sv = to_chars(sep);
    split_on(s, &sv)
}

// ---------------------------------------------------------------------------
// Joining
// ---------------------------------------------------------------------------

/// The pieces with `sep` between each two neighbours.
pub open spec fn join(parts: Seq<Seq<char>>, sep: Seq<char>) -> Seq<char>
    decreases parts.len(),
{
    if parts.len() == 0 {
        Seq::empty()
    } else if parts.len() == 1 {
        parts[0]
    } else {
        join(parts.drop_last(), sep) + sep + parts.last()
    }
}

/// Joins the pieces with `sep` between them.
pub fn join_with(parts: &Vec<Vec<char>>, sep: &Vec<char>) -> (r: Vec<char>)
    ensures
        r@ == join(views(parts@), sep@),
{
    let mut out: Vec<char> = Vec::new();
    let mut i: usize = 0;
    let ghost all = views(parts@);
    while i < parts.len()
        invariant
            i <= parts.len(),
            all == views(parts@),
            out@ == join(all.take(i as int), sep@),
        decreases parts.len() - i,
    {
        proof {
            let p = all.take(i + 1);
            assert(p.drop_last() =~= all.take(i as int));
            assert(p.last() == parts@[i as int]@);
            if i == 0 {
                assert(join(all.take(0), sep@) =~= Seq::<char>::empty());
            }
        }
        if i > 0 {
            append(&mut out, sep);
        }
        append(&mut out, &parts[i]);
        i += 1;
    }
    assert(all.take(parts.len() as int) =~= all);
    out
}

/// Joins the pieces with the text `sep` between them.
pub fn join_with_str(parts: &Vec<Vec<char>>, sep: &str) -> (r: Vec<char>)
    ensures
        r@ == join(views(parts@), sep@),
{
    let sv = to_chars(sep);
    join_with(parts, &sv)
}

/// `s` with every non-overlapping occurrence of `from`, found from the left,
/// replaced by `to`.
pub open spec fn replace(s: Seq<char>, from: Seq<char>, to: Seq<char>) -> Seq<char> {
    join(split(s, from), to)
}

/// Replaces every occurrence of the text `from` in `s` by the text `to`.
pub fn replace_all(s: &Vec<char>, from: &str, to: &str) -> (r: Vec<char>)
    ensures
        r@ == replace(s@, from@, to@),
{
    let parts = split_on_str(s, from);
    join_with_str(&parts, to)
}

// ---------------------------------------------------------------------------
// Words
// ---------------------------------------------------------------------------

/// Number of leading characters that are no white space.
pub open spec fn leading_nonspaces(s: Seq<char>) -> nat
    decreases s.len(),
{
    if s.len() > 0 && !is_space(s[0]) {
        1 + leading_nonspaces(s.drop_first())
    } else {
        0
    }
}

/// The maximal runs of characters that are no white space, in order.
pub open spec fn words(s: Seq<char>) -> Seq<Seq<char>>
    decreases s.len(),
{
    if s.len() == 0 {
        Seq::empty()
    } else if is_space(s[0]) {
        words(s.drop_first())
    } else {
        let n = leading_nonspaces(s);
        if 0 < n <= s.len() {
            seq![s.take(n as int)] + words(s.skip(n as int))
        } else {
            Seq::empty()
        }
    }
}

pub proof fn lemma_leading_nonspaces(s: Seq<char>, i: int)
    requires
        0 <= i <= s.len(),
        forall|j: int| 0 <= j < i ==> !is_space(s[j]),
        i == s.len() || is_space(s[i]),
    ensures
        leading_nonspaces(s) == i,
    decreases i,
{
    if i > 0 {
        let t = s.drop_first();
        assert forall|j: int| 0 <= j < i - 1 implies !is_space(t[j]) by {
            assert(t[j] == s[j + 1]);
        }
        lemma_leading_nonspaces(t, i - 1);
    }
}

/// The words of `s`.
pub fn words_of(s: &Vec<char>) -> (r: Vec<Vec<char>>)
    ensures
        views(r@) == words(s@),
{
    let mut out: Vec<Vec<char>> = Vec::new();
    let n = s.len();
    let mut i: usize = 0;
    assert(s@.skip(0) =~= s@);
    assert(views(out@) =~= Seq::<Seq<char>>::empty());
    while i < n
        invariant
            i <= n,
            n == s.len(),
            words(s@) == views(out@) + words(s@.skip(i as int)),
        decreases n - i,
    {
        let ghost rest = s@.skip(i as int);
        let ghost before = views(out@);
        if is_space_char(s[i]) {
            proof {
                assert(rest[0] == s@[i as int]);
                assert(rest.drop_first() =~= s@.skip(i + 1));
            }
            i += 1;
        } else {
            let mut j: usize = i + 1;
            while j < n && !is_space_char(s[j])
                invariant
                    i < j <= n,
                    n == s.len(),
                    forall|k: int| i <= k < j ==> !is_space(s@[k]),
                decreases n - j,
            {
                j += 1;
            }
            let w = slice(s, i, j);
            out.push(w);
            proof {
                assert(rest[0] == s@[i as int]);
                assert forall|k: int| 0 <= k < j - i implies !is_space(rest[k]) by {
                    assert(rest[k] == s@[i + k]);
                }
                if j < n {
                    assert(rest[j - i] == s@[j as int]);
                }
                lemma_leading_nonspaces(rest, j - i);
                assert(rest.take(j - i) =~= s@.subrange(i as int, j as int));
                assert(rest.skip(j - i) =~= s@.skip(j as int));
                assert(views(out@) =~= before + seq![rest.take(j - i)]);
            }
            i = j;
        }
    }
    assert(s@.skip(n as int) =~= Seq::<char>::empty());
    out
}

/// `s` with every run of white space turned into one blank and none at
/// either end.
pub open spec fn squeeze(s: Seq<char>) -> Seq<char> {
    join(words(s), seq![' '])
}

/// Normalises the white space of `s`.
pub fn squeezed(s: &Vec<char>) -> (r: Vec<char>)
    ensures
        r@ == squeeze(s@),
{
    let w = words_of(s);
    let mut sep: Vec<char> = Vec::new();
    sep.push(' ');
    assert(sep@ =~= seq![' ']);
    join_with(&w, &sep)
}

// ---------------------------------------------------------------------------
// Lines
// ---------------------------------------------------------------------------

/// `l` without one trailing carriage return.
pub open spec fn strip_cr(l: Seq<char>) -> Seq<char> {
    if l.len() > 0 && l.last() == '\r' {
        l.drop_last()
    } else {
        l
    }
}

/// The lines of `s`: each ends at a line feed, which is dropped together
/// with a carriage return just before it; a last line without line feed is
/// kept whole.
pub open spec fn lines(s: Seq<char>) -> Seq<Seq<char>>
    decreases s.len(),
{
    if s.len() == 0 {
        Seq::empty()
    } else {
        match first_occurrence(s, seq!['\n']) {
            Some(i) => if 0 <= i < s.len() {
                seq![strip_cr(s.take(i))] + lines(s.skip(i + 1))
            } else {
                seq![s]
            },
            None => seq![s],
        }
    }
}

/// The first `limit` lines of `s`.
pub fn lines_of(s: &Vec<char>, limit: usize) -> (r: Vec<Vec<char>>)
    ensures
        views(r@) == if lines(s@).len() <= limit {
            lines(s@)
        } else {
            lines(s@).take(limit as int)
        },
{
    let mut out: Vec<Vec<char>> = Vec::new();
    let mut nl: Vec<char> = Vec::new();
    nl.push('\n');
    assert(nl@ =~= seq!['\n']);
    let n = s.len();
    let mut start: usize = 0;
    assert(s@.skip(0) =~= s@);
    assert(views(out@) =~= Seq::<Seq<char>>::empty());
    while start < n && out.len() < limit
        invariant
            start <= n,
            n == s.len(),
            nl@ == seq!['\n'],
            out.len() <= limit,
            lines(s@) == views(out@) + lines(s@.skip(start as int)),
        decreases n - start,
    {
        let ghost rest = s@.skip(start as int);
        let ghost before = views(out@);
        match find_from(s, &nl, start) {
            Some(i) => {
                let mut end = i;
                if end > start && s[end - 1] == '\r' {
                    end -= 1;
                }
                let piece = slice(s, start, end);
                out.push(piece);
                proof {
                    let l = rest.take(i - start);
                    assert(l =~= s@.subrange(start as int, i as int));
                    if l.len() > 0 {
                        assert(l.last() == s@[i - 1]);
                    }
                    assert(strip_cr(l) =~= s@.subrange(start as int, end as int));
                    assert(rest.skip(i - start + 1) =~= s@.skip(i + 1));
                    assert(views(out@) =~= before + seq![strip_cr(l)]);
                }
                start = i + 1;
            },
            None => {
                let piece = slice(s, start, n);
                out.push(piece);
                proof {
                    assert(rest =~= s@.subrange(start as int, n as int));
                    assert(views(out@) =~= before + seq![rest]);
                    assert(s@.skip(n as int) =~= Seq::<char>::empty());
                }
                start = n;
            },
        }
    }
    proof {
        if start == n {
            assert(s@.skip(n as int) =~= Seq::<char>::empty());
            assert(lines(s@) =~= views(out@));
        } else {
            assert(lines(s@).take(limit as int) =~= views(out@));
        }
    }
    out
}

/// A text has no more lines than characters.
pub proof fn lemma_lines_len(s: Seq<char>)
    ensures
        lines(s).len() <= s.len(),
    decreases s.len(),
{
    if s.len() > 0 {
        match first_occurrence(s, seq!['\n']) {
            Some(i) => {
                if 0 <= i < s.len() {
                    lemma_lines_len(s.skip(i + 1));
                }
            },
            None => {},
        }
    }
}

/// The lines of `s`.
pub fn all_lines_of(s: &Vec<char>) -> (r: Vec<Vec<char>>)
    ensures
        views(r@) == lines(s@),
{
    proof {
        lemma_lines_len(s@);
    }
    lines_of(s, s.len())
}

/// The first line of `s`, or the empty text if it has none.
pub open spec fn first_line(s: Seq<char>) -> Seq<char> {
    if lines(s).len() > 0 {
        lines(s)[0]
    } else {
        Seq::empty()
    }
}

/// The first line of `s`, or the empty text if it has none.
pub fn first_line_of(s: &Vec<char>) -> (r: Vec<char>)
    ensures
        r@ == first_line(s@),
{
    let l = lines_of(s, 1);
    if l.len() > 0 {
        let x = slice(&l[0], 0, l[0].len());
        assert(x@ =~= l@[0]@);
        assert(views(l@)[0] == l@[0]@);
        assert(views(l@).len() == l.len());
        assert(lines(s@).len() > 0);
        assert(lines(s@)[0] == views(l@)[0]);
        x
    } else {
        assert(views(l@).len() == 0);
        assert(lines(s@).len() == 0) by {
            if lines(s@).len() > 1 {
                assert(lines(s@).take(1).len() == 1);
            }
        }
        Vec::new()
    }
}

// ---------------------------------------------------------------------------
// Decimal numerals
// ---------------------------------------------------------------------------

/// The character of a decimal digit.
pub open spec fn digit(d: nat) -> char
    recommends
        d < 10,
{
    ((48 + d) as u8) as char
}

/// The decimal numeral of `n`, without leading zeros.
pub open spec fn decimal(n: nat) -> Seq<char>
    decreases n,
{
    if n < 10 {
        seq![digit(n)]
    } else {
        decimal(n / 10).push(digit(n % 10))
    }
}

/// The decimal numeral of an integer, with a minus sign if it is negative.
pub open spec fn signed_decimal(i: int) -> Seq<char> {
    if i < 0 {
        seq!['-'] + decimal((-i) as nat)
    } else {
        decimal(i as nat)
    }
}

/// Appends the decimal numeral of `n` to `out`.
pub fn push_decimal(out: &mut Vec<char>, n: u64)
    ensures
        final(out)@ == old(out)@ + decimal(n as nat),
    decreases n,
{
    if n >= 10 {
        push_decimal(out, n / 10);
    }
    let d: u8 = (n % 10) as u8;
    let c: char = (48u8 + d) as char;
    out.push(c);
    proof {
        if n >= 10 {
            assert(out@ =~= old(out)@ + decimal((n / 10) as nat).push(digit((n % 10) as nat)));
        } else {
            assert(out@ =~= old(out)@ + seq![digit(n as nat)]);
        }
    }
}

} // verus!
