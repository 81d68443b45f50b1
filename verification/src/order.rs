//! The dictionary order of texts, and lists kept in that order without
//! repetition.

use crate::text::{same, slice, views};
use vstd::prelude::*;

verus! {

/// `a` comes strictly before `b` in the dictionary order by code point.
pub open spec fn lex_less(a: Seq<char>, b: Seq<char>) -> bool
    decreases a.len(),
{
    if b.len() == 0 {
        false
    } else if a.len() == 0 {
        true
    } else if a[0] != b[0] {
        (a[0] as u32) < (b[0] as u32)
    } else {
        lex_less(a.drop_first(), b.drop_first())
    }
}

/// No text comes before itself.
pub proof fn lex_irreflexive(a: Seq<char>)
    ensures
        !lex_less(a, a),
    decreases a.len(),
{
    if a.len() > 0 {
        lex_irreflexive(a.drop_first());
    }
}

/// Of two different texts exactly one comes before the other.
pub proof fn lex_total(a: Seq<char>, b: Seq<char>)
    ensures
        a == b || lex_less(a, b) || lex_less(b, a),
        !(lex_less(a, b) && lex_less(b, a)),
    decreases a.len(),
{
    if a.len() > 0 && b.len() > 0 {
        if a[0] == b[0] {
            lex_total(a.drop_first(), b.drop_first());
            if a.drop_first() == b.drop_first() {
                assert(a =~= seq![a[0]] + a.drop_first());
                assert(b =~= seq![b[0]] + b.drop_first());
            }
        } else {
            let ua = a[0] as u32;
            let ub = b[0] as u32;
            if ua == ub {
                vstd::utf8::char_u32_cast(a[0], ua);
                vstd::utf8::char_u32_cast(b[0], ub);
            }
        }
    } else if a.len() == 0 && b.len() == 0 {
        assert(a =~= b);
    }
}

/// The dictionary order is transitive.
pub proof fn lex_transitive(a: Seq<char>, b: Seq<char>, c: Seq<char>)
    requires
        lex_less(a, b),
        lex_less(b, c),
    ensures
        lex_less(a, c),
    decreases a.len(),
{
    if a.len() > 0 {
        if a[0] == b[0] && b[0] == c[0] {
            lex_transitive(a.drop_first(), b.drop_first(), c.drop_first());
        }
    }
}

/// Whether `a` comes strictly before `b` in the dictionary order.
pub fn less(a: &Vec<char>, b: &Vec<char>) -> (r: bool)
    ensures
        r == lex_less(a@, b@),
{
    let mut i: usize = 0;
    assert(a@.skip(0) =~= a@);
    assert(b@.skip(0) =~= b@);
    loop
        invariant
            i <= a.len(),
            i <= b.len(),
            lex_less(a@, b@) == lex_less(a@.skip(i as int), b@.skip(i as int)),
        decreases a.len() - i,
    {
        let ghost ra = a@.skip(i as int);
        let ghost rb = b@.skip(i as int);
        if i >= b.len() {
            return false;
        }
        if i >= a.len() {
            return true;
        }
        assert(ra[0] == a@[i as int]);
        assert(rb[0] == b@[i as int]);
        if a[i] != b[i] {
            return (a[i] as u32) < (b[i] as u32);
        }
        proof {
            assert(ra.drop_first() =~= a@.skip(i + 1));
            assert(rb.drop_first() =~= b@.skip(i + 1));
        }
        i += 1;
    }
}

// ---------------------------------------------------------------------------
// Ordered lists without repetition
// ---------------------------------------------------------------------------

/// Each element comes strictly before the next.
pub open spec fn ascending(s: Seq<Seq<char>>) -> bool {
    forall|i: int, j: int| 0 <= i < j < s.len() ==> lex_less(s[i], s[j])
}

/// Number of leading elements of `s` that come strictly before `x`.
pub open spec fn rank_in(s: Seq<Seq<char>>, x: Seq<char>) -> nat
    decreases s.len(),
{
    if s.len() > 0 && lex_less(s[0], x) {
        1 + rank_in(s.drop_first(), x)
    } else {
        0
    }
}

/// `s` with `x` put at its place, unless `x` already stands there.
pub open spec fn insert_unique(s: Seq<Seq<char>>, x: Seq<char>) -> Seq<Seq<char>> {
    let p = rank_in(s, x) as int;
    if p < s.len() && s[p] == x {
        s
    } else if p <= s.len() {
        s.insert(p, x)
    } else {
        s
    }
}

/// The different elements of `v` in ascending order.
pub open spec fn sort_unique(v: Seq<Seq<char>>) -> Seq<Seq<char>>
    decreases v.len(),
{
    if v.len() == 0 {
        Seq::empty()
    } else {
        insert_unique(sort_unique(v.drop_last()), v.last())
    }
}

pub proof fn lemma_rank_in(s: Seq<Seq<char>>, x: Seq<char>, p: int)
    requires
        0 <= p <= s.len(),
        forall|j: int| 0 <= j < p ==> lex_less(s[j], x),
        p == s.len() || !lex_less(s[p], x),
    ensures
        rank_in(s, x) == p,
    decreases p,
{
    if p > 0 {
        let t = s.drop_first();
        assert forall|j: int| 0 <= j < p - 1 implies lex_less(t[j], x) by {
            assert(t[j] == s[j + 1]);
        }
        lemma_rank_in(t, x, p - 1);
    }
}

proof fn lemma_rank_bounds(s: Seq<Seq<char>>, x: Seq<char>)
    ensures
        rank_in(s, x) <= s.len(),
        forall|j: int| 0 <= j < rank_in(s, x) ==> lex_less(s[j], x),
        rank_in(s, x) < s.len() ==> !lex_less(s[rank_in(s, x) as int], x),
    decreases s.len(),
{
    if s.len() > 0 && lex_less(s[0], x) {
        let t = s.drop_first();
        lemma_rank_bounds(t, x);
        assert forall|j: int| 0 <= j < rank_in(s, x) implies lex_less(s[j], x) by {
            if j > 0 {
                assert(s[j] == t[j - 1]);
            }
        }
        if rank_in(s, x) < s.len() {
            assert(s[rank_in(s, x) as int] == t[rank_in(t, x) as int]);
        }
    }
}

/// Putting an element at its place keeps the order and adds just that
/// element.
pub proof fn insert_unique_is_ordered(s: Seq<Seq<char>>, x: Seq<char>)
    requires
        ascending(s),
    ensures
        ascending(insert_unique(s, x)),
        insert_unique(s, x).to_set() == s.to_set().insert(x),
{
    lemma_rank_bounds(s, x);
    let p = rank_in(s, x) as int;
    let r = insert_unique(s, x);
    if p < s.len() && s[p] == x {
        assert(s.to_set().insert(x) =~= s.to_set()) by {
            assert(s.contains(x));
        }
    } else {
        assert forall|i: int, j: int| 0 <= i < j < r.len() implies lex_less(r[i], r[j]) by {
            if j == p {
                // r[i] is an element before the place of x
            } else if i == p {
                // x against an element at or after its place
                lex_total(s[p], x);
                if j - 1 > p {
                    lex_transitive(x, s[p], s[j - 1]);
                }
            } else if i < p && j > p {
                assert(r[i] == s[i] && r[j] == s[j - 1]);
            } else if i < p {
                assert(r[i] == s[i] && r[j] == s[j]);
            } else {
                assert(r[i] == s[i - 1] && r[j] == s[j - 1]);
            }
        }
        assert(r.to_set() =~= s.to_set().insert(x)) by {
            assert forall|e: Seq<char>| r.to_set().contains(e) <==> s.to_set().insert(
                x,
            ).contains(e) by {
                if r.contains(e) {
                    let k = choose|k: int| 0 <= k < r.len() && r[k] == e;
                    if k < p {
                        assert(s[k] == e);
                    } else if k > p {
                        assert(s[k - 1] == e);
                    }
                }
                if s.contains(e) {
                    let k = choose|k: int| 0 <= k < s.len() && s[k] == e;
                    if k < p {
                        assert(r[k] == e);
                    } else {
                        assert(r[k + 1] == e);
                    }
                }
                if e == x {
                    assert(r[p] == x);
                }
            }
        }
    }
}

/// `sort_unique` lists exactly the elements of its argument, each once, in
/// ascending order.
pub proof fn sort_unique_is_ordered(v: Seq<Seq<char>>)
    ensures
        ascending(sort_unique(v)),
        sort_unique(v).to_set() == v.to_set(),
    decreases v.len(),
{
    if v.len() == 0 {
        assert(sort_unique(v).to_set() =~= v.to_set());
    } else {
        sort_unique_is_ordered(v.drop_last());
        insert_unique_is_ordered(sort_unique(v.drop_last()), v.last());
        assert(v.drop_last().to_set().insert(v.last()) =~= v.to_set()) by {
            assert forall|e: Seq<char>|
                v.drop_last().to_set().insert(v.last()).contains(e) <==> v.to_set().contains(
                    e,
                ) by {
                if v.drop_last().contains(e) {
                    let k = choose|k: int| 0 <= k < v.drop_last().len() && v.drop_last()[k] == e;
                    assert(v[k] == e);
                }
                if v.contains(e) {
                    let k = choose|k: int| 0 <= k < v.len() && v[k] == e;
                    if k < v.len() - 1 {
                        assert(v.drop_last()[k] == e);
                    }
                }
                if e == v.last() {
                    assert(v[v.len() - 1] == e);
                }
            }
        }
    }
}

/// Puts `x` at its place in the ordered list `out`, unless it stands there.
pub fn insert_ordered(out: &mut Vec<Vec<char>>, x: &Vec<char>)
    ensures
        views(final(out)@) == insert_unique(views(old(out)@), x@),
{
    let ghost s = views(out@);
    let mut p: usize = 0;
    while p < out.len() && less(&out[p], x)
        invariant
            p <= out.len(),
            s == views(out@),
            out@ == old(out)@,
            forall|j: int| 0 <= j < p ==> lex_less(s[j], x@),
        decreases out.len() - p,
    {
        assert(s[p as int] == out@[p as int]@);
        p += 1;
    }
    proof {
        if p < out.len() {
            assert(s[p as int] == out@[p as int]@);
        }
        lemma_rank_in(s, x@, p as int);
    }
    if p < out.len() && same(&out[p], x) {
        assert(s[p as int] == out@[p as int]@);
    } else {
        if p < out.len() {
            assert(s[p as int] == out@[p as int]@);
        }
        let c = slice(x, 0, x.len());
        assert(c@ =~= x@);
        out.insert(p, c);
        assert(views(out@) =~= s.insert(p as int, x@));
    }
}

/// The different elements of `items` in ascending order.
pub fn sorted_unique(items: &Vec<Vec<char>>) -> (r: Vec<Vec<char>>)
    ensures
        views(r@) == sort_unique(views(items@)),
        ascending(views(r@)),
        views(r@).to_set() == views(items@).to_set(),
{
    let mut out: Vec<Vec<char>> = Vec::new();
    let ghost all = views(items@);
    let mut i: usize = 0;
    assert(views(out@) =~= sort_unique(all.take(0)));
    while i < items.len()
        invariant
            i <= items.len(),
            all == views(items@),
            views(out@) == sort_unique(all.take(i as int)),
        decreases items.len() - i,
    {
        proof {
            let t = all.take(i + 1);
            assert(t.drop_last() =~= all.take(i as int));
            assert(t.last() == items@[i as int]@);
        }
        insert_ordered(&mut out, &items[i]);
        i += 1;
    }
    proof {
        assert(all.take(items.len() as int) =~= all);
        sort_unique_is_ordered(all);
    }
    out
}

} // verus!
