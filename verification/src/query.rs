//! Building blocks of the engine's read operations: selecting rows, putting
//! them in order, and cutting the answer to a limit.

use crate::dup::{seq_view, Dup};
use crate::sorting::{lemma_place, lemma_place_bounds, place, sort_stable, stable_sort};
use vstd::prelude::*;

verus! {

/// The first `n` elements of `s`, or all of `s` if it is shorter.
pub open spec fn at_most<T>(s: Seq<T>, n: nat) -> Seq<T> {
    if s.len() <= n {
        s
    } else {
        s.take(n as int)
    }
}

/// The number `n`, or the greatest `usize` if `n` is greater.
pub open spec fn saturated(n: nat) -> nat {
    if n > usize::MAX {
        usize::MAX as nat
    } else {
        n
    }
}

/// Taking views commutes with filtering by a predicate on views.
pub proof fn lemma_filter_views<T: View>(s: Seq<T>, p: spec_fn(T::V) -> bool)
    ensures
        seq_view(s.filter(|x: T| p(x@))) == seq_view(s).filter(p),
    decreases s.len(),
{
    reveal(Seq::filter);
    let q = |x: T| p(x@);
    if s.len() > 0 {
        lemma_filter_views(s.drop_last(), p);
        assert(seq_view(s).drop_last() =~= seq_view(s.drop_last()));
        assert(seq_view(s).last() == s.last()@);
        if q(s.last()) {
            assert(seq_view(s.drop_last().filter(q).push(s.last())) =~= seq_view(
                s.drop_last().filter(q),
            ).push(s.last()@));
        }
    } else {
        assert(seq_view(s.filter(q)) =~= seq_view(s).filter(p));
    }
}

/// Filtering a sequence grown by one element.
pub proof fn lemma_filter_push<T>(s: Seq<T>, x: T, p: spec_fn(T) -> bool)
    ensures
        s.push(x).filter(p) == if p(x) {
            s.filter(p).push(x)
        } else {
            s.filter(p)
        },
{
    reveal(Seq::filter);
    assert(s.push(x).drop_last() =~= s);
}

/// Taking views commutes with stable sorting when the two relations agree.
pub proof fn lemma_sort_views<T: View>(
    v: Seq<T>,
    bx: spec_fn(T, T) -> bool,
    bv: spec_fn(T::V, T::V) -> bool,
)
    requires
        forall|a: T, b: T| #[trigger] bx(a, b) == bv(a@, b@),
    ensures
        seq_view(stable_sort(v, bx)) == stable_sort(seq_view(v), bv),
    decreases v.len(),
{
    if v.len() == 0 {
        assert(seq_view(stable_sort(v, bx)) =~= stable_sort(seq_view(v), bv));
    } else {
        let s = stable_sort(v.drop_last(), bx);
        let x = v.last();
        lemma_sort_views(v.drop_last(), bx, bv);
        assert(seq_view(v).drop_last() =~= seq_view(v.drop_last()));
        assert(seq_view(v).last() == x@);
        lemma_place_bounds(s, x, bx);
        let p = place(s, x, bx) as int;
        let sv = seq_view(s);
        assert forall|j: int| 0 <= j < p implies !bv(x@, sv[j]) by {
            assert(!bx(x, s[j]));
        }
        if p < s.len() {
            assert(bx(x, s[p]));
        }
        lemma_place(sv, x@, bv, p);
        assert(seq_view(s.insert(p, x)) =~= sv.insert(p, x@));
    }
}

/// Copies of the rows of `v` that `f` accepts, in order.
pub(crate) fn select<T: Dup, F: Fn(&T) -> bool>(v: &Vec<T>, f: F, Ghost(p): Ghost<spec_fn(T::V) -> bool>)
    -> (r: Vec<T>)
    requires
        forall|a: &T| #[trigger] f.requires((a,)),
        forall|a: &T, o: bool| #[trigger] f.ensures((a,), o) ==> o == p(a@),
    ensures
        seq_view(r@) == seq_view(v@).filter(p),
{
    let mut out: Vec<T> = Vec::new();
    let ghost all = seq_view(v@);
    let mut i: usize = 0;
    proof {
        reveal(Seq::filter);
        assert(all.take(0).filter(p) =~= Seq::<T::V>::empty());
        assert(seq_view(out@) =~= Seq::<T::V>::empty());
    }
    while i < v.len()
        invariant
            i <= v.len(),
            all == seq_view(v@),
            seq_view(out@) == all.take(i as int).filter(p),
            forall|a: &T| #[trigger] f.requires((a,)),
            forall|a: &T, o: bool| #[trigger] f.ensures((a,), o) ==> o == p(a@),
        decreases v.len() - i,
    {
        proof {
            assert(all.take(i + 1) =~= all.take(i as int).push(v@[i as int]@));
            lemma_filter_push(all.take(i as int), v@[i as int]@, p);
        }
        if f(&v[i]) {
            let ghost before = seq_view(out@);
            let x = v[i].dup();
            out.push(x);
            assert(seq_view(out@) =~= before.push(x@));
        }
        i += 1;
    }
    assert(all.take(v.len() as int) =~= all);
    out
}

/// Copies of the rows of `v` in the opposite order.
pub fn reversed<T: Dup>(v: &Vec<T>) -> (r: Vec<T>)
    ensures
        seq_view(r@) == seq_view(v@).reverse(),
{
    let mut out: Vec<T> = Vec::new();
    let n = v.len();
    let mut i: usize = 0;
    while i < n
        invariant
            i <= n,
            n == v.len(),
            out.len() == i,
            forall|j: int| 0 <= j < i ==> out@[j]@ == v@[n - 1 - j]@,
        decreases n - i,
    {
        let x = v[n - 1 - i].dup();
        out.push(x);
        i += 1;
    }
    assert(seq_view(out@) =~= seq_view(v@).reverse());
    out
}

/// The rows of `v` sorted stably. `f` decides the relation `before` on views.
pub(crate) fn sort_rows<T: View, F: Fn(&T, &T) -> bool>(
    v: Vec<T>,
    f: F,
    Ghost(before): Ghost<spec_fn(T::V, T::V) -> bool>,
) -> (r: Vec<T>)
    requires
        forall|a: &T, b: &T| #[trigger] f.requires((a, b)),
        forall|a: &T, b: &T, o: bool| #[trigger] f.ensures((a, b), o) ==> o == before(a@, b@),
    ensures
        seq_view(r@) == stable_sort(seq_view(v@), before),
{
    let ghost bx = |a: T, b: T| before(a@, b@);
    let ghost orig = v@;
    let r = sort_stable(v, f, Ghost(bx));
    proof {
        lemma_sort_views(orig, bx, before);
    }
    r
}

/// The first `n` rows of `v`, or all of them if there are fewer.
pub fn first_n<T: View>(v: Vec<T>, n: usize) -> (r: Vec<T>)
    ensures
        seq_view(r@) == at_most(seq_view(v@), n as nat),
{
    let mut v = v;
    let ghost orig = v@;
    if v.len() > n {
        v.truncate(n);
        assert(seq_view(v@) =~= seq_view(orig).take(n as int));
    }
    v
}

} // verus!
