//! Stable sorting by an arbitrary "comes before" relation.

use vstd::prelude::*;

verus! {

/// Number of leading elements of `s` that `x` does not come before: the place
/// at which a stable insertion puts `x`.
pub open spec fn place<T>(s: Seq<T>, x: T, before: spec_fn(T, T) -> bool) -> nat
    decreases s.len(),
{
    if s.len() > 0 && !before(x, s[0]) {
        1 + place(s.drop_first(), x, before)
    } else {
        0
    }
}

/// `s` with `x` put in front of the first element that `x` comes before.
pub open spec fn insert_stable<T>(s: Seq<T>, x: T, before: spec_fn(T, T) -> bool) -> Seq<T> {
    let p = place(s, x, before) as int;
    if p <= s.len() {
        s.insert(p, x)
    } else {
        s
    }
}

/// The elements of `v` rearranged so that none comes before an earlier one;
/// elements of which neither comes before the other keep their order.
pub open spec fn stable_sort<T>(v: Seq<T>, before: spec_fn(T, T) -> bool) -> Seq<T>
    decreases v.len(),
{
    if v.len() == 0 {
        Seq::empty()
    } else {
        insert_stable(stable_sort(v.drop_last(), before), v.last(), before)
    }
}

/// `before` never holds both ways, and "neither comes before the other" is
/// transitive.
pub open spec fn is_ranking<T>(before: spec_fn(T, T) -> bool) -> bool {
    &&& forall|a: T, b: T| #[trigger] before(a, b) ==> !before(b, a)
    &&& forall|a: T, b: T, c: T| #[trigger] before(a, b) && #[trigger] before(b, c) ==> before(a, c)
    &&& forall|a: T, b: T, c: T|
        !#[trigger] before(a, b) && !#[trigger] before(b, c) ==> !before(a, c)
}

/// No element comes before an earlier one.
pub open spec fn in_order<T>(s: Seq<T>, before: spec_fn(T, T) -> bool) -> bool {
    forall|i: int, j: int| 0 <= i < j < s.len() ==> !before(s[j], s[i])
}

pub proof fn lemma_place<T>(s: Seq<T>, x: T, before: spec_fn(T, T) -> bool, p: int)
    requires
        0 <= p <= s.len(),
        forall|j: int| 0 <= j < p ==> !before(x, s[j]),
        p == s.len() || before(x, s[p]),
    ensures
        place(s, x, before) == p,
    decreases p,
{
    if p > 0 {
        let t = s.drop_first();
        assert forall|j: int| 0 <= j < p - 1 implies !before(x, t[j]) by {
            assert(t[j] == s[j + 1]);
        }
        lemma_place(t, x, before, p - 1);
    }
}

pub proof fn lemma_place_bounds<T>(s: Seq<T>, x: T, before: spec_fn(T, T) -> bool)
    ensures
        place(s, x, before) <= s.len(),
        forall|j: int| 0 <= j < place(s, x, before) ==> !before(x, s[j]),
        place(s, x, before) < s.len() ==> before(x, s[place(s, x, before) as int]),
    decreases s.len(),
{
    if s.len() > 0 && !before(x, s[0]) {
        let t = s.drop_first();
        lemma_place_bounds(t, x, before);
        assert forall|j: int| 0 <= j < place(s, x, before) implies !before(x, s[j]) by {
            if j > 0 {
                assert(s[j] == t[j - 1]);
            }
        }
        if place(s, x, before) < s.len() {
            assert(s[place(s, x, before) as int] == t[place(t, x, before) as int]);
        }
    }
}

/// A stable sort has the length of its argument and holds the same elements,
/// each as often.
pub proof fn stable_sort_permutes<T>(v: Seq<T>, before: spec_fn(T, T) -> bool)
    ensures
        stable_sort(v, before).len() == v.len(),
        stable_sort(v, before).to_multiset() == v.to_multiset(),
    decreases v.len(),
{
    broadcast use vstd::seq_lib::group_to_multiset_ensures;

    if v.len() == 0 {
        assert(stable_sort(v, before) =~= v);
    } else {
        let s = stable_sort(v.drop_last(), before);
        let x = v.last();
        stable_sort_permutes(v.drop_last(), before);
        lemma_place_bounds(s, x, before);
        let p = place(s, x, before) as int;
        s.to_multiset_ensures();
        s.insert(p, x).to_multiset_ensures();
        v.drop_last().to_multiset_ensures();
        assert(v =~= v.drop_last().push(x));
        assert(s.insert(p, x).to_multiset() =~= s.to_multiset().insert(x));
        assert(v.to_multiset() =~= v.drop_last().to_multiset().insert(x));
    }
}

/// Under a ranking, a stable sort is in order.
pub proof fn stable_sort_in_order<T>(v: Seq<T>, before: spec_fn(T, T) -> bool)
    requires
        is_ranking(before),
    ensures
        in_order(stable_sort(v, before), before),
    decreases v.len(),
{
    if v.len() > 0 {
        let s = stable_sort(v.drop_last(), before);
        let x = v.last();
        stable_sort_in_order(v.drop_last(), before);
        lemma_place_bounds(s, x, before);
        let p = place(s, x, before) as int;
        let r = s.insert(p, x);
        assert forall|i: int, j: int| 0 <= i < j < r.len() implies !before(r[j], r[i]) by {
            if j == p {
                assert(r[i] == s[i]);
            } else if i == p {
                assert(r[j] == s[j - 1]);
                if j - 1 > p {
                    // x comes before s[p], and s[j-1] does not come before s[p]
                    assert(!before(s[j - 1], s[p]));
                    if before(s[j - 1], x) {
                        assert(before(s[j - 1], s[p]));
                    }
                }
            } else if i < p && j > p {
                assert(r[i] == s[i] && r[j] == s[j - 1]);
            } else if i < p {
                assert(r[i] == s[i] && r[j] == s[j]);
            } else {
                assert(r[i] == s[i - 1] && r[j] == s[j - 1]);
            }
        }
    }
}

/// Sorts `v` stably. `f` decides the relation `before`.
pub(crate) fn sort_stable<T, F: Fn(&T, &T) -> bool>(
    v: Vec<T>,
    f: F,
    Ghost(before): Ghost<spec_fn(T, T) -> bool>,
) -> (r: Vec<T>)
    requires
        forall|a: &T, b: &T| #[trigger] f.requires((a, b)),
        forall|a: &T, b: &T, o: bool| #[trigger] f.ensures((a, b), o) ==> o == before(*a, *b),
    ensures
        r@ == stable_sort(v@, before),
{
    let ghost orig = v@;
    let mut rest = v;
    let mut out: Vec<T> = Vec::new();
    let ghost mut i: int = 0;
    assert(orig.take(0) =~= Seq::<T>::empty());
    assert(orig.skip(0) =~= orig);
    while rest.len() > 0
        invariant
            0 <= i <= orig.len(),
            rest@ == orig.skip(i),
            out@ == stable_sort(orig.take(i), before),
            forall|a: &T, b: &T| #[trigger] f.requires((a, b)),
            forall|a: &T, b: &T, o: bool| #[trigger] f.ensures((a, b), o) ==> o == before(*a, *b),
        decreases rest.len(),
    {
        let x = rest.remove(0);
        let ghost s = out@;
        let mut p: usize = 0;
        while p < out.len() && !f(&x, &out[p])
            invariant
                p <= out.len(),
                out@ == s,
                forall|j: int| 0 <= j < p ==> !before(x, s[j]),
                forall|a: &T, b: &T| #[trigger] f.requires((a, b)),
                forall|a: &T, b: &T, o: bool|
                    #[trigger] f.ensures((a, b), o) ==> o == before(*a, *b),
            decreases out.len() - p,
        {
            p += 1;
        }
        proof {
            lemma_place(s, x, before, p as int);
            let t = orig.take(i + 1);
            assert(t.drop_last() =~= orig.take(i));
            assert(t.last() == x);
            assert(orig.skip(i).drop_first() =~= orig.skip(i + 1));
        }
        out.insert(p, x);
        proof {
            i = i + 1;
        }
    }
    assert(orig.take(orig.len() as int) =~= orig);
    out
}

} // verus!
