//! Facts about counting rows that the engine's laws rest on.

use vstd::prelude::*;

verus! {

/// If exactly the row at `i` satisfies `p`, filtering by `p` leaves one row.
pub proof fn lemma_single_match<T>(s: Seq<T>, p: spec_fn(T) -> bool, i: int)
    requires
        0 <= i < s.len(),
        p(s[i]),
        forall|j: int| 0 <= j < s.len() && j != i ==> !p(s[j]),
    ensures
        s.filter(p).len() == 1,
        s.filter(p)[0] == s[i],
    decreases s.len(),
{
    reveal(Seq::filter);
    let t = s.drop_last();
    if i == s.len() - 1 {
        lemma_no_match(t, p);
    } else {
        assert forall|j: int| 0 <= j < t.len() && j != i implies !p(t[j]) by {
            assert(t[j] == s[j]);
        }
        assert(t[i] == s[i]);
        lemma_single_match(t, p, i);
    }
}

/// If no row satisfies `p`, filtering by `p` leaves nothing.
pub proof fn lemma_no_match<T>(s: Seq<T>, p: spec_fn(T) -> bool)
    requires
        forall|j: int| 0 <= j < s.len() ==> !p(s[j]),
    ensures
        s.filter(p).len() == 0,
    decreases s.len(),
{
    reveal(Seq::filter);
    if s.len() > 0 {
        let t = s.drop_last();
        assert forall|j: int| 0 <= j < t.len() implies !p(t[j]) by {
            assert(t[j] == s[j]);
        }
        lemma_no_match(t, p);
    }
}

/// The indices of the elements of `s` that satisfy `p`, in order.
pub open spec fn picked<T>(s: Seq<T>, p: spec_fn(T) -> bool) -> Seq<int>
    decreases s.len(),
{
    if s.len() == 0 {
        Seq::empty()
    } else if p(s.last()) {
        picked(s.drop_last(), p).push(s.len() - 1)
    } else {
        picked(s.drop_last(), p)
    }
}

/// Filtering keeps exactly the elements that satisfy the predicate, in
/// their order.
pub proof fn lemma_picked<T>(s: Seq<T>, p: spec_fn(T) -> bool)
    ensures
        picked(s, p).len() == s.filter(p).len(),
        forall|k: int|
            0 <= k < picked(s, p).len() ==> 0 <= (#[trigger] picked(s, p)[k]) < s.len() && s[picked(
                s,
                p,
            )[k]] == s.filter(p)[k] && p(s.filter(p)[k]),
        forall|a: int, b: int|
            0 <= a < b < picked(s, p).len() ==> (#[trigger] picked(s, p)[a]) < (#[trigger] picked(
                s,
                p,
            )[b]),
        forall|i: int|
            0 <= i < s.len() && p(#[trigger] s[i]) ==> exists|k: int|
                0 <= k < picked(s, p).len() && picked(s, p)[k] == i,
    decreases s.len(),
{
    reveal(Seq::filter);
    if s.len() > 0 {
        let t = s.drop_last();
        lemma_picked(t, p);
        let pt = picked(t, p);
        let ps = picked(s, p);
        assert forall|k: int| 0 <= k < ps.len() implies 0 <= (#[trigger] ps[k]) < s.len() && s[ps[k]]
            == s.filter(p)[k] && p(s.filter(p)[k]) by {
            if k < pt.len() {
                assert(ps[k] == pt[k]);
                assert(t[pt[k]] == s[pt[k]]);
                assert(s.filter(p)[k] == t.filter(p)[k]);
            }
        }
        assert forall|a: int, b: int| 0 <= a < b < ps.len() implies (#[trigger] ps[a]) < (
        #[trigger] ps[b]) by {
            if b < pt.len() {
                assert(pt[a] < pt[b]);
            } else {
                assert(ps[a] == pt[a]);
            }
        }
        assert forall|i: int| 0 <= i < s.len() && p(#[trigger] s[i]) implies exists|k: int|
            0 <= k < ps.len() && ps[k] == i by {
            if i < t.len() {
                assert(p(t[i]));
                let k = choose|k: int| 0 <= k < pt.len() && pt[k] == i;
                assert(ps[k] == i);
            } else {
                assert(ps[ps.len() - 1] == i);
            }
        }
    }
}

/// The number `n` stands in `nums`.
pub open spec fn occurs(nums: Seq<int>, n: int) -> bool {
    exists|k: int| 0 <= k < nums.len() && #[trigger] nums[k] == n
}

/// Numbers that climb from at least 1 to below `v` and leave out none in
/// between are the numbers 1, 2, … themselves.
pub proof fn lemma_climbing_without_gap(nums: Seq<int>, v: int)
    requires
        forall|a: int, b: int| 0 <= a < b < nums.len() ==> nums[a] < nums[b],
        forall|k: int| 0 <= k < nums.len() ==> 1 <= #[trigger] nums[k] < v,
        forall|n: int| 1 <= n < v ==> #[trigger] occurs(nums, n),
    ensures
        nums.len() == if v >= 1 {
            v - 1
        } else {
            0
        },
        forall|k: int| 0 <= k < nums.len() ==> #[trigger] nums[k] == k + 1,
{
    lemma_climbing_prefix(nums, v, nums.len() as int);
    let n = nums.len() as int;
    if n > 0 {
        assert(nums[n - 1] == n);
    }
    if n + 1 < v {
        assert(occurs(nums, n + 1));
        let k = choose|k: int| 0 <= k < nums.len() && #[trigger] nums[k] == n + 1;
        assert(nums[k] == k + 1);
    }
}

proof fn lemma_climbing_prefix(nums: Seq<int>, v: int, upto: int)
    requires
        0 <= upto <= nums.len(),
        forall|a: int, b: int| 0 <= a < b < nums.len() ==> nums[a] < nums[b],
        forall|k: int| 0 <= k < nums.len() ==> 1 <= #[trigger] nums[k] < v,
        forall|n: int| 1 <= n < v ==> #[trigger] occurs(nums, n),
    ensures
        forall|k: int| 0 <= k < upto ==> #[trigger] nums[k] == k + 1,
    decreases upto,
{
    if upto > 0 {
        lemma_climbing_prefix(nums, v, upto - 1);
        let k = upto - 1;
        // the number k + 1 stands somewhere, and nowhere before k
        if k > 0 {
            assert(nums[k - 1] == k);
            assert(nums[k - 1] < nums[k]);
        }
        assert(nums[k] >= k + 1);
        assert(occurs(nums, k + 1));
        let j = choose|j: int| 0 <= j < nums.len() && #[trigger] nums[j] == k + 1;
        if j < k {
            assert(nums[j] == j + 1);
        }
        if j > k {
            assert(nums[k] < nums[j]);
        }
    }
}

} // verus!
