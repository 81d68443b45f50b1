//! Sets of words and how much two of them have in common.

use crate::order::{ascending, lex_irreflexive, sorted_unique};
use crate::text::{same, views};
use vstd::prelude::*;

verus! {

/// How many elements two sets share and how many they hold together.
#[derive(Debug, Clone, Copy, PartialEq, Eq, Structural)]
pub struct Overlap {
    /// Size of the intersection.
    pub common: u128,
    /// Size of the union.
    pub total: u128,
}

/// Number of different texts that occur in both lists.
pub open spec fn common_count(a: Seq<Seq<char>>, b: Seq<Seq<char>>) -> nat {
    a.to_set().intersect(b.to_set()).len()
}

/// Number of different texts that occur in either list.
pub open spec fn union_count(a: Seq<Seq<char>>, b: Seq<Seq<char>>) -> nat {
    a.to_set().union(b.to_set()).len()
}

/// An ascending list holds nothing twice.
pub proof fn lemma_ascending_distinct(s: Seq<Seq<char>>)
    requires
        ascending(s),
    ensures
        s.no_duplicates(),
{
    assert forall|i: int, j: int| 0 <= i < s.len() && 0 <= j < s.len() && i != j implies s[i]
        != s[j] by {
        lex_irreflexive(s[i]);
        if i < j {
            assert(crate::order::lex_less(s[i], s[j]));
        } else {
            assert(crate::order::lex_less(s[j], s[i]));
        }
    }
}

/// Whether `x` occurs in `list`.
pub fn member(list: &Vec<Vec<char>>, x: &Vec<char>) -> (r: bool)
    ensures
        r == views(list@).contains(x@),
{
    let ghost vs = views(list@);
    let mut i: usize = 0;
    while i < list.len()
        invariant
            i <= list.len(),
            vs == views(list@),
            forall|j: int| 0 <= j < i ==> vs[j] != x@,
        decreases list.len() - i,
    {
        assert(vs[i as int] == list@[i as int]@);
        if same(&list[i], x) {
            return true;
        }
        i += 1;
    }
    false
}

/// The sizes of the intersection and of the union of the sets of texts that
/// the two lists hold.
pub fn overlap(a: &Vec<Vec<char>>, b: &Vec<Vec<char>>) -> (r: Overlap)
    ensures
        r.common == common_count(views(a@), views(b@)),
        r.total == union_count(views(a@), views(b@)),
        r.common <= r.total,
        r.total <= a.len() + b.len(),
{
    broadcast use vstd::seq_lib::seq_to_set_is_finite;

    let ua = sorted_unique(a);
    let ub = sorted_unique(b);
    let ghost sa = views(a@).to_set();
    let ghost sb = views(b@).to_set();
    let ghost va = views(ua@);
    let ghost vb = views(ub@);
    proof {
        lemma_ascending_distinct(va);
        lemma_ascending_distinct(vb);
        va.unique_seq_to_set();
        vb.unique_seq_to_set();
        views(a@).lemma_cardinality_of_set();
        views(b@).lemma_cardinality_of_set();
    }
    let mut common: usize = 0;
    let ghost mut both: Seq<Seq<char>> = Seq::empty();
    let mut i: usize = 0;
    proof {
        assert(both.to_set() =~= va.take(0).to_set().intersect(sb));
    }
    while i < ua.len()
        invariant
            i <= ua.len(),
            va == views(ua@),
            vb == views(ub@),
            vb.to_set() == sb,
            va.no_duplicates(),
            both.no_duplicates(),
            both.to_set() == va.take(i as int).to_set().intersect(sb),
            common == both.len(),
            common <= i,
        decreases ua.len() - i,
    {
        assert(va[i as int] == ua@[i as int]@);
        let hit = member(&ub, &ua[i]);
        proof {
            let x = va[i as int];
            let before = va.take(i as int);
            let after = va.take(i + 1);
            assert(after =~= before.push(x));
            assert(after.to_set() =~= before.to_set().insert(x)) by {
                assert forall|e: Seq<char>| after.to_set().contains(e) <==> before.to_set().insert(
                    x,
                ).contains(e) by {
                    if after.contains(e) {
                        let k = choose|k: int| 0 <= k < after.len() && after[k] == e;
                        if k < i {
                            assert(before[k] == e);
                        }
                    }
                    if before.contains(e) {
                        let k = choose|k: int| 0 <= k < before.len() && before[k] == e;
                        assert(after[k] == e);
                    }
                    if e == x {
                        assert(after[i as int] == x);
                    }
                }
            }
            assert(!before.contains(x)) by {
                if before.contains(x) {
                    let k = choose|k: int| 0 <= k < before.len() && before[k] == x;
                    assert(va[k] == va[i as int]);
                }
            }
            if hit {
                assert(sb.contains(x));
                assert(!both.contains(x)) by {
                    if both.contains(x) {
                        assert(both.to_set().contains(x));
                        assert(before.to_set().contains(x));
                    }
                }
                let grown = both.push(x);
                assert(grown.no_duplicates());
                assert(grown.to_set() =~= after.to_set().intersect(sb)) by {
                    assert forall|e: Seq<char>|
                        grown.to_set().contains(e) <==> after.to_set().intersect(sb).contains(
                            e,
                        ) by {
                        if grown.contains(e) {
                            let k = choose|k: int| 0 <= k < grown.len() && grown[k] == e;
                            if k < both.len() {
                                assert(both[k] == e);
                                assert(both.to_set().contains(e));
                            }
                        }
                        if after.to_set().intersect(sb).contains(e) {
                            if e == x {
                                assert(grown[both.len() as int] == x);
                            } else {
                                assert(before.to_set().intersect(sb).contains(e));
                                assert(both.to_set().contains(e));
                                let k = choose|k: int| 0 <= k < both.len() && both[k] == e;
                                assert(grown[k] == e);
                            }
                        }
                    }
                }
                both = grown;
            } else {
                assert(!sb.contains(x));
                assert(both.to_set() =~= after.to_set().intersect(sb));
            }
        }
        if hit {
            common += 1;
        }
        i += 1;
    }
    proof {
        assert(va.take(ua.len() as int) =~= va);
        both.unique_seq_to_set();
        vstd::set_lib::lemma_set_intersect_union_lens(sa, sb);
        vstd::set_lib::lemma_len_subset(sa.intersect(sb), sa);
        vstd::set_lib::lemma_len_subset(sa.intersect(sb), sb);
    }
    Overlap { common: common as u128, total: ua.len() as u128 + ub.len() as u128 - common as u128 }
}

/// Number of bytes of a character in UTF-8.
pub open spec fn char_width(c: char) -> nat {
    let u = c as u32;
    if u < 0x80 {
        1
    } else if u < 0x800 {
        2
    } else if u < 0x10000 {
        3
    } else {
        4
    }
}

/// Number of bytes of a text in UTF-8.
pub open spec fn byte_len(s: Seq<char>) -> nat
    decreases s.len(),
{
    if s.len() == 0 {
        0
    } else {
        byte_len(s.drop_last()) + char_width(s.last())
    }
}

/// Whether a text takes at least `n` bytes in UTF-8.
pub fn has_bytes(s: &Vec<char>, n: usize) -> (r: bool)
    ensures
        r == (byte_len(s@) >= n),
{
    let mut total: usize = 0;
    let mut i: usize = 0;
    assert(s@.take(0) =~= Seq::<char>::empty());
    while i < s.len()
        invariant
            i <= s.len(),
            total == byte_len(s@.take(i as int)),
            total < n || i == 0,
            total <= 4 * i,
        decreases s.len() - i,
    {
        if total >= n {
            proof {
                lemma_byte_len_grows(s@, i as int);
            }
            return true;
        }
        let u: u32 = s[i] as u32;
        let w: usize = if u < 0x80 {
            1
        } else if u < 0x800 {
            2
        } else if u < 0x10000 {
            3
        } else {
            4
        };
        proof {
            assert(s@.take(i + 1).drop_last() =~= s@.take(i as int));
            assert(s@.take(i + 1).last() == s@[i as int]);
        }
        if total > usize::MAX - w {
            proof {
                lemma_byte_len_grows(s@, i + 1);
            }
            return true;
        }
        total = total + w;
        i += 1;
        if total >= n {
            proof {
                lemma_byte_len_grows(s@, i as int);
            }
            return true;
        }
    }
    assert(s@.take(s.len() as int) =~= s@);
    total >= n
}

/// A text takes at least as many bytes as any of its prefixes.
pub proof fn lemma_byte_len_grows(s: Seq<char>, i: int)
    requires
        0 <= i <= s.len(),
    ensures
        byte_len(s.take(i)) <= byte_len(s),
    decreases s.len() - i,
{
    if i < s.len() {
        assert(s.take(i + 1).drop_last() =~= s.take(i));
        lemma_byte_len_grows(s, i + 1);
    } else {
        assert(s.take(i) =~= s);
    }
}

} // verus!
