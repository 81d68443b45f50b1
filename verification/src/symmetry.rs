//! Links go both ways: what refreshing the record of a memory leaves in the
//! records that its links point at.

use crate::agentic::{reason_of, reverse_linked, reverse_linked_all, sidecar_is, with_sidecar};
use crate::links::{
    cap_links, lemma_link_index_bounds, link_index, stronger, take_in_reverse, with_reverse_link,
    MAX_AGENTIC_LINKS,
};
use crate::schemas::{AgenticLinkView, AgenticMemoryView, MemoryView, Strength};
use crate::sorting::{stable_sort, stable_sort_permutes};
use crate::store::{find_first, is_first, lemma_find_first, lemma_find_some, DatabaseView};
use vstd::prelude::*;

verus! {

/// The links hold a link to `to` of the strength `s` or more.
pub open spec fn links_to(links: Seq<AgenticLinkView>, to: Seq<char>, s: int) -> bool {
    exists|j: int|
        0 <= j < links.len() && (#[trigger] links[j]).target == to && links[j].strength.millionths
            >= s
}

/// The links have room for a link to `to`: they are fewer than eight, or
/// eight of which one points at `to` already.
pub open spec fn has_room(links: Seq<AgenticLinkView>, to: Seq<char>) -> bool {
    links.len() < MAX_AGENTIC_LINKS || (links.len() == MAX_AGENTIC_LINKS && link_index(links, to)
        < links.len())
}

/// The links hold a link to `to` with the rationale `reason` and the
/// strength `s` or more.
pub open spec fn links_to_with(
    links: Seq<AgenticLinkView>,
    to: Seq<char>,
    s: int,
    reason: Seq<char>,
) -> bool {
    exists|j: int|
        0 <= j < links.len() && (#[trigger] links[j]).target == to && links[j].strength.millionths
            >= s && links[j].rationale == Some(reason)
}

/// No link to `to` among the links has a rationale.
pub open spec fn gives_no_reason(links: Seq<AgenticLinkView>, to: Seq<char>) -> bool {
    forall|k: int|
        0 <= k < links.len() && (#[trigger] links[k]).target == to ==> links[k].rationale is None
}

/// Cutting a list of at most eight links to the strongest eight keeps every
/// link of it.
proof fn lemma_cap_keeps(taken: Seq<AgenticLinkView>, e: AgenticLinkView)
    requires
        taken.len() <= MAX_AGENTIC_LINKS,
        taken.contains(e),
    ensures
        cap_links(taken).contains(e),
        cap_links(taken).len() == taken.len(),
{
    let before = |a: AgenticLinkView, b: AgenticLinkView| stronger(a, b);
    let sorted = stable_sort(taken, before);
    stable_sort_permutes(taken, before);
    taken.to_multiset_ensures();
    sorted.to_multiset_ensures();
    assert(taken.to_multiset().count(e) > 0);
    assert(sorted.to_multiset().count(e) > 0);
    assert(sorted.contains(e));
    assert(cap_links(taken) == sorted);
}

/// A record with room for it holds the reverse of a link after it was
/// merged in, at the strength given or more, and still has room.
pub proof fn lemma_reverse_gives(
    links: Seq<AgenticLinkView>,
    to: Seq<char>,
    strength: Strength,
    rationale: Seq<char>,
)
    requires
        has_room(links, to),
    ensures
        links_to(with_reverse_link(links, to, strength, rationale), to, strength.millionths as int),
        with_reverse_link(links, to, strength, rationale).len() <= MAX_AGENTIC_LINKS,
        has_room(with_reverse_link(links, to, strength, rationale), to),
{
    crate::links::reverse_link_is_kept(links, to, strength, rationale);
}

/// The reverse of a link carries that link's reason: merged into a record
/// with room for it, in which no link to `to` has a rationale of its own, it
/// leaves a link to `to` with the given rationale and at least the given
/// strength.
pub proof fn reverse_link_carries_the_reason(
    links: Seq<AgenticLinkView>,
    to: Seq<char>,
    strength: Strength,
    rationale: Seq<char>,
)
    requires
        has_room(links, to),
        gives_no_reason(links, to),
        rationale.len() > 0,
    ensures
        links_to_with(
            with_reverse_link(links, to, strength, rationale),
            to,
            strength.millionths as int,
            rationale,
        ),
        with_reverse_link(links, to, strength, rationale).len() <= MAX_AGENTIC_LINKS,
{
    lemma_link_index_bounds(links, to);
    let taken = take_in_reverse(links, to, strength, rationale);
    let i = link_index(links, to) as int;
    let e = taken[i];
    if i < links.len() {
        assert(links[i].target == to);
    }
    assert(e.target == to && e.rationale == Some(rationale) && e.strength.millionths
        >= strength.millionths);
    assert(taken.contains(e));
    lemma_cap_keeps(taken, e);
    let r = with_reverse_link(links, to, strength, rationale);
    let j = choose|j: int| 0 <= j < r.len() && r[j] == e;
    assert(r[j].target == to);
}

/// A record of at most eight links that links to `to` with a rationale still
/// does so, with that rationale and no less strength, after the reverse of
/// another link was merged in.
pub proof fn lemma_reverse_keeps_reason(
    links: Seq<AgenticLinkView>,
    to: Seq<char>,
    strength: Strength,
    rationale: Seq<char>,
    s: int,
    reason: Seq<char>,
)
    requires
        links.len() <= MAX_AGENTIC_LINKS,
        links_to_with(links, to, s, reason),
    ensures
        links_to_with(with_reverse_link(links, to, strength, rationale), to, s, reason),
        with_reverse_link(links, to, strength, rationale).len() <= MAX_AGENTIC_LINKS,
{
    lemma_link_index_bounds(links, to);
    let w = choose|j: int|
        0 <= j < links.len() && (#[trigger] links[j]).target == to && links[j].strength.millionths
            >= s && links[j].rationale == Some(reason);
    let i = link_index(links, to) as int;
    assert(i < links.len()) by {
        if i >= links.len() {
            assert(links[w].target != to);
        }
    }
    let taken = take_in_reverse(links, to, strength, rationale);
    let e = taken[w];
    assert(e.target == to && e.strength.millionths >= s && e.rationale == Some(reason));
    assert(taken.contains(e));
    lemma_cap_keeps(taken, e);
    let r = with_reverse_link(links, to, strength, rationale);
    let j = choose|j: int| 0 <= j < r.len() && r[j] == e;
    assert(r[j].target == to);
}

/// A record of at most eight links that links to `to` with the strength `s`
/// or more still does so after the reverse of another link was merged in.
pub proof fn lemma_reverse_keeps(
    links: Seq<AgenticLinkView>,
    to: Seq<char>,
    strength: Strength,
    rationale: Seq<char>,
    s: int,
)
    requires
        links.len() <= MAX_AGENTIC_LINKS,
        links_to(links, to, s),
    ensures
        links_to(with_reverse_link(links, to, strength, rationale), to, s),
        with_reverse_link(links, to, strength, rationale).len() <= MAX_AGENTIC_LINKS,
        has_room(with_reverse_link(links, to, strength, rationale), to),
{
    lemma_link_index_bounds(links, to);
    let w = choose|j: int|
        0 <= j < links.len() && (#[trigger] links[j]).target == to && links[j].strength.millionths
            >= s;
    let i = link_index(links, to) as int;
    assert(i < links.len()) by {
        if i >= links.len() {
            assert(links[w].target != to);
        }
    }
    let taken = take_in_reverse(links, to, strength, rationale);
    let e = taken[w];
    assert(e.target == to && e.strength.millionths >= s);
    assert(taken.contains(e));
    lemma_cap_keeps(taken, e);
    let r = with_reverse_link(links, to, strength, rationale);
    let j = choose|j: int| 0 <= j < r.len() && r[j] == e;
    assert(r[j].target == to && r[j].strength.millionths >= s);
    lemma_link_index_bounds(r, to);
    if link_index(r, to) >= r.len() {
        assert(r[j].target != to);
    }
}

/// What the first `n` reverse links leave in the one record of the memory
/// that the link `k` points at: room before that link was merged in, the
/// link back afterwards.
proof fn lemma_links_back_upto(
    rows: Seq<AgenticMemoryView>,
    links: Seq<AgenticLinkView>,
    from: Seq<char>,
    k: int,
    i: int,
    n: int,
)
    requires
        0 <= k < links.len(),
        0 <= n <= links.len(),
        0 <= i < rows.len(),
        rows[i].id == links[k].target,
        forall|j: int| 0 <= j < rows.len() && j != i ==> rows[j].id != links[k].target,
        has_room(rows[i].links, from),
    ensures
        reverse_linked_all(rows, links.take(n), from).len() == rows.len(),
        forall|j: int|
            0 <= j < rows.len() ==> (#[trigger] reverse_linked_all(rows, links.take(n), from)[j]).id
                == rows[j].id,
        n <= k ==> has_room(reverse_linked_all(rows, links.take(n), from)[i].links, from),
        n > k ==> reverse_linked_all(rows, links.take(n), from)[i].links.len() <= MAX_AGENTIC_LINKS
            && links_to(
            reverse_linked_all(rows, links.take(n), from)[i].links,
            from,
            links[k].strength.millionths as int,
        ),
    decreases n,
{
    crate::agentic::lemma_reverse_linked_all(rows, links.take(n), from);
    if n > 0 {
        lemma_links_back_upto(rows, links, from, k, i, n - 1);
        let a = links[k].target;
        let prev = reverse_linked_all(rows, links.take(n - 1), from);
        let l = links[n - 1];
        assert(links.take(n).drop_last() =~= links.take(n - 1));
        assert(links.take(n).last() == l);
        let now = reverse_linked(prev, l.target, from, l.strength, reason_of(l));
        assert(reverse_linked_all(rows, links.take(n), from) == now);
        lemma_find_some(prev, sidecar_is(l.target));
        if l.target == a {
            assert(is_first(prev, sidecar_is(a), i)) by {
                assert forall|j: int| 0 <= j < i implies !sidecar_is(a)(prev[j]) by {
                    assert(prev[j].id == rows[j].id);
                }
            }
            lemma_find_first(prev, sidecar_is(a), i);
            assert(now[i].links == with_reverse_link(
                prev[i].links,
                from,
                l.strength,
                reason_of(l),
            ));
            if n - 1 <= k {
                lemma_reverse_gives(prev[i].links, from, l.strength, reason_of(l));
                if n - 1 < k {
                } else {
                    assert(l == links[k]);
                }
            } else {
                lemma_reverse_keeps(
                    prev[i].links,
                    from,
                    l.strength,
                    reason_of(l),
                    links[k].strength.millionths as int,
                );
            }
            if n - 1 < k {
                assert(has_room(now[i].links, from));
            }
        } else {
            match find_first(prev, sidecar_is(l.target)) {
                Some(at) => {
                    assert(prev[at].id == l.target);
                    assert(prev[i].id == rows[i].id);
                    assert(at != i);
                    assert(now[i] == prev[i]);
                },
                None => {
                    assert(now[i] == prev[i]);
                },
            }
            assert(n - 1 != k);
        }
    } else {
        assert(links.take(0) =~= Seq::<AgenticLinkView>::empty());
    }
}

/// After the record of a memory was refreshed, every record that one of its
/// links points at, and that had room for one more link, links back to the
/// memory with at least the strength of that link. A record has room if it
/// holds fewer than eight links, or eight of which one points at the
/// memory already.
pub proof fn refreshed_links_go_both_ways(before: DatabaseView, m: MemoryView, now: Seq<char>, k: int)
    requires
        before.wf(),
        before.has_memory(m.id),
        0 <= k < before.refreshed_sidecar(m, now).links.len(),
        before.refreshed_sidecar(m, now).links[k].target != m.id,
        before.sidecar(before.refreshed_sidecar(m, now).links[k].target) matches Some(r)
            && has_room(r.links, m.id),
    ensures
        before.after_upsert_sidecar(m, now).sidecar(
            before.refreshed_sidecar(m, now).links[k].target,
        ) matches Some(r) && links_to(
            r.links,
            m.id,
            before.refreshed_sidecar(m, now).links[k].strength.millionths as int,
        ),
{
    let row = before.refreshed_sidecar(m, now);
    let links = row.links;
    let a = links[k].target;
    let old = before.agentic;
    lemma_find_some(old, sidecar_is(a));
    let i = find_first(old, sidecar_is(a))->0;
    assert(old[i].id == a);
    let key = |r: AgenticMemoryView| r.id;
    assert(crate::store::distinct_keys(old, key));
    assert forall|j: int| 0 <= j < old.len() && j != i implies old[j].id != a by {
        if j < i {
            assert(key(old[j]) != key(old[i]));
        } else {
            assert(key(old[i]) != key(old[j]));
        }
    }
    let rows = with_sidecar(old, row);
    lemma_find_some(old, sidecar_is(row.id));
    assert(row.id == m.id);
    assert(0 <= i < rows.len() && rows[i] == old[i]);
    assert forall|j: int| 0 <= j < rows.len() && j != i implies rows[j].id != a by {
        if j < old.len() {
            if rows[j] != old[j] {
                assert(rows[j] == row);
            }
        } else {
            assert(rows[j] == row);
        }
    }
    lemma_links_back_upto(rows, links, m.id, k, i, links.len() as int);
    assert(links.take(links.len() as int) =~= links);
    let after = before.after_upsert_sidecar(m, now);
    assert(after.agentic == reverse_linked_all(rows, links, m.id));
    assert(is_first(after.agentic, sidecar_is(a), i)) by {
        assert forall|j: int| 0 <= j < i implies !sidecar_is(a)(after.agentic[j]) by {
            assert(after.agentic[j].id == rows[j].id);
        }
    }
    lemma_find_first(after.agentic, sidecar_is(a), i);
}

/// What the first `n` reverse links leave in the one record of the memory
/// that the link `k` points at, where no earlier link points there: the
/// record as it was before that link was merged in, a link back with that
/// link's reason afterwards.
proof fn lemma_reason_back_upto(
    rows: Seq<AgenticMemoryView>,
    links: Seq<AgenticLinkView>,
    from: Seq<char>,
    k: int,
    i: int,
    n: int,
)
    requires
        0 <= k < links.len(),
        0 <= n <= links.len(),
        0 <= i < rows.len(),
        rows[i].id == links[k].target,
        forall|j: int| 0 <= j < rows.len() && j != i ==> rows[j].id != links[k].target,
        forall|j: int| 0 <= j < k ==> (#[trigger] links[j]).target != links[k].target,
        has_room(rows[i].links, from),
        gives_no_reason(rows[i].links, from),
        reason_of(links[k]).len() > 0,
    ensures
        reverse_linked_all(rows, links.take(n), from).len() == rows.len(),
        forall|j: int|
            0 <= j < rows.len() ==> (#[trigger] reverse_linked_all(rows, links.take(n), from)[j]).id
                == rows[j].id,
        n <= k ==> reverse_linked_all(rows, links.take(n), from)[i] == rows[i],
        n > k ==> reverse_linked_all(rows, links.take(n), from)[i].links.len() <= MAX_AGENTIC_LINKS
            && links_to_with(
            reverse_linked_all(rows, links.take(n), from)[i].links,
            from,
            links[k].strength.millionths as int,
            reason_of(links[k]),
        ),
    decreases n,
{
    crate::agentic::lemma_reverse_linked_all(rows, links.take(n), from);
    if n > 0 {
        lemma_reason_back_upto(rows, links, from, k, i, n - 1);
        let a = links[k].target;
        let prev = reverse_linked_all(rows, links.take(n - 1), from);
        let l = links[n - 1];
        assert(links.take(n).drop_last() =~= links.take(n - 1));
        assert(links.take(n).last() == l);
        let now = reverse_linked(prev, l.target, from, l.strength, reason_of(l));
        assert(reverse_linked_all(rows, links.take(n), from) == now);
        lemma_find_some(prev, sidecar_is(l.target));
        if l.target == a {
            assert(n - 1 >= k);
            assert(is_first(prev, sidecar_is(a), i)) by {
                assert forall|j: int| 0 <= j < i implies !sidecar_is(a)(prev[j]) by {
                    assert(prev[j].id == rows[j].id);
                }
            }
            lemma_find_first(prev, sidecar_is(a), i);
            assert(now[i].links == with_reverse_link(
                prev[i].links,
                from,
                l.strength,
                reason_of(l),
            ));
            if n - 1 == k {
                assert(l == links[k]);
                reverse_link_carries_the_reason(prev[i].links, from, l.strength, reason_of(l));
            } else {
                lemma_reverse_keeps_reason(
                    prev[i].links,
                    from,
                    l.strength,
                    reason_of(l),
                    links[k].strength.millionths as int,
                    reason_of(links[k]),
                );
            }
        } else {
            match find_first(prev, sidecar_is(l.target)) {
                Some(at) => {
                    assert(prev[at].id == l.target);
                    assert(prev[i].id == rows[i].id);
                    assert(at != i);
                    assert(now[i] == prev[i]);
                },
                None => {
                    assert(now[i] == prev[i]);
                },
            }
            assert(n - 1 != k);
        }
    } else {
        assert(links.take(0) =~= Seq::<AgenticLinkView>::empty());
    }
}

/// After the record of a memory was refreshed, the link back tells why:
/// where a link of the record has a rationale and is the first of its links
/// to point at its target, and the target's record had room and no link to
/// the memory with a rationale of its own, that record links back to the
/// memory with the same rationale and at least the strength of that link.
pub proof fn refreshed_links_carry_their_reason(
    before: DatabaseView,
    m: MemoryView,
    now: Seq<char>,
    k: int,
)
    requires
        before.wf(),
        before.has_memory(m.id),
        0 <= k < before.refreshed_sidecar(m, now).links.len(),
        before.refreshed_sidecar(m, now).links[k].target != m.id,
        reason_of(before.refreshed_sidecar(m, now).links[k]).len() > 0,
        forall|j: int|
            0 <= j < k ==> (#[trigger] before.refreshed_sidecar(m, now).links[j]).target
                != before.refreshed_sidecar(m, now).links[k].target,
        before.sidecar(before.refreshed_sidecar(m, now).links[k].target) matches Some(r)
            && has_room(r.links, m.id) && gives_no_reason(r.links, m.id),
    ensures
        before.after_upsert_sidecar(m, now).sidecar(
            before.refreshed_sidecar(m, now).links[k].target,
        ) matches Some(r) && links_to_with(
            r.links,
            m.id,
            before.refreshed_sidecar(m, now).links[k].strength.millionths as int,
            reason_of(before.refreshed_sidecar(m, now).links[k]),
        ),
{
    let row = before.refreshed_sidecar(m, now);
    let links = row.links;
    let a = links[k].target;
    let old = before.agentic;
    lemma_find_some(old, sidecar_is(a));
    let i = find_first(old, sidecar_is(a))->0;
    assert(old[i].id == a);
    let key = |r: AgenticMemoryView| r.id;
    assert(crate::store::distinct_keys(old, key));
    assert forall|j: int| 0 <= j < old.len() && j != i implies old[j].id != a by {
        if j < i {
            assert(key(old[j]) != key(old[i]));
        } else {
            assert(key(old[i]) != key(old[j]));
        }
    }
    let rows = with_sidecar(old, row);
    lemma_find_some(old, sidecar_is(row.id));
    assert(row.id == m.id);
    assert(0 <= i < rows.len() && rows[i] == old[i]);
    assert forall|j: int| 0 <= j < rows.len() && j != i implies rows[j].id != a by {
        if j < old.len() {
            if rows[j] != old[j] {
                assert(rows[j] == row);
            }
        } else {
            assert(rows[j] == row);
        }
    }
    lemma_reason_back_upto(rows, links, m.id, k, i, links.len() as int);
    assert(links.take(links.len() as int) =~= links);
    let after = before.after_upsert_sidecar(m, now);
    assert(after.agentic == reverse_linked_all(rows, links, m.id));
    assert(is_first(after.agentic, sidecar_is(a), i)) by {
        assert forall|j: int| 0 <= j < i implies !sidecar_is(a)(after.agentic[j]) by {
            assert(after.agentic[j].id == rows[j].id);
        }
    }
    lemma_find_first(after.agentic, sidecar_is(a), i);
}

} // verus!
