//! Weighted links between sidecar records: how strongly two records
//! resemble each other, and how lists of links are merged, ordered and
//! capped.

use crate::dup::{dup_opt, opt_view, seq_view};
use crate::ids::MemoryId;
use crate::pieces::{decimal, push_decimal};
use crate::query::{at_most, first_n, sort_rows};
use crate::schemas::{AgenticLink, AgenticLinkView, Strength};
use crate::sorting::{stable_sort, stable_sort_permutes};
use crate::text::{append_str, from_chars, to_chars, views};
use crate::wordsets::{common_count, overlap, union_count};
use vstd::prelude::*;

verus! {

/// Most links that a sidecar record holds.
pub const MAX_AGENTIC_LINKS: usize = 8;

/// The strength of a link made for a shared context alone: six tenths.
pub const CONTEXT_STRENGTH: u32 = 600_000;

/// `a` is a stronger link than `b`.
pub open spec fn stronger(a: AgenticLinkView, b: AgenticLinkView) -> bool {
    a.strength.millionths > b.strength.millionths
}

/// The links with the strongest first; links of one strength keep their
/// order.
pub open spec fn by_strength(links: Seq<AgenticLinkView>) -> Seq<AgenticLinkView> {
    stable_sort(links, |a: AgenticLinkView, b: AgenticLinkView| stronger(a, b))
}

/// The strongest links, at most eight.
pub open spec fn cap_links(links: Seq<AgenticLinkView>) -> Seq<AgenticLinkView> {
    at_most(by_strength(links), MAX_AGENTIC_LINKS as nat)
}

/// Index of the first link to `target`, or the number of links if there is
/// none.
pub open spec fn link_index(links: Seq<AgenticLinkView>, target: Seq<char>) -> nat
    decreases links.len(),
{
    if links.len() > 0 && links[0].target != target {
        1 + link_index(links.drop_first(), target)
    } else {
        0
    }
}

/// The greater of two strengths.
pub open spec fn max_strength(a: Strength, b: Strength) -> Strength {
    if b.millionths > a.millionths {
        b
    } else {
        a
    }
}

/// The list after taking in a proposed link: a link to the same target
/// keeps the greater strength and takes the proposal's rationale if it has
/// one; a link to a new target is added at the end.
pub open spec fn take_in(links: Seq<AgenticLinkView>, p: AgenticLinkView) -> Seq<AgenticLinkView> {
    let i = link_index(links, p.target) as int;
    if i < links.len() {
        links.update(
            i,
            AgenticLinkView {
                target: links[i].target,
                strength: max_strength(links[i].strength, p.strength),
                rationale: if p.rationale is Some {
                    p.rationale
                } else {
                    links[i].rationale
                },
            },
        )
    } else {
        links.push(p)
    }
}

/// The list after taking in every proposed link in turn.
pub open spec fn take_in_all(links: Seq<AgenticLinkView>, proposed: Seq<AgenticLinkView>) -> Seq<
    AgenticLinkView,
>
    decreases proposed.len(),
{
    if proposed.len() == 0 {
        links
    } else {
        take_in(take_in_all(links, proposed.drop_last()), proposed.last())
    }
}

/// The links of a record after merging proposals into them: the strongest
/// eight of what taking them in gives.
pub open spec fn merged_links(existing: Seq<AgenticLinkView>, proposed: Seq<AgenticLinkView>) -> Seq<
    AgenticLinkView,
> {
    cap_links(take_in_all(existing, proposed))
}

/// The list after taking in the reverse of a link: a link to `to` keeps the
/// greater strength and gets the rationale only if it had none; else a new
/// link to `to` is added at the end.
pub open spec fn take_in_reverse(
    links: Seq<AgenticLinkView>,
    to: Seq<char>,
    strength: Strength,
    rationale: Seq<char>,
) -> Seq<AgenticLinkView> {
    let i = link_index(links, to) as int;
    let given = if rationale.len() == 0 {
        None
    } else {
        Some(rationale)
    };
    if i < links.len() {
        links.update(
            i,
            AgenticLinkView {
                target: links[i].target,
                strength: max_strength(links[i].strength, strength),
                rationale: if links[i].rationale is None {
                    given
                } else {
                    links[i].rationale
                },
            },
        )
    } else {
        links.push(AgenticLinkView { target: to, strength, rationale: given })
    }
}

/// The links of a record after the reverse of a link was merged into them.
pub open spec fn with_reverse_link(
    links: Seq<AgenticLinkView>,
    to: Seq<char>,
    strength: Strength,
    rationale: Seq<char>,
) -> Seq<AgenticLinkView> {
    cap_links(take_in_reverse(links, to, strength, rationale))
}

pub proof fn lemma_link_index(links: Seq<AgenticLinkView>, target: Seq<char>, i: int)
    requires
        0 <= i <= links.len(),
        forall|j: int| 0 <= j < i ==> links[j].target != target,
        i == links.len() || links[i].target == target,
    ensures
        link_index(links, target) == i,
    decreases i,
{
    if i > 0 {
        let t = links.drop_first();
        assert forall|j: int| 0 <= j < i - 1 implies t[j].target != target by {
            assert(t[j] == links[j + 1]);
        }
        lemma_link_index(t, target, i - 1);
    }
}

/// What `link_index` returns is the first index of a link to the target.
pub proof fn lemma_link_index_bounds(links: Seq<AgenticLinkView>, target: Seq<char>)
    ensures
        link_index(links, target) <= links.len(),
        forall|j: int| 0 <= j < link_index(links, target) ==> links[j].target != target,
        link_index(links, target) < links.len() ==> links[link_index(links, target) as int].target
            == target,
    decreases links.len(),
{
    if links.len() > 0 && links[0].target != target {
        let t = links.drop_first();
        lemma_link_index_bounds(t, target);
        assert forall|j: int| 0 <= j < link_index(links, target) implies links[j].target
            != target by {
            if j > 0 {
                assert(links[j] == t[j - 1]);
            }
        }
        if link_index(links, target) < links.len() {
            assert(links[link_index(links, target) as int] == t[link_index(t, target) as int]);
        }
    }
}

/// Index of the first link to `target`, or the number of links.
pub fn find_link(links: &Vec<AgenticLink>, target: &MemoryId) -> (r: usize)
    ensures
        r == link_index(seq_view(links@), target@),
        r <= links.len(),
{
    let ghost ls = seq_view(links@);
    let mut i: usize = 0;
    while i < links.len() && links[i].target != *target
        invariant
            i <= links.len(),
            ls == seq_view(links@),
            forall|j: int| 0 <= j < i ==> ls[j].target != target@,
        decreases links.len() - i,
    {
        assert(ls[i as int] == links@[i as int]@);
        i += 1;
    }
    proof {
        if i < links.len() {
            assert(ls[i as int] == links@[i as int]@);
        }
        lemma_link_index(ls, target@, i as int);
    }
    i
}

/// The strongest links of the list, at most `limit`, strongest first.
pub fn strongest(links: Vec<AgenticLink>, limit: usize) -> (r: Vec<AgenticLink>)
    ensures
        seq_view(r@) == at_most(by_strength(seq_view(links@)), limit as nat),
        r.len() <= limit,
{
    let ghost before = |a: AgenticLinkView, b: AgenticLinkView| stronger(a, b);
    let above = |a: &AgenticLink, b: &AgenticLink| -> (o: bool)
        ensures
            o == before(a@, b@),
        { a.strength.millionths > b.strength.millionths };
    let sorted = sort_rows(links, above, Ghost(before));
    let r = first_n(sorted, limit);
    assert(seq_view(r@).len() == r.len());
    r
}

/// Merges proposed links into the links of a record and keeps the strongest
/// eight. The proposals are used up.
pub fn merge_links(existing: Vec<AgenticLink>, proposed: &mut Vec<AgenticLink>) -> (r: Vec<
    AgenticLink,
>)
    ensures
        seq_view(r@) == merged_links(seq_view(existing@), seq_view(old(proposed)@)),
        final(proposed)@.len() == 0,
        r.len() <= MAX_AGENTIC_LINKS,
{
    let ghost start = seq_view(existing@);
    let ghost all = seq_view(proposed@);
    let mut links = existing;
    let ghost mut i: int = 0;
    proof {
        assert(all.skip(0) =~= all);
        assert(all.take(0) =~= Seq::<AgenticLinkView>::empty());
    }
    while proposed.len() > 0
        invariant
            0 <= i <= all.len(),
            seq_view(proposed@) == all.skip(i),
            seq_view(links@) == take_in_all(start, all.take(i)),
        decreases proposed.len(),
    {
        let ghost ls = seq_view(links@);
        let ghost rest = seq_view(proposed@);
        let ghost raw = proposed@;
        assert(rest.len() == raw.len());
        let p = proposed.remove(0);
        proof {
            assert(rest[0] == p@);
            assert(all[i] == rest[0]);
            assert(seq_view(proposed@) =~= rest.drop_first());
            assert(rest.drop_first() =~= all.skip(i + 1));
            assert(all.take(i + 1).drop_last() =~= all.take(i));
            assert(all.take(i + 1).last() == p@);
        }
        let k = find_link(&links, &p.target);
        if k < links.len() {
            assert(ls[k as int] == links@[k as int]@);
            let old_link = &links[k];
            let strength = if p.strength.millionths > old_link.strength.millionths {
                p.strength
            } else {
                old_link.strength
            };
            let rationale = if p.rationale.is_some() {
                p.rationale
            } else {
                dup_opt(&old_link.rationale)
            };
            let merged = AgenticLink { target: old_link.target.clone(), strength, rationale };
            let ghost mv = merged@;
            links.set(k, merged);
            assert(seq_view(links@) =~= ls.update(k as int, mv));
        } else {
            let ghost pv = p@;
            links.push(p);
            assert(seq_view(links@) =~= ls.push(pv));
        }
        proof {
            i = i + 1;
        }
    }
    proof {
        assert(all.take(all.len() as int) =~= all);
    }
    strongest(links, MAX_AGENTIC_LINKS)
}

/// Merges the reverse of a link into the links of a record and keeps the
/// strongest eight.
pub fn merge_reverse_link(
    links: Vec<AgenticLink>,
    to: &MemoryId,
    strength: Strength,
    rationale: &str,
) -> (r: Vec<AgenticLink>)
    ensures
        seq_view(r@) == with_reverse_link(seq_view(links@), to@, strength, rationale@),
        r.len() <= MAX_AGENTIC_LINKS,
{
    let ghost ls = seq_view(links@);
    let mut links = links;
    let given: Option<String> = if rationale.unicode_len() == 0 {
        None
    } else {
        Some(rationale.to_owned())
    };
    let k = find_link(&links, to);
    if k < links.len() {
        assert(ls[k as int] == links@[k as int]@);
        let old_link = &links[k];
        let new_strength = if strength.millionths > old_link.strength.millionths {
            strength
        } else {
            old_link.strength
        };
        let new_rationale = if old_link.rationale.is_none() {
            given
        } else {
            dup_opt(&old_link.rationale)
        };
        let merged = AgenticLink {
            target: old_link.target.clone(),
            strength: new_strength,
            rationale: new_rationale,
        };
        let ghost mv = merged@;
        links.set(k, merged);
        assert(seq_view(links@) =~= ls.update(k as int, mv));
    } else {
        let added = AgenticLink { target: to.clone(), strength, rationale: given };
        let ghost av = added@;
        links.push(added);
        assert(seq_view(links@) =~= ls.push(av));
    }
    strongest(links, MAX_AGENTIC_LINKS)
}

// ---------------------------------------------------------------------------
// Resemblance of keyword sets
// ---------------------------------------------------------------------------

/// The share `common / total` is more than 65 in a hundred.
pub open spec fn resembles(common: nat, total: nat) -> bool {
    20 * common > 13 * total
}

/// The share `common / total` in millionths, rounded down.
pub open spec fn share_millionths(common: nat, total: nat) -> nat {
    if total == 0 {
        0
    } else {
        common * 1_000_000 / total
    }
}

/// The share `common / total` in tenths of a percent, rounded to the
/// nearest, a tie to the even neighbour.
pub open spec fn share_permille(common: nat, total: nat) -> nat {
    if total == 0 {
        0
    } else {
        let q = common * 1000 / total;
        let r = common * 1000 % total;
        if 2 * r > total || (2 * r == total && q % 2 == 1) {
            q + 1
        } else {
            q
        }
    }
}

/// A share written as a percentage with one decimal, like `80.0%`.
pub open spec fn percent_text(common: nat, total: nat) -> Seq<char> {
    decimal(share_permille(common, total) / 10) + "."@ + decimal(share_permille(common, total) % 10)
        + "%"@
}

/// The rationale of a link made for resembling keywords.
pub open spec fn resemblance_rationale(common: nat, total: nat, same_context: bool) -> Seq<char> {
    "keyword-similarity: "@ + percent_text(common, total) + if same_context {
        " (same context)"@
    } else {
        Seq::empty()
    }
}

/// The link that a record proposes to a candidate: for keyword sets that
/// share more than 65 in a hundred of their union, a link of that share's
/// strength; else, for the same context where both have keywords, a link
/// of strength six tenths; else none.
pub open spec fn proposed_link(
    context: Seq<char>,
    keywords: Seq<Seq<char>>,
    candidate: Seq<char>,
    candidate_context: Seq<char>,
    candidate_keywords: Seq<Seq<char>>,
) -> Option<AgenticLinkView> {
    let same_context = candidate_context == context;
    let common = common_count(keywords, candidate_keywords);
    let total = union_count(keywords, candidate_keywords);
    if candidate_keywords.len() > 0 && resembles(common, total) {
        Some(
            AgenticLinkView {
                target: candidate,
                strength: Strength { millionths: share_millionths(common, total) as u32 },
                rationale: Some(resemblance_rationale(common, total, same_context)),
            },
        )
    } else if same_context && keywords.len() > 0 && candidate_keywords.len() > 0 {
        Some(
            AgenticLinkView {
                target: candidate,
                strength: Strength { millionths: CONTEXT_STRENGTH },
                rationale: Some("same-context"@),
            },
        )
    } else {
        None
    }
}

/// The views of a list of texts as character vectors.
fn as_chars(items: &Vec<String>) -> (r: Vec<Vec<char>>)
    ensures
        views(r@) == seq_view(items@),
{
    let mut out: Vec<Vec<char>> = Vec::new();
    let mut i: usize = 0;
    while i < items.len()
        invariant
            i <= items.len(),
            out.len() == i,
            forall|j: int| 0 <= j < i ==> out@[j]@ == items@[j]@,
        decreases items.len() - i,
    {
        out.push(to_chars(items[i].as_str()));
        i += 1;
    }
    assert(views(out@) =~= seq_view(items@));
    out
}

/// The link that a record with the given context and keywords proposes to a
/// candidate.
pub fn propose_link(
    context: &str,
    keywords: &Vec<String>,
    candidate: &MemoryId,
    candidate_context: &str,
    candidate_keywords: &Vec<String>,
) -> (r: Option<AgenticLink>)
    ensures
        opt_view(r) == proposed_link(
            context@,
            seq_view(keywords@),
            candidate@,
            candidate_context@,
            seq_view(candidate_keywords@),
        ),
        r matches Some(l) ==> l.strength.valid(),
{
    let same_context = crate::sidecar::str_is(candidate_context, context);
    let mine = as_chars(keywords);
    let theirs = as_chars(candidate_keywords);
    assert(views(mine@).len() == mine.len() && seq_view(keywords@).len() == keywords.len());
    assert(views(theirs@).len() == theirs.len() && seq_view(candidate_keywords@).len()
        == candidate_keywords.len());
    let o = overlap(&mine, &theirs);
    let common: u128 = o.common;
    let total: u128 = o.total;
    if candidate_keywords.len() > 0 && 20 * common > 13 * total {
        assert(total > 0);
        let wide: u128 = common * 1_000_000 / total;
        assert(wide <= 1_000_000) by (nonlinear_arith)
            requires
                wide == (common * 1_000_000) / (total as int),
                common <= total,
                total > 0,
        ;
        let millionths = wide as u32;
        let q = common * 1000 / total;
        let r = common * 1000 % total;
        let tenths: u128 = if 2 * r > total || (2 * r == total && q % 2 == 1) {
            q + 1
        } else {
            q
        };
        assert(q <= 1000) by (nonlinear_arith)
            requires
                q == (common * 1000) / (total as int),
                common <= total,
                total > 0,
        ;
        let mut text: Vec<char> = Vec::new();
        append_str(&mut text, "keyword-similarity: ");
        push_decimal(&mut text, (tenths / 10) as u64);
        append_str(&mut text, ".");
        push_decimal(&mut text, (tenths % 10) as u64);
        append_str(&mut text, "%");
        if same_context {
            append_str(&mut text, " (same context)");
        }
        proof {
            assert(text@ =~= resemblance_rationale(o.common as nat, o.total as nat, same_context));
        }
        Some(
            AgenticLink {
                target: candidate.clone(),
                strength: Strength { millionths },
                rationale: Some(from_chars(&text)),
            },
        )
    } else if same_context && keywords.len() > 0 && candidate_keywords.len() > 0 {
        Some(
            AgenticLink {
                target: candidate.clone(),
                strength: Strength { millionths: CONTEXT_STRENGTH },
                rationale: Some("same-context".to_owned()),
            },
        )
    } else {
        None
    }
}

/// After the reverse of a link was merged into a record with room for it,
/// the record links to `to` with at least the given strength. There is room
/// if the record holds fewer than eight links, or eight of which one points
/// at `to` already.
pub proof fn reverse_link_is_kept(
    links: Seq<AgenticLinkView>,
    to: Seq<char>,
    strength: Strength,
    rationale: Seq<char>,
)
    requires
        links.len() < MAX_AGENTIC_LINKS || (links.len() == MAX_AGENTIC_LINKS && link_index(links, to)
            < links.len()),
    ensures
        exists|j: int|
            0 <= j < with_reverse_link(links, to, strength, rationale).len() && (
            #[trigger] with_reverse_link(links, to, strength, rationale)[j]).target == to
                && with_reverse_link(links, to, strength, rationale)[j].strength.millionths
                >= strength.millionths,
        with_reverse_link(links, to, strength, rationale).len() <= MAX_AGENTIC_LINKS,
        link_index(with_reverse_link(links, to, strength, rationale), to) < with_reverse_link(
            links,
            to,
            strength,
            rationale,
        ).len(),
{
    lemma_link_index_bounds(links, to);
    let taken = take_in_reverse(links, to, strength, rationale);
    let i = link_index(links, to) as int;
    let e = taken[i];
    assert(e.target == to && e.strength.millionths >= strength.millionths);
    assert(taken.len() <= MAX_AGENTIC_LINKS);
    let before = |a: AgenticLinkView, b: AgenticLinkView| stronger(a, b);
    let sorted = stable_sort(taken, before);
    stable_sort_permutes(taken, before);
    taken.to_multiset_ensures();
    sorted.to_multiset_ensures();
    assert(taken.contains(e));
    assert(taken.to_multiset().count(e) > 0);
    assert(sorted.to_multiset().count(e) > 0);
    assert(sorted.contains(e));
    let j = choose|j: int| 0 <= j < sorted.len() && sorted[j] == e;
    let r = with_reverse_link(links, to, strength, rationale);
    assert(r == sorted);
    assert(r[j].target == to);
    lemma_link_index_bounds(r, to);
    if link_index(r, to) >= r.len() {
        assert(r[j].target != to);
    }
}

} // verus!
