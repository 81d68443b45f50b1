//! The orders by which the engine sorts are rankings, so what it hands out
//! sorted is in order.

use crate::agentic::accessed_later;
use crate::links::{by_strength, stronger};
use crate::memories::{newer, newest_first, ranks_above};
use crate::narrative::{later_relation, relations_newest_first};
use crate::order::{lex_irreflexive, lex_less, lex_total, lex_transitive};
use crate::schemas::{AgenticLinkView, AgenticMemoryView, MemoryRelationView};
use crate::sidecar::{ranks_before, TallyView};
use crate::sorting::{in_order, is_ranking, stable_sort_in_order};
use crate::store::{DatabaseView, MemoryRowView};
use vstd::prelude::*;

verus! {

/// The dictionary order never holds both ways, is transitive, and so is
/// "neither comes before the other".
pub proof fn lex_is_ranking(a: Seq<char>, b: Seq<char>, c: Seq<char>)
    ensures
        lex_less(a, b) ==> !lex_less(b, a),
        lex_less(a, b) && lex_less(b, c) ==> lex_less(a, c),
        !lex_less(a, b) && !lex_less(b, c) ==> !lex_less(a, c),
{
    lex_total(a, b);
    lex_total(b, c);
    lex_total(a, c);
    lex_irreflexive(a);
    if lex_less(a, b) && lex_less(b, c) {
        lex_transitive(a, b, c);
    }
    if !lex_less(a, b) && !lex_less(b, c) && lex_less(a, c) {
        if a == b {
        } else if b == c {
        } else {
            lex_transitive(c, b, a);
        }
    }
}

/// "Created later" is a ranking of memories.
pub proof fn newer_is_ranking()
    ensures
        is_ranking(|a: MemoryRowView, b: MemoryRowView| newer(a, b)),
{
    let before = |a: MemoryRowView, b: MemoryRowView| newer(a, b);
    assert forall|a: MemoryRowView, b: MemoryRowView| #[trigger] before(a, b) implies !before(
        b,
        a,
    ) by {
        lex_is_ranking(b.memory.created_at, a.memory.created_at, b.memory.created_at);
    }
    assert forall|a: MemoryRowView, b: MemoryRowView, c: MemoryRowView| #[trigger]
        before(a, b) && #[trigger] before(b, c) implies before(a, c) by {
        lex_is_ranking(c.memory.created_at, b.memory.created_at, a.memory.created_at);
    }
    assert forall|a: MemoryRowView, b: MemoryRowView, c: MemoryRowView|
        !#[trigger] before(a, b) && !#[trigger] before(b, c) implies !before(a, c) by {
        lex_is_ranking(c.memory.created_at, b.memory.created_at, a.memory.created_at);
    }
}

/// "More important, or as important and created later" is a ranking of
/// memories.
pub proof fn ranks_above_is_ranking()
    ensures
        is_ranking(|a: MemoryRowView, b: MemoryRowView| ranks_above(a, b)),
{
    let before = |a: MemoryRowView, b: MemoryRowView| ranks_above(a, b);
    assert forall|a: MemoryRowView, b: MemoryRowView| #[trigger] before(a, b) implies !before(
        b,
        a,
    ) by {
        lex_is_ranking(b.memory.created_at, a.memory.created_at, b.memory.created_at);
    }
    assert forall|a: MemoryRowView, b: MemoryRowView, c: MemoryRowView| #[trigger]
        before(a, b) && #[trigger] before(b, c) implies before(a, c) by {
        lex_is_ranking(c.memory.created_at, b.memory.created_at, a.memory.created_at);
    }
    assert forall|a: MemoryRowView, b: MemoryRowView, c: MemoryRowView|
        !#[trigger] before(a, b) && !#[trigger] before(b, c) implies !before(a, c) by {
        lex_is_ranking(c.memory.created_at, b.memory.created_at, a.memory.created_at);
    }
}

/// "Stronger" is a ranking of links.
pub proof fn stronger_is_ranking()
    ensures
        is_ranking(|a: AgenticLinkView, b: AgenticLinkView| stronger(a, b)),
{
}

/// "Accessed later" is a ranking of sidecar records.
pub proof fn accessed_later_is_ranking()
    ensures
        is_ranking(|a: AgenticMemoryView, b: AgenticMemoryView| accessed_later(a, b)),
{
    let before = |a: AgenticMemoryView, b: AgenticMemoryView| accessed_later(a, b);
    assert forall|a: AgenticMemoryView, b: AgenticMemoryView| #[trigger]
        before(a, b) implies !before(b, a) by {
        lex_is_ranking(b.last_accessed, a.last_accessed, b.last_accessed);
    }
    assert forall|a: AgenticMemoryView, b: AgenticMemoryView, c: AgenticMemoryView| #[trigger]
        before(a, b) && #[trigger] before(b, c) implies before(a, c) by {
        lex_is_ranking(c.last_accessed, b.last_accessed, a.last_accessed);
    }
    assert forall|a: AgenticMemoryView, b: AgenticMemoryView, c: AgenticMemoryView|
        !#[trigger] before(a, b) && !#[trigger] before(b, c) implies !before(a, c) by {
        lex_is_ranking(c.last_accessed, b.last_accessed, a.last_accessed);
    }
}

/// "Created later" is a ranking of relations.
pub proof fn later_relation_is_ranking()
    ensures
        is_ranking(|a: MemoryRelationView, b: MemoryRelationView| later_relation(a, b)),
{
    let before = |a: MemoryRelationView, b: MemoryRelationView| later_relation(a, b);
    assert forall|a: MemoryRelationView, b: MemoryRelationView| #[trigger]
        before(a, b) implies !before(b, a) by {
        lex_is_ranking(b.created_at, a.created_at, b.created_at);
    }
    assert forall|a: MemoryRelationView, b: MemoryRelationView, c: MemoryRelationView| #[trigger]
        before(a, b) && #[trigger] before(b, c) implies before(a, c) by {
        lex_is_ranking(c.created_at, b.created_at, a.created_at);
    }
    assert forall|a: MemoryRelationView, b: MemoryRelationView, c: MemoryRelationView|
        !#[trigger] before(a, b) && !#[trigger] before(b, c) implies !before(a, c) by {
        lex_is_ranking(c.created_at, b.created_at, a.created_at);
    }
}

/// "More frequent, or as frequent and longer, or as long and earlier in the
/// dictionary" is a ranking of counted keywords.
pub proof fn ranks_before_is_ranking()
    ensures
        is_ranking(|a: TallyView, b: TallyView| ranks_before(a, b)),
{
    let before = |a: TallyView, b: TallyView| ranks_before(a, b);
    assert forall|a: TallyView, b: TallyView| #[trigger] before(a, b) implies !before(b, a) by {
        lex_is_ranking(a.token, b.token, a.token);
    }
    assert forall|a: TallyView, b: TallyView, c: TallyView| #[trigger]
        before(a, b) && #[trigger] before(b, c) implies before(a, c) by {
        lex_is_ranking(a.token, b.token, c.token);
    }
    assert forall|a: TallyView, b: TallyView, c: TallyView|
        !#[trigger] before(a, b) && !#[trigger] before(b, c) implies !before(a, c) by {
        lex_is_ranking(a.token, b.token, c.token);
    }
}

/// Memories sorted newest first: none stands before one created later.
pub proof fn newest_first_is_in_order(rows: Seq<MemoryRowView>)
    ensures
        forall|i: int, j: int|
            0 <= i < j < newest_first(rows).len() ==> !newer(
                #[trigger] newest_first(rows)[j],
                #[trigger] newest_first(rows)[i],
            ),
{
    let before = |a: MemoryRowView, b: MemoryRowView| newer(a, b);
    newer_is_ranking();
    stable_sort_in_order(rows, before);
    assert(in_order(newest_first(rows), before));
    assert forall|i: int, j: int| 0 <= i < j < newest_first(rows).len() implies !newer(
        #[trigger] newest_first(rows)[j],
        #[trigger] newest_first(rows)[i],
    ) by {
        assert(!before(newest_first(rows)[j], newest_first(rows)[i]));
    }
}

/// The memories of some importance or more: none stands before one that
/// ranks above it.
pub proof fn by_importance_is_in_order(db: DatabaseView, min: u8)
    ensures
        forall|i: int, j: int|
            0 <= i < j < db.memories_by_importance(min).len() ==> !ranks_above(
                #[trigger] db.memories_by_importance(min)[j],
                #[trigger] db.memories_by_importance(min)[i],
            ),
{
    let before = |a: MemoryRowView, b: MemoryRowView| ranks_above(a, b);
    let rows = db.memories.filter(|r: MemoryRowView| r.importance >= min);
    ranks_above_is_ranking();
    stable_sort_in_order(rows, before);
    let sorted = db.memories_by_importance(min);
    assert forall|i: int, j: int| 0 <= i < j < sorted.len() implies !ranks_above(
        #[trigger] sorted[j],
        #[trigger] sorted[i],
    ) by {
        assert(!before(sorted[j], sorted[i]));
    }
}

/// Links sorted by strength: none stands before a stronger one.
pub proof fn by_strength_is_in_order(links: Seq<AgenticLinkView>)
    ensures
        forall|i: int, j: int|
            0 <= i < j < by_strength(links).len() ==> (#[trigger] by_strength(
                links,
            )[i]).strength.millionths >= (#[trigger] by_strength(links)[j]).strength.millionths,
{
    let before = |a: AgenticLinkView, b: AgenticLinkView| stronger(a, b);
    stronger_is_ranking();
    stable_sort_in_order(links, before);
    assert forall|i: int, j: int| 0 <= i < j < by_strength(links).len() implies (
    #[trigger] by_strength(links)[i]).strength.millionths >= (#[trigger] by_strength(
        links,
    )[j]).strength.millionths by {
        assert(!before(by_strength(links)[j], by_strength(links)[i]));
    }
}

/// Relations sorted newest first: none stands before one created later.
pub proof fn relations_newest_first_is_in_order(rows: Seq<MemoryRelationView>)
    ensures
        forall|i: int, j: int|
            0 <= i < j < relations_newest_first(rows).len() ==> !later_relation(
                #[trigger] relations_newest_first(rows)[j],
                #[trigger] relations_newest_first(rows)[i],
            ),
{
    let before = |a: MemoryRelationView, b: MemoryRelationView| later_relation(a, b);
    later_relation_is_ranking();
    stable_sort_in_order(rows, before);
    assert forall|i: int, j: int| 0 <= i < j < relations_newest_first(rows).len() implies
        !later_relation(
        #[trigger] relations_newest_first(rows)[j],
        #[trigger] relations_newest_first(rows)[i],
    ) by {
        assert(!before(relations_newest_first(rows)[j], relations_newest_first(rows)[i]));
    }
}

} // verus!
