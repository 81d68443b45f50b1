//! Memories that wait for a review, and the progressive summaries of the
//! store as a whole.

use crate::clock::{rfc3339_days_ago, REACHABLE_DAYS};
use crate::dup::{seq_view, Dup};
use crate::ids::MemoryId;
use crate::memories::{str_less, take_memories};
use crate::order::{lex_less, sort_unique, sorted_unique};
use crate::query::{at_most, first_n, lemma_filter_push, select, sort_rows};
use crate::schemas::{Memory, MemoryStatus, MemoryView};
use crate::sorting::stable_sort;
use crate::store::{
    find_first, lemma_find_first, lemma_find_none, Database, DatabaseView, MemoryRow,
    MemoryRowView, ProgressiveSummaryView, StoreError,
};
use crate::text::{to_chars, views};
use vstd::prelude::*;

verus! {

/// How many memories a review lists at most.
pub const REVIEW_LIMIT: usize = 50;

/// How far the memories of the store have been summarised.
#[derive(Debug, Clone, Copy, PartialEq, Eq, Structural)]
pub struct SummarizationStats {
    pub total_memories: usize,
    pub summarized_count: usize,
    pub layer_1_count: usize,
    pub layer_2_count: usize,
    pub layer_3_count: usize,
    pub layer_4_count: usize,
}

/// The memory is fleeting and was created before `threshold`.
pub open spec fn awaits_review(threshold: Seq<char>) -> spec_fn(MemoryRowView) -> bool {
    |r: MemoryRowView|
        r.status == MemoryStatus::Fleeting && lex_less(r.memory.created_at, threshold)
}

/// The summary has the identifier `id`.
pub open spec fn summary_is(id: Seq<char>) -> spec_fn(ProgressiveSummaryView) -> bool {
    |s: ProgressiveSummaryView| s.id == id
}

/// `a` was created before `b`.
pub open spec fn older(a: MemoryRowView, b: MemoryRowView) -> bool {
    lex_less(a.memory.created_at, b.memory.created_at)
}

/// The highest summary layer of the memory `id`.
pub open spec fn max_layer(rows: Seq<ProgressiveSummaryView>, id: Seq<char>) -> Option<u8>
    decreases rows.len(),
{
    if rows.len() == 0 {
        None
    } else {
        let rest = max_layer(rows.drop_last(), id);
        if rows.last().memory_id == id {
            match rest {
                Some(m) => if m >= rows.last().layer {
                    Some(m)
                } else {
                    Some(rows.last().layer)
                },
                None => Some(rows.last().layer),
            }
        } else {
            rest
        }
    }
}

/// The memories that have a summary of the layer `min` or higher, each with
/// its highest layer, in the order of the rows.
pub open spec fn layered(rows: Seq<MemoryRowView>, sums: Seq<ProgressiveSummaryView>, min: u8)
    -> Seq<(MemoryView, u8)>
    decreases rows.len(),
{
    if rows.len() == 0 {
        Seq::empty()
    } else {
        let rest = layered(rows.drop_last(), sums, min);
        match max_layer(sums, rows.last().memory.id) {
            Some(l) => if l >= min {
                rest.push((rows.last().memory, l))
            } else {
                rest
            },
            None => rest,
        }
    }
}

/// The identifiers of the memories with a summary of the layer `min` or
/// higher, one for each summary.
pub open spec fn summarized_ids(sums: Seq<ProgressiveSummaryView>, min: u8) -> Seq<Seq<char>> {
    sums.filter(|s: ProgressiveSummaryView| s.layer >= min).map_values(
        |s: ProgressiveSummaryView| s.memory_id,
    )
}

/// The summaries with the text of the summary `id` replaced.
pub open spec fn with_summary_text(
    sums: Seq<ProgressiveSummaryView>,
    id: Seq<char>,
    content: Seq<char>,
) -> Seq<ProgressiveSummaryView> {
    match find_first(sums, summary_is(id)) {
        Some(i) => sums.update(i, ProgressiveSummaryView { content, ..sums[i] }),
        None => sums,
    }
}

impl DatabaseView {
    /// The fleeting memories created before `threshold`, oldest first, at
    /// most [`REVIEW_LIMIT`] of them.
    pub open spec fn needing_review(self, threshold: Seq<char>) -> Seq<MemoryView> {
        crate::memories::memories_of(
            at_most(
                stable_sort(
                    self.memories.filter(awaits_review(threshold)),
                    |a: MemoryRowView, b: MemoryRowView| older(a, b),
                ),
                REVIEW_LIMIT as nat,
            ),
        )
    }

    /// The memories summarised to the layer `min` or higher, the most
    /// refined first.
    pub open spec fn summarized(self, min: u8) -> Seq<(MemoryView, u8)> {
        stable_sort(
            layered(self.memories, self.summaries, min),
            |a: (MemoryView, u8), b: (MemoryView, u8)| a.1 > b.1,
        )
    }

    /// Number of different memories with a summary of the layer `min` or
    /// higher.
    pub open spec fn summarized_count(self, min: u8) -> nat {
        sort_unique(summarized_ids(self.summaries, min)).len()
    }
}

impl Database {
    /// The fleeting memories created before `threshold`, oldest first, at
    /// most [`REVIEW_LIMIT`] of them.
    pub fn get_memories_needing_review_before(&self, threshold: &str) -> (r: Vec<Memory>)
        ensures
            seq_view(r@) == self@.needing_review(threshold@),
    {
        let ghost p = awaits_review(threshold@);
        let pick = |r: &MemoryRow| -> (o: bool)
            ensures
                o == p(r@),
            {
                r.status == MemoryStatus::Fleeting && str_less(
                    r.memory.created_at.as_str(),
                    threshold,
                )
            };
        let rows = select(&self.memories, pick, Ghost(p));
        let ghost before = |a: MemoryRowView, b: MemoryRowView| older(a, b);
        let first = |a: &MemoryRow, b: &MemoryRow| -> (o: bool)
            ensures
                o == before(a@, b@),
            { str_less(a.memory.created_at.as_str(), b.memory.created_at.as_str()) };
        take_memories(first_n(sort_rows(rows, first, Ghost(before)), REVIEW_LIMIT))
    }

    /// The fleeting memories older than `age_threshold_days` days by the
    /// current time, oldest first. Fails with `BadRequest` where that many
    /// days ago is no representable date.
    pub fn get_memories_needing_review(&self, age_threshold_days: u32) -> (r: Result<
        Vec<Memory>,
        StoreError,
    >)
        ensures
            match r {
                Ok(ms) => exists|threshold: Seq<char>|
                    seq_view(ms@) == #[trigger] self@.needing_review(threshold),
                Err(e) => e == StoreError::BadRequest,
            },
            age_threshold_days <= REACHABLE_DAYS ==> r is Ok,
    {
        match rfc3339_days_ago(age_threshold_days) {
            None => Err(StoreError::BadRequest),
            Some(threshold) => {
                let ms = self.get_memories_needing_review_before(threshold.as_str());
                assert(seq_view(ms@) == self@.needing_review(threshold@));
                Ok(ms)
            },
        }
    }

    /// The highest summary layer of a memory.
    pub fn get_max_summary_layer(&self, memory_id: &MemoryId) -> (r: Option<u8>)
        ensures
            r == max_layer(self@.summaries, memory_id@),
    {
        let ghost rows = self@.summaries;
        let mut best: Option<u8> = None;
        let mut i: usize = 0;
        while i < self.summaries.len()
            invariant
                i <= self.summaries.len(),
                rows == self@.summaries,
                best == max_layer(rows.take(i as int), memory_id@),
            decreases self.summaries.len() - i,
        {
            proof {
                assert(rows[i as int] == self.summaries@[i as int]@);
                assert(rows.take(i + 1).drop_last() =~= rows.take(i as int));
                assert(rows.take(i + 1).last() == rows[i as int]);
            }
            if self.summaries[i].memory_id == *memory_id {
                let l = self.summaries[i].layer;
                best = match best {
                    Some(m) => if m >= l {
                        Some(m)
                    } else {
                        Some(l)
                    },
                    None => Some(l),
                };
            }
            i += 1;
        }
        proof {
            assert(rows.take(self.summaries.len() as int) =~= rows);
        }
        best
    }

    /// The memories summarised to the layer `min_layer` or higher, each
    /// with its highest layer, the most refined first, cut to `limit` if one
    /// is given.
    pub fn get_summarized_memories(&self, min_layer: u8, limit: Option<usize>) -> (r: Vec<
        (Memory, u8),
    >)
        ensures
            seq_view(r@) == match limit {
                Some(n) => at_most(self@.summarized(min_layer), n as nat),
                None => self@.summarized(min_layer),
            },
    {
        let ghost rows = self@.memories;
        let ghost sums = self@.summaries;
        let mut found: Vec<(Memory, u8)> = Vec::new();
        let mut i: usize = 0;
        proof {
            assert(seq_view(found@) =~= layered(rows.take(0), sums, min_layer));
        }
        while i < self.memories.len()
            invariant
                i <= self.memories.len(),
                rows == self@.memories,
                sums == self@.summaries,
                seq_view(found@) == layered(rows.take(i as int), sums, min_layer),
            decreases self.memories.len() - i,
        {
            let ghost fv = seq_view(found@);
            proof {
                assert(rows[i as int] == self.memories@[i as int]@);
                assert(rows.take(i + 1).drop_last() =~= rows.take(i as int));
                assert(rows.take(i + 1).last() == rows[i as int]);
            }
            match self.get_max_summary_layer(&self.memories[i].memory.id) {
                Some(l) => {
                    if l >= min_layer {
                        let m = self.memories[i].memory.dup();
                        found.push((m, l));
                        assert(seq_view(found@) =~= fv.push((rows[i as int].memory, l)));
                    }
                },
                None => {},
            }
            i += 1;
        }
        proof {
            assert(rows.take(self.memories.len() as int) =~= rows);
        }
        let ghost before = |a: (MemoryView, u8), b: (MemoryView, u8)| a.1 > b.1;
        let higher = |a: &(Memory, u8), b: &(Memory, u8)| -> (o: bool)
            ensures
                o == before(a@, b@),
            { a.1 > b.1 };
        let sorted = sort_rows(found, higher, Ghost(before));
        match limit {
            Some(n) => first_n(sorted, n),
            None => sorted,
        }
    }

    /// Replaces the text of a summary. An unknown identifier changes
    /// nothing.
    pub fn update_summary_layer(&mut self, summary_id: &str, new_content: &str) -> (r: Result<
        (),
        StoreError,
    >)
        requires
            old(self)@.wf(),
        ensures
            r is Ok,
            final(self)@.wf(),
            final(self)@ == (DatabaseView {
                summaries: with_summary_text(old(self)@.summaries, summary_id@, new_content@),
                ..old(self)@
            }),
    {
        let ghost before = self@;
        let ghost p = summary_is(summary_id@);
        let wanted = summary_id.to_owned();
        let mut i: usize = 0;
        while i < self.summaries.len() && self.summaries[i].id != wanted
            invariant
                i <= self.summaries.len(),
                before == self@,
                wanted@ == summary_id@,
                p == summary_is(summary_id@),
                forall|j: int| 0 <= j < i ==> !p(before.summaries[j]),
            decreases self.summaries.len() - i,
        {
            assert(before.summaries[i as int] == self.summaries@[i as int]@);
            i += 1;
        }
        if i < self.summaries.len() {
            assert(before.summaries[i as int] == self.summaries@[i as int]@);
            let mut s = self.summaries[i].dup();
            s.content = new_content.to_owned();
            let ghost sv = s@;
            self.summaries.set(i, s);
            proof {
                lemma_find_first(before.summaries, p, i as int);
                assert(seq_view(self.summaries@) =~= before.summaries.update(i as int, sv));
                let after = self@;
                assert forall|a: int, b: int|
                    0 <= a < b < after.summaries.len() implies after.summaries[a].id
                    != after.summaries[b].id by {
                    let key = |r: ProgressiveSummaryView| r.id;
                    assert(key(before.summaries[a]) != key(before.summaries[b]));
                }
                assert forall|k: int| 0 <= k < after.summaries.len() implies after.has_memory(
                    (#[trigger] after.summaries[k]).memory_id,
                ) by {
                    assert(before.has_memory(before.summaries[k].memory_id));
                }
            }
        } else {
            proof {
                lemma_find_none(before.summaries, p);
            }
        }
        Ok(())
    }

    /// Number of different memories with a summary of the layer `min` or
    /// higher.
    pub fn count_summarized(&self, min: u8) -> (r: usize)
        ensures
            r == self@.summarized_count(min),
    {
        let ghost rows = self@.summaries;
        let ghost p = |s: ProgressiveSummaryView| s.layer >= min;
        let mut ids: Vec<Vec<char>> = Vec::new();
        let mut i: usize = 0;
        proof {
            reveal(Seq::filter);
            assert(views(ids@) =~= rows.take(0).filter(p).map_values(
                |s: ProgressiveSummaryView| s.memory_id,
            ));
        }
        while i < self.summaries.len()
            invariant
                i <= self.summaries.len(),
                rows == self@.summaries,
                p == (|s: ProgressiveSummaryView| s.layer >= min),
                views(ids@) == rows.take(i as int).filter(p).map_values(
                    |s: ProgressiveSummaryView| s.memory_id,
                ),
            decreases self.summaries.len() - i,
        {
            let ghost iv = views(ids@);
            proof {
                assert(rows[i as int] == self.summaries@[i as int]@);
                assert(rows.take(i + 1) =~= rows.take(i as int).push(rows[i as int]));
                lemma_filter_push(rows.take(i as int), rows[i as int], p);
            }
            if self.summaries[i].layer >= min {
                ids.push(to_chars(self.summaries[i].memory_id.0.as_str()));
                assert(views(ids@) =~= iv.push(rows[i as int].memory_id));
                assert(views(ids@) =~= rows.take(i + 1).filter(p).map_values(
                    |s: ProgressiveSummaryView| s.memory_id,
                ));
            }
            i += 1;
        }
        proof {
            assert(rows.take(self.summaries.len() as int) =~= rows);
        }
        let unique = sorted_unique(&ids);
        assert(views(unique@).len() == unique.len());
        unique.len()
    }

    /// How far the memories of the store have been summarised.
    pub fn get_summarization_stats(&self) -> (r: SummarizationStats)
        ensures
            r.total_memories == self@.memories.len(),
            r.summarized_count == self@.summarized_count(0),
            r.layer_1_count == self@.summarized_count(1),
            r.layer_2_count == self@.summarized_count(2),
            r.layer_3_count == self@.summarized_count(3),
            r.layer_4_count == self@.summarized_count(4),
    {
        SummarizationStats {
            total_memories: self.memories.len(),
            summarized_count: self.count_summarized(0),
            layer_1_count: self.count_summarized(1),
            layer_2_count: self.count_summarized(2),
            layer_3_count: self.count_summarized(3),
            layer_4_count: self.count_summarized(4),
        }
    }
}

} // verus!
