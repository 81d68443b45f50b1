//! Figures over all memories: how importance is spread, which topic texts
//! occur how often, and the importance of a whole topic computed anew.

use crate::dup::seq_view;
use crate::ids::TopicId;
use crate::memories::set_importance;
use crate::notes::filed_under;
use crate::query::{lemma_filter_push, select, sort_rows};
use crate::sidecar::{tally, tally_of, Tally, TallyView};
use crate::sorting::stable_sort;
use crate::store::{Database, DatabaseView, MemoryRow, MemoryRowView, StoreError, MAX_IMPORTANCE};
use crate::text::{from_chars, to_chars, views};
use vstd::prelude::*;

verus! {

/// Number of importance levels: 0 to 10.
pub const IMPORTANCE_LEVELS: usize = 11;

/// How importance is spread over the memories.
#[derive(Debug)]
pub struct ImportanceStats {
    /// Number of memories at each importance, 0 to 10.
    pub distribution: Vec<usize>,
    /// The mean importance in thousandths, rounded down.
    pub average_thousandths: u32,
    pub total_memories: usize,
}

/// The memory has the importance `k`.
pub open spec fn rated(k: int) -> spec_fn(MemoryRowView) -> bool {
    |r: MemoryRowView| r.importance == k
}

/// The memory has an importance within the range.
pub open spec fn is_rated() -> spec_fn(MemoryRowView) -> bool {
    |r: MemoryRowView| r.importance <= MAX_IMPORTANCE
}

/// The memory has a topic text.
pub open spec fn has_topic_text() -> spec_fn(MemoryRowView) -> bool {
    |r: MemoryRowView| r.memory.topic.len() > 0
}

/// The sum of the importance of the rows whose importance lies within the
/// range.
pub open spec fn importance_sum(rows: Seq<MemoryRowView>) -> nat
    decreases rows.len(),
{
    if rows.len() == 0 {
        0
    } else {
        importance_sum(rows.drop_last()) + if rows.last().importance <= MAX_IMPORTANCE {
            rows.last().importance as nat
        } else {
            0nat
        }
    }
}

/// The mean importance in thousandths, rounded down; nothing without rows.
pub open spec fn mean_thousandths(rows: Seq<MemoryRowView>) -> nat {
    let n = rows.filter(is_rated()).len();
    if n == 0 {
        0
    } else {
        importance_sum(rows) * 1000 / n
    }
}

impl DatabaseView {
    /// The store after the importance of each of the memories `ids` was
    /// computed and stored, one after another.
    pub open spec fn recalculated(self, ids: Seq<Seq<char>>) -> DatabaseView
        decreases ids.len(),
    {
        if ids.len() == 0 {
            self
        } else {
            let d = self.recalculated(ids.drop_last());
            DatabaseView {
                memories: set_importance(
                    d.memories,
                    ids.last(),
                    d.importance_of(ids.last()) as u8,
                ),
                ..d
            }
        }
    }

    /// The identifiers of the memories filed under a topic, in the order of
    /// the rows.
    pub open spec fn ids_under(self, topic_id: Seq<char>) -> Seq<Seq<char>> {
        self.memories.filter(filed_under(topic_id)).map_values(|r: MemoryRowView| r.memory.id)
    }

    /// The topic texts of the memories with the number of memories of
    /// each, the most frequent first; topics of one count stand in the
    /// order of their first occurrence.
    pub open spec fn distinct_topics(self) -> Seq<(Seq<char>, usize)> {
        stable_sort(
            tally(
                self.memories.filter(has_topic_text()).map_values(
                    |r: MemoryRowView| r.memory.topic,
                ),
            ),
            |a: TallyView, b: TallyView| a.count > b.count,
        ).map_values(|e: TallyView| (e.token, e.count as usize))
    }
}

impl Database {
    /// How importance is spread over the memories.
    pub fn get_importance_stats(&self) -> (r: ImportanceStats)
        ensures
            r.distribution.len() == IMPORTANCE_LEVELS,
            forall|k: int|
                0 <= k < IMPORTANCE_LEVELS ==> #[trigger] r.distribution@[k]
                    == self@.memories.filter(rated(k)).len(),
            r.total_memories == self@.memories.filter(is_rated()).len(),
            r.average_thousandths == mean_thousandths(self@.memories),
            r.average_thousandths <= 10_000,
    {
        let ghost rows = self@.memories;
        let mut dist: Vec<usize> = Vec::new();
        let mut k: usize = 0;
        while k < IMPORTANCE_LEVELS
            invariant
                k <= IMPORTANCE_LEVELS,
                dist.len() == k,
                forall|j: int| 0 <= j < k ==> dist@[j] == 0,
            decreases IMPORTANCE_LEVELS - k,
        {
            dist.push(0);
            k += 1;
        }
        let mut total: usize = 0;
        let mut sum: u128 = 0;
        let mut i: usize = 0;
        proof {
            reveal(Seq::filter);
            assert(rows.take(0).filter(is_rated()).len() == 0);
            assert forall|j: int| 0 <= j < IMPORTANCE_LEVELS implies dist@[j] == rows.take(0).filter(
                rated(j),
            ).len() by {
                assert(rows.take(0).filter(rated(j)).len() == 0);
            }
        }
        while i < self.memories.len()
            invariant
                i <= self.memories.len(),
                rows == self@.memories,
                dist.len() == IMPORTANCE_LEVELS,
                forall|j: int|
                    0 <= j < IMPORTANCE_LEVELS ==> #[trigger] dist@[j] == rows.take(i as int).filter(
                        rated(j),
                    ).len() && dist@[j] <= i,
                total == rows.take(i as int).filter(is_rated()).len(),
                total <= i,
                sum == importance_sum(rows.take(i as int)),
                sum <= 10 * total,
            decreases self.memories.len() - i,
        {
            let ghost before = dist@;
            let level = self.memories[i].importance;
            proof {
                assert(rows[i as int] == self.memories@[i as int]@);
                assert(rows.take(i + 1) =~= rows.take(i as int).push(rows[i as int]));
                assert(rows.take(i + 1).drop_last() =~= rows.take(i as int));
                lemma_filter_push(rows.take(i as int), rows[i as int], is_rated());
                assert forall|j: int| 0 <= j < IMPORTANCE_LEVELS implies rows.take(i + 1).filter(
                    rated(j),
                ).len() == rows.take(i as int).filter(rated(j)).len() + if level == j {
                    1int
                } else {
                    0int
                } by {
                    lemma_filter_push(rows.take(i as int), rows[i as int], rated(j));
                }
            }
            if level <= MAX_IMPORTANCE {
                let at = level as usize;
                let n = dist[at] + 1;
                dist.set(at, n);
                total += 1;
                sum += at as u128;
            }
            i += 1;
        }
        proof {
            assert(rows.take(self.memories.len() as int) =~= rows);
        }
        let average: usize = if total == 0 {
            0
        } else {
            let wide: u128 = sum * 1000 / (total as u128);
            assert(wide <= 10_000) by (nonlinear_arith)
                requires
                    wide == (sum * 1000) / (total as int),
                    sum <= 10 * total,
                    total > 0,
            ;
            wide as usize
        };
        ImportanceStats {
            distribution: dist,
            average_thousandths: average as u32,
            total_memories: total,
        }
    }

    /// The topic texts of the memories with the number of memories of
    /// each, the most frequent first. Memories without a topic text do not
    /// count.
    pub fn get_all_distinct_topics(&self) -> (r: Vec<(String, usize)>)
        ensures
            seq_view(r@) == self@.distinct_topics(),
    {
        let ghost p = has_topic_text();
        let pick = |r: &MemoryRow| -> (o: bool)
            ensures
                o == p(r@),
            {
                to_chars(r.memory.topic.as_str()).len() > 0
            };
        let rows = select(&self.memories, pick, Ghost(p));
        let ghost rv = seq_view(rows@);
        let mut topics: Vec<Vec<char>> = Vec::new();
        let mut i: usize = 0;
        while i < rows.len()
            invariant
                i <= rows.len(),
                rv == seq_view(rows@),
                topics.len() == i,
                forall|j: int| 0 <= j < i ==> (#[trigger] topics@[j])@ == rv[j].memory.topic,
            decreases rows.len() - i,
        {
            assert(rv[i as int] == rows@[i as int]@);
            topics.push(to_chars(rows[i].memory.topic.as_str()));
            i += 1;
        }
        assert(views(topics@) =~= rv.map_values(|r: MemoryRowView| r.memory.topic));
        let ghost before = |a: TallyView, b: TallyView| a.count > b.count;
        let more = |a: &Tally, b: &Tally| -> (o: bool)
            ensures
                o == before(a@, b@),
            { a.count > b.count };
        let sorted = sort_rows(tally_of(&topics), more, Ghost(before));
        let ghost sv = seq_view(sorted@);
        let mut out: Vec<(String, usize)> = Vec::new();
        let mut k: usize = 0;
        while k < sorted.len()
            invariant
                k <= sorted.len(),
                sv == seq_view(sorted@),
                out.len() == k,
                forall|j: int|
                    0 <= j < k ==> (#[trigger] out@[j])@ == (sv[j].token, sv[j].count as usize),
            decreases sorted.len() - k,
        {
            assert(sv[k as int] == sorted@[k as int]@);
            out.push((from_chars(&sorted[k].token), sorted[k].count));
            k += 1;
        }
        assert(seq_view(out@) =~= sv.map_values(|e: TallyView| (e.token, e.count as usize)));
        out
    }

    /// Computes and stores the importance of every memory filed under a
    /// topic, one after another. Returns how many memories that were.
    pub fn recalculate_topic_importance(&mut self, topic_id: &TopicId) -> (r: Result<
        usize,
        StoreError,
    >)
        requires
            old(self)@.wf(),
        ensures
            final(self)@.wf(),
            r == Ok::<usize, StoreError>(old(self)@.ids_under(topic_id@).len() as usize),
            final(self)@ == old(self)@.recalculated(old(self)@.ids_under(topic_id@)),
    {
        let ghost before = self@;
        let ghost p = filed_under(topic_id@);
        let pick = |r: &MemoryRow| -> (o: bool)
            ensures
                o == p(r@),
            {
                match &r.memory.topic_id {
                    Some(t) => *t == *topic_id,
                    None => false,
                }
            };
        let rows = select(&self.memories, pick, Ghost(p));
        let ghost ids = before.ids_under(topic_id@);
        assert(ids.len() == rows.len()) by {
            assert(seq_view(rows@).len() == rows.len());
        }
        let mut updated: usize = 0;
        let mut i: usize = 0;
        proof {
            assert(ids.take(0) =~= Seq::<Seq<char>>::empty());
        }
        while i < rows.len()
            invariant
                i <= rows.len(),
                ids.len() == rows.len(),
                forall|j: int| 0 <= j < rows.len() ==> (#[trigger] rows@[j])@.memory.id == ids[j],
                self@.wf(),
                self@ == before.recalculated(ids.take(i as int)),
                updated == i,
            decreases rows.len() - i,
        {
            proof {
                assert(ids.take(i + 1).drop_last() =~= ids.take(i as int));
                assert(ids.take(i + 1).last() == ids[i as int]);
            }
            let _ = self.recalculate_and_update_importance(&rows[i].memory.id);
            updated += 1;
            i += 1;
        }
        proof {
            assert(ids.take(rows.len() as int) =~= ids);
        }
        Ok(updated)
    }
}

} // verus!
