//! Memories by the entities they name: mentions over time, entities that
//! occur together, and figures for one entity.

use crate::clock::{rfc3339_days_ago, REACHABLE_DAYS};
use crate::dup::{opt_view, seq_view};
use crate::hierarchy::topic_is;
use crate::ids::MemoryId;
use crate::memories::{memories_of, newest_first, str_less, take_memories};
use crate::order::{lex_less, sort_unique, sorted_unique};
use crate::query::{at_most, first_n, select, sort_rows};
use crate::review::older;
use crate::schemas::{Memory, MemoryView};
use crate::sidecar::{tally, tally_of, tokens_of, Tally, TallyView};
use crate::sorting::stable_sort;
use crate::store::{
    find_first, lemma_find_some, Database, DatabaseView, MemoryRow, MemoryRowView, StoreError,
};
use crate::text::{from_chars, to_chars, views};
use vstd::prelude::*;

verus! {

/// How many topics the figures of an entity list at most.
pub const RELATED_TOPICS: usize = 10;

/// One mention of an entity: the memory, its text and the time of its
/// creation.
#[derive(Debug)]
pub struct EntityMention {
    pub memory_id: MemoryId,
    pub entity: String,
    pub context: String,
    pub mentioned_at: String,
}

/// The value of an [`EntityMention`].
pub struct EntityMentionView {
    pub memory_id: Seq<char>,
    pub entity: Seq<char>,
    pub context: Seq<char>,
    pub mentioned_at: Seq<char>,
}

impl View for EntityMention {
    type V = EntityMentionView;

    open spec fn view(&self) -> EntityMentionView {
        EntityMentionView {
            memory_id: self.memory_id@,
            entity: self.entity@,
            context: self.context@,
            mentioned_at: self.mentioned_at@,
        }
    }
}

/// Figures for one entity.
#[derive(Debug)]
pub struct EntityStats {
    pub entity: String,
    pub mention_count: usize,
    pub first_mention: Option<String>,
    pub last_mention: Option<String>,
    pub related_topics: Vec<String>,
}

/// The value of an [`EntityStats`].
pub struct EntityStatsView {
    pub entity: Seq<char>,
    pub mention_count: nat,
    pub first_mention: Option<Seq<char>>,
    pub last_mention: Option<Seq<char>>,
    pub related_topics: Seq<Seq<char>>,
}

impl View for EntityStats {
    type V = EntityStatsView;

    open spec fn view(&self) -> EntityStatsView {
        EntityStatsView {
            entity: self.entity@,
            mention_count: self.mention_count as nat,
            first_mention: opt_view(self.first_mention),
            last_mention: opt_view(self.last_mention),
            related_topics: seq_view(self.related_topics@),
        }
    }
}

/// The memory names the entity.
pub open spec fn names(entity: Seq<char>) -> spec_fn(MemoryRowView) -> bool {
    |r: MemoryRowView| r.memory.entities.contains(entity)
}

/// The memory names the entity and was created at `from` or later.
pub open spec fn names_since(entity: Seq<char>, from: Seq<char>) -> spec_fn(MemoryRowView) -> bool {
    |r: MemoryRowView|
        r.memory.entities.contains(entity) && !lex_less(r.memory.created_at, from)
}

/// The mention that a memory makes of an entity.
pub open spec fn mention(r: MemoryRowView, entity: Seq<char>) -> EntityMentionView {
    EntityMentionView {
        memory_id: r.memory.id,
        entity,
        context: r.memory.text,
        mentioned_at: r.memory.created_at,
    }
}

/// The entities of the rows, one after another.
pub open spec fn entities_of(rows: Seq<MemoryRowView>) -> Seq<Seq<char>>
    decreases rows.len(),
{
    if rows.len() == 0 {
        Seq::empty()
    } else {
        entities_of(rows.drop_last()) + rows.last().memory.entities
    }
}

/// The entities of the rows other than `entity`, one after another.
pub open spec fn companions(rows: Seq<MemoryRowView>, entity: Seq<char>) -> Seq<Seq<char>> {
    entities_of(rows).filter(|e: Seq<char>| e != entity)
}

impl DatabaseView {
    /// The name of the topic `id`.
    pub open spec fn topic_name(self, id: Seq<char>) -> Option<Seq<char>> {
        match find_first(self.topics, topic_is(id)) {
            Some(i) => Some(self.topics[i].name),
            None => None,
        }
    }

    /// The names of the stored topics under which the rows are filed, one
    /// for each such row.
    pub open spec fn topic_names(self, rows: Seq<MemoryRowView>) -> Seq<Seq<char>>
        decreases rows.len(),
    {
        if rows.len() == 0 {
            Seq::empty()
        } else {
            let rest = self.topic_names(rows.drop_last());
            match rows.last().memory.topic_id {
                Some(t) => match self.topic_name(t) {
                    Some(n) => rest.push(n),
                    None => rest,
                },
                None => rest,
            }
        }
    }

    /// The memories that name the entity, newest first.
    pub open spec fn memories_by_entity(self, entity: Seq<char>) -> Seq<MemoryView> {
        memories_of(newest_first(self.memories.filter(names(entity))))
    }

    /// The mentions of the entity since `from`, oldest first.
    pub open spec fn entity_mentions(self, entity: Seq<char>, from: Seq<char>) -> Seq<
        EntityMentionView,
    > {
        stable_sort(
            self.memories.filter(names_since(entity, from)),
            |a: MemoryRowView, b: MemoryRowView| older(a, b),
        ).map_values(|r: MemoryRowView| mention(r, entity))
    }

    /// The `limit` entities named most often together with `entity`, each
    /// with the number of times; entities of one count stand in the order of
    /// their first occurrence.
    pub open spec fn cooccurrence(self, entity: Seq<char>, limit: nat) -> Seq<
        (Seq<char>, usize),
    > {
        at_most(
            stable_sort(
                tally(companions(self.memories.filter(names(entity)), entity)),
                |a: TallyView, b: TallyView| a.count > b.count,
            ),
            limit,
        ).map_values(|e: TallyView| (e.token, e.count as usize))
    }

    /// The different entities of all memories, in dictionary order.
    pub open spec fn all_entities(self) -> Seq<Seq<char>> {
        sort_unique(entities_of(self.memories))
    }

    /// The figures for one entity: the number of memories that name it, the
    /// times of the oldest and of the newest of them, and the names of up
    /// to [`RELATED_TOPICS`] different topics under which they are filed.
    pub open spec fn entity_stats(self, entity: Seq<char>) -> EntityStatsView {
        let rows = self.memories.filter(names(entity));
        let up = stable_sort(rows, |a: MemoryRowView, b: MemoryRowView| older(a, b));
        let down = newest_first(rows);
        EntityStatsView {
            entity,
            mention_count: rows.len(),
            first_mention: if up.len() > 0 {
                Some(up[0].memory.created_at)
            } else {
                None
            },
            last_mention: if down.len() > 0 {
                Some(down[0].memory.created_at)
            } else {
                None
            },
            related_topics: at_most(
                tokens_of(tally(self.topic_names(rows))),
                RELATED_TOPICS as nat,
            ),
        }
    }
}

/// Whether the text `x` occurs in `list`.
pub fn holds(list: &Vec<String>, x: &str) -> (r: bool)
    ensures
        r == seq_view(list@).contains(x@),
{
    let ghost vs = seq_view(list@);
    let wanted = x.to_owned();
    let mut i: usize = 0;
    while i < list.len()
        invariant
            i <= list.len(),
            vs == seq_view(list@),
            wanted@ == x@,
            forall|j: int| 0 <= j < i ==> vs[j] != x@,
        decreases list.len() - i,
    {
        assert(vs[i as int] == list@[i as int]@);
        if list[i] == wanted {
            return true;
        }
        i += 1;
    }
    false
}

/// The entities of the rows, one after another.
pub fn entities_in(rows: &Vec<MemoryRow>) -> (r: Vec<Vec<char>>)
    ensures
        views(r@) == entities_of(seq_view(rows@)),
{
    let ghost rv = seq_view(rows@);
    let mut out: Vec<Vec<char>> = Vec::new();
    let mut i: usize = 0;
    proof {
        assert(views(out@) =~= entities_of(rv.take(0)));
    }
    while i < rows.len()
        invariant
            i <= rows.len(),
            rv == seq_view(rows@),
            views(out@) == entities_of(rv.take(i as int)),
        decreases rows.len() - i,
    {
        let ghost before = views(out@);
        let es = &rows[i].memory.entities;
        proof {
            assert(rv[i as int] == rows@[i as int]@);
            assert(rv.take(i + 1).drop_last() =~= rv.take(i as int));
            assert(rv.take(i + 1).last() == rv[i as int]);
        }
        let ghost ev = seq_view(es@);
        let mut k: usize = 0;
        while k < es.len()
            invariant
                k <= es.len(),
                ev == seq_view(es@),
                views(out@) == before + ev.take(k as int),
            decreases es.len() - k,
        {
            let ghost sofar = views(out@);
            assert(ev[k as int] == es@[k as int]@);
            out.push(to_chars(es[k].as_str()));
            assert(views(out@) =~= sofar.push(ev[k as int]));
            assert(ev.take(k + 1) =~= ev.take(k as int).push(ev[k as int]));
            k += 1;
        }
        proof {
            assert(ev.take(es.len() as int) =~= ev);
        }
        i += 1;
    }
    proof {
        assert(rv.take(rows.len() as int) =~= rv);
    }
    out
}

impl Database {
    /// Copies of the rows of the memories that name the entity.
    fn rows_naming(&self, entity: &str) -> (r: Vec<MemoryRow>)
        ensures
            seq_view(r@) == self@.memories.filter(names(entity@)),
    {
        let ghost p = names(entity@);
        let pick = |r: &MemoryRow| -> (o: bool)
            ensures
                o == p(r@),
            { holds(&r.memory.entities, entity) };
        select(&self.memories, pick, Ghost(p))
    }

    /// The rows with the oldest first.
    fn oldest_first(rows: Vec<MemoryRow>) -> (r: Vec<MemoryRow>)
        ensures
            seq_view(r@) == stable_sort(
                seq_view(rows@),
                |a: MemoryRowView, b: MemoryRowView| older(a, b),
            ),
    {
        let ghost before = |a: MemoryRowView, b: MemoryRowView| older(a, b);
        let first = |a: &MemoryRow, b: &MemoryRow| -> (o: bool)
            ensures
                o == before(a@, b@),
            { str_less(a.memory.created_at.as_str(), b.memory.created_at.as_str()) };
        sort_rows(rows, first, Ghost(before))
    }

    /// The rows with the newest first.
    fn latest_first(rows: Vec<MemoryRow>) -> (r: Vec<MemoryRow>)
        ensures
            seq_view(r@) == newest_first(seq_view(rows@)),
    {
        let ghost before = |a: MemoryRowView, b: MemoryRowView| crate::memories::newer(a, b);
        let later = |a: &MemoryRow, b: &MemoryRow| -> (o: bool)
            ensures
                o == before(a@, b@),
            { str_less(b.memory.created_at.as_str(), a.memory.created_at.as_str()) };
        sort_rows(rows, later, Ghost(before))
    }

    /// The memories that name the entity, newest first.
    pub fn get_memories_by_entity(&self, entity: &str) -> (r: Vec<Memory>)
        ensures
            seq_view(r@) == self@.memories_by_entity(entity@),
    {
        take_memories(Self::latest_first(self.rows_naming(entity)))
    }

    /// The mentions of the entity since `from`, oldest first.
    pub fn get_entity_mentions_since(&self, entity: &str, from: &str) -> (r: Vec<EntityMention>)
        ensures
            seq_view(r@) == self@.entity_mentions(entity@, from@),
    {
        let ghost p = names_since(entity@, from@);
        let pick = |r: &MemoryRow| -> (o: bool)
            ensures
                o == p(r@),
            {
                holds(&r.memory.entities, entity) && !str_less(
                    r.memory.created_at.as_str(),
                    from,
                )
            };
        let rows = Self::oldest_first(select(&self.memories, pick, Ghost(p)));
        let ghost rv = seq_view(rows@);
        let mut out: Vec<EntityMention> = Vec::new();
        let mut i: usize = 0;
        while i < rows.len()
            invariant
                i <= rows.len(),
                rv == seq_view(rows@),
                out.len() == i,
                forall|j: int| 0 <= j < i ==> (#[trigger] out@[j])@ == mention(rv[j], entity@),
            decreases rows.len() - i,
        {
            assert(rv[i as int] == rows@[i as int]@);
            out.push(
                EntityMention {
                    memory_id: rows[i].memory.id.clone(),
                    entity: entity.to_owned(),
                    context: rows[i].memory.text.clone(),
                    mentioned_at: rows[i].memory.created_at.clone(),
                },
            );
            i += 1;
        }
        assert(seq_view(out@) =~= rv.map_values(|r: MemoryRowView| mention(r, entity@)));
        out
    }

    /// The mentions of the entity in the last `days` days, oldest first.
    /// Fails with `BadRequest` where that many days ago is no representable
    /// date.
    pub fn get_entity_evolution(&self, entity: &str, days: usize) -> (r: Result<
        Vec<EntityMention>,
        StoreError,
    >)
        ensures
            match r {
                Ok(ms) => exists|from: Seq<char>|
                    seq_view(ms@) == #[trigger] self@.entity_mentions(entity@, from),
                Err(e) => e == StoreError::BadRequest,
            },
            days <= REACHABLE_DAYS ==> r is Ok,
            days > u32::MAX ==> r is Err,
    {
        if days > u32::MAX as usize {
            return Err(StoreError::BadRequest);
        }
        match rfc3339_days_ago(days as u32) {
            None => Err(StoreError::BadRequest),
            Some(from) => {
                let ms = self.get_entity_mentions_since(entity, from.as_str());
                assert(seq_view(ms@) == self@.entity_mentions(entity@, from@));
                Ok(ms)
            },
        }
    }

    /// The `limit` entities named most often together with `entity`, each
    /// with the number of times.
    pub fn get_entity_cooccurrence(&self, entity: &str, limit: usize) -> (r: Vec<(String, usize)>)
        ensures
            seq_view(r@) == self@.cooccurrence(entity@, limit as nat),
    {
        let rows = self.rows_naming(entity);
        let all = entities_in(&rows);
        let ghost av = views(all@);
        let ghost p = |e: Seq<char>| e != entity@;
        let me = to_chars(entity);
        let mut others: Vec<Vec<char>> = Vec::new();
        let mut i: usize = 0;
        proof {
            reveal(Seq::filter);
            assert(views(others@) =~= av.take(0).filter(p));
        }
        while i < all.len()
            invariant
                i <= all.len(),
                av == views(all@),
                me@ == entity@,
                p == (|e: Seq<char>| e != entity@),
                views(others@) == av.take(i as int).filter(p),
            decreases all.len() - i,
        {
            let ghost ov = views(others@);
            proof {
                assert(av[i as int] == all@[i as int]@);
                assert(av.take(i + 1) =~= av.take(i as int).push(av[i as int]));
                crate::query::lemma_filter_push(av.take(i as int), av[i as int], p);
            }
            if !crate::text::same(&all[i], &me) {
                others.push(crate::text::slice(&all[i], 0, all[i].len()));
                assert(others@[others.len() - 1]@ =~= av[i as int]);
                assert(views(others@) =~= ov.push(av[i as int]));
            }
            i += 1;
        }
        proof {
            assert(av.take(all.len() as int) =~= av);
        }
        let ghost before = |a: TallyView, b: TallyView| a.count > b.count;
        let more = |a: &Tally, b: &Tally| -> (o: bool)
            ensures
                o == before(a@, b@),
            { a.count > b.count };
        let best = first_n(sort_rows(tally_of(&others), more, Ghost(before)), limit);
        let ghost bv = seq_view(best@);
        let mut out: Vec<(String, usize)> = Vec::new();
        let mut k: usize = 0;
        while k < best.len()
            invariant
                k <= best.len(),
                bv == seq_view(best@),
                out.len() == k,
                forall|j: int|
                    0 <= j < k ==> (#[trigger] out@[j])@ == (bv[j].token, bv[j].count as usize),
            decreases best.len() - k,
        {
            assert(bv[k as int] == best@[k as int]@);
            out.push((from_chars(&best[k].token), best[k].count));
            k += 1;
        }
        assert(seq_view(out@) =~= bv.map_values(|e: TallyView| (e.token, e.count as usize)));
        out
    }

    /// The different entities of all memories, in dictionary order.
    pub fn get_all_entities(&self) -> (r: Vec<String>)
        ensures
            seq_view(r@) == self@.all_entities(),
    {
        let all = entities_in(&self.memories);
        let sorted = sorted_unique(&all);
        let ghost sv = views(sorted@);
        let mut out: Vec<String> = Vec::new();
        let mut j: usize = 0;
        while j < sorted.len()
            invariant
                j <= sorted.len(),
                sv == views(sorted@),
                out.len() == j,
                forall|x: int| 0 <= x < j ==> out@[x]@ == sv[x],
            decreases sorted.len() - j,
        {
            assert(sv[j as int] == sorted@[j as int]@);
            out.push(from_chars(&sorted[j]));
            j += 1;
        }
        assert(seq_view(out@) =~= sv);
        out
    }

    /// The name of the topic `id`.
    pub fn get_topic_name(&self, id: &crate::ids::TopicId) -> (r: Option<String>)
        ensures
            opt_view(r) == self@.topic_name(id@),
    {
        match self.topic_id_index(id) {
            Some(i) => {
                assert(self@.topics[i as int] == self.topics@[i as int]@);
                Some(self.topics[i].name.clone())
            },
            None => {
                proof {
                    lemma_find_some(self@.topics, topic_is(id@));
                }
                None
            },
        }
    }

    /// The names of the stored topics under which the rows are filed.
    fn topic_names_of(&self, rows: &Vec<MemoryRow>) -> (r: Vec<Vec<char>>)
        ensures
            views(r@) == self@.topic_names(seq_view(rows@)),
    {
        let ghost rv = seq_view(rows@);
        let mut out: Vec<Vec<char>> = Vec::new();
        let mut i: usize = 0;
        proof {
            assert(views(out@) =~= self@.topic_names(rv.take(0)));
        }
        while i < rows.len()
            invariant
                i <= rows.len(),
                rv == seq_view(rows@),
                views(out@) == self@.topic_names(rv.take(i as int)),
            decreases rows.len() - i,
        {
            let ghost ov = views(out@);
            proof {
                assert(rv[i as int] == rows@[i as int]@);
                assert(rv.take(i + 1).drop_last() =~= rv.take(i as int));
                assert(rv.take(i + 1).last() == rv[i as int]);
            }
            match &rows[i].memory.topic_id {
                Some(t) => {
                    match self.get_topic_name(t) {
                        Some(n) => {
                            out.push(to_chars(n.as_str()));
                            assert(views(out@) =~= ov.push(n@));
                        },
                        None => {},
                    }
                },
                None => {},
            }
            i += 1;
        }
        proof {
            assert(rv.take(rows.len() as int) =~= rv);
        }
        out
    }

    /// The figures for one entity.
    pub fn get_entity_stats(&self, entity: &str) -> (r: EntityStats)
        ensures
            r@ == self@.entity_stats(entity@),
    {
        let rows = self.rows_naming(entity);
        let ghost rv = seq_view(rows@);
        let count = rows.len();
        let topics = tally_of(&self.topic_names_of(&rows));
        let up = Self::oldest_first(crate::dup::dup_vec(&rows));
        let first = if up.len() > 0 {
            assert(seq_view(up@)[0] == up@[0]@);
            Some(up[0].memory.created_at.clone())
        } else {
            None
        };
        let down = Self::latest_first(rows);
        let last = if down.len() > 0 {
            assert(seq_view(down@)[0] == down@[0]@);
            Some(down[0].memory.created_at.clone())
        } else {
            None
        };
        let top = first_n(topics, RELATED_TOPICS);
        let ghost tv = seq_view(top@);
        let mut related: Vec<String> = Vec::new();
        let mut k: usize = 0;
        while k < top.len()
            invariant
                k <= top.len(),
                tv == seq_view(top@),
                related.len() == k,
                forall|j: int| 0 <= j < k ==> (#[trigger] related@[j])@ == tv[j].token,
            decreases top.len() - k,
        {
            assert(tv[k as int] == top@[k as int]@);
            related.push(from_chars(&top[k].token));
            k += 1;
        }
        proof {
            let all = tally(self@.topic_names(rv));
            assert(seq_view(related@) =~= tokens_of(tv));
            assert(tokens_of(at_most(all, RELATED_TOPICS as nat)) =~= at_most(
                tokens_of(all),
                RELATED_TOPICS as nat,
            ));
            assert(seq_view(up@).len() == up.len());
            assert(seq_view(down@).len() == down.len());
        }
        EntityStats {
            entity: entity.to_owned(),
            mention_count: count,
            first_mention: first,
            last_mention: last,
            related_topics: related,
        }
    }
}

} // verus!
