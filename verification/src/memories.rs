//! Storing turns and memories, and reading memories back by recency, topic,
//! status and importance.

use crate::clock::now_rfc3339;
use crate::dup::seq_view;
use crate::ids::TopicId;
use crate::order::{less, lex_less};
use crate::query::{at_most, first_n, select, sort_rows};
use crate::schemas::{Memory, MemoryStatus, MemoryView, RelationType, TopicView, Turn};
use crate::sorting::stable_sort;
use crate::store::{
    any, find_first, fresh_row, lemma_any_push, lemma_any_same, lemma_find_none, lemma_find_some,
    memory_is, relation_joins, turn_is, Database, DatabaseView, MemoryRow, MemoryRowView,
    StoreError, TurnRow, TurnRowView, DEFAULT_IMPORTANCE, MAX_IMPORTANCE,
};
use crate::text::to_chars;
use vstd::prelude::*;

verus! {

/// Whether the text `a` comes strictly before the text `b` in the
/// dictionary order.
pub fn str_less(a: &str, b: &str) -> (r: bool)
    ensures
        r == lex_less(a@, b@),
{
    let x = to_chars(a);
    let y = to_chars(b);
    less(&x, &y)
}

/// `a` was created later than `b`, by the order of their time stamps.
pub open spec fn newer(a: MemoryRowView, b: MemoryRowView) -> bool {
    lex_less(b.memory.created_at, a.memory.created_at)
}

/// `a` ranks above `b`: it is more important, or as important and newer.
pub open spec fn ranks_above(a: MemoryRowView, b: MemoryRowView) -> bool {
    a.importance > b.importance || (a.importance == b.importance && newer(a, b))
}

/// The rows with the newest first; rows of one time stamp keep their order.
pub open spec fn newest_first(rows: Seq<MemoryRowView>) -> Seq<MemoryRowView> {
    stable_sort(rows, |a: MemoryRowView, b: MemoryRowView| newer(a, b))
}

/// The memories that the rows hold.
pub open spec fn memories_of(rows: Seq<MemoryRowView>) -> Seq<MemoryView> {
    rows.map_values(|r: MemoryRowView| r.memory)
}

/// The rows with the topic of every memory whose topic text is `topic` set
/// to `id`.
pub open spec fn set_topic_id(rows: Seq<MemoryRowView>, topic: Seq<char>, id: Seq<char>) -> Seq<
    MemoryRowView,
> {
    Seq::new(
        rows.len(),
        |i: int|
            if rows[i].memory.topic == topic {
                MemoryRowView {
                    memory: MemoryView { topic_id: Some(id), ..rows[i].memory },
                    ..rows[i]
                }
            } else {
                rows[i]
            },
    )
}

/// The rows with the importance of the memory `id` set to `importance`.
pub open spec fn set_importance(rows: Seq<MemoryRowView>, id: Seq<char>, importance: u8) -> Seq<
    MemoryRowView,
> {
    Seq::new(
        rows.len(),
        |i: int|
            if rows[i].memory.id == id {
                MemoryRowView { importance, ..rows[i] }
            } else {
                rows[i]
            },
    )
}

/// The rows with the status of the memory `id` set to `status`.
pub open spec fn set_status(rows: Seq<MemoryRowView>, id: Seq<char>, status: MemoryStatus) -> Seq<
    MemoryRowView,
> {
    Seq::new(
        rows.len(),
        |i: int|
            if rows[i].memory.id == id {
                MemoryRowView { status, ..rows[i] }
            } else {
                rows[i]
            },
    )
}

/// An importance brought into its range.
pub open spec fn clamp_importance(importance: u8) -> u8 {
    if importance > MAX_IMPORTANCE {
        MAX_IMPORTANCE
    } else {
        importance
    }
}

/// The status that a wire name denotes.
pub open spec fn status_named(name: Seq<char>) -> Option<MemoryStatus> {
    if name == "fleeting"@ {
        Some(MemoryStatus::Fleeting)
    } else if name == "permanent"@ {
        Some(MemoryStatus::Permanent)
    } else if name == "archived"@ {
        Some(MemoryStatus::Archived)
    } else if name == "deprecated"@ {
        Some(MemoryStatus::Deprecated)
    } else {
        None
    }
}

/// The row belongs to a fleeting memory that nothing supersedes and that
/// was created before `threshold`.
pub open spec fn is_stale(threshold: Seq<char>) -> spec_fn(MemoryRowView) -> bool {
    |r: MemoryRowView|
        r.status == MemoryStatus::Fleeting && r.superseded_by is None && lex_less(
            r.memory.created_at,
            threshold,
        )
}

/// The rows with every stale memory archived.
pub open spec fn archive_stale(rows: Seq<MemoryRowView>, threshold: Seq<char>) -> Seq<
    MemoryRowView,
> {
    Seq::new(
        rows.len(),
        |i: int|
            if is_stale(threshold)(rows[i]) {
                MemoryRowView { status: MemoryStatus::Archived, ..rows[i] }
            } else {
                rows[i]
            },
    )
}

impl DatabaseView {
    /// What storing a turn returns: `Conflict` if its identifier is taken.
    pub open spec fn turn_outcome(self, id: Seq<char>) -> Result<(), StoreError> {
        if any(self.turns, turn_is(id)) {
            Err(StoreError::Conflict)
        } else {
            Ok(())
        }
    }

    /// The store after storing a turn.
    pub open spec fn after_insert_turn(self, row: TurnRowView) -> DatabaseView {
        if self.turn_outcome(row.turn.id) is Ok {
            DatabaseView { turns: self.turns.push(row), ..self }
        } else {
            self
        }
    }

    /// What storing a memory returns: `ForeignKeyMissing` if it names a topic
    /// that is not stored, else `Conflict` if its identifier is taken.
    pub open spec fn memory_outcome(self, memory: MemoryView) -> Result<(), StoreError> {
        if memory.topic_id is Some && !self.has_topic(memory.topic_id->0) {
            Err(StoreError::ForeignKeyMissing)
        } else if self.has_memory(memory.id) {
            Err(StoreError::Conflict)
        } else {
            Ok(())
        }
    }

    /// The store after storing a memory: a new row with the engine's columns
    /// at their defaults.
    pub open spec fn after_insert_memory(self, memory: MemoryView) -> DatabaseView {
        if self.memory_outcome(memory) is Ok {
            DatabaseView { memories: self.memories.push(fresh_row(memory)), ..self }
        } else {
            self
        }
    }

    /// The `limit` newest memories.
    pub open spec fn recent_memories(self, limit: nat) -> Seq<MemoryView> {
        memories_of(at_most(newest_first(self.memories), limit))
    }

    /// The `limit` newest memories with the topic text `topic`.
    pub open spec fn memories_by_topic(self, topic: Seq<char>, limit: nat) -> Seq<MemoryView> {
        memories_of(
            at_most(
                newest_first(self.memories.filter(|r: MemoryRowView| r.memory.topic == topic)),
                limit,
            ),
        )
    }

    /// The memories with the status `status`, newest first.
    pub open spec fn memories_by_status(self, status: MemoryStatus) -> Seq<MemoryView> {
        memories_of(newest_first(self.memories.filter(|r: MemoryRowView| r.status == status)))
    }

    /// The memories of importance `min` or more, most important first and
    /// newest first among equals.
    pub open spec fn memories_by_importance(self, min: u8) -> Seq<MemoryRowView> {
        stable_sort(
            self.memories.filter(|r: MemoryRowView| r.importance >= min),
            |a: MemoryRowView, b: MemoryRowView| ranks_above(a, b),
        )
    }
}

/// A store that differs from a well-formed one only in columns of its
/// memories other than identifier, version counter and `superseded_by` is
/// well formed if importance stays in range and every topic named is stored.
pub proof fn lemma_wf_after_rows_rewritten(old: DatabaseView, new: DatabaseView)
    requires
        old.wf(),
        new == (DatabaseView { memories: new.memories, ..old }),
        new.memories.len() == old.memories.len(),
        forall|i: int|
            0 <= i < old.memories.len() ==> {
                &&& (#[trigger] new.memories[i]).memory.id == old.memories[i].memory.id
                &&& new.memories[i].version == old.memories[i].version
                &&& new.memories[i].superseded_by == old.memories[i].superseded_by
                &&& new.memories[i].importance <= MAX_IMPORTANCE
                &&& match new.memories[i].memory.topic_id {
                    Some(t) => old.has_topic(t),
                    None => true,
                }
            },
    ensures
        new.wf(),
{
    assert forall|id: Seq<char>|
        find_first(new.memories, #[trigger] memory_is(id)) == find_first(
            old.memories,
            memory_is(id),
        ) && any(new.memories, memory_is(id)) == any(old.memories, memory_is(id)) by {
        lemma_any_same(new.memories, old.memories, memory_is(id));
    }
    assert(new.ids_unique()) by {
        assert forall|i: int, j: int| 0 <= i < j < new.memories.len() implies new.memories[i].memory.id
            != new.memories[j].memory.id by {
            assert(old.memories[i].memory.id != old.memories[j].memory.id);
        }
    }
    assert(new.references_hold()) by {
        assert forall|i: int| 0 <= i < new.relations.len() implies new.has_memory(
            (#[trigger] new.relations[i]).source_id,
        ) && new.has_memory(new.relations[i].target_id) by {
            assert(old.has_memory(old.relations[i].source_id));
            assert(old.has_memory(old.relations[i].target_id));
        }
        assert forall|i: int| 0 <= i < new.versions.len() implies new.has_memory(
            (#[trigger] new.versions[i]).memory_id,
        ) by {
            assert(old.has_memory(old.versions[i].memory_id));
        }
        assert forall|i: int| 0 <= i < new.summaries.len() implies new.has_memory(
            (#[trigger] new.summaries[i]).memory_id,
        ) by {
            assert(old.has_memory(old.summaries[i].memory_id));
        }
        assert forall|i: int| 0 <= i < new.agentic.len() implies new.has_memory(
            (#[trigger] new.agentic[i]).id,
        ) by {
            assert(old.has_memory(old.agentic[i].id));
        }
    }
    assert(new.relations_consistent()) by {
        assert forall|i: int| 0 <= i < new.memories.len() implies match (
        #[trigger] new.memories[i]).superseded_by {
            Some(s) => any(
                new.relations,
                relation_joins(s, new.memories[i].memory.id, RelationType::Supersedes),
            ),
            None => true,
        } by {
            assert(new.memories[i].superseded_by == old.memories[i].superseded_by);
            assert(new.memories[i].memory.id == old.memories[i].memory.id);
        }
    }
    assert(new.versions_consistent()) by {
        assert forall|i: int| 0 <= i < new.memories.len() implies (
        #[trigger] new.memories[i]).version >= 1 by {
            assert(old.memories[i].version >= 1);
        }
        assert forall|i: int| 0 <= i < new.versions.len() implies (
        #[trigger] new.versions[i]).version_number >= 1 && match new.memory(
            new.versions[i].memory_id,
        ) {
            Some(m) => new.versions[i].version_number < m.version,
            None => false,
        } by {
            let vid = old.versions[i].memory_id;
            assert(old.versions[i].version_number >= 1);
            lemma_find_some(old.memories, memory_is(vid));
            assert(find_first(new.memories, memory_is(vid)) == find_first(
                old.memories,
                memory_is(vid),
            ));
        }
    }
}

/// Storing a turn keeps the store well formed.
pub proof fn insert_turn_keeps_wf(before: DatabaseView, row: TurnRowView)
    requires
        before.wf(),
    ensures
        before.after_insert_turn(row).wf(),
{
    if before.turn_outcome(row.turn.id) is Ok {
        let after = before.after_insert_turn(row);
        lemma_find_none(before.turns, turn_is(row.turn.id));
        assert forall|i: int, j: int| 0 <= i < j < after.turns.len() implies after.turns[i].turn.id
            != after.turns[j].turn.id by {
            if j == before.turns.len() {
                assert(!turn_is(row.turn.id)(before.turns[i]));
            } else {
                assert(before.turns[i].turn.id != before.turns[j].turn.id);
            }
        }
    }
}

/// Storing a memory keeps the store well formed.
pub proof fn insert_memory_keeps_wf(before: DatabaseView, memory: MemoryView)
    requires
        before.wf(),
    ensures
        before.after_insert_memory(memory).wf(),
{
    if before.memory_outcome(memory) is Ok {
        let after = before.after_insert_memory(memory);
        let row = fresh_row(memory);
        lemma_find_none(before.memories, memory_is(memory.id));
        assert forall|id: Seq<char>| any(before.memories, #[trigger] memory_is(id)) implies any(
            after.memories,
            memory_is(id),
        ) by {
            lemma_any_push(before.memories, row, memory_is(id));
        }
        assert forall|id: Seq<char>|
            any(before.memories, #[trigger] memory_is(id)) implies find_first(
            after.memories,
            memory_is(id),
        ) == find_first(before.memories, memory_is(id)) by {
            lemma_any_push(before.memories, row, memory_is(id));
        }
        assert(after.ids_unique()) by {
            assert forall|i: int, j: int|
                0 <= i < j < after.memories.len() implies after.memories[i].memory.id
                != after.memories[j].memory.id by {
                if j == before.memories.len() {
                    assert(!memory_is(memory.id)(before.memories[i]));
                } else {
                    assert(before.memories[i].memory.id != before.memories[j].memory.id);
                }
            }
        }
        assert(after.references_hold()) by {
            assert forall|i: int| 0 <= i < after.memories.len() implies match (
            #[trigger] after.memories[i]).memory.topic_id {
                Some(t) => after.has_topic(t),
                None => true,
            } by {
                if i < before.memories.len() {
                    assert(after.memories[i] == before.memories[i]);
                }
            }
            assert forall|i: int| 0 <= i < after.relations.len() implies after.has_memory(
                (#[trigger] after.relations[i]).source_id,
            ) && after.has_memory(after.relations[i].target_id) by {
                assert(before.has_memory(before.relations[i].source_id));
                assert(before.has_memory(before.relations[i].target_id));
            }
            assert forall|i: int| 0 <= i < after.versions.len() implies after.has_memory(
                (#[trigger] after.versions[i]).memory_id,
            ) by {
                assert(before.has_memory(before.versions[i].memory_id));
            }
            assert forall|i: int| 0 <= i < after.summaries.len() implies after.has_memory(
                (#[trigger] after.summaries[i]).memory_id,
            ) by {
                assert(before.has_memory(before.summaries[i].memory_id));
            }
            assert forall|i: int| 0 <= i < after.agentic.len() implies after.has_memory(
                (#[trigger] after.agentic[i]).id,
            ) by {
                assert(before.has_memory(before.agentic[i].id));
            }
        }
        assert(after.relations_consistent()) by {
            assert forall|i: int| 0 <= i < after.memories.len() implies match (
            #[trigger] after.memories[i]).superseded_by {
                Some(s) => any(
                    after.relations,
                    relation_joins(s, after.memories[i].memory.id, RelationType::Supersedes),
                ),
                None => true,
            } by {
                if i < before.memories.len() {
                    assert(after.memories[i] == before.memories[i]);
                }
            }
        }
        assert(after.versions_consistent()) by {
            assert forall|i: int| 0 <= i < after.memories.len() implies (
            #[trigger] after.memories[i]).version >= 1 by {
                if i < before.memories.len() {
                    assert(after.memories[i] == before.memories[i]);
                }
            }
            assert forall|i: int| 0 <= i < after.versions.len() implies (
            #[trigger] after.versions[i]).version_number >= 1 && match after.memory(
                after.versions[i].memory_id,
            ) {
                Some(m) => after.versions[i].version_number < m.version,
                None => false,
            } by {
                let vid = before.versions[i].memory_id;
                assert(before.has_memory(vid));
                assert(before.versions[i].version_number >= 1);
                lemma_find_some(before.memories, memory_is(vid));
                let k = find_first(before.memories, memory_is(vid))->0;
                assert(after.memories[k] == before.memories[k]);
            }
        }
        assert(after.importance_bounded()) by {
            assert forall|i: int| 0 <= i < after.memories.len() implies (
            #[trigger] after.memories[i]).importance <= MAX_IMPORTANCE by {
                if i < before.memories.len() {
                    assert(after.memories[i] == before.memories[i]);
                }
            }
        }
    }
}

/// The memories of a list of rows.
pub fn take_memories(rows: Vec<MemoryRow>) -> (r: Vec<Memory>)
    ensures
        seq_view(r@) == memories_of(seq_view(rows@)),
{
    let mut rows = rows;
    let ghost orig = seq_view(rows@);
    let mut out: Vec<Memory> = Vec::new();
    let ghost mut i: int = 0;
    assert(orig.skip(0) =~= orig);
    while rows.len() > 0
        invariant
            0 <= i <= orig.len(),
            seq_view(rows@) == orig.skip(i),
            out.len() == i,
            forall|j: int| 0 <= j < i ==> out@[j]@ == orig[j].memory,
        decreases rows.len(),
    {
        let ghost before = seq_view(rows@);
        let ghost raw = rows@;
        assert(before.len() == raw.len());
        let row = rows.remove(0);
        proof {
            assert(before[0] == row@);
            assert(seq_view(rows@) =~= before.drop_first());
            assert(before.drop_first() =~= orig.skip(i + 1));
            assert(orig[i] == before[0]);
        }
        out.push(row.memory);
        proof {
            i = i + 1;
        }
    }
    assert(seq_view(out@) =~= memories_of(orig));
    out
}

impl Database {
    /// Stores a turn, stamped `now`.
    pub fn insert_turn_at(&mut self, turn: &Turn, now: &str) -> (r: Result<(), StoreError>)
        requires
            old(self)@.wf(),
        ensures
            final(self)@.wf(),
            r == old(self)@.turn_outcome(turn@.id),
            final(self)@ == old(self)@.after_insert_turn(
                TurnRowView { turn: turn@, created_at: now@ },
            ),
    {
        let ghost before = self@;
        let mut i: usize = 0;
        while i < self.turns.len()
            invariant
                i <= self.turns.len(),
                self@ == before,
                before.wf(),
                forall|j: int| 0 <= j < i ==> !turn_is(turn@.id)(before.turns[j]),
            decreases self.turns.len() - i,
        {
            assert(before.turns[i as int] == self.turns@[i as int]@);
            if self.turns[i].turn.id == turn.id {
                return Err(StoreError::Conflict);
            }
            i += 1;
        }
        proof {
            lemma_find_none(before.turns, turn_is(turn@.id));
        }
        let row = TurnRow { turn: turn.clone(), created_at: now.to_owned() };
        let ghost rv = row@;
        self.turns.push(row);
        proof {
            assert(self@.turns =~= before.turns.push(rv));
            insert_turn_keeps_wf(before, rv);
        }
        Ok(())
    }

    /// Stores a turn, stamped with the current time.
    pub fn insert_turn(&mut self, turn: &Turn) -> (r: Result<(), StoreError>)
        requires
            old(self)@.wf(),
        ensures
            final(self)@.wf(),
            r == old(self)@.turn_outcome(turn@.id),
            exists|now: Seq<char>|
                final(self)@ == #[trigger] old(self)@.after_insert_turn(
                    TurnRowView { turn: turn@, created_at: now },
                ),
    {
        let now = now_rfc3339();
        let ghost nowv = now@;
        let r = self.insert_turn_at(turn, now.as_str());
        assert(self@ == old(self)@.after_insert_turn(TurnRowView { turn: turn@, created_at: nowv }));
        r
    }

    /// Whether a topic with the identifier `id` is stored.
    pub fn has_topic(&self, id: &TopicId) -> (r: bool)
        ensures
            r == self@.has_topic(id@),
    {
        let ghost p = |t: TopicView| t.id == id@;
        proof {
            lemma_find_some(self@.topics, p);
        }
        match self.topic_id_index(id) {
            Some(i) => {
                assert(crate::store::is_first(self@.topics, crate::hierarchy::topic_is(id@), i as int));
                assert(p(self@.topics[i as int]));
                true
            },
            None => {
                assert forall|j: int| 0 <= j < self@.topics.len() implies !p(self@.topics[j]) by {
                    assert(!crate::hierarchy::topic_is(id@)(self@.topics[j]));
                }
                false
            },
        }
    }

    /// Stores a memory.
    pub fn insert_memory(&mut self, memory: &Memory) -> (r: Result<(), StoreError>)
        requires
            old(self)@.wf(),
        ensures
            final(self)@.wf(),
            r == old(self)@.memory_outcome(memory@),
            final(self)@ == old(self)@.after_insert_memory(memory@),
    {
        let ghost before = self@;
        match &memory.topic_id {
            Some(t) => {
                if !self.has_topic(t) {
                    return Err(StoreError::ForeignKeyMissing);
                }
            },
            None => {},
        }
        if self.memory_index(&memory.id).is_some() {
            return Err(StoreError::Conflict);
        }
        let row = MemoryRow {
            memory: memory.clone(),
            importance: DEFAULT_IMPORTANCE,
            status: MemoryStatus::Fleeting,
            version: 1,
            superseded_by: None,
        };
        let ghost rv = row@;
        self.memories.push(row);
        proof {
            assert(rv == fresh_row(memory@));
            assert(self@.memories =~= before.memories.push(rv));
            insert_memory_keeps_wf(before, memory@);
        }
        Ok(())
    }

    /// Copies of the rows of all memories, newest first.
    fn rows_newest_first(rows: Vec<MemoryRow>) -> (r: Vec<MemoryRow>)
        ensures
            seq_view(r@) == newest_first(seq_view(rows@)),
    {
        let ghost before = |a: MemoryRowView, b: MemoryRowView| newer(a, b);
        let later = |a: &MemoryRow, b: &MemoryRow| -> (o: bool)
            ensures
                o == before(a@, b@),
            { str_less(b.memory.created_at.as_str(), a.memory.created_at.as_str()) };
        sort_rows(rows, later, Ghost(before))
    }

    /// The `limit` newest memories.
    pub fn get_recent_memories(&self, limit: usize) -> (r: Vec<Memory>)
        ensures
            seq_view(r@) == self@.recent_memories(limit as nat),
    {
        let ghost p = |r: MemoryRowView| true;
        let all = |r: &MemoryRow| -> (o: bool)
            ensures
                o == p(r@),
            { true };
        let rows = select(&self.memories, all, Ghost(p));
        proof {
            lemma_filter_all(self@.memories, p);
        }
        take_memories(first_n(Self::rows_newest_first(rows), limit))
    }

    /// The `limit` newest memories with the topic text `topic`.
    pub fn get_memories_by_topic(&self, topic: &str, limit: usize) -> (r: Vec<Memory>)
        ensures
            seq_view(r@) == self@.memories_by_topic(topic@, limit as nat),
    {
        let ghost p = |r: MemoryRowView| r.memory.topic == topic@;
        let wanted = topic.to_owned();
        let pick = |r: &MemoryRow| -> (o: bool)
            ensures
                o == p(r@),
            { r.memory.topic == wanted };
        let rows = select(&self.memories, pick, Ghost(p));
        take_memories(first_n(Self::rows_newest_first(rows), limit))
    }

    /// The memories with the status `status`, newest first, cut to `limit`
    /// if one is given.
    pub fn get_memories_by_status(&self, status: MemoryStatus, limit: Option<usize>) -> (r: Vec<
        Memory,
    >)
        ensures
            seq_view(r@) == match limit {
                Some(n) => at_most(self@.memories_by_status(status), n as nat),
                None => self@.memories_by_status(status),
            },
    {
        let ghost p = |r: MemoryRowView| r.status == status;
        let pick = |r: &MemoryRow| -> (o: bool)
            ensures
                o == p(r@),
            { r.status == status };
        let rows = Self::rows_newest_first(select(&self.memories, pick, Ghost(p)));
        match limit {
            Some(n) => {
                let ghost sorted = seq_view(rows@);
                let cut = first_n(rows, n);
                proof {
                    assert(memories_of(at_most(sorted, n as nat)) =~= at_most(
                        memories_of(sorted),
                        n as nat,
                    ));
                }
                take_memories(cut)
            },
            None => take_memories(rows),
        }
    }

    /// The memories of importance `min_importance` or more, most important
    /// first and newest first among equals, cut to `limit` if one is given.
    pub fn get_memories_by_importance(&self, min_importance: u8, limit: Option<usize>) -> (r: Vec<
        Memory,
    >)
        ensures
            seq_view(r@) == memories_of(
                match limit {
                    Some(n) => at_most(self@.memories_by_importance(min_importance), n as nat),
                    None => self@.memories_by_importance(min_importance),
                },
            ),
    {
        let ghost p = |r: MemoryRowView| r.importance >= min_importance;
        let pick = |r: &MemoryRow| -> (o: bool)
            ensures
                o == p(r@),
            { r.importance >= min_importance };
        let rows = select(&self.memories, pick, Ghost(p));
        let ghost before = |a: MemoryRowView, b: MemoryRowView| ranks_above(a, b);
        let above = |a: &MemoryRow, b: &MemoryRow| -> (o: bool)
            ensures
                o == before(a@, b@),
            {
                a.importance > b.importance || (a.importance == b.importance && str_less(
                    b.memory.created_at.as_str(),
                    a.memory.created_at.as_str(),
                ))
            };
        let sorted = sort_rows(rows, above, Ghost(before));
        match limit {
            Some(n) => take_memories(first_n(sorted, n)),
            None => take_memories(sorted),
        }
    }

    /// The `limit` most important memories among those of importance 8 or
    /// more.
    pub fn get_high_priority_memories(&self, limit: usize) -> (r: Vec<Memory>)
        ensures
            seq_view(r@) == memories_of(at_most(self@.memories_by_importance(8), limit as nat)),
    {
        self.get_memories_by_importance(8, Some(limit))
    }

    /// Number of memories filed under the topic `topic_id`.
    pub fn count_memories_by_topic_id(&self, topic_id: &TopicId) -> (r: usize)
        ensures
            r == self@.memories.filter(|r: MemoryRowView| r.memory.topic_id == Some(topic_id@)).len(),
    {
        let ghost p = |r: MemoryRowView| r.memory.topic_id == Some(topic_id@);
        let pick = |r: &MemoryRow| -> (o: bool)
            ensures
                o == p(r@),
            {
                match &r.memory.topic_id {
                    Some(t) => *t == *topic_id,
                    None => false,
                }
            };
        let rows = select(&self.memories, pick, Ghost(p));
        rows.len()
    }
}

/// Filtering by a predicate that always holds changes nothing.
pub proof fn lemma_filter_all<T>(s: Seq<T>, p: spec_fn(T) -> bool)
    requires
        forall|x: T| #[trigger] p(x),
    ensures
        s.filter(p) == s,
    decreases s.len(),
{
    reveal(Seq::filter);
    if s.len() > 0 {
        lemma_filter_all(s.drop_last(), p);
        assert(s.drop_last().push(s.last()) =~= s);
    }
}

} // verus!
