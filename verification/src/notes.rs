//! Index notes: hub records that summarise a scope and list the key
//! memories within it.

use crate::clock::now_rfc3339;
use crate::dup::{seq_view, Dup};
use crate::hierarchy::topic_is;
use crate::ids::TopicId;
use crate::memories::{newest_first, str_less};
use crate::order::lex_less;
use crate::pieces::{decimal, push_decimal};
use crate::query::{at_most, first_n, select, sort_rows};
use crate::schemas::TopicView;
use crate::sorting::stable_sort;
use crate::store::{
    any, distinct_keys, find_first, lemma_find_first, lemma_find_none, lemma_find_some, Database,
    DatabaseView, IndexNote, IndexNoteView, MemoryRow, MemoryRowView, StoreError,
};
use crate::text::{append_str, from_chars};
use vstd::prelude::*;

verus! {

/// How many of a topic's memories an index note lists.
pub const KEY_MEMORIES: usize = 5;

/// The text of the index note of a topic with `count` memories.
pub open spec fn index_note_text(topic_name: Seq<char>, area_name: Seq<char>, count: nat) -> Seq<
    char,
> {
    "Index note for '"@ + topic_name + "' in area '"@ + area_name + "'. Contains "@ + decimal(count)
        + " memories."@
}

/// The identifier of the index note of a topic.
pub open spec fn note_id(topic_id: Seq<char>) -> Seq<char> {
    "idx_"@ + topic_id
}

/// The note has the identifier `id`.
pub open spec fn note_is(id: Seq<char>) -> spec_fn(IndexNoteView) -> bool {
    |n: IndexNoteView| n.id == id
}

/// The note is pinned to the scope `scope_id` of the kind `scope_type`.
pub open spec fn note_scoped(scope_type: Seq<char>, scope_id: Seq<char>) -> spec_fn(
    IndexNoteView,
) -> bool {
    |n: IndexNoteView| n.scope_type == scope_type && n.scope_id == scope_id
}

/// The memory is filed under the topic `id`.
pub open spec fn filed_under(id: Seq<char>) -> spec_fn(MemoryRowView) -> bool {
    |r: MemoryRowView| r.memory.topic_id == Some(id)
}

/// `a` was updated after `b`.
pub open spec fn updated_later(a: IndexNoteView, b: IndexNoteView) -> bool {
    lex_less(b.last_updated, a.last_updated)
}

/// The topics with the topic `id` marked as an index note.
pub open spec fn marked(topics: Seq<TopicView>, id: Seq<char>, summary: Seq<char>, now: Seq<char>)
    -> Seq<TopicView> {
    match find_first(topics, topic_is(id)) {
        Some(i) => topics.update(
            i,
            TopicView { is_index_note: true, summary: Some(summary), updated_at: now, ..topics[i] },
        ),
        None => topics,
    }
}

/// The notes with the note `id` rewritten by `change`.
pub open spec fn rewritten(
    notes: Seq<IndexNoteView>,
    id: Seq<char>,
    change: spec_fn(IndexNoteView) -> IndexNoteView,
) -> Seq<IndexNoteView> {
    match find_first(notes, note_is(id)) {
        Some(i) => notes.update(i, change(notes[i])),
        None => notes,
    }
}

/// The change that gives a note new text at the time `now`.
pub open spec fn with_content(content: Seq<char>, now: Seq<char>) -> spec_fn(
    IndexNoteView,
) -> IndexNoteView {
    |n: IndexNoteView| IndexNoteView { content, last_updated: now, ..n }
}

/// The change that gives a note new tags at the time `now`.
pub open spec fn with_tags(tags: Seq<Seq<char>>, now: Seq<char>) -> spec_fn(
    IndexNoteView,
) -> IndexNoteView {
    |n: IndexNoteView| IndexNoteView { tags, last_updated: now, ..n }
}

/// The change that refreshes a note's text, count and key memories at the
/// time `now`.
pub open spec fn refreshed(text: Seq<char>, count: nat, keys: Seq<Seq<char>>, now: Seq<char>)
    -> spec_fn(IndexNoteView) -> IndexNoteView {
    |n: IndexNoteView|
        IndexNoteView {
            content: text,
            memory_count: count as i64,
            key_memories: keys,
            last_updated: now,
            ..n
        }
}

impl DatabaseView {
    /// The identifiers of the newest memories filed under a topic, at most
    /// [`KEY_MEMORIES`] of them.
    pub open spec fn key_memories(self, topic_id: Seq<char>) -> Seq<Seq<char>> {
        at_most(
            newest_first(self.memories.filter(filed_under(topic_id))),
            KEY_MEMORIES as nat,
        ).map_values(|r: MemoryRowView| r.memory.id)
    }

    /// The index notes after that of a topic was written at the time `now`:
    /// a stored note gets new content, count, key memories and time of
    /// update; else a new note is added.
    pub open spec fn notes_after(
        self,
        topic_id: Seq<char>,
        topic_name: Seq<char>,
        area_name: Seq<char>,
        count: nat,
        now: Seq<char>,
    ) -> Seq<IndexNoteView> {
        let text = index_note_text(topic_name, area_name, count);
        let keys = self.key_memories(topic_id);
        if any(self.index_notes, note_is(note_id(topic_id))) {
            rewritten(
                self.index_notes,
                note_id(topic_id),
                refreshed(text, count, keys, now),
            )
        } else {
            self.index_notes.push(
                IndexNoteView {
                    id: note_id(topic_id),
                    scope_type: "topic"@,
                    scope_id: topic_id,
                    name: topic_name,
                    content: text,
                    memory_count: count as i64,
                    key_memories: keys,
                    tags: Seq::empty(),
                    created_at: now,
                    last_updated: now,
                },
            )
        }
    }

    /// The store after the index note of a topic was written.
    pub open spec fn after_index_note(
        self,
        topic_id: Seq<char>,
        topic_name: Seq<char>,
        area_name: Seq<char>,
        count: nat,
        now: Seq<char>,
    ) -> DatabaseView {
        DatabaseView {
            topics: marked(
                self.topics,
                topic_id,
                index_note_text(topic_name, area_name, count),
                now,
            ),
            index_notes: self.notes_after(topic_id, topic_name, area_name, count, now),
            ..self
        }
    }

    /// The first index note pinned to a scope.
    pub open spec fn index_note(self, scope_type: Seq<char>, scope_id: Seq<char>) -> Option<
        IndexNoteView,
    > {
        match find_first(self.index_notes, note_scoped(scope_type, scope_id)) {
            Some(i) => Some(self.index_notes[i]),
            None => None,
        }
    }

    /// The index notes, the one updated last first.
    pub open spec fn notes_latest_first(self) -> Seq<IndexNoteView> {
        stable_sort(self.index_notes, |a: IndexNoteView, b: IndexNoteView| updated_later(a, b))
    }
}

/// A store stays well formed when topics keep identifier, area and name,
/// and index notes keep distinct identifiers.
pub proof fn lemma_wf_after_notes(old: DatabaseView, new: DatabaseView)
    requires
        old.wf(),
        new == (DatabaseView { topics: new.topics, index_notes: new.index_notes, ..old }),
        new.topics.len() == old.topics.len(),
        forall|i: int|
            0 <= i < old.topics.len() ==> (#[trigger] new.topics[i]).id == old.topics[i].id
                && new.topics[i].area_id == old.topics[i].area_id && new.topics[i].name
                == old.topics[i].name,
        distinct_keys(new.index_notes, |r: IndexNoteView| r.id),
    ensures
        new.wf(),
{
    assert(new.ids_unique()) by {
        assert forall|i: int, j: int| 0 <= i < j < new.topics.len() implies new.topics[i].id
            != new.topics[j].id by {
            assert(old.topics[i].id != old.topics[j].id);
        }
    }
    assert(new.names_unique()) by {
        assert forall|i: int, j: int| 0 <= i < j < new.topics.len() implies (
            new.topics[i].area_id,
            new.topics[i].name,
        ) != (new.topics[j].area_id, new.topics[j].name) by {
            let key = |r: TopicView| (r.area_id, r.name);
            assert(key(old.topics[i]) != key(old.topics[j]));
        }
    }
    assert(new.hierarchy_linked()) by {
        assert forall|i: int| 0 <= i < new.topics.len() implies any(
            new.areas,
            |a: crate::schemas::AreaView| a.id == (#[trigger] new.topics[i]).area_id,
        ) by {
            let p = |a: crate::schemas::AreaView| a.id == old.topics[i].area_id;
            assert(any(old.areas, p));
            let k = choose|k: int| 0 <= k < old.areas.len() && p(old.areas[k]);
            let q = |a: crate::schemas::AreaView| a.id == new.topics[i].area_id;
            assert(q(new.areas[k]));
        }
    }
    assert forall|t: Seq<char>| old.has_topic(t) implies new.has_topic(t) by {
        let p = |r: TopicView| r.id == t;
        let k = choose|k: int| 0 <= k < old.topics.len() && p(old.topics[k]);
        assert(p(new.topics[k]));
    }
    assert(new.references_hold()) by {
        assert forall|i: int| 0 <= i < new.memories.len() implies match (
        #[trigger] new.memories[i]).memory.topic_id {
            Some(t) => new.has_topic(t),
            None => true,
        } by {
            match old.memories[i].memory.topic_id {
                Some(t) => {
                    assert(old.has_topic(t));
                },
                None => {},
            }
        }
    }
}

/// Rewriting one note in place keeps the identifiers distinct if the note
/// keeps its own.
pub proof fn lemma_rewritten_distinct(
    notes: Seq<IndexNoteView>,
    id: Seq<char>,
    change: spec_fn(IndexNoteView) -> IndexNoteView,
)
    requires
        distinct_keys(notes, |r: IndexNoteView| r.id),
        forall|n: IndexNoteView| (#[trigger] change(n)).id == n.id,
    ensures
        distinct_keys(rewritten(notes, id, change), |r: IndexNoteView| r.id),
        rewritten(notes, id, change).len() == notes.len(),
{
    lemma_find_some(notes, note_is(id));
    let after = rewritten(notes, id, change);
    assert forall|i: int, j: int| 0 <= i < j < after.len() implies after[i].id != after[j].id by {
        assert(after[i].id == notes[i].id);
        assert(after[j].id == notes[j].id);
        let key = |r: IndexNoteView| r.id;
        assert(key(notes[i]) != key(notes[j]));
    }
}

/// Writing the index note of a topic keeps the store well formed.
pub proof fn index_note_keeps_wf(
    before: DatabaseView,
    topic_id: Seq<char>,
    topic_name: Seq<char>,
    area_name: Seq<char>,
    count: nat,
    now: Seq<char>,
)
    requires
        before.wf(),
    ensures
        before.after_index_note(topic_id, topic_name, area_name, count, now).wf(),
{
    let after = before.after_index_note(topic_id, topic_name, area_name, count, now);
    lemma_find_some(before.topics, topic_is(topic_id));
    let text = index_note_text(topic_name, area_name, count);
    let keys = before.key_memories(topic_id);
    let id = note_id(topic_id);
    if any(before.index_notes, note_is(id)) {
        let change = refreshed(text, count, keys, now);
        lemma_rewritten_distinct(before.index_notes, id, change);
    } else {
        assert forall|i: int, j: int| 0 <= i < j < after.index_notes.len() implies (
        after.index_notes[i]).id != after.index_notes[j].id by {
            let key = |r: IndexNoteView| r.id;
            if j == before.index_notes.len() {
                assert(!note_is(id)(before.index_notes[i]));
            } else {
                assert(key(before.index_notes[i]) != key(before.index_notes[j]));
            }
        }
    }
    lemma_wf_after_notes(before, after);
}

/// The text of the index note of a topic with `count` memories.
pub fn index_note_summary(topic_name: &str, area_name: &str, count: usize) -> (r: String)
    ensures
        r@ == index_note_text(topic_name@, area_name@, count as nat),
{
    let mut out: Vec<char> = Vec::new();
    append_str(&mut out, "Index note for '");
    append_str(&mut out, topic_name);
    append_str(&mut out, "' in area '");
    append_str(&mut out, area_name);
    append_str(&mut out, "'. Contains ");
    push_decimal(&mut out, count as u64);
    append_str(&mut out, " memories.");
    assert(out@ =~= index_note_text(topic_name@, area_name@, count as nat));
    from_chars(&out)
}

impl Database {
    /// Index of the first index note with the identifier `id`.
    pub(crate) fn note_index(&self, id: &str) -> (r: Option<usize>)
        ensures
            match r {
                Some(i) => i < self.index_notes.len() && find_first(
                    self@.index_notes,
                    note_is(id@),
                ) == Some(i as int),
                None => !any(self@.index_notes, note_is(id@)),
            },
    {
        let ghost rows = self@.index_notes;
        let wanted = id.to_owned();
        let mut i: usize = 0;
        while i < self.index_notes.len()
            invariant
                i <= self.index_notes.len(),
                rows == self@.index_notes,
                wanted@ == id@,
                forall|j: int| 0 <= j < i ==> !note_is(id@)(rows[j]),
            decreases self.index_notes.len() - i,
        {
            assert(rows[i as int] == self.index_notes@[i as int]@);
            if self.index_notes[i].id == wanted {
                proof {
                    lemma_find_first(rows, note_is(id@), i as int);
                }
                return Some(i);
            }
            i += 1;
        }
        proof {
            lemma_find_none(rows, note_is(id@));
        }
        None
    }

    /// The identifiers of the newest memories filed under a topic, at most
    /// [`KEY_MEMORIES`] of them.
    pub fn key_memories_of(&self, topic_id: &TopicId) -> (r: Vec<String>)
        ensures
            seq_view(r@) == self@.key_memories(topic_id@),
    {
        let ghost p = filed_under(topic_id@);
        let pick = |r: &MemoryRow| -> (o: bool)
            ensures
                o == p(r@),
            {
                match &r.memory.topic_id {
                    Some(t) => *t == *topic_id,
                    None => false,
                }
            };
        let rows = select(&self.memories, pick, Ghost(p));
        let ghost before = |a: MemoryRowView, b: MemoryRowView| crate::memories::newer(a, b);
        let later = |a: &MemoryRow, b: &MemoryRow| -> (o: bool)
            ensures
                o == before(a@, b@),
            { str_less(b.memory.created_at.as_str(), a.memory.created_at.as_str()) };
        let top = first_n(sort_rows(rows, later, Ghost(before)), KEY_MEMORIES);
        let ghost tv = seq_view(top@);
        let mut out: Vec<String> = Vec::new();
        let mut i: usize = 0;
        while i < top.len()
            invariant
                i <= top.len(),
                tv == seq_view(top@),
                out.len() == i,
                forall|j: int| 0 <= j < i ==> (#[trigger] out@[j])@ == tv[j].memory.id,
            decreases top.len() - i,
        {
            assert(tv[i as int] == top@[i as int]@);
            out.push(top[i].memory.id.as_string());
            i += 1;
        }
        assert(seq_view(out@) =~= tv.map_values(|r: MemoryRowView| r.memory.id));
        out
    }

    /// Writes the index note of a topic at the time `now`: marks the topic
    /// as an index note with the note's text as its summary, and stores the
    /// note under the identifier `idx_` plus the topic's identifier, with
    /// the topic's newest memories as key memories.
    pub fn generate_or_update_index_note_at(
        &mut self,
        topic_id: &TopicId,
        topic_name: &str,
        area_name: &str,
        memory_count: usize,
        now: &str,
    ) -> (r: Result<(), StoreError>)
        requires
            old(self)@.wf(),
        ensures
            r is Ok,
            final(self)@.wf(),
            final(self)@ == old(self)@.after_index_note(
                topic_id@,
                topic_name@,
                area_name@,
                memory_count as nat,
                now@,
            ),
    {
        let ghost before = self@;
        let summary = index_note_summary(topic_name, area_name, memory_count);
        let keys = self.key_memories_of(topic_id);
        proof {
            lemma_find_some(before.topics, topic_is(topic_id@));
            lemma_find_some(before.index_notes, note_is(note_id(topic_id@)));
        }
        match self.topic_id_index(topic_id) {
            Some(i) => {
                assert(before.topics[i as int] == self.topics@[i as int]@);
                let mut t = self.topics[i].dup();
                t.is_index_note = true;
                t.summary = Some(summary.dup());
                t.updated_at = now.to_owned();
                let ghost tv = t@;
                self.topics.set(i, t);
                assert(seq_view(self.topics@) =~= before.topics.update(i as int, tv));
            },
            None => {},
        }
        assert(self@.topics == marked(before.topics, topic_id@, summary@, now@));
        let mut id: Vec<char> = Vec::new();
        append_str(&mut id, "idx_");
        append_str(&mut id, topic_id.0.as_str());
        let id = from_chars(&id);
        assert(id@ =~= note_id(topic_id@));
        match self.note_index(id.as_str()) {
            Some(i) => {
                assert(before.index_notes[i as int] == self.index_notes@[i as int]@);
                let mut n = self.index_notes[i].dup();
                n.content = summary;
                n.memory_count = memory_count as i64;
                n.key_memories = keys;
                n.last_updated = now.to_owned();
                let ghost nv = n@;
                self.index_notes.set(i, n);
                assert(seq_view(self.index_notes@) =~= before.index_notes.update(i as int, nv));
            },
            None => {
                let n = IndexNote {
                    id,
                    scope_type: "topic".to_owned(),
                    scope_id: topic_id.as_string(),
                    name: topic_name.to_owned(),
                    content: summary,
                    memory_count: memory_count as i64,
                    key_memories: keys,
                    tags: Vec::new(),
                    created_at: now.to_owned(),
                    last_updated: now.to_owned(),
                };
                let ghost nv = n@;
                assert(nv.tags =~= Seq::empty());
                self.index_notes.push(n);
                assert(seq_view(self.index_notes@) =~= before.index_notes.push(nv));
            },
        }
        proof {
            assert(self@.index_notes == before.notes_after(
                topic_id@,
                topic_name@,
                area_name@,
                memory_count as nat,
                now@,
            ));
            assert(self@ == before.after_index_note(
                topic_id@,
                topic_name@,
                area_name@,
                memory_count as nat,
                now@,
            ));
            index_note_keeps_wf(
                before,
                topic_id@,
                topic_name@,
                area_name@,
                memory_count as nat,
                now@,
            );
        }
        Ok(())
    }

    /// Writes the index note of a topic at the present time.
    pub fn generate_or_update_index_note(
        &mut self,
        topic_id: &TopicId,
        topic_name: &str,
        area_name: &str,
        memory_count: usize,
    ) -> (r: Result<(), StoreError>)
        requires
            old(self)@.wf(),
        ensures
            r is Ok,
            final(self)@.wf(),
            exists|now: Seq<char>|
                final(self)@ == #[trigger] old(self)@.after_index_note(
                    topic_id@,
                    topic_name@,
                    area_name@,
                    memory_count as nat,
                    now,
                ),
    {
        let now = now_rfc3339();
        self.generate_or_update_index_note_at(
            topic_id,
            topic_name,
            area_name,
            memory_count,
            now.as_str(),
        )
    }

    /// The first index note pinned to a scope.
    pub fn get_index_note(&self, scope_type: &str, scope_id: &str) -> (r: Option<IndexNote>)
        ensures
            crate::dup::opt_view(r) == self@.index_note(scope_type@, scope_id@),
    {
        let ghost rows = self@.index_notes;
        let ghost p = note_scoped(scope_type@, scope_id@);
        let kind = scope_type.to_owned();
        let scope = scope_id.to_owned();
        let mut i: usize = 0;
        while i < self.index_notes.len()
            invariant
                i <= self.index_notes.len(),
                rows == self@.index_notes,
                kind@ == scope_type@,
                scope@ == scope_id@,
                p == note_scoped(scope_type@, scope_id@),
                forall|j: int| 0 <= j < i ==> !p(rows[j]),
            decreases self.index_notes.len() - i,
        {
            assert(rows[i as int] == self.index_notes@[i as int]@);
            let n = &self.index_notes[i];
            if n.scope_type == kind && n.scope_id == scope {
                proof {
                    lemma_find_first(rows, p, i as int);
                }
                return Some(n.dup());
            }
            i += 1;
        }
        proof {
            lemma_find_none(rows, p);
        }
        None
    }

    /// The index notes, the one updated last first.
    pub fn get_all_index_notes(&self) -> (r: Vec<IndexNote>)
        ensures
            seq_view(r@) == self@.notes_latest_first(),
    {
        let ghost p = |n: IndexNoteView| true;
        let all = |n: &IndexNote| -> (o: bool)
            ensures
                o == p(n@),
            { true };
        let rows = select(&self.index_notes, all, Ghost(p));
        proof {
            crate::memories::lemma_filter_all(self@.index_notes, p);
        }
        let ghost before = |a: IndexNoteView, b: IndexNoteView| updated_later(a, b);
        let later = |a: &IndexNote, b: &IndexNote| -> (o: bool)
            ensures
                o == before(a@, b@),
            { str_less(b.last_updated.as_str(), a.last_updated.as_str()) };
        sort_rows(rows, later, Ghost(before))
    }

    /// Replaces the text of an index note at the time `now`. An unknown
    /// identifier changes nothing.
    pub fn update_index_note_content_at(&mut self, index_note_id: &str, new_content: &str, now: &str)
        requires
            old(self)@.wf(),
        ensures
            final(self)@.wf(),
            final(self)@ == (DatabaseView {
                index_notes: rewritten(
                    old(self)@.index_notes,
                    index_note_id@,
                    with_content(new_content@, now@)
                ),
                ..old(self)@
            }),
    {
        let ghost before = self@;
        let ghost change = with_content(new_content@, now@);
        proof {
            lemma_find_some(before.index_notes, note_is(index_note_id@));
        }
        match self.note_index(index_note_id) {
            Some(i) => {
                assert(before.index_notes[i as int] == self.index_notes@[i as int]@);
                let mut n = self.index_notes[i].dup();
                n.content = new_content.to_owned();
                n.last_updated = now.to_owned();
                let ghost nv = n@;
                self.index_notes.set(i, n);
                assert(nv == change(before.index_notes[i as int]));
                assert(seq_view(self.index_notes@) =~= before.index_notes.update(i as int, nv));
            },
            None => {},
        }
        proof {
            assert(self@.index_notes == rewritten(before.index_notes, index_note_id@, change));
            lemma_rewritten_distinct(before.index_notes, index_note_id@, change);
            assert(self@.topics =~= before.topics);
            lemma_wf_after_notes(before, self@);
        }
    }

    /// Replaces the text of an index note at the present time.
    pub fn update_index_note_content(&mut self, index_note_id: &str, new_content: &str) -> (r:
        Result<(), StoreError>)
        requires
            old(self)@.wf(),
        ensures
            r is Ok,
            final(self)@.wf(),
            exists|now: Seq<char>|
                final(self)@ == (DatabaseView {
                    index_notes: rewritten(
                        old(self)@.index_notes,
                        index_note_id@,
                        #[trigger] with_content(new_content@, now)
                    ),
                    ..old(self)@
                }),
    {
        let now = now_rfc3339();
        self.update_index_note_content_at(index_note_id, new_content, now.as_str());
        Ok(())
    }

    /// Sets the tags of an index note at the time `now`. An unknown
    /// identifier changes nothing.
    pub fn add_index_note_tags_at(&mut self, index_note_id: &str, tags: Vec<String>, now: &str)
        requires
            old(self)@.wf(),
        ensures
            final(self)@.wf(),
            final(self)@ == (DatabaseView {
                index_notes: rewritten(
                    old(self)@.index_notes,
                    index_note_id@,
                    with_tags(seq_view(tags@), now@)
                ),
                ..old(self)@
            }),
    {
        let ghost before = self@;
        let ghost change = with_tags(seq_view(tags@), now@);
        proof {
            lemma_find_some(before.index_notes, note_is(index_note_id@));
        }
        match self.note_index(index_note_id) {
            Some(i) => {
                assert(before.index_notes[i as int] == self.index_notes@[i as int]@);
                let mut n = self.index_notes[i].dup();
                n.tags = tags;
                n.last_updated = now.to_owned();
                let ghost nv = n@;
                self.index_notes.set(i, n);
                assert(nv == change(before.index_notes[i as int]));
                assert(seq_view(self.index_notes@) =~= before.index_notes.update(i as int, nv));
            },
            None => {},
        }
        proof {
            assert(self@.index_notes == rewritten(before.index_notes, index_note_id@, change));
            lemma_rewritten_distinct(before.index_notes, index_note_id@, change);
            assert(self@.topics =~= before.topics);
            lemma_wf_after_notes(before, self@);
        }
    }

    /// Sets the tags of an index note at the present time.
    pub fn add_index_note_tags(&mut self, index_note_id: &str, tags: Vec<String>) -> (r: Result<
        (),
        StoreError,
    >)
        requires
            old(self)@.wf(),
        ensures
            r is Ok,
            final(self)@.wf(),
            exists|now: Seq<char>|
                final(self)@ == (DatabaseView {
                    index_notes: rewritten(
                        old(self)@.index_notes,
                        index_note_id@,
                        #[trigger] with_tags(seq_view(tags@), now)
                    ),
                    ..old(self)@
                }),
    {
        let now = now_rfc3339();
        self.add_index_note_tags_at(index_note_id, tags, now.as_str());
        Ok(())
    }
}

} // verus!
