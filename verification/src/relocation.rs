//! Moving memories from flat topic texts into the hierarchy: one topic text
//! is placed and its memories are refiled; afterwards the index notes of the
//! topics are written anew.

use crate::clock::now_rfc3339;
use crate::ids::{
    generate_area_id, generate_project_id, generate_topic_id, generate_workspace_id, is_generated,
    AreaId, ProjectId, TopicId, WorkspaceId,
};
use crate::memories::set_topic_id;
use crate::migration::{HierarchySuggestion, HierarchySuggestionView, MigrationStats};
use crate::notes::filed_under;
use crate::organizer::{HierarchyIds, HierarchyIdsView};
use crate::query::{saturated, select};
use crate::schemas::{AreaView, ProjectStatus, ProjectView, TopicView, WorkspaceView};
use crate::store::{
    find_first, lemma_find_some, Database, DatabaseView, MemoryRow, MemoryRowView, StoreError,
};
use crate::text::{begins_with, starts_with, to_chars};
use vstd::prelude::*;

verus! {

/// The four levels under which a topic text was placed.
#[derive(Debug)]
pub struct Placed {
    pub workspace: WorkspaceId,
    pub project: ProjectId,
    pub area: AreaId,
    pub topic: TopicId,
}

/// The value of a [`Placed`].
pub struct PlacedView {
    pub workspace: Seq<char>,
    pub project: Seq<char>,
    pub area: Seq<char>,
    pub topic: Seq<char>,
}

impl View for Placed {
    type V = PlacedView;

    open spec fn view(&self) -> PlacedView {
        PlacedView {
            workspace: self.workspace@,
            project: self.project@,
            area: self.area@,
            topic: self.topic@,
        }
    }
}

/// The store and the outcome after placing a topic text.
pub struct Placement {
    pub db: DatabaseView,
    pub found: Result<PlacedView, StoreError>,
}

/// The memory has the topic text `flat`.
pub open spec fn spoken_of(flat: Seq<char>) -> spec_fn(MemoryRowView) -> bool {
    |r: MemoryRowView| r.memory.topic == flat
}

/// The view of what migrating a topic text returns.
pub open spec fn migrated_view(r: Result<(Placed, usize), StoreError>) -> Result<
    (PlacedView, usize),
    StoreError,
> {
    match r {
        Ok(x) => Ok((x.0@, x.1)),
        Err(e) => Err(e),
    }
}

/// The counters after one more topic text with `memories` memories was
/// placed and `updated` of its memories were refiled. A level counts as
/// created if its identifier carries the level's prefix.
pub open spec fn counted(s: MigrationStats, memories: usize, placed: PlacedView, updated: usize)
    -> MigrationStats {
    MigrationStats {
        total_topics: s.total_topics,
        total_memories: saturated((s.total_memories + memories) as nat) as usize,
        workspaces_created: if starts_with(placed.workspace, "ws_"@) {
            saturated((s.workspaces_created + 1) as nat) as usize
        } else {
            s.workspaces_created
        },
        projects_created: if starts_with(placed.project, "proj_"@) {
            saturated((s.projects_created + 1) as nat) as usize
        } else {
            s.projects_created
        },
        areas_created: if starts_with(placed.area, "area_"@) {
            saturated((s.areas_created + 1) as nat) as usize
        } else {
            s.areas_created
        },
        topics_created: if starts_with(placed.topic, "topic_"@) {
            saturated((s.topics_created + 1) as nat) as usize
        } else {
            s.topics_created
        },
        memories_updated: saturated((s.memories_updated + updated) as nat) as usize,
    }
}

impl DatabaseView {
    /// Placing a topic text: the workspace, project, area and topic that a
    /// suggestion names are looked up or created in turn, each inside the
    /// one before; the first level that fails ends the placing with its
    /// error, the levels before it kept.
    pub open spec fn place(self, s: HierarchySuggestionView, ids: HierarchyIdsView, now: Seq<char>)
        -> Placement {
        let d1 = self.after_get_or_create_workspace(
            WorkspaceView {
                id: ids.workspace,
                name: s.workspace,
                description: None,
                created_at: now,
                updated_at: now,
            },
        );
        match self.workspace_outcome(s.workspace, ids.workspace) {
            Err(e) => Placement { db: d1, found: Err(e) },
            Ok(w) => {
                let d2 = d1.after_get_or_create_project(
                    ProjectView {
                        id: ids.project,
                        workspace_id: w,
                        name: s.project,
                        description: None,
                        status: ProjectStatus::Active,
                        created_at: now,
                        updated_at: now,
                    },
                );
                match d1.project_outcome(w, s.project, ids.project) {
                    Err(e) => Placement { db: d2, found: Err(e) },
                    Ok(p) => {
                        let d3 = d2.after_get_or_create_area(
                            AreaView {
                                id: ids.area,
                                project_id: p,
                                name: s.area,
                                description: None,
                                created_at: now,
                                updated_at: now,
                            },
                        );
                        match d2.area_outcome(p, s.area, ids.area) {
                            Err(e) => Placement { db: d3, found: Err(e) },
                            Ok(a) => {
                                let d4 = d3.after_get_or_create_topic(
                                    TopicView {
                                        id: ids.topic,
                                        area_id: a,
                                        name: s.topic,
                                        description: None,
                                        is_index_note: false,
                                        summary: None,
                                        created_at: now,
                                        updated_at: now,
                                    },
                                );
                                match d3.topic_outcome(a, s.topic, ids.topic) {
                                    Err(e) => Placement { db: d4, found: Err(e) },
                                    Ok(t) => Placement {
                                        db: d4,
                                        found: Ok(
                                            PlacedView { workspace: w, project: p, area: a, topic: t },
                                        ),
                                    },
                                }
                            },
                        }
                    },
                }
            },
        }
    }

    /// The store after the memories of the topic text `flat` were moved to
    /// the place that a suggestion names: the text is placed, and every
    /// memory that carries it is filed under the topic found.
    pub open spec fn after_topic_migration(
        self,
        flat: Seq<char>,
        s: HierarchySuggestionView,
        ids: HierarchyIdsView,
        now: Seq<char>,
    ) -> DatabaseView {
        let p = self.place(s, ids, now);
        match p.found {
            Ok(x) => DatabaseView { memories: set_topic_id(p.db.memories, flat, x.topic), ..p.db },
            Err(e) => p.db,
        }
    }

    /// What moving the memories of the topic text `flat` returns: the place
    /// found and the number of memories that carry the text.
    pub open spec fn migration_outcome(
        self,
        flat: Seq<char>,
        s: HierarchySuggestionView,
        ids: HierarchyIdsView,
        now: Seq<char>,
    ) -> Result<(PlacedView, usize), StoreError> {
        match self.place(s, ids, now).found {
            Ok(x) => Ok((x, self.memories.filter(spoken_of(flat)).len() as usize)),
            Err(e) => Err(e),
        }
    }

    /// The store after the index notes of the topics `entries` were written
    /// anew, one after another, at the given times. An entry names a topic,
    /// its name and the name of its area; a topic without memories gets no
    /// note.
    pub open spec fn notes_refreshed(
        self,
        entries: Seq<(Seq<char>, Seq<char>, Seq<char>)>,
        times: Seq<Seq<char>>,
    ) -> DatabaseView
        decreases entries.len(),
    {
        if entries.len() == 0 || times.len() != entries.len() {
            self
        } else {
            let d = self.notes_refreshed(entries.drop_last(), times.drop_last());
            let e = entries.last();
            let n = d.memories.filter(filed_under(e.0)).len();
            if n > 0 {
                d.after_index_note(e.0, e.1, e.2, n, times.last())
            } else {
                d
            }
        }
    }

    /// Number of the topics `entries` under which a memory is filed.
    pub open spec fn noted(self, entries: Seq<(Seq<char>, Seq<char>, Seq<char>)>) -> nat {
        entries.filter(
            |e: (Seq<char>, Seq<char>, Seq<char>)| self.memories.filter(filed_under(e.0)).len() > 0,
        ).len()
    }
}

/// A topic that was looked up or created is stored afterwards.
pub proof fn lemma_topic_is_stored(before: DatabaseView, row: TopicView, t: Seq<char>)
    requires
        before.topic_outcome(row.area_id, row.name, row.id) == Ok::<Seq<char>, StoreError>(t),
    ensures
        before.after_get_or_create_topic(row).has_topic(t),
{
    let after = before.after_get_or_create_topic(row);
    let stored = |x: TopicView| x.id == t;
    lemma_find_some(before.topics, crate::hierarchy::topic_named(row.area_id, row.name));
    match find_first(before.topics, crate::hierarchy::topic_named(row.area_id, row.name)) {
        Some(i) => {
            assert(after == before);
            assert(stored(before.topics[i]));
        },
        None => {
            assert(t == row.id);
            assert(before.topic_is_new(row.area_id, row.name, row.id));
            let k = before.topics.len() as int;
            assert(after.topics[k] == row);
            assert(stored(after.topics[k]));
        },
    }
}

/// After the memories of a topic text were moved, each of them is filed
/// under the topic found, which is stored; no other memory changed.
pub proof fn migrated_memories_are_filed(
    before: DatabaseView,
    flat: Seq<char>,
    s: HierarchySuggestionView,
    ids: HierarchyIdsView,
    now: Seq<char>,
)
    requires
        before.place(s, ids, now).found is Ok,
    ensures
        ({
            let t = before.place(s, ids, now).found->Ok_0.topic;
            let after = before.after_topic_migration(flat, s, ids, now);
            &&& after.has_topic(t)
            &&& after.memories.len() == before.memories.len()
            &&& forall|i: int|
                0 <= i < before.memories.len() ==> (#[trigger] after.memories[i]) == if (
                before.memories[i]).memory.topic == flat {
                    MemoryRowView {
                        memory: crate::schemas::MemoryView {
                            topic_id: Some(t),
                            ..before.memories[i].memory
                        },
                        ..before.memories[i]
                    }
                } else {
                    before.memories[i]
                }
        }),
{
    let d1 = before.after_get_or_create_workspace(
        WorkspaceView {
            id: ids.workspace,
            name: s.workspace,
            description: None,
            created_at: now,
            updated_at: now,
        },
    );
    let w = before.workspace_outcome(s.workspace, ids.workspace)->Ok_0;
    let d2 = d1.after_get_or_create_project(
        ProjectView {
            id: ids.project,
            workspace_id: w,
            name: s.project,
            description: None,
            status: ProjectStatus::Active,
            created_at: now,
            updated_at: now,
        },
    );
    let p = d1.project_outcome(w, s.project, ids.project)->Ok_0;
    let d3 = d2.after_get_or_create_area(
        AreaView {
            id: ids.area,
            project_id: p,
            name: s.area,
            description: None,
            created_at: now,
            updated_at: now,
        },
    );
    let a = d2.area_outcome(p, s.area, ids.area)->Ok_0;
    let row = TopicView {
        id: ids.topic,
        area_id: a,
        name: s.topic,
        description: None,
        is_index_note: false,
        summary: None,
        created_at: now,
        updated_at: now,
    };
    let t = d3.topic_outcome(a, s.topic, ids.topic)->Ok_0;
    lemma_topic_is_stored(d3, row, t);
    let d4 = d3.after_get_or_create_topic(row);
    assert(before.place(s, ids, now).db == d4);
    assert(d4.memories == before.memories);
    let after = before.after_topic_migration(flat, s, ids, now);
    assert(after.topics == d4.topics);
    let stored = |x: TopicView| x.id == t;
    let k = choose|k: int| 0 <= k < d4.topics.len() && stored(d4.topics[k]);
    assert(stored(after.topics[k]));
}

/// Writing index notes changes no memory.
proof fn lemma_notes_keep_memories(
    db: DatabaseView,
    entries: Seq<(Seq<char>, Seq<char>, Seq<char>)>,
    times: Seq<Seq<char>>,
)
    ensures
        db.notes_refreshed(entries, times).memories == db.memories,
    decreases entries.len(),
{
    if entries.len() > 0 && times.len() == entries.len() {
        lemma_notes_keep_memories(db, entries.drop_last(), times.drop_last());
    }
}

impl MigrationStats {
    /// Counts one more topic text with `memories` memories that was placed
    /// and had `updated` of its memories refiled.
    pub fn record(&mut self, memories: usize, placed: &Placed, updated: usize)
        ensures
            *final(self) == counted(*old(self), memories, placed@, updated),
    {
        self.total_memories = self.total_memories.saturating_add(memories);
        if begins_with(&to_chars(placed.workspace.0.as_str()), "ws_") {
            self.workspaces_created = self.workspaces_created.saturating_add(1);
        }
        if begins_with(&to_chars(placed.project.0.as_str()), "proj_") {
            self.projects_created = self.projects_created.saturating_add(1);
        }
        if begins_with(&to_chars(placed.area.0.as_str()), "area_") {
            self.areas_created = self.areas_created.saturating_add(1);
        }
        if begins_with(&to_chars(placed.topic.0.as_str()), "topic_") {
            self.topics_created = self.topics_created.saturating_add(1);
        }
        self.memories_updated = self.memories_updated.saturating_add(updated);
    }
}

impl Database {
    /// Moves the memories of the topic text `flat_topic` to the place that
    /// `suggestion` names, creating missing levels under the identifiers
    /// `ids`, stamped `now`. Returns the place and the number of memories
    /// moved.
    pub fn migrate_topic_with(
        &mut self,
        flat_topic: &str,
        suggestion: &HierarchySuggestion,
        ids: HierarchyIds,
        now: &str,
    ) -> (r: Result<(Placed, usize), StoreError>)
        requires
            old(self)@.wf(),
        ensures
            final(self)@.wf(),
            final(self)@ == old(self)@.after_topic_migration(flat_topic@, suggestion@, ids@, now@),
            migrated_view(r) == old(self)@.migration_outcome(flat_topic@, suggestion@, ids@, now@),
    {
        let ghost before = self@;
        let workspace = match self.get_or_create_workspace_with(
            suggestion.workspace.as_str(),
            None,
            ids.workspace,
            now,
        ) {
            Ok(w) => w,
            Err(e) => {
                return Err(e);
            },
        };
        let project = match self.get_or_create_project_with(
            &workspace,
            suggestion.project.as_str(),
            None,
            ProjectStatus::Active,
            ids.project,
            now,
        ) {
            Ok(p) => p,
            Err(e) => {
                return Err(e);
            },
        };
        let area = match self.get_or_create_area_with(
            &project,
            suggestion.area.as_str(),
            None,
            ids.area,
            now,
        ) {
            Ok(a) => a,
            Err(e) => {
                return Err(e);
            },
        };
        let ghost d3 = self@;
        let ghost row = TopicView {
            id: ids.topic@,
            area_id: area@,
            name: suggestion@.topic,
            description: None,
            is_index_note: false,
            summary: None,
            created_at: now@,
            updated_at: now@,
        };
        let topic = match self.get_or_create_topic_with(
            &area,
            suggestion.topic.as_str(),
            None,
            false,
            ids.topic,
            now,
        ) {
            Ok(t) => t,
            Err(e) => {
                return Err(e);
            },
        };
        proof {
            lemma_topic_is_stored(d3, row, topic@);
            assert(self@.memories == before.memories);
        }
        let ghost placed = self@;
        match self.update_memories_topic(flat_topic, &topic) {
            Ok(n) => {
                assert(placed.memories.filter(|r: MemoryRowView| r.memory.topic == flat_topic@)
                    == before.memories.filter(spoken_of(flat_topic@))) by {
                    let p = |r: MemoryRowView| r.memory.topic == flat_topic@;
                    assert(p =~= spoken_of(flat_topic@));
                }
                Ok((Placed { workspace, project, area, topic }, n))
            },
            Err(e) => Err(e),
        }
    }

    /// Moves the memories of the topic text `flat_topic` to the place that
    /// `suggestion` names, creating missing levels under fresh identifiers,
    /// stamped with the current time.
    pub fn migrate_topic(&mut self, flat_topic: &str, suggestion: &HierarchySuggestion) -> (r:
        Result<(Placed, usize), StoreError>)
        requires
            old(self)@.wf(),
        ensures
            final(self)@.wf(),
            exists|ids: HierarchyIdsView, now: Seq<char>|
                {
                    &&& is_generated(ids.workspace, "ws_"@)
                    &&& is_generated(ids.project, "proj_"@)
                    &&& is_generated(ids.area, "area_"@)
                    &&& is_generated(ids.topic, "topic_"@)
                    &&& final(self)@ == #[trigger] old(self)@.after_topic_migration(
                        flat_topic@,
                        suggestion@,
                        ids,
                        now,
                    )
                    &&& migrated_view(r) == old(self)@.migration_outcome(
                        flat_topic@,
                        suggestion@,
                        ids,
                        now,
                    )
                },
    {
        let ids = HierarchyIds {
            workspace: generate_workspace_id(),
            project: generate_project_id(),
            area: generate_area_id(),
            topic: generate_topic_id(),
        };
        let now = now_rfc3339();
        let ghost idv = ids@;
        let ghost nowv = now@;
        let r = self.migrate_topic_with(flat_topic, suggestion, ids, now.as_str());
        assert(self@ == old(self)@.after_topic_migration(flat_topic@, suggestion@, idv, nowv));
        r
    }

    /// Writes the index note of every topic under which a memory is filed
    /// anew, the topics taken by name. Returns how many notes were written.
    pub fn refresh_index_notes(&mut self) -> (r: usize)
        requires
            old(self)@.wf(),
        ensures
            final(self)@.wf(),
            exists|entries: Seq<(Seq<char>, Seq<char>, Seq<char>)>, times: Seq<Seq<char>>|
                {
                    &&& entries.len() == old(self)@.topics_by_name().len()
                    &&& times.len() == entries.len()
                    &&& forall|i: int|
                        0 <= i < entries.len() ==> {
                            let t = old(self)@.topics_by_name()[i];
                            &&& (#[trigger] entries[i]).0 == t.id
                            &&& entries[i].1 == t.name
                            &&& entries[i].2 == match old(self)@.area_name(t.area_id) {
                                Some(n) => n,
                                None => Seq::empty(),
                            }
                        }
                    &&& final(self)@ == #[trigger] old(self)@.notes_refreshed(entries, times)
                    &&& r == old(self)@.noted(entries)
                },
    {
        let ghost before = self@;
        let listing = self.get_all_topics();
        let ghost entries = Seq::new(
            listing.len() as nat,
            |i: int| (listing@[i].0@, listing@[i].1@, listing@[i].2@),
        );
        let ghost counts = |e: (Seq<char>, Seq<char>, Seq<char>)|
            before.memories.filter(filed_under(e.0)).len() > 0;
        let ghost mut times: Seq<Seq<char>> = Seq::empty();
        let mut written: usize = 0;
        let mut i: usize = 0;
        proof {
            reveal(Seq::filter);
            assert(entries.take(0) =~= Seq::<(Seq<char>, Seq<char>, Seq<char>)>::empty());
            assert(entries.take(0).filter(counts).len() == 0);
        }
        while i < listing.len()
            invariant
                i <= listing.len(),
                entries.len() == listing.len(),
                forall|j: int|
                    0 <= j < listing.len() ==> (#[trigger] entries[j]) == (
                        listing@[j].0@,
                        listing@[j].1@,
                        listing@[j].2@,
                    ),
                counts == (|e: (Seq<char>, Seq<char>, Seq<char>)|
                    before.memories.filter(filed_under(e.0)).len() > 0),
                self@.wf(),
                times.len() == i,
                self@ == before.notes_refreshed(entries.take(i as int), times),
                written == entries.take(i as int).filter(counts).len(),
                written <= i,
            decreases listing.len() - i,
        {
            let ghost here = self@;
            let entry = &listing[i];
            let ghost p = filed_under(entry.0@);
            let pick = |r: &MemoryRow| -> (o: bool)
                ensures
                    o == p(r@),
                {
                    match &r.memory.topic_id {
                        Some(t) => *t == entry.0,
                        None => false,
                    }
                };
            let n = select(&self.memories, pick, Ghost(p)).len();
            let now = now_rfc3339();
            proof {
                lemma_notes_keep_memories(before, entries.take(i as int), times);
                assert(n == here.memories.filter(filed_under(entries[i as int].0)).len());
                assert(entries.take(i + 1).drop_last() =~= entries.take(i as int));
                assert(entries.take(i + 1).last() == entries[i as int]);
                assert(entries.take(i + 1) =~= entries.take(i as int).push(entries[i as int]));
                crate::query::lemma_filter_push(entries.take(i as int), entries[i as int], counts);
                assert(times.push(now@).drop_last() =~= times);
                assert(times.push(now@).last() == now@);
            }
            if n > 0 {
                let _ = self.generate_or_update_index_note_at(
                    &entry.0,
                    entry.1.as_str(),
                    entry.2.as_str(),
                    n,
                    now.as_str(),
                );
                written += 1;
            }
            proof {
                times = times.push(now@);
            }
            i += 1;
        }
        proof {
            assert(entries.take(listing.len() as int) =~= entries);
        }
        written
    }
}

} // verus!
