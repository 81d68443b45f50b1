//! The storage engine's state: one table per entity, held as plain rows, with
//! the invariants that every operation keeps.

use crate::dup::{dup_opt, opt_view, seq_view, Dup};
use crate::ids::{MemoryId, TurnId};
use crate::schemas::{
    AgenticMemory, AgenticMemoryView, Area, AreaView, Memory, MemoryRelation, MemoryRelationView,
    MemoryStatus, MemoryVersion, MemoryVersionView, MemoryView, Project, ProjectView, RelationType,
    Topic, TopicView, Turn, TurnView, Workspace, WorkspaceView,
};
use vstd::prelude::*;

verus! {

/// Why an operation of the engine did not succeed.
#[derive(Debug, Clone, Copy, PartialEq, Eq, Structural)]
pub enum StoreError {
    /// A parameter is malformed, empty or out of range.
    BadRequest,
    /// The entity asked for does not exist.
    NotFound,
    /// An identifier or a unique key is already taken.
    Conflict,
    /// A row refers to a parent that does not exist.
    ForeignKeyMissing,
    /// A search query is not well formed.
    BadQuery,
    /// A remote collaborator failed.
    Upstream,
    /// The engine itself failed.
    Internal,
}

/// Importance given to a memory that nothing has rated yet.
pub const DEFAULT_IMPORTANCE: u8 = 5;

/// Largest importance.
pub const MAX_IMPORTANCE: u8 = 10;

/// A turn as stored, with the time of storing.
#[derive(Debug)]
pub struct TurnRow {
    pub turn: Turn,
    pub created_at: String,
}

/// The value of a [`TurnRow`].
pub struct TurnRowView {
    pub turn: TurnView,
    pub created_at: Seq<char>,
}

impl View for TurnRow {
    type V = TurnRowView;

    open spec fn view(&self) -> TurnRowView {
        TurnRowView { turn: self.turn@, created_at: self.created_at@ }
    }
}

/// A memory as stored, with the columns that the engine maintains.
#[derive(Debug)]
pub struct MemoryRow {
    pub memory: Memory,
    pub importance: u8,
    pub status: MemoryStatus,
    pub version: u32,
    pub superseded_by: Option<MemoryId>,
}

/// The value of a [`MemoryRow`].
pub struct MemoryRowView {
    pub memory: MemoryView,
    pub importance: u8,
    pub status: MemoryStatus,
    pub version: u32,
    pub superseded_by: Option<Seq<char>>,
}

impl View for MemoryRow {
    type V = MemoryRowView;

    open spec fn view(&self) -> MemoryRowView {
        MemoryRowView {
            memory: self.memory@,
            importance: self.importance,
            status: self.status,
            version: self.version,
            superseded_by: opt_view(self.superseded_by),
        }
    }
}

impl Dup for MemoryRow {
    fn dup(&self) -> (r: Self) {
        MemoryRow {
            memory: self.memory.dup(),
            importance: self.importance,
            status: self.status,
            version: self.version,
            superseded_by: dup_opt(&self.superseded_by),
        }
    }
}

/// A hub note pinned to a scope.
#[derive(Debug)]
pub struct IndexNote {
    pub id: String,
    pub scope_type: String,
    pub scope_id: String,
    pub name: String,
    pub content: String,
    pub memory_count: i64,
    pub key_memories: Vec<String>,
    pub tags: Vec<String>,
    pub created_at: String,
    pub last_updated: String,
}

/// The value of an [`IndexNote`].
pub struct IndexNoteView {
    pub id: Seq<char>,
    pub scope_type: Seq<char>,
    pub scope_id: Seq<char>,
    pub name: Seq<char>,
    pub content: Seq<char>,
    pub memory_count: i64,
    pub key_memories: Seq<Seq<char>>,
    pub tags: Seq<Seq<char>>,
    pub created_at: Seq<char>,
    pub last_updated: Seq<char>,
}

impl View for IndexNote {
    type V = IndexNoteView;

    open spec fn view(&self) -> IndexNoteView {
        IndexNoteView {
            id: self.id@,
            scope_type: self.scope_type@,
            scope_id: self.scope_id@,
            name: self.name@,
            content: self.content@,
            memory_count: self.memory_count,
            key_memories: seq_view(self.key_memories@),
            tags: seq_view(self.tags@),
            created_at: self.created_at@,
            last_updated: self.last_updated@,
        }
    }
}

impl Dup for IndexNote {
    fn dup(&self) -> (r: Self) {
        IndexNote {
            id: self.id.dup(),
            scope_type: self.scope_type.dup(),
            scope_id: self.scope_id.dup(),
            name: self.name.dup(),
            content: self.content.dup(),
            memory_count: self.memory_count,
            key_memories: crate::dup::dup_vec(&self.key_memories),
            tags: crate::dup::dup_vec(&self.tags),
            created_at: self.created_at.dup(),
            last_updated: self.last_updated.dup(),
        }
    }
}

impl Clone for IndexNote {
    fn clone(&self) -> (r: Self)
        ensures
            r@ == self@,
    {
        self.dup()
    }
}

/// One refinement stage of a memory's summary.
#[derive(Debug)]
pub struct ProgressiveSummary {
    pub id: String,
    pub memory_id: MemoryId,
    pub layer: u8,
    pub content: String,
    pub created_at: String,
}

/// The value of a [`ProgressiveSummary`].
pub struct ProgressiveSummaryView {
    pub id: Seq<char>,
    pub memory_id: Seq<char>,
    pub layer: u8,
    pub content: Seq<char>,
    pub created_at: Seq<char>,
}

impl View for ProgressiveSummary {
    type V = ProgressiveSummaryView;

    open spec fn view(&self) -> ProgressiveSummaryView {
        ProgressiveSummaryView {
            id: self.id@,
            memory_id: self.memory_id@,
            layer: self.layer,
            content: self.content@,
            created_at: self.created_at@,
        }
    }
}

impl Dup for ProgressiveSummary {
    fn dup(&self) -> (r: Self) {
        ProgressiveSummary {
            id: self.id.dup(),
            memory_id: self.memory_id.dup(),
            layer: self.layer,
            content: self.content.dup(),
            created_at: self.created_at.dup(),
        }
    }
}

impl Clone for ProgressiveSummary {
    fn clone(&self) -> (r: Self)
        ensures
            r@ == self@,
    {
        self.dup()
    }
}

/// The engine: every table of the store.
pub struct Database {
    pub(crate) turns: Vec<TurnRow>,
    pub(crate) workspaces: Vec<Workspace>,
    pub(crate) projects: Vec<Project>,
    pub(crate) areas: Vec<Area>,
    pub(crate) topics: Vec<Topic>,
    pub(crate) memories: Vec<MemoryRow>,
    pub(crate) relations: Vec<MemoryRelation>,
    pub(crate) versions: Vec<MemoryVersion>,
    pub(crate) index_notes: Vec<IndexNote>,
    pub(crate) summaries: Vec<ProgressiveSummary>,
    pub(crate) agentic: Vec<AgenticMemory>,
}

/// The value of a [`Database`]: each table as the sequence of its rows, in
/// the order in which they were stored.
pub struct DatabaseView {
    pub turns: Seq<TurnRowView>,
    pub workspaces: Seq<WorkspaceView>,
    pub projects: Seq<ProjectView>,
    pub areas: Seq<AreaView>,
    pub topics: Seq<TopicView>,
    pub memories: Seq<MemoryRowView>,
    pub relations: Seq<MemoryRelationView>,
    pub versions: Seq<MemoryVersionView>,
    pub index_notes: Seq<IndexNoteView>,
    pub summaries: Seq<ProgressiveSummaryView>,
    pub agentic: Seq<AgenticMemoryView>,
}

impl View for Database {
    type V = DatabaseView;

    open(crate) spec fn view(&self) -> DatabaseView {
        DatabaseView {
            turns: seq_view(self.turns@),
            workspaces: seq_view(self.workspaces@),
            projects: seq_view(self.projects@),
            areas: seq_view(self.areas@),
            topics: seq_view(self.topics@),
            memories: seq_view(self.memories@),
            relations: seq_view(self.relations@),
            versions: seq_view(self.versions@),
            index_notes: seq_view(self.index_notes@),
            summaries: seq_view(self.summaries@),
            agentic: seq_view(self.agentic@),
        }
    }
}

// ---------------------------------------------------------------------------
// Looking rows up
// ---------------------------------------------------------------------------

/// `i` is the least index of an element of `s` that satisfies `p`.
pub open spec fn is_first<T>(s: Seq<T>, p: spec_fn(T) -> bool, i: int) -> bool {
    0 <= i < s.len() && p(s[i]) && forall|j: int| 0 <= j < i ==> !p(s[j])
}

/// Some element of `s` satisfies `p`.
pub open spec fn any<T>(s: Seq<T>, p: spec_fn(T) -> bool) -> bool {
    exists|i: int| 0 <= i < s.len() && p(s[i])
}

/// The least index of an element of `s` that satisfies `p`.
pub open spec fn find_first<T>(s: Seq<T>, p: spec_fn(T) -> bool) -> Option<int> {
    if any(s, p) {
        Some(choose|i: int| is_first(s, p, i))
    } else {
        None
    }
}

pub proof fn lemma_find_first<T>(s: Seq<T>, p: spec_fn(T) -> bool, i: int)
    requires
        is_first(s, p, i),
    ensures
        find_first(s, p) == Some(i),
{
    assert(0 <= i < s.len() && p(s[i]));
    let c = choose|k: int| is_first(s, p, k);
    assert(is_first(s, p, c));
    if c < i {
        assert(!p(s[c]));
    }
    if i < c {
        assert(!p(s[i]));
    }
}

pub proof fn lemma_find_none<T>(s: Seq<T>, p: spec_fn(T) -> bool)
    requires
        forall|j: int| 0 <= j < s.len() ==> !p(s[j]),
    ensures
        find_first(s, p) is None,
        !any(s, p),
{
}

/// What `find_first` returns is a first index.
pub proof fn lemma_find_some<T>(s: Seq<T>, p: spec_fn(T) -> bool)
    ensures
        match find_first(s, p) {
            Some(i) => is_first(s, p, i),
            None => forall|j: int| 0 <= j < s.len() ==> !p(s[j]),
        },
{
    if any(s, p) {
        let w = choose|i: int| 0 <= i < s.len() && p(s[i]);
        lemma_least_exists(s, p, w);
    }
}

proof fn lemma_least_exists<T>(s: Seq<T>, p: spec_fn(T) -> bool, w: int)
    requires
        0 <= w < s.len(),
        p(s[w]),
    ensures
        exists|i: int| is_first(s, p, i),
    decreases w,
{
    if exists|j: int| 0 <= j < w && p(s[j]) {
        let j = choose|j: int| 0 <= j < w && p(s[j]);
        lemma_least_exists(s, p, j);
    } else {
        assert(is_first(s, p, w));
    }
}

/// The memory row has the identifier `id`.
pub open spec fn memory_is(id: Seq<char>) -> spec_fn(MemoryRowView) -> bool {
    |r: MemoryRowView| r.memory.id == id
}

/// The turn row has the identifier `id`.
pub open spec fn turn_is(id: Seq<char>) -> spec_fn(TurnRowView) -> bool {
    |r: TurnRowView| r.turn.id == id
}

/// The relation joins `source` to `target` with the meaning `ty`.
pub open spec fn relation_joins(source: Seq<char>, target: Seq<char>, ty: RelationType) -> spec_fn(
    MemoryRelationView,
) -> bool {
    |r: MemoryRelationView| r.source_id == source && r.target_id == target && r.relation_type == ty
}

/// No two rows of the table carry the same key.
pub open spec fn distinct_keys<T, K>(s: Seq<T>, key: spec_fn(T) -> K) -> bool {
    forall|i: int, j: int| 0 <= i < j < s.len() ==> key(s[i]) != key(s[j])
}

impl DatabaseView {
    /// Whether a memory with this identifier is stored.
    pub open spec fn has_memory(self, id: Seq<char>) -> bool {
        any(self.memories, memory_is(id))
    }

    /// The stored memory row with this identifier.
    pub open spec fn memory(self, id: Seq<char>) -> Option<MemoryRowView> {
        match find_first(self.memories, memory_is(id)) {
            Some(i) => Some(self.memories[i]),
            None => None,
        }
    }

    /// Whether a topic with this identifier is stored.
    pub open spec fn has_topic(self, id: Seq<char>) -> bool {
        any(self.topics, |t: TopicView| t.id == id)
    }

    /// Identifiers are unique within each table of entities.
    pub open spec fn ids_unique(self) -> bool {
        &&& distinct_keys(self.turns, |r: TurnRowView| r.turn.id)
        &&& distinct_keys(self.memories, |r: MemoryRowView| r.memory.id)
        &&& distinct_keys(self.relations, |r: MemoryRelationView| r.id)
        &&& distinct_keys(self.versions, |r: MemoryVersionView| r.id)
        &&& distinct_keys(self.workspaces, |r: WorkspaceView| r.id)
        &&& distinct_keys(self.projects, |r: ProjectView| r.id)
        &&& distinct_keys(self.areas, |r: AreaView| r.id)
        &&& distinct_keys(self.topics, |r: TopicView| r.id)
        &&& distinct_keys(self.index_notes, |r: IndexNoteView| r.id)
        &&& distinct_keys(self.summaries, |r: ProgressiveSummaryView| r.id)
        &&& distinct_keys(self.agentic, |r: AgenticMemoryView| r.id)
    }

    /// Names are unique within a parent at each level of the hierarchy.
    pub open spec fn names_unique(self) -> bool {
        &&& distinct_keys(self.workspaces, |r: WorkspaceView| r.name)
        &&& distinct_keys(self.projects, |r: ProjectView| (r.workspace_id, r.name))
        &&& distinct_keys(self.areas, |r: AreaView| (r.project_id, r.name))
        &&& distinct_keys(self.topics, |r: TopicView| (r.area_id, r.name))
    }

    /// Every reference from one table into another points at a stored row.
    pub open spec fn references_hold(self) -> bool {
        &&& forall|i: int|
            0 <= i < self.memories.len() ==> match (#[trigger] self.memories[i]).memory.topic_id {
                Some(t) => self.has_topic(t),
                None => true,
            }
        &&& forall|i: int|
            0 <= i < self.relations.len() ==> self.has_memory(
                (#[trigger] self.relations[i]).source_id,
            ) && self.has_memory(self.relations[i].target_id)
        &&& forall|i: int|
            0 <= i < self.versions.len() ==> self.has_memory(
                (#[trigger] self.versions[i]).memory_id,
            )
        &&& forall|i: int|
            0 <= i < self.summaries.len() ==> self.has_memory(
                (#[trigger] self.summaries[i]).memory_id,
            )
        &&& forall|i: int|
            0 <= i < self.agentic.len() ==> self.has_memory((#[trigger] self.agentic[i]).id)
    }

    /// No two relations join the same source to the same target with the
    /// same meaning, and a memory's `superseded_by` names the source of a
    /// stored `Supersedes` relation into it.
    pub open spec fn relations_consistent(self) -> bool {
        &&& distinct_keys(
            self.relations,
            |r: MemoryRelationView| (r.source_id, r.target_id, r.relation_type),
        )
        &&& forall|i: int|
            0 <= i < self.memories.len() ==> match (#[trigger] self.memories[i]).superseded_by {
                Some(s) => any(
                    self.relations,
                    relation_joins(s, self.memories[i].memory.id, RelationType::Supersedes),
                ),
                None => true,
            }
    }

    /// The stored versions of each memory stand in the order of their
    /// numbers, which are all at least 1 and below the memory's version
    /// counter.
    pub open spec fn versions_consistent(self) -> bool {
        &&& forall|i: int| 0 <= i < self.memories.len() ==> (#[trigger] self.memories[i]).version >= 1
        &&& forall|i: int, j: int|
            0 <= i < j < self.versions.len() && (#[trigger] self.versions[i]).memory_id == (
            #[trigger] self.versions[j]).memory_id ==> self.versions[i].version_number
                < self.versions[j].version_number
        &&& forall|i: int|
            0 <= i < self.versions.len() ==> (#[trigger] self.versions[i]).version_number >= 1
                && match self.memory(self.versions[i].memory_id) {
                Some(m) => self.versions[i].version_number < m.version,
                None => false,
            }
    }

    /// Importance stays within its range.
    pub open spec fn importance_bounded(self) -> bool {
        forall|i: int|
            0 <= i < self.memories.len() ==> (#[trigger] self.memories[i]).importance
                <= MAX_IMPORTANCE
    }

    /// Every node of the hierarchy below the top level has its parent.
    pub open spec fn hierarchy_linked(self) -> bool {
        &&& forall|i: int|
            0 <= i < self.projects.len() ==> any(
                self.workspaces,
                |w: WorkspaceView| w.id == (#[trigger] self.projects[i]).workspace_id,
            )
        &&& forall|i: int|
            0 <= i < self.areas.len() ==> any(
                self.projects,
                |p: ProjectView| p.id == (#[trigger] self.areas[i]).project_id,
            )
        &&& forall|i: int|
            0 <= i < self.topics.len() ==> any(
                self.areas,
                |a: AreaView| a.id == (#[trigger] self.topics[i]).area_id,
            )
    }

    /// Everything that the engine keeps true of its tables.
    pub open spec fn wf(self) -> bool {
        &&& self.ids_unique()
        &&& self.names_unique()
        &&& self.hierarchy_linked()
        &&& self.references_hold()
        &&& self.relations_consistent()
        &&& self.versions_consistent()
        &&& self.importance_bounded()
    }

    /// The store without any row.
    pub open spec fn empty() -> DatabaseView {
        DatabaseView {
            turns: Seq::empty(),
            workspaces: Seq::empty(),
            projects: Seq::empty(),
            areas: Seq::empty(),
            topics: Seq::empty(),
            memories: Seq::empty(),
            relations: Seq::empty(),
            versions: Seq::empty(),
            index_notes: Seq::empty(),
            summaries: Seq::empty(),
            agentic: Seq::empty(),
        }
    }
}

/// A new row for `memory`, with the engine's columns at their defaults.
pub open spec fn fresh_row(memory: MemoryView) -> MemoryRowView {
    MemoryRowView {
        memory,
        importance: DEFAULT_IMPORTANCE,
        status: MemoryStatus::Fleeting,
        version: 1,
        superseded_by: None,
    }
}

impl Database {
    /// An empty store.
    pub fn new() -> (r: Self)
        ensures
            r@ == DatabaseView::empty(),
            r@.wf(),
    {
        let r = Database {
            turns: Vec::new(),
            workspaces: Vec::new(),
            projects: Vec::new(),
            areas: Vec::new(),
            topics: Vec::new(),
            memories: Vec::new(),
            relations: Vec::new(),
            versions: Vec::new(),
            index_notes: Vec::new(),
            summaries: Vec::new(),
            agentic: Vec::new(),
        };
        assert(r@ =~= DatabaseView::empty()) by {
            assert(r@.turns =~= Seq::empty());
            assert(r@.workspaces =~= Seq::empty());
            assert(r@.projects =~= Seq::empty());
            assert(r@.areas =~= Seq::empty());
            assert(r@.topics =~= Seq::empty());
            assert(r@.memories =~= Seq::empty());
            assert(r@.relations =~= Seq::empty());
            assert(r@.versions =~= Seq::empty());
            assert(r@.index_notes =~= Seq::empty());
            assert(r@.summaries =~= Seq::empty());
            assert(r@.agentic =~= Seq::empty());
        }
        r
    }

    /// Index of the memory row with the identifier `id`.
    pub(crate) fn memory_index(&self, id: &MemoryId) -> (r: Option<usize>)
        ensures
            match r {
                Some(i) => i < self.memories.len() && find_first(self@.memories, memory_is(id@))
                    == Some(i as int),
                None => find_first(self@.memories, memory_is(id@)) is None,
            },
            r is Some <==> self@.has_memory(id@),
    {
        let mut i: usize = 0;
        let ghost rows = self@.memories;
        while i < self.memories.len()
            invariant
                i <= self.memories.len(),
                rows == self@.memories,
                forall|j: int| 0 <= j < i ==> !memory_is(id@)(rows[j]),
            decreases self.memories.len() - i,
        {
            assert(rows[i as int] == self.memories@[i as int]@);
            if self.memories[i].memory.id == *id {
                proof {
                    lemma_find_first(rows, memory_is(id@), i as int);
                }
                return Some(i);
            }
            i += 1;
        }
        proof {
            lemma_find_none(rows, memory_is(id@));
        }
        None
    }

    /// Number of stored turns.
    pub fn count_turns(&self) -> (r: usize)
        ensures
            r == self@.turns.len(),
    {
        self.turns.len()
    }

    /// Number of stored memories.
    pub fn count_memories(&self) -> (r: usize)
        ensures
            r == self@.memories.len(),
    {
        self.memories.len()
    }

    /// The stored turn with the identifier `id`.
    pub fn get_turn(&self, id: &TurnId) -> (r: Option<Turn>)
        ensures
            match find_first(self@.turns, turn_is(id@)) {
                Some(i) => r is Some && r->0@ == self@.turns[i].turn,
                None => r is None,
            },
    {
        let mut i: usize = 0;
        let ghost rows = self@.turns;
        while i < self.turns.len()
            invariant
                i <= self.turns.len(),
                rows == self@.turns,
                forall|j: int| 0 <= j < i ==> !turn_is(id@)(rows[j]),
            decreases self.turns.len() - i,
        {
            assert(rows[i as int] == self.turns@[i as int]@);
            if self.turns[i].turn.id == *id {
                proof {
                    lemma_find_first(rows, turn_is(id@), i as int);
                }
                return Some(self.turns[i].turn.clone());
            }
            i += 1;
        }
        proof {
            lemma_find_none(rows, turn_is(id@));
        }
        None
    }

    /// The stored memory with the identifier `id`.
    pub fn get_memory_by_id(&self, id: &MemoryId) -> (r: Option<Memory>)
        ensures
            match self@.memory(id@) {
                Some(m) => r is Some && r->0@ == m.memory,
                None => r is None,
            },
    {
        match self.memory_index(id) {
            Some(i) => {
                assert(self@.memories[i as int] == self.memories@[i as int]@);
                Some(self.memories[i].memory.clone())
            },
            None => None,
        }
    }

    /// The stored memory with the identifier `id`, with the columns that
    /// the engine maintains: importance, status, version counter and the
    /// memory that replaced it.
    pub fn get_memory_row(&self, id: &MemoryId) -> (r: Option<MemoryRow>)
        ensures
            crate::dup::opt_view(r) == self@.memory(id@),
    {
        match self.memory_index(id) {
            Some(i) => {
                assert(self@.memories[i as int] == self.memories@[i as int]@);
                Some(self.memories[i].dup())
            },
            None => None,
        }
    }
}

/// A pushed element is found where nothing before it matched.
pub proof fn lemma_any_push<T>(s: Seq<T>, x: T, p: spec_fn(T) -> bool)
    ensures
        any(s.push(x), p) == (any(s, p) || p(x)),
        find_first(s.push(x), p) == if any(s, p) {
            find_first(s, p)
        } else if p(x) {
            Some(s.len() as int)
        } else {
            None
        },
{
    let t = s.push(x);
    lemma_find_some(s, p);
    if any(s, p) {
        let i = find_first(s, p)->0;
        assert(t[i] == s[i]);
        assert forall|j: int| 0 <= j < i implies !p(t[j]) by {
            assert(t[j] == s[j]);
        }
        lemma_find_first(t, p, i);
    } else if p(x) {
        assert(t[s.len() as int] == x);
        assert forall|j: int| 0 <= j < s.len() implies !p(t[j]) by {
            assert(t[j] == s[j]);
        }
        lemma_find_first(t, p, s.len() as int);
    } else {
        assert forall|j: int| 0 <= j < t.len() implies !p(t[j]) by {
            if j < s.len() {
                assert(t[j] == s[j]);
            }
        }
        lemma_find_none(t, p);
    }
}

/// Rewriting rows without changing what a predicate says of any of them
/// changes no lookup by that predicate.
pub proof fn lemma_any_same<T>(s: Seq<T>, t: Seq<T>, p: spec_fn(T) -> bool)
    requires
        s.len() == t.len(),
        forall|i: int| 0 <= i < s.len() ==> p(s[i]) == p(t[i]),
    ensures
        any(s, p) == any(t, p),
        find_first(s, p) == find_first(t, p),
{
    lemma_find_some(s, p);
    if any(s, p) {
        let i = find_first(s, p)->0;
        assert(p(t[i]));
        lemma_find_first(t, p, i);
    } else {
        lemma_find_none(t, p);
    }
}

/// With distinct keys, at most the found row carries a key.
pub proof fn lemma_distinct_found<T, K>(s: Seq<T>, key: spec_fn(T) -> K, k: K, i: int)
    requires
        distinct_keys(s, key),
        0 <= i < s.len(),
        key(s[i]) == k,
    ensures
        find_first(s, |r: T| key(r) == k) == Some(i),
        forall|j: int| 0 <= j < s.len() && j != i ==> key(s[j]) != k,
{
    let p = |r: T| key(r) == k;
    assert forall|j: int| 0 <= j < s.len() && j != i implies key(s[j]) != k by {
        if j < i {
            assert(key(s[j]) != key(s[i]));
        } else {
            assert(key(s[i]) != key(s[j]));
        }
    }
    assert(p(s[i]));
    lemma_find_first(s, p, i);
}

} // verus!
