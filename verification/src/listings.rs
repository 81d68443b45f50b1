//! Listing what the store holds: the hierarchy by name, turns by thread,
//! topics with their counts, and memories by lifecycle status.

use crate::dup::{opt_view, seq_view};
use crate::hierarchy::{area_is, project_is, topic_is, workspace_is};
use crate::ids::{AreaId, ProjectId, ThreadId, TopicId, WorkspaceId};
use crate::memories::str_less;
use crate::order::{lex_less, sort_unique, sorted_unique};
use crate::query::{at_most, first_n, select, sort_rows};
use crate::schemas::{
    Area, AreaView, MemoryStatus, Project, ProjectView, Topic, TopicView, Turn, TurnView, Workspace,
    WorkspaceView,
};
use crate::sorting::stable_sort;
use crate::store::{
    find_first, Database, DatabaseView, MemoryRowView, StoreError, TurnRow, TurnRowView,
};
use crate::text::{from_chars, to_chars, views};
use vstd::prelude::*;

verus! {

/// A topic text with the number of its memories and the time of the newest.
#[derive(Debug)]
pub struct TopicSummary {
    pub topic: String,
    pub memory_count: usize,
    pub last_memory_at: Option<String>,
}

/// The value of a [`TopicSummary`].
pub struct TopicSummaryView {
    pub topic: Seq<char>,
    pub memory_count: nat,
    pub last_memory_at: Option<Seq<char>>,
}

impl View for TopicSummary {
    type V = TopicSummaryView;

    open spec fn view(&self) -> TopicSummaryView {
        TopicSummaryView {
            topic: self.topic@,
            memory_count: self.memory_count as nat,
            last_memory_at: opt_view(self.last_memory_at),
        }
    }
}

/// How many memories stand at each stage of the lifecycle.
#[derive(Debug, Clone, Copy, PartialEq, Eq, Structural)]
pub struct LifecycleStats {
    pub fleeting: usize,
    pub permanent: usize,
    pub archived: usize,
    pub deprecated: usize,
    pub total: usize,
}

/// `a` comes before `b` by name.
pub open spec fn workspace_before(a: WorkspaceView, b: WorkspaceView) -> bool {
    lex_less(a.name, b.name)
}

/// `a` comes before `b` by name.
pub open spec fn project_before(a: ProjectView, b: ProjectView) -> bool {
    lex_less(a.name, b.name)
}

/// `a` comes before `b` by name.
pub open spec fn area_before(a: AreaView, b: AreaView) -> bool {
    lex_less(a.name, b.name)
}

/// `a` comes before `b` by name.
pub open spec fn topic_before(a: TopicView, b: TopicView) -> bool {
    lex_less(a.name, b.name)
}

/// The later of two optional time stamps.
pub open spec fn later_of(a: Option<Seq<char>>, b: Seq<char>) -> Option<Seq<char>> {
    match a {
        Some(x) => if lex_less(x, b) {
            Some(b)
        } else {
            a
        },
        None => Some(b),
    }
}

/// Index of the summary of `topic`, or the number of summaries if there is
/// none.
pub open spec fn summary_index(entries: Seq<TopicSummaryView>, topic: Seq<char>) -> nat
    decreases entries.len(),
{
    if entries.len() > 0 && entries[0].topic != topic {
        1 + summary_index(entries.drop_first(), topic)
    } else {
        0
    }
}

/// The summaries with one more memory counted.
pub open spec fn count_memory(entries: Seq<TopicSummaryView>, row: MemoryRowView) -> Seq<
    TopicSummaryView,
> {
    let i = summary_index(entries, row.memory.topic) as int;
    if i < entries.len() {
        entries.update(
            i,
            TopicSummaryView {
                topic: row.memory.topic,
                memory_count: entries[i].memory_count + 1,
                last_memory_at: later_of(entries[i].last_memory_at, row.memory.created_at),
            },
        )
    } else {
        entries.push(
            TopicSummaryView {
                topic: row.memory.topic,
                memory_count: 1,
                last_memory_at: Some(row.memory.created_at),
            },
        )
    }
}

/// One summary for each topic text of the rows, in the order of first
/// occurrence.
pub open spec fn summaries_of(rows: Seq<MemoryRowView>) -> Seq<TopicSummaryView>
    decreases rows.len(),
{
    if rows.len() == 0 {
        Seq::empty()
    } else {
        count_memory(summaries_of(rows.drop_last()), rows.last())
    }
}

/// `a` ranks before `b`: it has more memories, or as many and a later
/// newest one.
pub open spec fn summary_before(a: TopicSummaryView, b: TopicSummaryView) -> bool {
    a.memory_count > b.memory_count || (a.memory_count == b.memory_count && match (
        a.last_memory_at,
        b.last_memory_at,
    ) {
        (Some(x), Some(y)) => lex_less(y, x),
        (Some(x), None) => true,
        _ => false,
    })
}

/// The turn belongs to the thread `id`.
pub open spec fn in_thread(id: Seq<char>) -> spec_fn(TurnRowView) -> bool {
    |r: TurnRowView| r.turn.thread_id == id
}

/// The memory row has the status `status`.
pub open spec fn has_status(status: MemoryStatus) -> spec_fn(MemoryRowView) -> bool {
    |r: MemoryRowView| r.status == status
}

impl DatabaseView {
    /// The name of the workspace `id`.
    pub open spec fn workspace_name(self, id: Seq<char>) -> Option<Seq<char>> {
        match find_first(self.workspaces, workspace_is(id)) {
            Some(i) => Some(self.workspaces[i].name),
            None => None,
        }
    }

    /// The name of the project `id`.
    pub open spec fn project_name(self, id: Seq<char>) -> Option<Seq<char>> {
        match find_first(self.projects, project_is(id)) {
            Some(i) => Some(self.projects[i].name),
            None => None,
        }
    }

    /// The name of the area `id`.
    pub open spec fn area_name(self, id: Seq<char>) -> Option<Seq<char>> {
        match find_first(self.areas, area_is(id)) {
            Some(i) => Some(self.areas[i].name),
            None => None,
        }
    }

    /// The workspaces by name.
    pub open spec fn workspaces_by_name(self) -> Seq<WorkspaceView> {
        stable_sort(self.workspaces, |a: WorkspaceView, b: WorkspaceView| workspace_before(a, b))
    }

    /// The projects by name.
    pub open spec fn projects_by_name(self) -> Seq<ProjectView> {
        stable_sort(self.projects, |a: ProjectView, b: ProjectView| project_before(a, b))
    }

    /// The areas by name.
    pub open spec fn areas_by_name(self) -> Seq<AreaView> {
        stable_sort(self.areas, |a: AreaView, b: AreaView| area_before(a, b))
    }

    /// The topics by name.
    pub open spec fn topics_by_name(self) -> Seq<TopicView> {
        stable_sort(self.topics, |a: TopicView, b: TopicView| topic_before(a, b))
    }

    /// The `limit` newest turns of a thread, by the time of storing.
    pub open spec fn turns_of_thread(self, thread: Seq<char>, limit: nat) -> Seq<TurnView> {
        at_most(
            stable_sort(
                self.turns.filter(in_thread(thread)),
                |a: TurnRowView, b: TurnRowView| lex_less(b.created_at, a.created_at),
            ),
            limit,
        ).map_values(|r: TurnRowView| r.turn)
    }

    /// The `limit` topic texts with the most memories.
    pub open spec fn topic_summaries(self, limit: nat) -> Seq<TopicSummaryView> {
        at_most(
            stable_sort(
                summaries_of(self.memories),
                |a: TopicSummaryView, b: TopicSummaryView| summary_before(a, b),
            ),
            limit,
        )
    }

    /// The different topic texts of the memories, in dictionary order.
    pub open spec fn topic_texts(self) -> Seq<Seq<char>> {
        sort_unique(self.memories.map_values(|r: MemoryRowView| r.memory.topic))
    }
}

proof fn lemma_summary_index(entries: Seq<TopicSummaryView>, topic: Seq<char>, i: int)
    requires
        0 <= i <= entries.len(),
        forall|j: int| 0 <= j < i ==> entries[j].topic != topic,
        i == entries.len() || entries[i].topic == topic,
    ensures
        summary_index(entries, topic) == i,
    decreases i,
{
    if i > 0 {
        let t = entries.drop_first();
        assert forall|j: int| 0 <= j < i - 1 implies t[j].topic != topic by {
            assert(t[j] == entries[j + 1]);
        }
        lemma_summary_index(t, topic, i - 1);
    }
}

impl Database {
    /// The workspaces with their names, by name.
    pub fn get_all_workspaces(&self) -> (r: Vec<(WorkspaceId, String)>)
        ensures
            r.len() == self@.workspaces_by_name().len(),
            forall|i: int|
                0 <= i < r.len() ==> (#[trigger] r@[i]).0@ == self@.workspaces_by_name()[i].id
                    && r@[i].1@ == self@.workspaces_by_name()[i].name,
    {
        let ghost p = |w: WorkspaceView| true;
        let all = |w: &Workspace| -> (o: bool)
            ensures
                o == p(w@),
            { true };
        let rows = select(&self.workspaces, all, Ghost(p));
        proof {
            crate::memories::lemma_filter_all(self@.workspaces, p);
        }
        let ghost before = |a: WorkspaceView, b: WorkspaceView| workspace_before(a, b);
        let first = |a: &Workspace, b: &Workspace| -> (o: bool)
            ensures
                o == before(a@, b@),
            { str_less(a.name.as_str(), b.name.as_str()) };
        let sorted = sort_rows(rows, first, Ghost(before));
        let ghost sv = seq_view(sorted@);
        let mut out: Vec<(WorkspaceId, String)> = Vec::new();
        let mut i: usize = 0;
        while i < sorted.len()
            invariant
                i <= sorted.len(),
                sv == seq_view(sorted@),
                out.len() == i,
                forall|j: int|
                    0 <= j < i ==> (#[trigger] out@[j]).0@ == sv[j].id && out@[j].1@ == sv[j].name,
            decreases sorted.len() - i,
        {
            assert(sv[i as int] == sorted@[i as int]@);
            out.push((sorted[i].id.clone(), sorted[i].name.clone()));
            i += 1;
        }
        assert(sv.len() == sorted.len());
        out
    }

    /// The name of the workspace `id`.
    pub fn get_workspace_name(&self, id: &WorkspaceId) -> (r: Option<String>)
        ensures
            opt_view(r) == self@.workspace_name(id@),
    {
        match self.workspace_id_index(id) {
            Some(i) => {
                assert(self@.workspaces[i as int] == self.workspaces@[i as int]@);
                Some(self.workspaces[i].name.clone())
            },
            None => {
                proof {
                    crate::store::lemma_find_some(self@.workspaces, workspace_is(id@));
                }
                None
            },
        }
    }

    /// The name of the project `id`.
    pub fn get_project_name(&self, id: &ProjectId) -> (r: Option<String>)
        ensures
            opt_view(r) == self@.project_name(id@),
    {
        match self.project_id_index(id) {
            Some(i) => {
                assert(self@.projects[i as int] == self.projects@[i as int]@);
                Some(self.projects[i].name.clone())
            },
            None => {
                proof {
                    crate::store::lemma_find_some(self@.projects, project_is(id@));
                }
                None
            },
        }
    }

    /// The name of the area `id`.
    pub fn get_area_name(&self, id: &AreaId) -> (r: Option<String>)
        ensures
            opt_view(r) == self@.area_name(id@),
    {
        match self.area_id_index(id) {
            Some(i) => {
                assert(self@.areas[i as int] == self.areas@[i as int]@);
                Some(self.areas[i].name.clone())
            },
            None => {
                proof {
                    crate::store::lemma_find_some(self@.areas, area_is(id@));
                }
                None
            },
        }
    }

    /// The projects by name, each with its name and the name of its
    /// workspace, empty where the workspace is not stored.
    pub fn get_all_projects(&self) -> (r: Vec<(ProjectId, String, String)>)
        ensures
            r.len() == self@.projects_by_name().len(),
            forall|i: int|
                0 <= i < r.len() ==> {
                    let p = self@.projects_by_name()[i];
                    &&& (#[trigger] r@[i]).0@ == p.id
                    &&& r@[i].1@ == p.name
                    &&& r@[i].2@ == match self@.workspace_name(p.workspace_id) {
                        Some(n) => n,
                        None => Seq::empty(),
                    }
                },
    {
        let ghost p = |w: ProjectView| true;
        let all = |w: &Project| -> (o: bool)
            ensures
                o == p(w@),
            { true };
        let rows = select(&self.projects, all, Ghost(p));
        proof {
            crate::memories::lemma_filter_all(self@.projects, p);
        }
        let ghost before = |a: ProjectView, b: ProjectView| project_before(a, b);
        let first = |a: &Project, b: &Project| -> (o: bool)
            ensures
                o == before(a@, b@),
            { str_less(a.name.as_str(), b.name.as_str()) };
        let sorted = sort_rows(rows, first, Ghost(before));
        let ghost sv = seq_view(sorted@);
        let mut out: Vec<(ProjectId, String, String)> = Vec::new();
        let mut i: usize = 0;
        while i < sorted.len()
            invariant
                i <= sorted.len(),
                sv == seq_view(sorted@),
                out.len() == i,
                forall|j: int|
                    0 <= j < i ==> (#[trigger] out@[j]).0@ == sv[j].id && out@[j].1@ == sv[j].name
                        && out@[j].2@ == match self@.workspace_name(sv[j].workspace_id) {
                        Some(n) => n,
                        None => Seq::empty(),
                    },
            decreases sorted.len() - i,
        {
            assert(sv[i as int] == sorted@[i as int]@);
            let parent = match self.get_workspace_name(&sorted[i].workspace_id) {
                Some(n) => n,
                None => String::new(),
            };
            out.push((sorted[i].id.clone(), sorted[i].name.clone(), parent));
            i += 1;
        }
        assert(sv.len() == sorted.len());
        out
    }

    /// The areas by name, each with its name and the name of its project,
    /// empty where the project is not stored.
    pub fn get_all_areas(&self) -> (r: Vec<(AreaId, String, String)>)
        ensures
            r.len() == self@.areas_by_name().len(),
            forall|i: int|
                0 <= i < r.len() ==> {
                    let a = self@.areas_by_name()[i];
                    &&& (#[trigger] r@[i]).0@ == a.id
                    &&& r@[i].1@ == a.name
                    &&& r@[i].2@ == match self@.project_name(a.project_id) {
                        Some(n) => n,
                        None => Seq::empty(),
                    }
                },
    {
        let ghost p = |w: AreaView| true;
        let all = |w: &Area| -> (o: bool)
            ensures
                o == p(w@),
            { true };
        let rows = select(&self.areas, all, Ghost(p));
        proof {
            crate::memories::lemma_filter_all(self@.areas, p);
        }
        let ghost before = |a: AreaView, b: AreaView| area_before(a, b);
        let first = |a: &Area, b: &Area| -> (o: bool)
            ensures
                o == before(a@, b@),
            { str_less(a.name.as_str(), b.name.as_str()) };
        let sorted = sort_rows(rows, first, Ghost(before));
        let ghost sv = seq_view(sorted@);
        let mut out: Vec<(AreaId, String, String)> = Vec::new();
        let mut i: usize = 0;
        while i < sorted.len()
            invariant
                i <= sorted.len(),
                sv == seq_view(sorted@),
                out.len() == i,
                forall|j: int|
                    0 <= j < i ==> (#[trigger] out@[j]).0@ == sv[j].id && out@[j].1@ == sv[j].name
                        && out@[j].2@ == match self@.project_name(sv[j].project_id) {
                        Some(n) => n,
                        None => Seq::empty(),
                    },
            decreases sorted.len() - i,
        {
            assert(sv[i as int] == sorted@[i as int]@);
            let parent = match self.get_project_name(&sorted[i].project_id) {
                Some(n) => n,
                None => String::new(),
            };
            out.push((sorted[i].id.clone(), sorted[i].name.clone(), parent));
            i += 1;
        }
        assert(sv.len() == sorted.len());
        out
    }

    /// The topics by name, each with its name and the name of its area,
    /// empty where the area is not stored.
    pub fn get_all_topics(&self) -> (r: Vec<(TopicId, String, String)>)
        ensures
            r.len() == self@.topics_by_name().len(),
            forall|i: int|
                0 <= i < r.len() ==> {
                    let t = self@.topics_by_name()[i];
                    &&& (#[trigger] r@[i]).0@ == t.id
                    &&& r@[i].1@ == t.name
                    &&& r@[i].2@ == match self@.area_name(t.area_id) {
                        Some(n) => n,
                        None => Seq::empty(),
                    }
                },
    {
        let ghost p = |w: TopicView| true;
        let all = |w: &Topic| -> (o: bool)
            ensures
                o == p(w@),
            { true };
        let rows = select(&self.topics, all, Ghost(p));
        proof {
            crate::memories::lemma_filter_all(self@.topics, p);
        }
        let ghost before = |a: TopicView, b: TopicView| topic_before(a, b);
        let first = |a: &Topic, b: &Topic| -> (o: bool)
            ensures
                o == before(a@, b@),
            { str_less(a.name.as_str(), b.name.as_str()) };
        let sorted = sort_rows(rows, first, Ghost(before));
        let ghost sv = seq_view(sorted@);
        let mut out: Vec<(TopicId, String, String)> = Vec::new();
        let mut i: usize = 0;
        while i < sorted.len()
            invariant
                i <= sorted.len(),
                sv == seq_view(sorted@),
                out.len() == i,
                forall|j: int|
                    0 <= j < i ==> (#[trigger] out@[j]).0@ == sv[j].id && out@[j].1@ == sv[j].name
                        && out@[j].2@ == match self@.area_name(sv[j].area_id) {
                        Some(n) => n,
                        None => Seq::empty(),
                    },
            decreases sorted.len() - i,
        {
            assert(sv[i as int] == sorted@[i as int]@);
            let parent = match self.get_area_name(&sorted[i].area_id) {
                Some(n) => n,
                None => String::new(),
            };
            out.push((sorted[i].id.clone(), sorted[i].name.clone(), parent));
            i += 1;
        }
        assert(sv.len() == sorted.len());
        out
    }

    /// The name of a topic and the name of its area. Fails with `NotFound`
    /// for a topic that is not stored or has no stored area.
    pub fn get_topic_info(&self, topic_id: &TopicId) -> (r: Result<(String, String), StoreError>)
        ensures
            match r {
                Ok(p) => find_first(self@.topics, topic_is(topic_id@)) matches Some(i) && p.0@
                    == self@.topics[i].name && self@.area_name(self@.topics[i].area_id) == Some(
                    p.1@,
                ),
                Err(e) => e == StoreError::NotFound && (find_first(
                    self@.topics,
                    topic_is(topic_id@),
                ) matches Some(i) ==> self@.area_name(self@.topics[i].area_id) is None),
            },
    {
        match self.topic_id_index(topic_id) {
            Some(i) => {
                assert(self@.topics[i as int] == self.topics@[i as int]@);
                match self.get_area_name(&self.topics[i].area_id) {
                    Some(area) => Ok((self.topics[i].name.clone(), area)),
                    None => Err(StoreError::NotFound),
                }
            },
            None => {
                proof {
                    crate::store::lemma_find_some(self@.topics, topic_is(topic_id@));
                }
                Err(StoreError::NotFound)
            },
        }
    }

    /// The `limit` newest turns of a thread, by the time of storing.
    pub fn get_turns_by_thread(&self, thread_id: &ThreadId, limit: usize) -> (r: Vec<Turn>)
        ensures
            seq_view(r@) == self@.turns_of_thread(thread_id@, limit as nat),
    {
        let ghost p = in_thread(thread_id@);
        let ghost tr = self@.turns;
        let mut i: usize = 0;
        let mut picked: Vec<TurnRow> = Vec::new();
        proof {
            reveal(Seq::filter);
            assert(seq_view(picked@) =~= tr.take(0).filter(p));
        }
        while i < self.turns.len()
            invariant
                i <= self.turns.len(),
                tr == self@.turns,
                p == in_thread(thread_id@),
                seq_view(picked@) == tr.take(i as int).filter(p),
            decreases self.turns.len() - i,
        {
            let ghost before = seq_view(picked@);
            proof {
                assert(tr[i as int] == self.turns@[i as int]@);
                assert(tr.take(i + 1) =~= tr.take(i as int).push(tr[i as int]));
                crate::query::lemma_filter_push(tr.take(i as int), tr[i as int], p);
            }
            if self.turns[i].turn.thread_id == *thread_id {
                let c = TurnRow {
                    turn: self.turns[i].turn.clone(),
                    created_at: self.turns[i].created_at.clone(),
                };
                picked.push(c);
                assert(seq_view(picked@) =~= before.push(tr[i as int]));
            }
            i += 1;
        }
        proof {
            assert(tr.take(self.turns.len() as int) =~= tr);
        }
        let ghost before = |a: TurnRowView, b: TurnRowView| lex_less(b.created_at, a.created_at);
        let later = |a: &TurnRow, b: &TurnRow| -> (o: bool)
            ensures
                o == before(a@, b@),
            { str_less(b.created_at.as_str(), a.created_at.as_str()) };
        let sorted = first_n(sort_rows(picked, later, Ghost(before)), limit);
        let ghost sv = seq_view(sorted@);
        let mut out: Vec<Turn> = Vec::new();
        let mut k: usize = 0;
        while k < sorted.len()
            invariant
                k <= sorted.len(),
                sv == seq_view(sorted@),
                out.len() == k,
                forall|j: int| 0 <= j < k ==> (#[trigger] out@[j])@ == sv[j].turn,
            decreases sorted.len() - k,
        {
            assert(sv[k as int] == sorted@[k as int]@);
            out.push(sorted[k].turn.clone());
            k += 1;
        }
        assert(seq_view(out@) =~= sv.map_values(|r: TurnRowView| r.turn));
        out
    }

    /// The `limit` topic texts with the most memories, each with the number
    /// of its memories and the time of the newest.
    pub fn topic_summaries(&self, limit: usize) -> (r: Vec<TopicSummary>)
        ensures
            seq_view(r@) == self@.topic_summaries(limit as nat),
    {
        let ghost rows = self@.memories;
        let mut entries: Vec<TopicSummary> = Vec::new();
        let mut i: usize = 0;
        proof {
            assert(seq_view(entries@) =~= summaries_of(rows.take(0)));
        }
        while i < self.memories.len()
            invariant
                i <= self.memories.len(),
                rows == self@.memories,
                seq_view(entries@) == summaries_of(rows.take(i as int)),
                forall|j: int| 0 <= j < entries.len() ==> (#[trigger] entries@[j]).memory_count <= i,
            decreases self.memories.len() - i,
        {
            let ghost es = seq_view(entries@);
            let m = &self.memories[i].memory;
            proof {
                assert(rows[i as int] == self.memories@[i as int]@);
                assert(rows.take(i + 1).drop_last() =~= rows.take(i as int));
                assert(rows.take(i + 1).last() == rows[i as int]);
            }
            let mut k: usize = 0;
            while k < entries.len() && entries[k].topic != m.topic
                invariant
                    k <= entries.len(),
                    es == seq_view(entries@),
                    forall|j: int| 0 <= j < k ==> es[j].topic != m@.topic,
                decreases entries.len() - k,
            {
                assert(es[k as int] == entries@[k as int]@);
                k += 1;
            }
            proof {
                if k < entries.len() {
                    assert(es[k as int] == entries@[k as int]@);
                }
                lemma_summary_index(es, m@.topic, k as int);
            }
            if k < entries.len() {
                assert(es[k as int] == entries@[k as int]@);
                let last = match &entries[k].last_memory_at {
                    Some(x) => if str_less(x.as_str(), m.created_at.as_str()) {
                        Some(m.created_at.clone())
                    } else {
                        Some(x.clone())
                    },
                    None => Some(m.created_at.clone()),
                };
                let updated = TopicSummary {
                    topic: m.topic.clone(),
                    memory_count: entries[k].memory_count + 1,
                    last_memory_at: last,
                };
                let ghost uv = updated@;
                entries.set(k, updated);
                assert(seq_view(entries@) =~= es.update(k as int, uv));
            } else {
                let added = TopicSummary {
                    topic: m.topic.clone(),
                    memory_count: 1,
                    last_memory_at: Some(m.created_at.clone()),
                };
                let ghost av = added@;
                entries.push(added);
                assert(seq_view(entries@) =~= es.push(av));
            }
            i += 1;
        }
        proof {
            assert(rows.take(self.memories.len() as int) =~= rows);
        }
        let ghost before = |a: TopicSummaryView, b: TopicSummaryView| summary_before(a, b);
        let first = |a: &TopicSummary, b: &TopicSummary| -> (o: bool)
            ensures
                o == before(a@, b@),
            {
                a.memory_count > b.memory_count || (a.memory_count == b.memory_count && match (
                    &a.last_memory_at,
                    &b.last_memory_at,
                ) {
                    (Some(x), Some(y)) => str_less(y.as_str(), x.as_str()),
                    (Some(_), None) => true,
                    _ => false,
                })
            };
        first_n(sort_rows(entries, first, Ghost(before)), limit)
    }

    /// The `limit` newest memories with the topic text `topic`, whatever
    /// else they say.
    pub fn search_by_topic(&self, topic: &str, limit: usize) -> (r: Vec<crate::schemas::Memory>)
        ensures
            seq_view(r@) == self@.memories_by_topic(topic@, limit as nat),
    {
        self.get_memories_by_topic(topic, limit)
    }

    /// The different topic texts of the memories, in dictionary order.
    pub fn get_topics(&self) -> (r: Vec<String>)
        ensures
            seq_view(r@) == self@.topic_texts(),
    {
        let ghost rows = self@.memories;
        let mut all: Vec<Vec<char>> = Vec::new();
        let mut i: usize = 0;
        while i < self.memories.len()
            invariant
                i <= self.memories.len(),
                rows == self@.memories,
                all.len() == i,
                forall|j: int| 0 <= j < i ==> (#[trigger] all@[j])@ == rows[j].memory.topic,
            decreases self.memories.len() - i,
        {
            assert(rows[i as int] == self.memories@[i as int]@);
            all.push(to_chars(self.memories[i].memory.topic.as_str()));
            i += 1;
        }
        assert(views(all@) =~= rows.map_values(|r: MemoryRowView| r.memory.topic));
        let sorted = sorted_unique(&all);
        let ghost sv = views(sorted@);
        let mut out: Vec<String> = Vec::new();
        let mut j: usize = 0;
        while j < sorted.len()
            invariant
                j <= sorted.len(),
                sv == views(sorted@),
                out.len() == j,
                forall|x: int| 0 <= x < j ==> out@[x]@ == sv[x],
            decreases sorted.len() - j,
        {
            assert(sv[j as int] == sorted@[j as int]@);
            out.push(from_chars(&sorted[j]));
            j += 1;
        }
        assert(seq_view(out@) =~= sv);
        out
    }

    /// How many memories stand at each stage of the lifecycle.
    pub fn get_lifecycle_stats(&self) -> (r: LifecycleStats)
        ensures
            r.fleeting == self@.memories.filter(has_status(MemoryStatus::Fleeting)).len(),
            r.permanent == self@.memories.filter(has_status(MemoryStatus::Permanent)).len(),
            r.archived == self@.memories.filter(has_status(MemoryStatus::Archived)).len(),
            r.deprecated == self@.memories.filter(has_status(MemoryStatus::Deprecated)).len(),
            r.total == self@.memories.len(),
            r.total == r.fleeting + r.permanent + r.archived + r.deprecated,
    {
        let ghost rows = self@.memories;
        let mut fleeting: usize = 0;
        let mut permanent: usize = 0;
        let mut archived: usize = 0;
        let mut deprecated: usize = 0;
        let mut i: usize = 0;
        proof {
            reveal(Seq::filter);
            assert(rows.take(0).filter(has_status(MemoryStatus::Fleeting)).len() == 0);
            assert(rows.take(0).filter(has_status(MemoryStatus::Permanent)).len() == 0);
            assert(rows.take(0).filter(has_status(MemoryStatus::Archived)).len() == 0);
            assert(rows.take(0).filter(has_status(MemoryStatus::Deprecated)).len() == 0);
        }
        while i < self.memories.len()
            invariant
                i <= self.memories.len(),
                rows == self@.memories,
                fleeting == rows.take(i as int).filter(has_status(MemoryStatus::Fleeting)).len(),
                permanent == rows.take(i as int).filter(has_status(MemoryStatus::Permanent)).len(),
                archived == rows.take(i as int).filter(has_status(MemoryStatus::Archived)).len(),
                deprecated == rows.take(i as int).filter(
                    has_status(MemoryStatus::Deprecated),
                ).len(),
                fleeting + permanent + archived + deprecated == i,
            decreases self.memories.len() - i,
        {
            proof {
                assert(rows[i as int] == self.memories@[i as int]@);
                assert(rows.take(i + 1) =~= rows.take(i as int).push(rows[i as int]));
                crate::query::lemma_filter_push(
                    rows.take(i as int),
                    rows[i as int],
                    has_status(MemoryStatus::Fleeting),
                );
                crate::query::lemma_filter_push(
                    rows.take(i as int),
                    rows[i as int],
                    has_status(MemoryStatus::Permanent),
                );
                crate::query::lemma_filter_push(
                    rows.take(i as int),
                    rows[i as int],
                    has_status(MemoryStatus::Archived),
                );
                crate::query::lemma_filter_push(
                    rows.take(i as int),
                    rows[i as int],
                    has_status(MemoryStatus::Deprecated),
                );
            }
            match self.memories[i].status {
                MemoryStatus::Fleeting => {
                    fleeting += 1;
                },
                MemoryStatus::Permanent => {
                    permanent += 1;
                },
                MemoryStatus::Archived => {
                    archived += 1;
                },
                MemoryStatus::Deprecated => {
                    deprecated += 1;
                },
            }
            i += 1;
        }
        proof {
            assert(rows.take(self.memories.len() as int) =~= rows);
        }
        LifecycleStats {
            fleeting,
            permanent,
            archived,
            deprecated,
            total: fleeting + permanent + archived + deprecated,
        }
    }
}

} // verus!
