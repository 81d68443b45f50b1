//! Memories by project: everything filed under the areas and topics of one
//! project, its figures, and the projects that share entities with it.

use crate::clock::{rfc3339_days_ago, REACHABLE_DAYS};
use crate::dup::{dup_opt, opt_view, seq_view};
use crate::entities::{entities_in, entities_of};
use crate::hierarchy::{area_is, project_is, topic_is};
use crate::ids::{AreaId, ProjectId, TopicId, WorkspaceId};
use crate::memories::{memories_of, newest_first, str_less, take_memories};
use crate::order::lex_less;
use crate::query::{at_most, first_n, lemma_filter_push, saturated, select, sort_rows};
use crate::schemas::{Area, AreaView, Memory, MemoryView, Project, ProjectView, Topic, TopicView};
use crate::sidecar::{entry_index, lemma_entry_index, tally, tally_of, tokens_of, Tally, TallyView};
use crate::sorting::stable_sort;
use crate::store::{
    find_first, lemma_find_some, Database, DatabaseView, MemoryRow, MemoryRowView, StoreError,
};
use crate::text::{from_chars, same, to_chars, views};
use crate::wordsets::member;
use vstd::prelude::*;

verus! {

/// How many memories enter the count of a project's entities.
pub const ENTITY_SAMPLE: usize = 100;

/// How many entities a project's figures list.
pub const TOP_ENTITIES: usize = 10;

/// Figures for one project.
#[derive(Debug)]
pub struct ProjectSummary {
    pub project_id: ProjectId,
    pub project_name: String,
    pub project_description: Option<String>,
    pub memory_count: usize,
    pub topic_count: usize,
    pub area_count: usize,
    pub last_activity: Option<String>,
    pub top_entities: Vec<String>,
}

/// The value of a [`ProjectSummary`].
pub struct ProjectSummaryView {
    pub project_id: Seq<char>,
    pub project_name: Seq<char>,
    pub project_description: Option<Seq<char>>,
    pub memory_count: nat,
    pub topic_count: nat,
    pub area_count: nat,
    pub last_activity: Option<Seq<char>>,
    pub top_entities: Seq<Seq<char>>,
}

impl View for ProjectSummary {
    type V = ProjectSummaryView;

    open spec fn view(&self) -> ProjectSummaryView {
        ProjectSummaryView {
            project_id: self.project_id@,
            project_name: self.project_name@,
            project_description: opt_view(self.project_description),
            memory_count: self.memory_count as nat,
            topic_count: self.topic_count as nat,
            area_count: self.area_count as nat,
            last_activity: opt_view(self.last_activity),
            top_entities: seq_view(self.top_entities@),
        }
    }
}

/// A project with the entities of one of its memories.
pub struct ProjectEntities {
    pub project: ProjectId,
    pub entities: Vec<String>,
}

impl View for ProjectEntities {
    type V = (Seq<char>, Seq<Seq<char>>);

    open spec fn view(&self) -> (Seq<char>, Seq<Seq<char>>) {
        (self.project@, seq_view(self.entities@))
    }
}

/// The project belongs to the workspace `id`.
pub open spec fn in_workspace(id: Seq<char>) -> spec_fn(ProjectView) -> bool {
    |p: ProjectView| p.workspace_id == id
}

/// The topic belongs to the area `id`.
pub open spec fn topic_under(id: Seq<char>) -> spec_fn(TopicView) -> bool {
    |t: TopicView| t.area_id == id
}

/// The area belongs to the project `id`.
pub open spec fn area_in(id: Seq<char>) -> spec_fn(AreaView) -> bool {
    |a: AreaView| a.project_id == id
}

/// Number of elements of `ents` that occur in `current`.
pub open spec fn shared(ents: Seq<Seq<char>>, current: Seq<Seq<char>>) -> nat {
    ents.filter(|e: Seq<char>| current.contains(e)).len()
}

/// The entries with `s` added to the score of `token`, up to the greatest
/// `usize`.
pub open spec fn add_score(entries: Seq<TallyView>, token: Seq<char>, s: nat) -> Seq<TallyView> {
    let i = entry_index(entries, token) as int;
    if i < entries.len() {
        entries.update(i, TallyView { token, count: saturated(entries[i].count + s) })
    } else {
        entries.push(TallyView { token, count: s })
    }
}

/// For each project of the pairs that shares an entity with `current`, the
/// number of shared entities summed over its pairs, in the order of first
/// occurrence.
pub open spec fn scores(pairs: Seq<(Seq<char>, Seq<Seq<char>>)>, current: Seq<Seq<char>>) -> Seq<
    TallyView,
>
    decreases pairs.len(),
{
    if pairs.len() == 0 {
        Seq::empty()
    } else {
        let rest = scores(pairs.drop_last(), current);
        let s = shared(pairs.last().1, current);
        if s > 0 {
            add_score(rest, pairs.last().0, s)
        } else {
            rest
        }
    }
}

impl DatabaseView {
    /// The project of the area `id`.
    pub open spec fn project_of_area(self, id: Seq<char>) -> Option<Seq<char>> {
        match find_first(self.areas, area_is(id)) {
            Some(k) => Some(self.areas[k].project_id),
            None => None,
        }
    }

    /// The project of the topic `id`.
    pub open spec fn project_of_topic(self, id: Seq<char>) -> Option<Seq<char>> {
        match find_first(self.topics, topic_is(id)) {
            Some(i) => self.project_of_area(self.topics[i].area_id),
            None => None,
        }
    }

    /// The project under which the memory is filed.
    pub open spec fn project_of(self, r: MemoryRowView) -> Option<Seq<char>> {
        match r.memory.topic_id {
            Some(t) => self.project_of_topic(t),
            None => None,
        }
    }

    /// The memory is filed under the project `id`.
    pub open spec fn in_project(self, id: Seq<char>) -> spec_fn(MemoryRowView) -> bool {
        |r: MemoryRowView| self.project_of(r) == Some(id)
    }

    /// The memory is filed under the project `id` and was created after
    /// `from`.
    pub open spec fn in_project_after(self, id: Seq<char>, from: Seq<char>) -> spec_fn(
        MemoryRowView,
    ) -> bool {
        |r: MemoryRowView| self.project_of(r) == Some(id) && lex_less(from, r.memory.created_at)
    }

    /// The memory is filed under the project `id` and names an entity.
    pub open spec fn names_in_project(self, id: Seq<char>) -> spec_fn(MemoryRowView) -> bool {
        |r: MemoryRowView| self.project_of(r) == Some(id) && r.memory.entities.len() > 0
    }

    /// The topic belongs to an area of the project `id`.
    pub open spec fn topic_in(self, id: Seq<char>) -> spec_fn(TopicView) -> bool {
        |t: TopicView| self.project_of_area(t.area_id) == Some(id)
    }

    /// The projects of a workspace by name.
    pub open spec fn projects_of(self, workspace: Seq<char>) -> Seq<ProjectView> {
        stable_sort(
            self.projects.filter(in_workspace(workspace)),
            |a: ProjectView, b: ProjectView| lex_less(a.name, b.name),
        )
    }

    /// The areas of a project by name.
    pub open spec fn areas_of(self, project: Seq<char>) -> Seq<AreaView> {
        stable_sort(
            self.areas.filter(area_in(project)),
            |a: AreaView, b: AreaView| lex_less(a.name, b.name),
        )
    }

    /// The topics of an area by name.
    pub open spec fn topics_of(self, area: Seq<char>) -> Seq<TopicView> {
        stable_sort(
            self.topics.filter(topic_under(area)),
            |a: TopicView, b: TopicView| lex_less(a.name, b.name),
        )
    }

    /// The memories of a project, newest first.
    pub open spec fn project_memories(self, id: Seq<char>) -> Seq<MemoryView> {
        memories_of(newest_first(self.memories.filter(self.in_project(id))))
    }

    /// The memories of a project created after `from`, newest first.
    pub open spec fn project_activity(self, id: Seq<char>, from: Seq<char>) -> Seq<MemoryView> {
        memories_of(newest_first(self.memories.filter(self.in_project_after(id, from))))
    }

    /// The entities named most often by the first [`ENTITY_SAMPLE`]
    /// memories of a project that name any, at most [`TOP_ENTITIES`];
    /// entities of one count stand in the order of their first occurrence.
    pub open spec fn top_entities(self, id: Seq<char>) -> Seq<Seq<char>> {
        tokens_of(
            at_most(
                stable_sort(
                    tally(
                        entities_of(
                            at_most(
                                self.memories.filter(self.names_in_project(id)),
                                ENTITY_SAMPLE as nat,
                            ),
                        ),
                    ),
                    |a: TallyView, b: TallyView| a.count > b.count,
                ),
                TOP_ENTITIES as nat,
            ),
        )
    }

    /// The figures of the stored project `p`.
    pub open spec fn project_summary(self, p: ProjectView) -> ProjectSummaryView {
        let rows = self.memories.filter(self.in_project(p.id));
        let down = newest_first(rows);
        ProjectSummaryView {
            project_id: p.id,
            project_name: p.name,
            project_description: p.description,
            memory_count: rows.len(),
            topic_count: self.topics.filter(self.topic_in(p.id)).len(),
            area_count: self.areas.filter(area_in(p.id)).len(),
            last_activity: if down.len() > 0 {
                Some(down[0].memory.created_at)
            } else {
                None
            },
            top_entities: self.top_entities(p.id),
        }
    }

    /// The different pairs of a project other than `id` and the entities of
    /// one of its memories that names any, in the order of the rows.
    pub open spec fn foreign_pairs(self, rows: Seq<MemoryRowView>, id: Seq<char>) -> Seq<
        (Seq<char>, Seq<Seq<char>>),
    >
        decreases rows.len(),
    {
        if rows.len() == 0 {
            Seq::empty()
        } else {
            let rest = self.foreign_pairs(rows.drop_last(), id);
            let ents = rows.last().memory.entities;
            match self.project_of(rows.last()) {
                Some(q) => if q != id && ents.len() > 0 && !rest.contains((q, ents)) {
                    rest.push((q, ents))
                } else {
                    rest
                },
                None => rest,
            }
        }
    }

    /// The `limit` projects that share the most entities with the project
    /// `id`, each with the number of shared entities.
    pub open spec fn related_projects(self, id: Seq<char>, limit: nat) -> Seq<TallyView> {
        at_most(
            stable_sort(
                scores(
                    self.foreign_pairs(self.memories, id),
                    entities_of(self.memories.filter(self.names_in_project(id))),
                ),
                |a: TallyView, b: TallyView| a.count > b.count,
            ),
            limit,
        )
    }
}

/// Whether the two lists hold the same texts in the same order.
pub fn same_texts(a: &Vec<String>, b: &Vec<String>) -> (r: bool)
    ensures
        r == (seq_view(a@) == seq_view(b@)),
{
    if a.len() != b.len() {
        assert(seq_view(a@).len() != seq_view(b@).len());
        return false;
    }
    let mut i: usize = 0;
    while i < a.len()
        invariant
            i <= a.len(),
            a.len() == b.len(),
            forall|j: int| 0 <= j < i ==> a@[j]@ == b@[j]@,
        decreases a.len() - i,
    {
        if a[i] != b[i] {
            assert(seq_view(a@)[i as int] != seq_view(b@)[i as int]);
            return false;
        }
        i += 1;
    }
    assert(seq_view(a@) =~= seq_view(b@));
    true
}

/// Number of texts of `ents` that occur in `current`.
pub fn count_shared(ents: &Vec<String>, current: &Vec<Vec<char>>) -> (r: usize)
    ensures
        r == shared(seq_view(ents@), views(current@)),
{
    let ghost ev = seq_view(ents@);
    let ghost p = |e: Seq<char>| views(current@).contains(e);
    let mut n: usize = 0;
    let mut i: usize = 0;
    proof {
        reveal(Seq::filter);
        assert(ev.take(0).filter(p).len() == 0);
    }
    while i < ents.len()
        invariant
            i <= ents.len(),
            ev == seq_view(ents@),
            p == (|e: Seq<char>| views(current@).contains(e)),
            n == ev.take(i as int).filter(p).len(),
            n <= i,
        decreases ents.len() - i,
    {
        proof {
            assert(ev[i as int] == ents@[i as int]@);
            assert(ev.take(i + 1) =~= ev.take(i as int).push(ev[i as int]));
            lemma_filter_push(ev.take(i as int), ev[i as int], p);
        }
        let e = to_chars(ents[i].as_str());
        if member(current, &e) {
            n += 1;
        }
        i += 1;
    }
    proof {
        assert(ev.take(ents.len() as int) =~= ev);
    }
    n
}

impl Database {
    /// The project of the area `id`.
    pub fn project_of_area(&self, id: &AreaId) -> (r: Option<ProjectId>)
        ensures
            opt_view(r) == self@.project_of_area(id@),
    {
        match self.area_id_index(id) {
            Some(k) => {
                assert(self@.areas[k as int] == self.areas@[k as int]@);
                Some(self.areas[k].project_id.clone())
            },
            None => {
                proof {
                    lemma_find_some(self@.areas, area_is(id@));
                }
                None
            },
        }
    }

    /// The project of the topic `id`.
    pub fn project_of_topic(&self, id: &TopicId) -> (r: Option<ProjectId>)
        ensures
            opt_view(r) == self@.project_of_topic(id@),
    {
        match self.topic_id_index(id) {
            Some(i) => {
                assert(self@.topics[i as int] == self.topics@[i as int]@);
                self.project_of_area(&self.topics[i].area_id)
            },
            None => {
                proof {
                    lemma_find_some(self@.topics, topic_is(id@));
                }
                None
            },
        }
    }

    /// The project under which the memory is filed.
    fn project_of_row(&self, r: &MemoryRow) -> (o: Option<ProjectId>)
        ensures
            opt_view(o) == self@.project_of(r@),
    {
        match &r.memory.topic_id {
            Some(t) => self.project_of_topic(t),
            None => None,
        }
    }

    /// Whether the memory is filed under the project `id`.
    fn row_in_project(&self, r: &MemoryRow, id: &ProjectId) -> (o: bool)
        ensures
            o == (self@.project_of(r@) == Some(id@)),
    {
        match self.project_of_row(r) {
            Some(q) => q == *id,
            None => false,
        }
    }

    /// The projects of a workspace with their names, by name.
    pub fn get_projects_by_workspace(&self, workspace_id: &WorkspaceId) -> (r: Vec<
        (ProjectId, String),
    >)
        ensures
            seq_view(r@) == self@.projects_of(workspace_id@).map_values(
                |p: ProjectView| (p.id, p.name),
            ),
    {
        let ghost p = in_workspace(workspace_id@);
        let pick = |x: &Project| -> (o: bool)
            ensures
                o == p(x@),
            { x.workspace_id == *workspace_id };
        let rows = select(&self.projects, pick, Ghost(p));
        let ghost before = |a: ProjectView, b: ProjectView| lex_less(a.name, b.name);
        let first = |a: &Project, b: &Project| -> (o: bool)
            ensures
                o == before(a@, b@),
            { str_less(a.name.as_str(), b.name.as_str()) };
        let sorted = sort_rows(rows, first, Ghost(before));
        let ghost sv = seq_view(sorted@);
        let mut out: Vec<(ProjectId, String)> = Vec::new();
        let mut i: usize = 0;
        while i < sorted.len()
            invariant
                i <= sorted.len(),
                sv == seq_view(sorted@),
                out.len() == i,
                forall|j: int| 0 <= j < i ==> (#[trigger] out@[j])@ == (sv[j].id, sv[j].name),
            decreases sorted.len() - i,
        {
            assert(sv[i as int] == sorted@[i as int]@);
            out.push((sorted[i].id.clone(), sorted[i].name.clone()));
            i += 1;
        }
        assert(seq_view(out@) =~= sv.map_values(|p: ProjectView| (p.id, p.name)));
        out
    }

    /// The areas of a project with their names, by name.
    pub fn get_areas_by_project(&self, project_id: &ProjectId) -> (r: Vec<(AreaId, String)>)
        ensures
            seq_view(r@) == self@.areas_of(project_id@).map_values(|a: AreaView| (a.id, a.name)),
    {
        let ghost p = area_in(project_id@);
        let pick = |x: &Area| -> (o: bool)
            ensures
                o == p(x@),
            { x.project_id == *project_id };
        let rows = select(&self.areas, pick, Ghost(p));
        let ghost before = |a: AreaView, b: AreaView| lex_less(a.name, b.name);
        let first = |a: &Area, b: &Area| -> (o: bool)
            ensures
                o == before(a@, b@),
            { str_less(a.name.as_str(), b.name.as_str()) };
        let sorted = sort_rows(rows, first, Ghost(before));
        let ghost sv = seq_view(sorted@);
        let mut out: Vec<(AreaId, String)> = Vec::new();
        let mut i: usize = 0;
        while i < sorted.len()
            invariant
                i <= sorted.len(),
                sv == seq_view(sorted@),
                out.len() == i,
                forall|j: int| 0 <= j < i ==> (#[trigger] out@[j])@ == (sv[j].id, sv[j].name),
            decreases sorted.len() - i,
        {
            assert(sv[i as int] == sorted@[i as int]@);
            out.push((sorted[i].id.clone(), sorted[i].name.clone()));
            i += 1;
        }
        assert(seq_view(out@) =~= sv.map_values(|a: AreaView| (a.id, a.name)));
        out
    }

    /// The topics of an area with their names, by name.
    pub fn get_topics_by_area(&self, area_id: &AreaId) -> (r: Vec<(TopicId, String)>)
        ensures
            seq_view(r@) == self@.topics_of(area_id@).map_values(|t: TopicView| (t.id, t.name)),
    {
        let ghost p = topic_under(area_id@);
        let pick = |x: &Topic| -> (o: bool)
            ensures
                o == p(x@),
            { x.area_id == *area_id };
        let rows = select(&self.topics, pick, Ghost(p));
        let ghost before = |a: TopicView, b: TopicView| lex_less(a.name, b.name);
        let first = |a: &Topic, b: &Topic| -> (o: bool)
            ensures
                o == before(a@, b@),
            { str_less(a.name.as_str(), b.name.as_str()) };
        let sorted = sort_rows(rows, first, Ghost(before));
        let ghost sv = seq_view(sorted@);
        let mut out: Vec<(TopicId, String)> = Vec::new();
        let mut i: usize = 0;
        while i < sorted.len()
            invariant
                i <= sorted.len(),
                sv == seq_view(sorted@),
                out.len() == i,
                forall|j: int| 0 <= j < i ==> (#[trigger] out@[j])@ == (sv[j].id, sv[j].name),
            decreases sorted.len() - i,
        {
            assert(sv[i as int] == sorted@[i as int]@);
            out.push((sorted[i].id.clone(), sorted[i].name.clone()));
            i += 1;
        }
        assert(seq_view(out@) =~= sv.map_values(|t: TopicView| (t.id, t.name)));
        out
    }

    /// Copies of the rows of the memories of a project.
    fn rows_of_project(&self, project_id: &ProjectId) -> (r: Vec<MemoryRow>)
        ensures
            seq_view(r@) == self@.memories.filter(self@.in_project(project_id@)),
    {
        let ghost p = self@.in_project(project_id@);
        let pick = |r: &MemoryRow| -> (o: bool)
            ensures
                o == p(r@),
            { self.row_in_project(r, project_id) };
        select(&self.memories, pick, Ghost(p))
    }

    /// Copies of the rows of the memories of a project that name an entity.
    fn naming_rows_of_project(&self, project_id: &ProjectId) -> (r: Vec<MemoryRow>)
        ensures
            seq_view(r@) == self@.memories.filter(self@.names_in_project(project_id@)),
    {
        let ghost p = self@.names_in_project(project_id@);
        let pick = |r: &MemoryRow| -> (o: bool)
            ensures
                o == p(r@),
            {
                assert(r@.memory.entities.len() == r.memory.entities.len());
                self.row_in_project(r, project_id) && r.memory.entities.len() > 0
            };
        select(&self.memories, pick, Ghost(p))
    }

    /// The rows with the newest first.
    fn rows_latest_first(rows: Vec<MemoryRow>) -> (r: Vec<MemoryRow>)
        ensures
            seq_view(r@) == newest_first(seq_view(rows@)),
    {
        let ghost before = |a: MemoryRowView, b: MemoryRowView| crate::memories::newer(a, b);
        let later = |a: &MemoryRow, b: &MemoryRow| -> (o: bool)
            ensures
                o == before(a@, b@),
            { str_less(b.memory.created_at.as_str(), a.memory.created_at.as_str()) };
        sort_rows(rows, later, Ghost(before))
    }

    /// The memories of a project, newest first, cut to `limit` if one is
    /// given.
    pub fn get_project_memories(&self, project_id: &ProjectId, limit: Option<usize>) -> (r: Vec<
        Memory,
    >)
        ensures
            seq_view(r@) == match limit {
                Some(n) => at_most(self@.project_memories(project_id@), n as nat),
                None => self@.project_memories(project_id@),
            },
    {
        let rows = Self::rows_latest_first(self.rows_of_project(project_id));
        match limit {
            Some(n) => {
                let ghost all = seq_view(rows@);
                let cut = first_n(rows, n);
                assert(memories_of(at_most(all, n as nat)) =~= at_most(
                    memories_of(all),
                    n as nat,
                ));
                take_memories(cut)
            },
            None => take_memories(rows),
        }
    }

    /// The memories of a project created after `from`, newest first.
    pub fn get_project_activity_since(&self, project_id: &ProjectId, from: &str) -> (r: Vec<
        Memory,
    >)
        ensures
            seq_view(r@) == self@.project_activity(project_id@, from@),
    {
        let ghost p = self@.in_project_after(project_id@, from@);
        let pick = |r: &MemoryRow| -> (o: bool)
            ensures
                o == p(r@),
            {
                self.row_in_project(r, project_id) && str_less(
                    from,
                    r.memory.created_at.as_str(),
                )
            };
        take_memories(Self::rows_latest_first(select(&self.memories, pick, Ghost(p))))
    }

    /// The memories of a project created in the last `days` days, newest
    /// first. Fails with `BadRequest` where that many days ago is no
    /// representable date.
    pub fn get_project_activity(&self, project_id: &ProjectId, days: usize) -> (r: Result<
        Vec<Memory>,
        StoreError,
    >)
        ensures
            match r {
                Ok(ms) => exists|from: Seq<char>|
                    seq_view(ms@) == #[trigger] self@.project_activity(project_id@, from),
                Err(e) => e == StoreError::BadRequest,
            },
            days <= REACHABLE_DAYS ==> r is Ok,
            days > u32::MAX ==> r is Err,
    {
        if days > u32::MAX as usize {
            return Err(StoreError::BadRequest);
        }
        match rfc3339_days_ago(days as u32) {
            None => Err(StoreError::BadRequest),
            Some(from) => {
                let ms = self.get_project_activity_since(project_id, from.as_str());
                assert(seq_view(ms@) == self@.project_activity(project_id@, from@));
                Ok(ms)
            },
        }
    }

    /// The entities that the memories of a project name most often.
    pub fn get_top_entities(&self, project_id: &ProjectId) -> (r: Vec<String>)
        ensures
            seq_view(r@) == self@.top_entities(project_id@),
    {
        let sample = first_n(self.naming_rows_of_project(project_id), ENTITY_SAMPLE);
        let counted = tally_of(&entities_in(&sample));
        let ghost before = |a: TallyView, b: TallyView| a.count > b.count;
        let more = |a: &Tally, b: &Tally| -> (o: bool)
            ensures
                o == before(a@, b@),
            { a.count > b.count };
        let top = first_n(sort_rows(counted, more, Ghost(before)), TOP_ENTITIES);
        let ghost tv = seq_view(top@);
        let mut out: Vec<String> = Vec::new();
        let mut k: usize = 0;
        while k < top.len()
            invariant
                k <= top.len(),
                tv == seq_view(top@),
                out.len() == k,
                forall|j: int| 0 <= j < k ==> (#[trigger] out@[j])@ == tv[j].token,
            decreases top.len() - k,
        {
            assert(tv[k as int] == top@[k as int]@);
            out.push(from_chars(&top[k].token));
            k += 1;
        }
        assert(seq_view(out@) =~= tokens_of(tv));
        out
    }

    /// The figures of a project. Fails with `NotFound` for a project that is
    /// not stored.
    pub fn get_project_summary(&self, project_id: &ProjectId) -> (r: Result<
        ProjectSummary,
        StoreError,
    >)
        ensures
            match find_first(self@.projects, project_is(project_id@)) {
                Some(i) => r matches Ok(s) && s@ == self@.project_summary(self@.projects[i]),
                None => r == Err::<ProjectSummary, StoreError>(StoreError::NotFound),
            },
    {
        let i = match self.project_id_index(project_id) {
            Some(i) => i,
            None => {
                proof {
                    lemma_find_some(self@.projects, project_is(project_id@));
                }
                return Err(StoreError::NotFound);
            },
        };
        let p = &self.projects[i];
        proof {
            assert(self@.projects[i as int] == self.projects@[i as int]@);
            lemma_find_some(self@.projects, project_is(project_id@));
            assert(p@.id == project_id@);
        }
        let rows = self.rows_of_project(project_id);
        let memory_count = rows.len();
        let ghost pt = self@.topic_in(project_id@);
        let pick_topic = |t: &Topic| -> (o: bool)
            ensures
                o == pt(t@),
            {
                match self.project_of_area(&t.area_id) {
                    Some(q) => q == *project_id,
                    None => false,
                }
            };
        let topic_count = select(&self.topics, pick_topic, Ghost(pt)).len();
        let ghost pa = area_in(project_id@);
        let pick_area = |a: &Area| -> (o: bool)
            ensures
                o == pa(a@),
            { a.project_id == *project_id };
        let area_count = select(&self.areas, pick_area, Ghost(pa)).len();
        let down = Self::rows_latest_first(rows);
        let last_activity = if down.len() > 0 {
            assert(seq_view(down@)[0] == down@[0]@);
            Some(down[0].memory.created_at.clone())
        } else {
            None
        };
        assert(seq_view(down@).len() == down.len());
        Ok(
            ProjectSummary {
                project_id: p.id.clone(),
                project_name: p.name.clone(),
                project_description: dup_opt(&p.description),
                memory_count,
                topic_count,
                area_count,
                last_activity,
                top_entities: self.get_top_entities(project_id),
            },
        )
    }

    /// The different pairs of a project other than `id` and the entities of
    /// one of its memories that names any.
    fn foreign_pairs_of(&self, id: &ProjectId) -> (r: Vec<ProjectEntities>)
        ensures
            seq_view(r@) == self@.foreign_pairs(self@.memories, id@),
    {
        let ghost rows = self@.memories;
        let mut out: Vec<ProjectEntities> = Vec::new();
        let mut i: usize = 0;
        proof {
            assert(seq_view(out@) =~= self@.foreign_pairs(rows.take(0), id@));
        }
        while i < self.memories.len()
            invariant
                i <= self.memories.len(),
                rows == self@.memories,
                seq_view(out@) == self@.foreign_pairs(rows.take(i as int), id@),
            decreases self.memories.len() - i,
        {
            let ghost ov = seq_view(out@);
            let row = &self.memories[i];
            proof {
                assert(rows[i as int] == self.memories@[i as int]@);
                assert(rows.take(i + 1).drop_last() =~= rows.take(i as int));
                assert(rows.take(i + 1).last() == rows[i as int]);
                assert(row@.memory.entities.len() == row.memory.entities.len());
            }
            match self.project_of_row(row) {
                Some(q) => {
                    if q != *id && row.memory.entities.len() > 0 {
                        let ghost pair = (q@, row@.memory.entities);
                        let mut k: usize = 0;
                        while k < out.len() && !(out[k].project == q && same_texts(
                            &out[k].entities,
                            &row.memory.entities,
                        ))
                            invariant
                                k <= out.len(),
                                ov == seq_view(out@),
                                pair == (q@, row@.memory.entities),
                                forall|j: int| 0 <= j < k ==> ov[j] != pair,
                            decreases out.len() - k,
                        {
                            assert(ov[k as int] == out@[k as int]@);
                            k += 1;
                        }
                        if k == out.len() {
                            assert(!ov.contains(pair));
                            out.push(
                                ProjectEntities {
                                    project: q,
                                    entities: crate::dup::dup_vec(&row.memory.entities),
                                },
                            );
                            assert(seq_view(out@) =~= ov.push(pair));
                        } else {
                            assert(ov[k as int] == out@[k as int]@);
                            assert(ov[k as int] == pair);
                        }
                    }
                },
                None => {},
            }
            i += 1;
        }
        proof {
            assert(rows.take(self.memories.len() as int) =~= rows);
        }
        out
    }

    /// The `limit` projects that share the most entities with the project
    /// `id`, each with its name and the number of shared entities. Fails
    /// with `NotFound` if one of them is not stored.
    pub fn get_related_projects(&self, project_id: &ProjectId, limit: usize) -> (r: Result<
        Vec<(ProjectId, String, usize)>,
        StoreError,
    >)
        ensures
            match r {
                Ok(v) => {
                    let rel = self@.related_projects(project_id@, limit as nat);
                    &&& v.len() == rel.len()
                    &&& forall|i: int|
                        0 <= i < v.len() ==> (#[trigger] v@[i]).0@ == rel[i].token
                            && self@.project_name(rel[i].token) == Some(v@[i].1@) && v@[i].2
                            == rel[i].count
                },
                Err(e) => e == StoreError::NotFound && exists|i: int|
                    0 <= i < self@.related_projects(project_id@, limit as nat).len()
                        && self@.project_name(
                        (#[trigger] self@.related_projects(project_id@, limit as nat)[i]).token,
                    ) is None,
            },
    {
        let current = entities_in(&self.naming_rows_of_project(project_id));
        let pairs = self.foreign_pairs_of(project_id);
        let ghost pv = seq_view(pairs@);
        let ghost cv = views(current@);
        let mut entries: Vec<Tally> = Vec::new();
        let mut i: usize = 0;
        proof {
            assert(seq_view(entries@) =~= scores(pv.take(0), cv));
        }
        while i < pairs.len()
            invariant
                i <= pairs.len(),
                pv == seq_view(pairs@),
                cv == views(current@),
                seq_view(entries@) == scores(pv.take(i as int), cv),
            decreases pairs.len() - i,
        {
            let ghost es = seq_view(entries@);
            proof {
                assert(pv[i as int] == pairs@[i as int]@);
                assert(pv.take(i + 1).drop_last() =~= pv.take(i as int));
                assert(pv.take(i + 1).last() == pv[i as int]);
            }
            let s = count_shared(&pairs[i].entities, &current);
            if s > 0 {
                let token = to_chars(pairs[i].project.0.as_str());
                let mut k: usize = 0;
                while k < entries.len() && !same(&entries[k].token, &token)
                    invariant
                        k <= entries.len(),
                        es == seq_view(entries@),
                        forall|j: int| 0 <= j < k ==> es[j].token != token@,
                    decreases entries.len() - k,
                {
                    assert(es[k as int] == entries@[k as int]@);
                    k += 1;
                }
                proof {
                    if k < entries.len() {
                        assert(es[k as int] == entries@[k as int]@);
                    }
                    lemma_entry_index(es, token@, k as int);
                }
                if k < entries.len() {
                    let count = entries[k].count.saturating_add(s);
                    let e = Tally { token, count };
                    let ghost ev = e@;
                    entries.set(k, e);
                    assert(seq_view(entries@) =~= es.update(k as int, ev));
                } else {
                    let e = Tally { token, count: s };
                    let ghost ev = e@;
                    entries.push(e);
                    assert(seq_view(entries@) =~= es.push(ev));
                }
            }
            i += 1;
        }
        proof {
            assert(pv.take(pairs.len() as int) =~= pv);
        }
        let ghost before = |a: TallyView, b: TallyView| a.count > b.count;
        let more = |a: &Tally, b: &Tally| -> (o: bool)
            ensures
                o == before(a@, b@),
            { a.count > b.count };
        let best = first_n(sort_rows(entries, more, Ghost(before)), limit);
        let ghost rel = seq_view(best@);
        assert(rel == self@.related_projects(project_id@, limit as nat));
        let mut out: Vec<(ProjectId, String, usize)> = Vec::new();
        let mut k: usize = 0;
        while k < best.len()
            invariant
                k <= best.len(),
                rel == seq_view(best@),
                rel == self@.related_projects(project_id@, limit as nat),
                out.len() == k,
                forall|j: int|
                    0 <= j < k ==> (#[trigger] out@[j]).0@ == rel[j].token && self@.project_name(
                        rel[j].token,
                    ) == Some(out@[j].1@) && out@[j].2 == rel[j].count,
            decreases best.len() - k,
        {
            assert(rel[k as int] == best@[k as int]@);
            let id = ProjectId(from_chars(&best[k].token));
            match self.get_project_name(&id) {
                Some(name) => {
                    out.push((id, name, best[k].count));
                },
                None => {
                    assert(self@.project_name(
                        self@.related_projects(project_id@, limit as nat)[k as int].token,
                    ) is None);
                    return Err(StoreError::NotFound);
                },
            }
            k += 1;
        }
        assert(rel.len() == best.len());
        Ok(out)
    }
}

} // verus!
