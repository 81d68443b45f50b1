//! The four-level hierarchy: workspaces, projects, areas and topics, each
//! looked up by name within its parent and created on first use.

use crate::clock::now_rfc3339;
use crate::ids::{
    generate_area_id, generate_project_id, generate_topic_id, generate_workspace_id, is_generated,
    AreaId, ProjectId, TopicId, WorkspaceId,
};
use crate::relations::{opt_str_view, result_view};
use crate::schemas::{
    Area, AreaView, Project, ProjectStatus, ProjectView, Topic, TopicView, Workspace, WorkspaceView,
};
use crate::store::{
    any, distinct_keys, find_first, lemma_any_push, lemma_find_first, lemma_find_none,
    lemma_find_some, Database, DatabaseView, StoreError,
};
use vstd::prelude::*;

verus! {

/// `old` with rows added at the end.
pub open spec fn extends<T>(old: Seq<T>, new: Seq<T>) -> bool {
    old.len() <= new.len() && new.take(old.len() as int) == old
}

/// A lookup that succeeds keeps succeeding when rows are added.
pub proof fn lemma_any_extends<T>(old: Seq<T>, new: Seq<T>, p: spec_fn(T) -> bool)
    requires
        extends(old, new),
        any(old, p),
    ensures
        any(new, p),
{
    let i = choose|i: int| 0 <= i < old.len() && p(old[i]);
    assert(new.take(old.len() as int)[i] == new[i]);
}

/// A store that differs from a well-formed one only by added hierarchy rows
/// is well formed if identifiers and names are still unique and every new
/// row has its parent.
pub proof fn lemma_wf_after_hierarchy_growth(old: DatabaseView, new: DatabaseView)
    requires
        old.wf(),
        new.turns == old.turns,
        new.memories == old.memories,
        new.relations == old.relations,
        new.versions == old.versions,
        new.index_notes == old.index_notes,
        new.summaries == old.summaries,
        new.agentic == old.agentic,
        extends(old.workspaces, new.workspaces),
        extends(old.projects, new.projects),
        extends(old.areas, new.areas),
        extends(old.topics, new.topics),
        distinct_keys(new.workspaces, |r: WorkspaceView| r.id),
        distinct_keys(new.projects, |r: ProjectView| r.id),
        distinct_keys(new.areas, |r: AreaView| r.id),
        distinct_keys(new.topics, |r: TopicView| r.id),
        new.names_unique(),
        new.hierarchy_linked(),
    ensures
        new.wf(),
{
    assert(new.references_hold()) by {
        assert forall|i: int| 0 <= i < new.memories.len() implies match (
        #[trigger] new.memories[i]).memory.topic_id {
            Some(t) => new.has_topic(t),
            None => true,
        } by {
            match old.memories[i].memory.topic_id {
                Some(t) => {
                    lemma_any_extends(old.topics, new.topics, |x: TopicView| x.id == t);
                },
                None => {},
            }
        }
    }
}

/// The workspace row carries the name `name` in the store.
pub open spec fn workspace_named(name: Seq<char>) -> spec_fn(WorkspaceView) -> bool {
    |r: WorkspaceView| r.name == name
}

/// The workspace row has the identifier `id`.
pub open spec fn workspace_is(id: Seq<char>) -> spec_fn(WorkspaceView) -> bool {
    |r: WorkspaceView| r.id == id
}

impl DatabaseView {
    /// What looking a workspace up or creating it returns: the identifier of
    /// the stored workspace of that name; else `Conflict` if the new
    /// identifier is taken; else the new identifier.
    pub open spec fn workspace_outcome(self, name: Seq<char>, id: Seq<char>) -> Result<Seq<char>, StoreError> {
        match find_first(self.workspaces, workspace_named(name)) {
            Some(i) => Ok(self.workspaces[i].id),
            None => {
                if any(self.workspaces, workspace_is(id)) {
                    Err(StoreError::Conflict)
                } else {
                    Ok(id)
                }
            },
        }
    }

    /// Whether looking the workspace up stores a new row.
    pub open spec fn workspace_is_new(self, name: Seq<char>, id: Seq<char>) -> bool {
        &&& !any(self.workspaces, workspace_named(name))
        &&& !any(self.workspaces, workspace_is(id))
    }

    /// The store after looking a workspace up or creating it.
    pub open spec fn after_get_or_create_workspace(self, row: WorkspaceView) -> DatabaseView {
        if self.workspace_is_new(row.name, row.id) {
            DatabaseView { workspaces: self.workspaces.push(row), ..self }
        } else {
            self
        }
    }
}

/// Looking a workspace up or creating it keeps the store well formed.
pub proof fn get_or_create_workspace_keeps_wf(before: DatabaseView, row: WorkspaceView)
    requires
        before.wf(),
    ensures
        before.after_get_or_create_workspace(row).wf(),
{
    if before.workspace_is_new(row.name, row.id) {
        let after = before.after_get_or_create_workspace(row);
        let named = workspace_named(row.name);
        lemma_find_none(before.workspaces, named);
        lemma_find_none(before.workspaces, workspace_is(row.id));
        assert(after.workspaces.take(before.workspaces.len() as int) =~= before.workspaces);
        assert(after.workspaces.take(before.workspaces.len() as int) =~= before.workspaces);
        assert(after.projects.take(before.projects.len() as int) =~= before.projects);
        assert(after.areas.take(before.areas.len() as int) =~= before.areas);
        assert(after.topics.take(before.topics.len() as int) =~= before.topics);
        assert(distinct_keys(after.workspaces, |r: WorkspaceView| r.id)) by {
            assert forall|i: int, j: int| 0 <= i < j < after.workspaces.len() implies after.workspaces[i].id
                != after.workspaces[j].id by {
                if j == before.workspaces.len() {
                    assert(!workspace_is(row.id)(before.workspaces[i]));
                } else {
                    assert(before.workspaces[i].id != before.workspaces[j].id);
                }
            }
        }
        assert(after.names_unique()) by {
            let key = |r: WorkspaceView| r.name;
            assert forall|i: int, j: int| 0 <= i < j < after.workspaces.len() implies key(after.workspaces[i])
                != key(after.workspaces[j]) by {
                if j == before.workspaces.len() {
                    assert(!named(before.workspaces[i]));
                } else {
                    assert(key(before.workspaces[i]) != key(before.workspaces[j]));
                }
            }
        }
        assert(after.hierarchy_linked()) by {
            assert forall|i: int| 0 <= i < after.projects.len() implies any(
                after.workspaces,
                |w: WorkspaceView| w.id == (#[trigger] after.projects[i]).workspace_id,
            ) by {
                let q = |w: WorkspaceView| w.id == after.projects[i].workspace_id;
                if i < before.projects.len() {
                    assert(after.projects[i] == before.projects[i]);
                    lemma_any_extends(before.workspaces, after.workspaces, q);
                }
            }
            assert forall|i: int| 0 <= i < after.areas.len() implies any(
                after.projects,
                |p: ProjectView| p.id == (#[trigger] after.areas[i]).project_id,
            ) by {
                let q = |p: ProjectView| p.id == after.areas[i].project_id;
                if i < before.areas.len() {
                    assert(after.areas[i] == before.areas[i]);
                    lemma_any_extends(before.projects, after.projects, q);
                }
            }
            assert forall|i: int| 0 <= i < after.topics.len() implies any(
                after.areas,
                |a: AreaView| a.id == (#[trigger] after.topics[i]).area_id,
            ) by {
                let q = |a: AreaView| a.id == after.topics[i].area_id;
                if i < before.topics.len() {
                    assert(after.topics[i] == before.topics[i]);
                    lemma_any_extends(before.areas, after.areas, q);
                }
            }
        }
        lemma_wf_after_hierarchy_growth(before, after);
    }
}

/// Looking the same workspace up again returns the same identifier and stores
/// nothing: after the first lookup exactly one workspace carries the name.
pub proof fn get_or_create_workspace_is_idempotent(db: DatabaseView, first: WorkspaceView, second: WorkspaceView)
    requires
        db.wf(),
        second.name == first.name,
        db.workspace_outcome(first.name, first.id) is Ok,
    ensures
        ({
            let once = db.after_get_or_create_workspace(first);
            &&& once.workspace_outcome(first.name, second.id) == db.workspace_outcome(
                first.name,
                first.id,
            )
            &&& once.after_get_or_create_workspace(second) == once
            &&& once.workspaces.filter(workspace_named(first.name)).len() == 1
        }),
{
    let named = workspace_named(first.name);
    let once = db.after_get_or_create_workspace(first);
    get_or_create_workspace_keeps_wf(db, first);
    lemma_find_some(db.workspaces, named);
    lemma_any_push(db.workspaces, first, named);
    lemma_find_some(once.workspaces, named);
    let i = find_first(once.workspaces, named)->0;
    let key = |r: WorkspaceView| r.name;
    assert forall|j: int| 0 <= j < once.workspaces.len() && j != i implies !named(once.workspaces[j]) by {
        if j < i {
            assert(key(once.workspaces[j]) != key(once.workspaces[i]));
        } else {
            assert(key(once.workspaces[i]) != key(once.workspaces[j]));
        }
    }
    crate::laws::lemma_single_match(once.workspaces, named, i);
}

impl Database {
    /// Index of the stored workspace with the identifier `id`.
    pub(crate) fn workspace_id_index(&self, id: &WorkspaceId) -> (r: Option<usize>)
        ensures
            match r {
                Some(i) => i < self.workspaces.len() && find_first(self@.workspaces, workspace_is(id@)) == Some(
                    i as int,
                ),
                None => !any(self@.workspaces, workspace_is(id@)),
            },
    {
        let mut i: usize = 0;
        let ghost rows = self@.workspaces;
        while i < self.workspaces.len()
            invariant
                i <= self.workspaces.len(),
                rows == self@.workspaces,
                forall|j: int| 0 <= j < i ==> !workspace_is(id@)(rows[j]),
            decreases self.workspaces.len() - i,
        {
            assert(rows[i as int] == self.workspaces@[i as int]@);
            if self.workspaces[i].id == *id {
                proof {
                    lemma_find_first(rows, workspace_is(id@), i as int);
                }
                return Some(i);
            }
            i += 1;
        }
        proof {
            lemma_find_none(rows, workspace_is(id@));
        }
        None
    }

    /// Index of the stored workspace with the name `name`.
    pub(crate) fn workspace_name_index(&self, name: &str) -> (r: Option<usize>)
        ensures
            match r {
                Some(i) => i < self.workspaces.len() && find_first(
                    self@.workspaces,
                    workspace_named(name@),
                ) == Some(i as int),
                None => !any(self@.workspaces, workspace_named(name@)),
            },
    {
        let mut i: usize = 0;
        let ghost rows = self@.workspaces;
        let ghost named = workspace_named(name@);
        let wanted = name.to_owned();
        while i < self.workspaces.len()
            invariant
                i <= self.workspaces.len(),
                rows == self@.workspaces,
                wanted@ == name@,
                named == workspace_named(name@),
                forall|j: int| 0 <= j < i ==> !named(rows[j]),
            decreases self.workspaces.len() - i,
        {
            assert(rows[i as int] == self.workspaces@[i as int]@);
            if self.workspaces[i].name == wanted {
                proof {
                    lemma_find_first(rows, named, i as int);
                }
                return Some(i);
            }
            i += 1;
        }
        proof {
            lemma_find_none(rows, named);
        }
        None
    }

    /// Returns the workspace named `name`, creating it under the
    /// identifier `id`, stamped `now`, if there is none.
    pub fn get_or_create_workspace_with(
        &mut self,
        name: &str,
        description: Option<&str>,
        id: WorkspaceId,
        now: &str,
    ) -> (r: Result<WorkspaceId, StoreError>)
        requires
            old(self)@.wf(),
        ensures
            final(self)@.wf(),
            result_view(r) == old(self)@.workspace_outcome(name@, id@),
            final(self)@ == old(self)@.after_get_or_create_workspace(
                WorkspaceView {
                    id: id@,
                    name: name@,
                    description: opt_str_view(description),
                    created_at: now@,
                    updated_at: now@,
                },
            ),
    {
        let ghost before = self@;
        match self.workspace_name_index(name) {
            Some(i) => {
                assert(before.workspaces[i as int] == self.workspaces@[i as int]@);
                return Ok(self.workspaces[i].id.clone());
            },
            None => {},
        }
        proof {
            lemma_find_none(before.workspaces, workspace_named(name@));
        }
        if self.workspace_id_index(&id).is_some() {
            return Err(StoreError::Conflict);
        }
        let row = Workspace {
            id: id.clone(),
            name: name.to_owned(),
            description: match description {
                Some(s) => Some(s.to_owned()),
                None => None,
            },
            created_at: now.to_owned(),
            updated_at: now.to_owned(),
        };
        let ghost rv = row@;
        self.workspaces.push(row);
        proof {
            assert(self@.workspaces =~= before.workspaces.push(rv));
            assert(self@ == before.after_get_or_create_workspace(rv));
            get_or_create_workspace_keeps_wf(before, rv);
        }
        Ok(id)
    }

    /// Returns the workspace named `name`, creating it under a
    /// fresh identifier, stamped with the current time, if there is none.
    pub fn get_or_create_workspace(
        &mut self,
        name: &str,
        description: Option<&str>,
    ) -> (r: Result<WorkspaceId, StoreError>)
        requires
            old(self)@.wf(),
        ensures
            final(self)@.wf(),
            exists|id: Seq<char>, now: Seq<char>|
                {
                    &&& is_generated(id, "ws_"@)
                    &&& result_view(r) == old(self)@.workspace_outcome(name@, id)
                    &&& final(self)@ == #[trigger] old(self)@.after_get_or_create_workspace(
                        WorkspaceView {
                            id,
                            name: name@,
                            description: opt_str_view(description),
                            created_at: now,
                            updated_at: now,
                        },
                    )
                },
    {
        let id = generate_workspace_id();
        let now = now_rfc3339();
        let ghost idv = id@;
        let ghost nowv = now@;
        let r = self.get_or_create_workspace_with(name, description, id, now.as_str());
        assert(self@ == old(self)@.after_get_or_create_workspace(
            WorkspaceView {
                id: idv,
                name: name@,
                description: opt_str_view(description),
                created_at: nowv,
                updated_at: nowv,
            },
        ));
        r
    }
}

/// The project row carries the name `name` within the workspace `parent`.
pub open spec fn project_named(parent: Seq<char>, name: Seq<char>) -> spec_fn(ProjectView) -> bool {
    |r: ProjectView| r.workspace_id == parent && r.name == name
}

/// The project row has the identifier `id`.
pub open spec fn project_is(id: Seq<char>) -> spec_fn(ProjectView) -> bool {
    |r: ProjectView| r.id == id
}

impl DatabaseView {
    /// What looking a project up or creating it returns: the identifier of
    /// the stored project of that name; else `NotFound` if the parent is missing, `Conflict` if the new
    /// identifier is taken; else the new identifier.
    pub open spec fn project_outcome(self, parent: Seq<char>, name: Seq<char>, id: Seq<char>) -> Result<Seq<char>, StoreError> {
        match find_first(self.projects, project_named(parent, name)) {
            Some(i) => Ok(self.projects[i].id),
            None => {
                if !any(self.workspaces, |r: WorkspaceView| r.id == parent) {
                    Err(StoreError::NotFound)
                } else if any(self.projects, project_is(id)) {
                    Err(StoreError::Conflict)
                } else {
                    Ok(id)
                }
            },
        }
    }

    /// Whether looking the project up stores a new row.
    pub open spec fn project_is_new(self, parent: Seq<char>, name: Seq<char>, id: Seq<char>) -> bool {
        &&& !any(self.projects, project_named(parent, name))
        &&& any(self.workspaces, |r: WorkspaceView| r.id == parent)
        &&& !any(self.projects, project_is(id))
    }

    /// The store after looking a project up or creating it.
    pub open spec fn after_get_or_create_project(self, row: ProjectView) -> DatabaseView {
        if self.project_is_new(row.workspace_id, row.name, row.id) {
            DatabaseView { projects: self.projects.push(row), ..self }
        } else {
            self
        }
    }
}

/// Looking a project up or creating it keeps the store well formed.
pub proof fn get_or_create_project_keeps_wf(before: DatabaseView, row: ProjectView)
    requires
        before.wf(),
    ensures
        before.after_get_or_create_project(row).wf(),
{
    if before.project_is_new(row.workspace_id, row.name, row.id) {
        let after = before.after_get_or_create_project(row);
        let named = project_named(row.workspace_id, row.name);
        lemma_find_none(before.projects, named);
        lemma_find_none(before.projects, project_is(row.id));
        assert(after.projects.take(before.projects.len() as int) =~= before.projects);
        assert(after.workspaces.take(before.workspaces.len() as int) =~= before.workspaces);
        assert(after.projects.take(before.projects.len() as int) =~= before.projects);
        assert(after.areas.take(before.areas.len() as int) =~= before.areas);
        assert(after.topics.take(before.topics.len() as int) =~= before.topics);
        assert(distinct_keys(after.projects, |r: ProjectView| r.id)) by {
            assert forall|i: int, j: int| 0 <= i < j < after.projects.len() implies after.projects[i].id
                != after.projects[j].id by {
                if j == before.projects.len() {
                    assert(!project_is(row.id)(before.projects[i]));
                } else {
                    assert(before.projects[i].id != before.projects[j].id);
                }
            }
        }
        assert(after.names_unique()) by {
            let key = |r: ProjectView| (r.workspace_id, r.name);
            assert forall|i: int, j: int| 0 <= i < j < after.projects.len() implies key(after.projects[i])
                != key(after.projects[j]) by {
                if j == before.projects.len() {
                    assert(!named(before.projects[i]));
                } else {
                    assert(key(before.projects[i]) != key(before.projects[j]));
                }
            }
        }
        assert(after.hierarchy_linked()) by {
            assert forall|i: int| 0 <= i < after.projects.len() implies any(
                after.workspaces,
                |w: WorkspaceView| w.id == (#[trigger] after.projects[i]).workspace_id,
            ) by {
                let q = |w: WorkspaceView| w.id == after.projects[i].workspace_id;
                if i < before.projects.len() {
                    assert(after.projects[i] == before.projects[i]);
                    lemma_any_extends(before.workspaces, after.workspaces, q);
                }
            }
            assert forall|i: int| 0 <= i < after.areas.len() implies any(
                after.projects,
                |p: ProjectView| p.id == (#[trigger] after.areas[i]).project_id,
            ) by {
                let q = |p: ProjectView| p.id == after.areas[i].project_id;
                if i < before.areas.len() {
                    assert(after.areas[i] == before.areas[i]);
                    lemma_any_extends(before.projects, after.projects, q);
                }
            }
            assert forall|i: int| 0 <= i < after.topics.len() implies any(
                after.areas,
                |a: AreaView| a.id == (#[trigger] after.topics[i]).area_id,
            ) by {
                let q = |a: AreaView| a.id == after.topics[i].area_id;
                if i < before.topics.len() {
                    assert(after.topics[i] == before.topics[i]);
                    lemma_any_extends(before.areas, after.areas, q);
                }
            }
        }
        lemma_wf_after_hierarchy_growth(before, after);
    }
}

/// Looking the same project up again returns the same identifier and stores
/// nothing: after the first lookup exactly one project carries the name.
pub proof fn get_or_create_project_is_idempotent(db: DatabaseView, first: ProjectView, second: ProjectView)
    requires
        db.wf(),
        second.workspace_id == first.workspace_id,
        second.name == first.name,
        db.project_outcome(first.workspace_id, first.name, first.id) is Ok,
    ensures
        ({
            let once = db.after_get_or_create_project(first);
            &&& once.project_outcome(first.workspace_id, first.name, second.id) == db.project_outcome(
                first.workspace_id, first.name,
                first.id,
            )
            &&& once.after_get_or_create_project(second) == once
            &&& once.projects.filter(project_named(first.workspace_id, first.name)).len() == 1
        }),
{
    let named = project_named(first.workspace_id, first.name);
    let once = db.after_get_or_create_project(first);
    get_or_create_project_keeps_wf(db, first);
    lemma_find_some(db.projects, named);
    lemma_any_push(db.projects, first, named);
    lemma_find_some(once.projects, named);
    let i = find_first(once.projects, named)->0;
    let key = |r: ProjectView| (r.workspace_id, r.name);
    assert forall|j: int| 0 <= j < once.projects.len() && j != i implies !named(once.projects[j]) by {
        if j < i {
            assert(key(once.projects[j]) != key(once.projects[i]));
        } else {
            assert(key(once.projects[i]) != key(once.projects[j]));
        }
    }
    crate::laws::lemma_single_match(once.projects, named, i);
}

impl Database {
    /// Index of the stored project with the identifier `id`.
    pub(crate) fn project_id_index(&self, id: &ProjectId) -> (r: Option<usize>)
        ensures
            match r {
                Some(i) => i < self.projects.len() && find_first(self@.projects, project_is(id@)) == Some(
                    i as int,
                ),
                None => !any(self@.projects, project_is(id@)),
            },
    {
        let mut i: usize = 0;
        let ghost rows = self@.projects;
        while i < self.projects.len()
            invariant
                i <= self.projects.len(),
                rows == self@.projects,
                forall|j: int| 0 <= j < i ==> !project_is(id@)(rows[j]),
            decreases self.projects.len() - i,
        {
            assert(rows[i as int] == self.projects@[i as int]@);
            if self.projects[i].id == *id {
                proof {
                    lemma_find_first(rows, project_is(id@), i as int);
                }
                return Some(i);
            }
            i += 1;
        }
        proof {
            lemma_find_none(rows, project_is(id@));
        }
        None
    }

    /// Index of the stored project with the name `name` under `parent`.
    pub(crate) fn project_name_index(&self, parent: &WorkspaceId, name: &str) -> (r: Option<usize>)
        ensures
            match r {
                Some(i) => i < self.projects.len() && find_first(
                    self@.projects,
                    project_named(parent@, name@),
                ) == Some(i as int),
                None => !any(self@.projects, project_named(parent@, name@)),
            },
    {
        let mut i: usize = 0;
        let ghost rows = self@.projects;
        let ghost named = project_named(parent@, name@);
        let wanted = name.to_owned();
        while i < self.projects.len()
            invariant
                i <= self.projects.len(),
                rows == self@.projects,
                wanted@ == name@,
                named == project_named(parent@, name@),
                forall|j: int| 0 <= j < i ==> !named(rows[j]),
            decreases self.projects.len() - i,
        {
            assert(rows[i as int] == self.projects@[i as int]@);
            if self.projects[i].workspace_id == *parent && self.projects[i].name == wanted {
                proof {
                    lemma_find_first(rows, named, i as int);
                }
                return Some(i);
            }
            i += 1;
        }
        proof {
            lemma_find_none(rows, named);
        }
        None
    }

    /// Returns the project named `name` under `workspace_id`, creating it under the
    /// identifier `id`, stamped `now`, if there is none.
    pub fn get_or_create_project_with(
        &mut self,
        workspace_id: &WorkspaceId,
        name: &str,
        description: Option<&str>,
        status: ProjectStatus,
        id: ProjectId,
        now: &str,
    ) -> (r: Result<ProjectId, StoreError>)
        requires
            old(self)@.wf(),
        ensures
            final(self)@.wf(),
            result_view(r) == old(self)@.project_outcome(workspace_id@, name@, id@),
            final(self)@ == old(self)@.after_get_or_create_project(
                ProjectView {
                    id: id@,
                    workspace_id: workspace_id@,
                    name: name@,
                    description: opt_str_view(description),
                    status: status,
                    created_at: now@,
                    updated_at: now@,
                },
            ),
    {
        let ghost before = self@;
        match self.project_name_index(workspace_id, name) {
            Some(i) => {
                assert(before.projects[i as int] == self.projects@[i as int]@);
                return Ok(self.projects[i].id.clone());
            },
            None => {},
        }
        proof {
            lemma_find_none(before.projects, project_named(workspace_id@, name@));
        }
        if self.workspace_id_index(workspace_id).is_none() {
            return Err(StoreError::NotFound);
        }
        if self.project_id_index(&id).is_some() {
            return Err(StoreError::Conflict);
        }
        let row = Project {
            id: id.clone(),
            workspace_id: workspace_id.clone(),
            name: name.to_owned(),
            description: match description {
                Some(s) => Some(s.to_owned()),
                None => None,
            },
            status: status,
            created_at: now.to_owned(),
            updated_at: now.to_owned(),
        };
        let ghost rv = row@;
        self.projects.push(row);
        proof {
            assert(self@.projects =~= before.projects.push(rv));
            assert(self@ == before.after_get_or_create_project(rv));
            get_or_create_project_keeps_wf(before, rv);
        }
        Ok(id)
    }

    /// Returns the project named `name` under `workspace_id`, creating it under a
    /// fresh identifier, stamped with the current time, if there is none.
    pub fn get_or_create_project(
        &mut self,
        workspace_id: &WorkspaceId,
        name: &str,
        description: Option<&str>,
        status: ProjectStatus,
    ) -> (r: Result<ProjectId, StoreError>)
        requires
            old(self)@.wf(),
        ensures
            final(self)@.wf(),
            exists|id: Seq<char>, now: Seq<char>|
                {
                    &&& is_generated(id, "proj_"@)
                    &&& result_view(r) == old(self)@.project_outcome(workspace_id@, name@, id)
                    &&& final(self)@ == #[trigger] old(self)@.after_get_or_create_project(
                        ProjectView {
                            id,
                            workspace_id: workspace_id@,
                            name: name@,
                            description: opt_str_view(description),
                            status: status,
                            created_at: now,
                            updated_at: now,
                        },
                    )
                },
    {
        let id = generate_project_id();
        let now = now_rfc3339();
        let ghost idv = id@;
        let ghost nowv = now@;
        let r = self.get_or_create_project_with(workspace_id, name, description, status, id, now.as_str());
        assert(self@ == old(self)@.after_get_or_create_project(
            ProjectView {
                id: idv,
                workspace_id: workspace_id@,
                name: name@,
                description: opt_str_view(description),
                status: status,
                created_at: nowv,
                updated_at: nowv,
            },
        ));
        r
    }
}

/// The area row carries the name `name` within the project `parent`.
pub open spec fn area_named(parent: Seq<char>, name: Seq<char>) -> spec_fn(AreaView) -> bool {
    |r: AreaView| r.project_id == parent && r.name == name
}

/// The area row has the identifier `id`.
pub open spec fn area_is(id: Seq<char>) -> spec_fn(AreaView) -> bool {
    |r: AreaView| r.id == id
}

impl DatabaseView {
    /// What looking a area up or creating it returns: the identifier of
    /// the stored area of that name; else `NotFound` if the parent is missing, `Conflict` if the new
    /// identifier is taken; else the new identifier.
    pub open spec fn area_outcome(self, parent: Seq<char>, name: Seq<char>, id: Seq<char>) -> Result<Seq<char>, StoreError> {
        match find_first(self.areas, area_named(parent, name)) {
            Some(i) => Ok(self.areas[i].id),
            None => {
                if !any(self.projects, |r: ProjectView| r.id == parent) {
                    Err(StoreError::NotFound)
                } else if any(self.areas, area_is(id)) {
                    Err(StoreError::Conflict)
                } else {
                    Ok(id)
                }
            },
        }
    }

    /// Whether looking the area up stores a new row.
    pub open spec fn area_is_new(self, parent: Seq<char>, name: Seq<char>, id: Seq<char>) -> bool {
        &&& !any(self.areas, area_named(parent, name))
        &&& any(self.projects, |r: ProjectView| r.id == parent)
        &&& !any(self.areas, area_is(id))
    }

    /// The store after looking a area up or creating it.
    pub open spec fn after_get_or_create_area(self, row: AreaView) -> DatabaseView {
        if self.area_is_new(row.project_id, row.name, row.id) {
            DatabaseView { areas: self.areas.push(row), ..self }
        } else {
            self
        }
    }
}

/// Looking a area up or creating it keeps the store well formed.
pub proof fn get_or_create_area_keeps_wf(before: DatabaseView, row: AreaView)
    requires
        before.wf(),
    ensures
        before.after_get_or_create_area(row).wf(),
{
    if before.area_is_new(row.project_id, row.name, row.id) {
        let after = before.after_get_or_create_area(row);
        let named = area_named(row.project_id, row.name);
        lemma_find_none(before.areas, named);
        lemma_find_none(before.areas, area_is(row.id));
        assert(after.areas.take(before.areas.len() as int) =~= before.areas);
        assert(after.workspaces.take(before.workspaces.len() as int) =~= before.workspaces);
        assert(after.projects.take(before.projects.len() as int) =~= before.projects);
        assert(after.areas.take(before.areas.len() as int) =~= before.areas);
        assert(after.topics.take(before.topics.len() as int) =~= before.topics);
        assert(distinct_keys(after.areas, |r: AreaView| r.id)) by {
            assert forall|i: int, j: int| 0 <= i < j < after.areas.len() implies after.areas[i].id
                != after.areas[j].id by {
                if j == before.areas.len() {
                    assert(!area_is(row.id)(before.areas[i]));
                } else {
                    assert(before.areas[i].id != before.areas[j].id);
                }
            }
        }
        assert(after.names_unique()) by {
            let key = |r: AreaView| (r.project_id, r.name);
            assert forall|i: int, j: int| 0 <= i < j < after.areas.len() implies key(after.areas[i])
                != key(after.areas[j]) by {
                if j == before.areas.len() {
                    assert(!named(before.areas[i]));
                } else {
                    assert(key(before.areas[i]) != key(before.areas[j]));
                }
            }
        }
        assert(after.hierarchy_linked()) by {
            assert forall|i: int| 0 <= i < after.projects.len() implies any(
                after.workspaces,
                |w: WorkspaceView| w.id == (#[trigger] after.projects[i]).workspace_id,
            ) by {
                let q = |w: WorkspaceView| w.id == after.projects[i].workspace_id;
                if i < before.projects.len() {
                    assert(after.projects[i] == before.projects[i]);
                    lemma_any_extends(before.workspaces, after.workspaces, q);
                }
            }
            assert forall|i: int| 0 <= i < after.areas.len() implies any(
                after.projects,
                |p: ProjectView| p.id == (#[trigger] after.areas[i]).project_id,
            ) by {
                let q = |p: ProjectView| p.id == after.areas[i].project_id;
                if i < before.areas.len() {
                    assert(after.areas[i] == before.areas[i]);
                    lemma_any_extends(before.projects, after.projects, q);
                }
            }
            assert forall|i: int| 0 <= i < after.topics.len() implies any(
                after.areas,
                |a: AreaView| a.id == (#[trigger] after.topics[i]).area_id,
            ) by {
                let q = |a: AreaView| a.id == after.topics[i].area_id;
                if i < before.topics.len() {
                    assert(after.topics[i] == before.topics[i]);
                    lemma_any_extends(before.areas, after.areas, q);
                }
            }
        }
        lemma_wf_after_hierarchy_growth(before, after);
    }
}

/// Looking the same area up again returns the same identifier and stores
/// nothing: after the first lookup exactly one area carries the name.
pub proof fn get_or_create_area_is_idempotent(db: DatabaseView, first: AreaView, second: AreaView)
    requires
        db.wf(),
        second.project_id == first.project_id,
        second.name == first.name,
        db.area_outcome(first.project_id, first.name, first.id) is Ok,
    ensures
        ({
            let once = db.after_get_or_create_area(first);
            &&& once.area_outcome(first.project_id, first.name, second.id) == db.area_outcome(
                first.project_id, first.name,
                first.id,
            )
            &&& once.after_get_or_create_area(second) == once
            &&& once.areas.filter(area_named(first.project_id, first.name)).len() == 1
        }),
{
    let named = area_named(first.project_id, first.name);
    let once = db.after_get_or_create_area(first);
    get_or_create_area_keeps_wf(db, first);
    lemma_find_some(db.areas, named);
    lemma_any_push(db.areas, first, named);
    lemma_find_some(once.areas, named);
    let i = find_first(once.areas, named)->0;
    let key = |r: AreaView| (r.project_id, r.name);
    assert forall|j: int| 0 <= j < once.areas.len() && j != i implies !named(once.areas[j]) by {
        if j < i {
            assert(key(once.areas[j]) != key(once.areas[i]));
        } else {
            assert(key(once.areas[i]) != key(once.areas[j]));
        }
    }
    crate::laws::lemma_single_match(once.areas, named, i);
}

impl Database {
    /// Index of the stored area with the identifier `id`.
    pub(crate) fn area_id_index(&self, id: &AreaId) -> (r: Option<usize>)
        ensures
            match r {
                Some(i) => i < self.areas.len() && find_first(self@.areas, area_is(id@)) == Some(
                    i as int,
                ),
                None => !any(self@.areas, area_is(id@)),
            },
    {
        let mut i: usize = 0;
        let ghost rows = self@.areas;
        while i < self.areas.len()
            invariant
                i <= self.areas.len(),
                rows == self@.areas,
                forall|j: int| 0 <= j < i ==> !area_is(id@)(rows[j]),
            decreases self.areas.len() - i,
        {
            assert(rows[i as int] == self.areas@[i as int]@);
            if self.areas[i].id == *id {
                proof {
                    lemma_find_first(rows, area_is(id@), i as int);
                }
                return Some(i);
            }
            i += 1;
        }
        proof {
            lemma_find_none(rows, area_is(id@));
        }
        None
    }

    /// Index of the stored area with the name `name` under `parent`.
    pub(crate) fn area_name_index(&self, parent: &ProjectId, name: &str) -> (r: Option<usize>)
        ensures
            match r {
                Some(i) => i < self.areas.len() && find_first(
                    self@.areas,
                    area_named(parent@, name@),
                ) == Some(i as int),
                None => !any(self@.areas, area_named(parent@, name@)),
            },
    {
        let mut i: usize = 0;
        let ghost rows = self@.areas;
        let ghost named = area_named(parent@, name@);
        let wanted = name.to_owned();
        while i < self.areas.len()
            invariant
                i <= self.areas.len(),
                rows == self@.areas,
                wanted@ == name@,
                named == area_named(parent@, name@),
                forall|j: int| 0 <= j < i ==> !named(rows[j]),
            decreases self.areas.len() - i,
        {
            assert(rows[i as int] == self.areas@[i as int]@);
            if self.areas[i].project_id == *parent && self.areas[i].name == wanted {
                proof {
                    lemma_find_first(rows, named, i as int);
                }
                return Some(i);
            }
            i += 1;
        }
        proof {
            lemma_find_none(rows, named);
        }
        None
    }

    /// Returns the area named `name` under `project_id`, creating it under the
    /// identifier `id`, stamped `now`, if there is none.
    pub fn get_or_create_area_with(
        &mut self,
        project_id: &ProjectId,
        name: &str,
        description: Option<&str>,
        id: AreaId,
        now: &str,
    ) -> (r: Result<AreaId, StoreError>)
        requires
            old(self)@.wf(),
        ensures
            final(self)@.wf(),
            result_view(r) == old(self)@.area_outcome(project_id@, name@, id@),
            final(self)@ == old(self)@.after_get_or_create_area(
                AreaView {
                    id: id@,
                    project_id: project_id@,
                    name: name@,
                    description: opt_str_view(description),
                    created_at: now@,
                    updated_at: now@,
                },
            ),
    {
        let ghost before = self@;
        match self.area_name_index(project_id, name) {
            Some(i) => {
                assert(before.areas[i as int] == self.areas@[i as int]@);
                return Ok(self.areas[i].id.clone());
            },
            None => {},
        }
        proof {
            lemma_find_none(before.areas, area_named(project_id@, name@));
        }
        if self.project_id_index(project_id).is_none() {
            return Err(StoreError::NotFound);
        }
        if self.area_id_index(&id).is_some() {
            return Err(StoreError::Conflict);
        }
        let row = Area {
            id: id.clone(),
            project_id: project_id.clone(),
            name: name.to_owned(),
            description: match description {
                Some(s) => Some(s.to_owned()),
                None => None,
            },
            created_at: now.to_owned(),
            updated_at: now.to_owned(),
        };
        let ghost rv = row@;
        self.areas.push(row);
        proof {
            assert(self@.areas =~= before.areas.push(rv));
            assert(self@ == before.after_get_or_create_area(rv));
            get_or_create_area_keeps_wf(before, rv);
        }
        Ok(id)
    }

    /// Returns the area named `name` under `project_id`, creating it under a
    /// fresh identifier, stamped with the current time, if there is none.
    pub fn get_or_create_area(
        &mut self,
        project_id: &ProjectId,
        name: &str,
        description: Option<&str>,
    ) -> (r: Result<AreaId, StoreError>)
        requires
            old(self)@.wf(),
        ensures
            final(self)@.wf(),
            exists|id: Seq<char>, now: Seq<char>|
                {
                    &&& is_generated(id, "area_"@)
                    &&& result_view(r) == old(self)@.area_outcome(project_id@, name@, id)
                    &&& final(self)@ == #[trigger] old(self)@.after_get_or_create_area(
                        AreaView {
                            id,
                            project_id: project_id@,
                            name: name@,
                            description: opt_str_view(description),
                            created_at: now,
                            updated_at: now,
                        },
                    )
                },
    {
        let id = generate_area_id();
        let now = now_rfc3339();
        let ghost idv = id@;
        let ghost nowv = now@;
        let r = self.get_or_create_area_with(project_id, name, description, id, now.as_str());
        assert(self@ == old(self)@.after_get_or_create_area(
            AreaView {
                id: idv,
                project_id: project_id@,
                name: name@,
                description: opt_str_view(description),
                created_at: nowv,
                updated_at: nowv,
            },
        ));
        r
    }
}

/// The topic row carries the name `name` within the area `parent`.
pub open spec fn topic_named(parent: Seq<char>, name: Seq<char>) -> spec_fn(TopicView) -> bool {
    |r: TopicView| r.area_id == parent && r.name == name
}

/// The topic row has the identifier `id`.
pub open spec fn topic_is(id: Seq<char>) -> spec_fn(TopicView) -> bool {
    |r: TopicView| r.id == id
}

impl DatabaseView {
    /// What looking a topic up or creating it returns: the identifier of
    /// the stored topic of that name; else `NotFound` if the parent is missing, `Conflict` if the new
    /// identifier is taken; else the new identifier.
    pub open spec fn topic_outcome(self, parent: Seq<char>, name: Seq<char>, id: Seq<char>) -> Result<Seq<char>, StoreError> {
        match find_first(self.topics, topic_named(parent, name)) {
            Some(i) => Ok(self.topics[i].id),
            None => {
                if !any(self.areas, |r: AreaView| r.id == parent) {
                    Err(StoreError::NotFound)
                } else if any(self.topics, topic_is(id)) {
                    Err(StoreError::Conflict)
                } else {
                    Ok(id)
                }
            },
        }
    }

    /// Whether looking the topic up stores a new row.
    pub open spec fn topic_is_new(self, parent: Seq<char>, name: Seq<char>, id: Seq<char>) -> bool {
        &&& !any(self.topics, topic_named(parent, name))
        &&& any(self.areas, |r: AreaView| r.id == parent)
        &&& !any(self.topics, topic_is(id))
    }

    /// The store after looking a topic up or creating it.
    pub open spec fn after_get_or_create_topic(self, row: TopicView) -> DatabaseView {
        if self.topic_is_new(row.area_id, row.name, row.id) {
            DatabaseView { topics: self.topics.push(row), ..self }
        } else {
            self
        }
    }
}

/// Looking a topic up or creating it keeps the store well formed.
pub proof fn get_or_create_topic_keeps_wf(before: DatabaseView, row: TopicView)
    requires
        before.wf(),
    ensures
        before.after_get_or_create_topic(row).wf(),
{
    if before.topic_is_new(row.area_id, row.name, row.id) {
        let after = before.after_get_or_create_topic(row);
        let named = topic_named(row.area_id, row.name);
        lemma_find_none(before.topics, named);
        lemma_find_none(before.topics, topic_is(row.id));
        assert(after.topics.take(before.topics.len() as int) =~= before.topics);
        assert(after.workspaces.take(before.workspaces.len() as int) =~= before.workspaces);
        assert(after.projects.take(before.projects.len() as int) =~= before.projects);
        assert(after.areas.take(before.areas.len() as int) =~= before.areas);
        assert(after.topics.take(before.topics.len() as int) =~= before.topics);
        assert(distinct_keys(after.topics, |r: TopicView| r.id)) by {
            assert forall|i: int, j: int| 0 <= i < j < after.topics.len() implies after.topics[i].id
                != after.topics[j].id by {
                if j == before.topics.len() {
                    assert(!topic_is(row.id)(before.topics[i]));
                } else {
                    assert(before.topics[i].id != before.topics[j].id);
                }
            }
        }
        assert(after.names_unique()) by {
            let key = |r: TopicView| (r.area_id, r.name);
            assert forall|i: int, j: int| 0 <= i < j < after.topics.len() implies key(after.topics[i])
                != key(after.topics[j]) by {
                if j == before.topics.len() {
                    assert(!named(before.topics[i]));
                } else {
                    assert(key(before.topics[i]) != key(before.topics[j]));
                }
            }
        }
        assert(after.hierarchy_linked()) by {
            assert forall|i: int| 0 <= i < after.projects.len() implies any(
                after.workspaces,
                |w: WorkspaceView| w.id == (#[trigger] after.projects[i]).workspace_id,
            ) by {
                let q = |w: WorkspaceView| w.id == after.projects[i].workspace_id;
                if i < before.projects.len() {
                    assert(after.projects[i] == before.projects[i]);
                    lemma_any_extends(before.workspaces, after.workspaces, q);
                }
            }
            assert forall|i: int| 0 <= i < after.areas.len() implies any(
                after.projects,
                |p: ProjectView| p.id == (#[trigger] after.areas[i]).project_id,
            ) by {
                let q = |p: ProjectView| p.id == after.areas[i].project_id;
                if i < before.areas.len() {
                    assert(after.areas[i] == before.areas[i]);
                    lemma_any_extends(before.projects, after.projects, q);
                }
            }
            assert forall|i: int| 0 <= i < after.topics.len() implies any(
                after.areas,
                |a: AreaView| a.id == (#[trigger] after.topics[i]).area_id,
            ) by {
                let q = |a: AreaView| a.id == after.topics[i].area_id;
                if i < before.topics.len() {
                    assert(after.topics[i] == before.topics[i]);
                    lemma_any_extends(before.areas, after.areas, q);
                }
            }
        }
        lemma_wf_after_hierarchy_growth(before, after);
    }
}

/// Looking the same topic up again returns the same identifier and stores
/// nothing: after the first lookup exactly one topic carries the name.
pub proof fn get_or_create_topic_is_idempotent(db: DatabaseView, first: TopicView, second: TopicView)
    requires
        db.wf(),
        second.area_id == first.area_id,
        second.name == first.name,
        db.topic_outcome(first.area_id, first.name, first.id) is Ok,
    ensures
        ({
            let once = db.after_get_or_create_topic(first);
            &&& once.topic_outcome(first.area_id, first.name, second.id) == db.topic_outcome(
                first.area_id, first.name,
                first.id,
            )
            &&& once.after_get_or_create_topic(second) == once
            &&& once.topics.filter(topic_named(first.area_id, first.name)).len() == 1
        }),
{
    let named = topic_named(first.area_id, first.name);
    let once = db.after_get_or_create_topic(first);
    get_or_create_topic_keeps_wf(db, first);
    lemma_find_some(db.topics, named);
    lemma_any_push(db.topics, first, named);
    lemma_find_some(once.topics, named);
    let i = find_first(once.topics, named)->0;
    let key = |r: TopicView| (r.area_id, r.name);
    assert forall|j: int| 0 <= j < once.topics.len() && j != i implies !named(once.topics[j]) by {
        if j < i {
            assert(key(once.topics[j]) != key(once.topics[i]));
        } else {
            assert(key(once.topics[i]) != key(once.topics[j]));
        }
    }
    crate::laws::lemma_single_match(once.topics, named, i);
}

impl Database {
    /// Index of the stored topic with the identifier `id`.
    pub(crate) fn topic_id_index(&self, id: &TopicId) -> (r: Option<usize>)
        ensures
            match r {
                Some(i) => i < self.topics.len() && find_first(self@.topics, topic_is(id@)) == Some(
                    i as int,
                ),
                None => !any(self@.topics, topic_is(id@)),
            },
    {
        let mut i: usize = 0;
        let ghost rows = self@.topics;
        while i < self.topics.len()
            invariant
                i <= self.topics.len(),
                rows == self@.topics,
                forall|j: int| 0 <= j < i ==> !topic_is(id@)(rows[j]),
            decreases self.topics.len() - i,
        {
            assert(rows[i as int] == self.topics@[i as int]@);
            if self.topics[i].id == *id {
                proof {
                    lemma_find_first(rows, topic_is(id@), i as int);
                }
                return Some(i);
            }
            i += 1;
        }
        proof {
            lemma_find_none(rows, topic_is(id@));
        }
        None
    }

    /// Index of the stored topic with the name `name` under `parent`.
    pub(crate) fn topic_name_index(&self, parent: &AreaId, name: &str) -> (r: Option<usize>)
        ensures
            match r {
                Some(i) => i < self.topics.len() && find_first(
                    self@.topics,
                    topic_named(parent@, name@),
                ) == Some(i as int),
                None => !any(self@.topics, topic_named(parent@, name@)),
            },
    {
        let mut i: usize = 0;
        let ghost rows = self@.topics;
        let ghost named = topic_named(parent@, name@);
        let wanted = name.to_owned();
        while i < self.topics.len()
            invariant
                i <= self.topics.len(),
                rows == self@.topics,
                wanted@ == name@,
                named == topic_named(parent@, name@),
                forall|j: int| 0 <= j < i ==> !named(rows[j]),
            decreases self.topics.len() - i,
        {
            assert(rows[i as int] == self.topics@[i as int]@);
            if self.topics[i].area_id == *parent && self.topics[i].name == wanted {
                proof {
                    lemma_find_first(rows, named, i as int);
                }
                return Some(i);
            }
            i += 1;
        }
        proof {
            lemma_find_none(rows, named);
        }
        None
    }

    /// Returns the topic named `name` under `area_id`, creating it under the
    /// identifier `id`, stamped `now`, if there is none.
    pub fn get_or_create_topic_with(
        &mut self,
        area_id: &AreaId,
        name: &str,
        description: Option<&str>,
        is_index_note: bool,
        id: TopicId,
        now: &str,
    ) -> (r: Result<TopicId, StoreError>)
        requires
            old(self)@.wf(),
        ensures
            final(self)@.wf(),
            result_view(r) == old(self)@.topic_outcome(area_id@, name@, id@),
            final(self)@ == old(self)@.after_get_or_create_topic(
                TopicView {
                    id: id@,
                    area_id: area_id@,
                    name: name@,
                    description: opt_str_view(description),
                    is_index_note: is_index_note,
                    summary: None,
                    created_at: now@,
                    updated_at: now@,
                },
            ),
    {
        let ghost before = self@;
        match self.topic_name_index(area_id, name) {
            Some(i) => {
                assert(before.topics[i as int] == self.topics@[i as int]@);
                return Ok(self.topics[i].id.clone());
            },
            None => {},
        }
        proof {
            lemma_find_none(before.topics, topic_named(area_id@, name@));
        }
        if self.area_id_index(area_id).is_none() {
            return Err(StoreError::NotFound);
        }
        if self.topic_id_index(&id).is_some() {
            return Err(StoreError::Conflict);
        }
        let row = Topic {
            id: id.clone(),
            area_id: area_id.clone(),
            name: name.to_owned(),
            description: match description {
                Some(s) => Some(s.to_owned()),
                None => None,
            },
            is_index_note: is_index_note,
            summary: None,
            created_at: now.to_owned(),
            updated_at: now.to_owned(),
        };
        let ghost rv = row@;
        self.topics.push(row);
        proof {
            assert(self@.topics =~= before.topics.push(rv));
            assert(self@ == before.after_get_or_create_topic(rv));
            get_or_create_topic_keeps_wf(before, rv);
        }
        Ok(id)
    }

    /// Returns the topic named `name` under `area_id`, creating it under a
    /// fresh identifier, stamped with the current time, if there is none.
    pub fn get_or_create_topic(
        &mut self,
        area_id: &AreaId,
        name: &str,
        description: Option<&str>,
        is_index_note: bool,
    ) -> (r: Result<TopicId, StoreError>)
        requires
            old(self)@.wf(),
        ensures
            final(self)@.wf(),
            exists|id: Seq<char>, now: Seq<char>|
                {
                    &&& is_generated(id, "topic_"@)
                    &&& result_view(r) == old(self)@.topic_outcome(area_id@, name@, id)
                    &&& final(self)@ == #[trigger] old(self)@.after_get_or_create_topic(
                        TopicView {
                            id,
                            area_id: area_id@,
                            name: name@,
                            description: opt_str_view(description),
                            is_index_note: is_index_note,
                            summary: None,
                            created_at: now,
                            updated_at: now,
                        },
                    )
                },
    {
        let id = generate_topic_id();
        let now = now_rfc3339();
        let ghost idv = id@;
        let ghost nowv = now@;
        let r = self.get_or_create_topic_with(area_id, name, description, is_index_note, id, now.as_str());
        assert(self@ == old(self)@.after_get_or_create_topic(
            TopicView {
                id: idv,
                area_id: area_id@,
                name: name@,
                description: opt_str_view(description),
                is_index_note: is_index_note,
                summary: None,
                created_at: nowv,
                updated_at: nowv,
            },
        ));
        r
    }
}

} // verus!
