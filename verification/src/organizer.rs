//! Filing a memory under the hierarchy: the workspace follows the source
//! application, the project the source path or address, the area the kind of
//! memory, and the topic the memory's own topic text.

use crate::clock::now_rfc3339;
use crate::dup::opt_view;
use crate::ids::{
    generate_area_id, generate_project_id, generate_topic_id, generate_workspace_id, is_generated,
    AreaId, ProjectId, TopicId, WorkspaceId,
};
use crate::pieces::{split, split_on_char, split_on_str};
use crate::schemas::{
    AreaView, Memory, MemoryKind, MemoryView, ProjectStatus, ProjectView, SourceApp, TopicView, Turn,
    WorkspaceView,
};
use crate::store::{
    find_first, lemma_find_first, lemma_find_none, Database, DatabaseView, StoreError,
};
use crate::text::{from_chars, same, to_chars, trim, trimmed, views};
use vstd::prelude::*;

verus! {

/// A path segment that marks the directory in which projects live.
pub open spec fn is_root_marker(s: Seq<char>) -> bool {
    s == "code"@ || s == "projects"@ || s == "workspace"@ || s == "work"@
}

/// The segment at `i` is a root marker with a non-empty segment after it.
pub open spec fn marker_at(parts: Seq<Seq<char>>) -> spec_fn(int) -> bool {
    |i: int| 0 <= i && i + 1 < parts.len() && is_root_marker(parts[i]) && parts[i + 1].len() > 0
}

/// The indices `0, 1, …, n - 1`.
pub open spec fn indices(n: nat) -> Seq<int> {
    Seq::new(n, |i: int| i)
}

/// The project that a source path names: the segment after the first root
/// marker that has one, else the fourth component of a path of at least
/// four.
pub open spec fn project_from_path(path: Seq<char>) -> Option<Seq<char>> {
    let parts = split(path, seq!['/']);
    match find_first(indices(parts.len()), marker_at(parts)) {
        Some(i) => Some(parts[i + 1]),
        None => if parts.len() >= 4 {
            Some(parts[3])
        } else {
            None
        },
    }
}

/// The project that a source address names: the first path segment after
/// the host if it is not empty, else the host's first label. An address
/// without `://` names none.
pub open spec fn project_from_url(url: Seq<char>) -> Option<Seq<char>> {
    let pieces = split(url, "://"@);
    if pieces.len() < 2 {
        None
    } else {
        let segments = split(pieces[1], seq!['/']);
        if segments.len() > 1 && segments[1].len() > 0 {
            Some(segments[1])
        } else {
            Some(split(segments[0], seq!['.'])[0])
        }
    }
}

/// The project name inferred from a turn's source.
pub open spec fn project_name(path: Option<Seq<char>>, url: Option<Seq<char>>) -> Seq<char> {
    let by_path = match path {
        Some(p) => project_from_path(p),
        None => None,
    };
    let by_url = match url {
        Some(u) => project_from_url(u),
        None => None,
    };
    match by_path {
        Some(p) => p,
        None => match by_url {
            Some(u) => u,
            None => "Default"@,
        },
    }
}

/// The area name that stands for a kind of memory.
pub open spec fn area_name(kind: MemoryKind) -> Seq<char> {
    match kind {
        MemoryKind::Decision => "Decisions"@,
        MemoryKind::Fact => "Facts"@,
        MemoryKind::Snippet => "Code"@,
        MemoryKind::Task => "Tasks"@,
    }
}

/// The topic name of a memory: its topic text trimmed, or `General` if that
/// is empty.
pub open spec fn topic_name(topic: Seq<char>) -> Seq<char> {
    if trim(topic).len() == 0 {
        "General"@
    } else {
        trim(topic)
    }
}

/// The identifiers that filing a memory may need, one for each level.
pub struct HierarchyIds {
    pub workspace: WorkspaceId,
    pub project: ProjectId,
    pub area: AreaId,
    pub topic: TopicId,
}

/// The value of a [`HierarchyIds`].
pub struct HierarchyIdsView {
    pub workspace: Seq<char>,
    pub project: Seq<char>,
    pub area: Seq<char>,
    pub topic: Seq<char>,
}

impl View for HierarchyIds {
    type V = HierarchyIdsView;

    open spec fn view(&self) -> HierarchyIdsView {
        HierarchyIdsView {
            workspace: self.workspace@,
            project: self.project@,
            area: self.area@,
            topic: self.topic@,
        }
    }
}

/// The store and the outcome after filing under one more level.
pub struct Filing {
    pub db: DatabaseView,
    pub found: Result<Seq<char>, StoreError>,
}

impl DatabaseView {
    /// Filing step 1: the workspace of the source application.
    pub open spec fn file_workspace(self, app: SourceApp, ids: HierarchyIdsView, now: Seq<char>)
        -> Filing {
        Filing {
            db: self.after_get_or_create_workspace(
                WorkspaceView {
                    id: ids.workspace,
                    name: app.label(),
                    description: None,
                    created_at: now,
                    updated_at: now,
                },
            ),
            found: self.workspace_outcome(app.label(), ids.workspace),
        }
    }

    /// Filing step 2: the project inside the workspace `parent`.
    pub open spec fn file_project(
        self,
        parent: Seq<char>,
        name: Seq<char>,
        ids: HierarchyIdsView,
        now: Seq<char>,
    ) -> Filing {
        Filing {
            db: self.after_get_or_create_project(
                ProjectView {
                    id: ids.project,
                    workspace_id: parent,
                    name,
                    description: None,
                    status: ProjectStatus::Active,
                    created_at: now,
                    updated_at: now,
                },
            ),
            found: self.project_outcome(parent, name, ids.project),
        }
    }

    /// Filing step 3: the area inside the project `parent`.
    pub open spec fn file_area(
        self,
        parent: Seq<char>,
        kind: MemoryKind,
        ids: HierarchyIdsView,
        now: Seq<char>,
    ) -> Filing {
        Filing {
            db: self.after_get_or_create_area(
                AreaView {
                    id: ids.area,
                    project_id: parent,
                    name: area_name(kind),
                    description: None,
                    created_at: now,
                    updated_at: now,
                },
            ),
            found: self.area_outcome(parent, area_name(kind), ids.area),
        }
    }

    /// Filing step 4: the topic inside the area `parent`.
    pub open spec fn file_topic(
        self,
        parent: Seq<char>,
        topic: Seq<char>,
        ids: HierarchyIdsView,
        now: Seq<char>,
    ) -> Filing {
        Filing {
            db: self.after_get_or_create_topic(
                TopicView {
                    id: ids.topic,
                    area_id: parent,
                    name: topic_name(topic),
                    description: None,
                    is_index_note: false,
                    summary: None,
                    created_at: now,
                    updated_at: now,
                },
            ),
            found: self.topic_outcome(parent, topic_name(topic), ids.topic),
        }
    }

    /// Filing a memory: workspace, project, area and topic are looked up or
    /// created in turn, each inside the one before; the first level that
    /// fails ends the filing with its error, the levels before it kept.
    pub open spec fn file(
        self,
        app: SourceApp,
        project: Seq<char>,
        kind: MemoryKind,
        topic: Seq<char>,
        ids: HierarchyIdsView,
        now: Seq<char>,
    ) -> Filing {
        let w = self.file_workspace(app, ids, now);
        match w.found {
            Err(e) => w,
            Ok(wid) => {
                let p = w.db.file_project(wid, project, ids, now);
                match p.found {
                    Err(e) => p,
                    Ok(pid) => {
                        let a = p.db.file_area(pid, kind, ids, now);
                        match a.found {
                            Err(e) => a,
                            Ok(aid) => a.db.file_topic(aid, topic, ids, now),
                        }
                    },
                }
            },
        }
    }
}

/// The memory that filing returns: the one given, with its topic set.
pub open spec fn organized(memory: MemoryView, found: Result<Seq<char>, StoreError>) -> Result<
    MemoryView,
    StoreError,
> {
    match found {
        Ok(t) => Ok(MemoryView { topic_id: Some(t), ..memory }),
        Err(e) => Err(e),
    }
}

/// The view of a filing outcome.
pub open spec fn memory_result_view(r: Result<Memory, StoreError>) -> Result<
    MemoryView,
    StoreError,
> {
    match r {
        Ok(m) => Ok(m@),
        Err(e) => Err(e),
    }
}

/// Files memories under the hierarchy.
pub struct MemoryOrganizer;

impl MemoryOrganizer {
    /// An organizer.
    pub fn new() -> (r: Self) {
        MemoryOrganizer
    }

    /// The workspace name of a source application.
    pub fn infer_workspace_name(app: &SourceApp) -> (r: String)
        ensures
            r@ == app.label(),
    {
        app.name().to_owned()
    }

    /// The area name of a kind of memory.
    pub fn infer_area_name(kind: &MemoryKind) -> (r: String)
        ensures
            r@ == area_name(*kind),
    {
        match kind {
            MemoryKind::Decision => "Decisions".to_owned(),
            MemoryKind::Fact => "Facts".to_owned(),
            MemoryKind::Snippet => "Code".to_owned(),
            MemoryKind::Task => "Tasks".to_owned(),
        }
    }

    /// Whether a path segment marks the directory in which projects live.
    fn is_marker(part: &Vec<char>) -> (r: bool)
        ensures
            r == is_root_marker(part@),
    {
        same(part, &to_chars("code")) || same(part, &to_chars("projects")) || same(
            part,
            &to_chars("workspace"),
        ) || same(part, &to_chars("work"))
    }

    /// The project that a source path names, if any.
    fn project_of_path(path: &str) -> (r: Option<Vec<char>>)
        ensures
            opt_view(r) == project_from_path(path@),
    {
        let p = to_chars(path);
        let parts = split_on_char(&p, '/');
        let ghost ps = views(parts@);
        let ghost idx = indices(ps.len());
        let mut i: usize = 0;
        while i < parts.len()
            invariant
                i <= parts.len(),
                ps == views(parts@),
                ps == split(path@, seq!['/']),
                idx == indices(ps.len()),
                forall|j: int| 0 <= j < i ==> !marker_at(ps)(idx[j]),
            decreases parts.len() - i,
        {
            assert(ps[i as int] == parts@[i as int]@);
            if Self::is_marker(&parts[i]) && i + 1 < parts.len() {
                assert(ps[i + 1] == parts@[i + 1]@);
                if parts[i + 1].len() > 0 {
                    let found = crate::text::slice(&parts[i + 1], 0, parts[i + 1].len());
                    proof {
                        assert(idx[i as int] == i);
                        assert(marker_at(ps)(i as int));
                        lemma_find_first(idx, marker_at(ps), i as int);
                        assert(found@ =~= ps[i + 1]);
                    }
                    return Some(found);
                }
            }
            i += 1;
        }
        proof {
            lemma_find_none(idx, marker_at(ps));
        }
        if parts.len() >= 4 {
            assert(ps[3] == parts@[3]@);
            Some(crate::text::slice(&parts[3], 0, parts[3].len()))
        } else {
            None
        }
    }

    /// The project that a source address names, if any.
    fn project_of_url(url: &str) -> (r: Option<Vec<char>>)
        ensures
            opt_view(r) == project_from_url(url@),
    {
        proof {
            reveal_strlit("://");
        }
        let u = to_chars(url);
        let pieces = split_on_str(&u, "://");
        if pieces.len() < 2 {
            return None;
        }
        assert(views(pieces@)[1] == pieces@[1]@);
        let segments = split_on_char(&pieces[1], '/');
        let ghost sv = views(segments@);
        assert(sv[0] == segments@[0]@);
        if segments.len() > 1 {
            assert(sv[1] == segments@[1]@);
            if segments[1].len() > 0 {
                return Some(crate::text::slice(&segments[1], 0, segments[1].len()));
            }
        }
        let labels = split_on_char(&segments[0], '.');
        assert(views(labels@)[0] == labels@[0]@);
        Some(crate::text::slice(&labels[0], 0, labels[0].len()))
    }

    /// The project name inferred from a turn's source.
    pub fn infer_project_name(turn: &Turn) -> (r: String)
        ensures
            r@ == project_name(turn@.source.path, turn@.source.url),
    {
        let by_path = match &turn.source.path {
            Some(p) => Self::project_of_path(p.as_str()),
            None => None,
        };
        match by_path {
            Some(p) => {
                return from_chars(&p);
            },
            None => {},
        }
        let by_url = match &turn.source.url {
            Some(u) => Self::project_of_url(u.as_str()),
            None => None,
        };
        match by_url {
            Some(u) => from_chars(&u),
            None => "Default".to_owned(),
        }
    }

    /// The topic name of a memory.
    pub fn infer_topic_name(memory: &Memory) -> (r: String)
        ensures
            r@ == topic_name(memory@.topic),
    {
        let t = trimmed(&to_chars(memory.topic.as_str()));
        if t.len() == 0 {
            "General".to_owned()
        } else {
            from_chars(&t)
        }
    }

    /// Files `memory` under the hierarchy that `turn`'s source and the
    /// memory's kind and topic name, creating missing levels under the
    /// identifiers `ids`, stamped `now`. Returns the memory with its topic
    /// set; nothing else of it changes.
    pub fn organize_with(
        &self,
        db: &mut Database,
        memory: &Memory,
        turn: &Turn,
        ids: HierarchyIds,
        now: &str,
    ) -> (r: Result<Memory, StoreError>)
        requires
            old(db)@.wf(),
        ensures
            final(db)@.wf(),
            final(db)@ == old(db)@.file(
                turn@.source.app,
                project_name(turn@.source.path, turn@.source.url),
                memory@.kind,
                memory@.topic,
                ids@,
                now@,
            ).db,
            memory_result_view(r) == organized(
                memory@,
                old(db)@.file(
                    turn@.source.app,
                    project_name(turn@.source.path, turn@.source.url),
                    memory@.kind,
                    memory@.topic,
                    ids@,
                    now@,
                ).found,
            ),
    {
        let workspace_name = Self::infer_workspace_name(&turn.source.app);
        let workspace = match db.get_or_create_workspace_with(
            workspace_name.as_str(),
            None,
            ids.workspace,
            now,
        ) {
            Ok(w) => w,
            Err(e) => {
                return Err(e);
            },
        };
        let project_name = Self::infer_project_name(turn);
        let project = match db.get_or_create_project_with(
            &workspace,
            project_name.as_str(),
            None,
            ProjectStatus::Active,
            ids.project,
            now,
        ) {
            Ok(p) => p,
            Err(e) => {
                return Err(e);
            },
        };
        let area_name = Self::infer_area_name(&memory.kind);
        let area = match db.get_or_create_area_with(
            &project,
            area_name.as_str(),
            None,
            ids.area,
            now,
        ) {
            Ok(a) => a,
            Err(e) => {
                return Err(e);
            },
        };
        let topic_name = Self::infer_topic_name(memory);
        let topic = match db.get_or_create_topic_with(
            &area,
            topic_name.as_str(),
            None,
            false,
            ids.topic,
            now,
        ) {
            Ok(t) => t,
            Err(e) => {
                return Err(e);
            },
        };
        let mut organized_memory = memory.clone();
        organized_memory.topic_id = Some(topic);
        Ok(organized_memory)
    }

    /// Files `memory` under the hierarchy that `turn`'s source and the
    /// memory's kind and topic name, creating missing levels under fresh
    /// identifiers, stamped with the current time.
    pub fn organize(&self, db: &mut Database, memory: &Memory, turn: &Turn) -> (r: Result<
        Memory,
        StoreError,
    >)
        requires
            old(db)@.wf(),
        ensures
            final(db)@.wf(),
            exists|ids: HierarchyIdsView, now: Seq<char>|
                {
                    &&& is_generated(ids.workspace, "ws_"@)
                    &&& is_generated(ids.project, "proj_"@)
                    &&& is_generated(ids.area, "area_"@)
                    &&& is_generated(ids.topic, "topic_"@)
                    &&& final(db)@ == (#[trigger] old(db)@.file(
                        turn@.source.app,
                        project_name(turn@.source.path, turn@.source.url),
                        memory@.kind,
                        memory@.topic,
                        ids,
                        now,
                    )).db
                    &&& memory_result_view(r) == organized(
                        memory@,
                        old(db)@.file(
                            turn@.source.app,
                            project_name(turn@.source.path, turn@.source.url),
                            memory@.kind,
                            memory@.topic,
                            ids,
                            now,
                        ).found,
                    )
                },
    {
        let ids = HierarchyIds {
            workspace: generate_workspace_id(),
            project: generate_project_id(),
            area: generate_area_id(),
            topic: generate_topic_id(),
        };
        let now = now_rfc3339();
        let ghost idv = ids@;
        let ghost nowv = now@;
        let r = self.organize_with(db, memory, turn, ids, now.as_str());
        assert(db@ == old(db)@.file(
            turn@.source.app,
            project_name(turn@.source.path, turn@.source.url),
            memory@.kind,
            memory@.topic,
            idv,
            nowv,
        ).db);
        r
    }
}

} // verus!
