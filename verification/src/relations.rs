//! The typed relation graph between memories: creating and deleting edges,
//! with the `superseded_by` pointer that `Supersedes` edges maintain.

use crate::clock::now_rfc3339;
use crate::dup::{opt_view, Dup};
use crate::ids::{generate_relation_id, is_generated, MemoryId, RelationId};
use crate::schemas::{MemoryRelation, MemoryRelationView, RelationType};
use crate::store::{
    any, distinct_keys, find_first, lemma_any_push, lemma_any_same, lemma_find_first,
    lemma_find_none, lemma_find_some, memory_is, relation_joins, Database, DatabaseView,
    MemoryRowView, StoreError,
};
use vstd::prelude::*;

verus! {

/// The view of an optional borrowed text.
pub open spec fn opt_str_view(o: Option<&str>) -> Option<Seq<char>> {
    match o {
        Some(s) => Some(s@),
        None => None,
    }
}

/// The view of an outcome that carries a value with a view.
pub open spec fn result_view<T: View>(r: Result<T, StoreError>) -> Result<T::V, StoreError> {
    match r {
        Ok(x) => Ok(x@),
        Err(e) => Err(e),
    }
}

/// The relation has the identifier `id`.
pub open spec fn relation_is(id: Seq<char>) -> spec_fn(MemoryRelationView) -> bool {
    |r: MemoryRelationView| r.id == id
}

/// The rows with `superseded_by` set to `by` on every row of the memory
/// `target`.
pub open spec fn set_superseded(
    rows: Seq<MemoryRowView>,
    target: Seq<char>,
    by: Option<Seq<char>>,
) -> Seq<MemoryRowView> {
    Seq::new(
        rows.len(),
        |i: int|
            if rows[i].memory.id == target {
                MemoryRowView { superseded_by: by, ..rows[i] }
            } else {
                rows[i]
            },
    )
}

impl DatabaseView {
    /// What creating a relation returns: `NotFound` if either memory is
    /// missing; the identifier of the stored relation that already joins the
    /// two with this meaning; `Conflict` if the new identifier is taken;
    /// else the new identifier.
    pub open spec fn relation_outcome(
        self,
        source: Seq<char>,
        target: Seq<char>,
        ty: RelationType,
        id: Seq<char>,
    ) -> Result<Seq<char>, StoreError> {
        if !self.has_memory(source) || !self.has_memory(target) {
            Err(StoreError::NotFound)
        } else {
            match find_first(self.relations, relation_joins(source, target, ty)) {
                Some(i) => Ok(self.relations[i].id),
                None => if any(self.relations, relation_is(id)) {
                    Err(StoreError::Conflict)
                } else {
                    Ok(id)
                },
            }
        }
    }

    /// Whether creating the relation stores a new row.
    pub open spec fn relation_is_new(
        self,
        source: Seq<char>,
        target: Seq<char>,
        ty: RelationType,
        id: Seq<char>,
    ) -> bool {
        &&& self.has_memory(source)
        &&& self.has_memory(target)
        &&& !any(self.relations, relation_joins(source, target, ty))
        &&& !any(self.relations, relation_is(id))
    }

    /// The store with the new relation appended and, for `Supersedes`, the
    /// target's `superseded_by` set to the source.
    pub open spec fn with_relation(self, row: MemoryRelationView) -> DatabaseView {
        DatabaseView {
            relations: self.relations.push(row),
            memories: if row.relation_type == RelationType::Supersedes {
                set_superseded(self.memories, row.target_id, Some(row.source_id))
            } else {
                self.memories
            },
            ..self
        }
    }

    /// The store after creating a relation.
    pub open spec fn after_create_relation(self, row: MemoryRelationView) -> DatabaseView {
        if self.relation_is_new(row.source_id, row.target_id, row.relation_type, row.id) {
            self.with_relation(row)
        } else {
            self
        }
    }

    /// The store after deleting the relation `id`: the row is gone, and if it
    /// was a `Supersedes` relation its target's `superseded_by` is cleared.
    /// An unknown identifier changes nothing.
    pub open spec fn after_delete_relation(self, id: Seq<char>) -> DatabaseView {
        match find_first(self.relations, relation_is(id)) {
            Some(i) => DatabaseView {
                relations: self.relations.remove(i),
                memories: if self.relations[i].relation_type == RelationType::Supersedes {
                    set_superseded(self.memories, self.relations[i].target_id, None)
                } else {
                    self.memories
                },
                ..self
            },
            None => self,
        }
    }
}

/// Rewriting `superseded_by` keeps every other column and every identifier.
pub proof fn lemma_set_superseded(rows: Seq<MemoryRowView>, target: Seq<char>, by: Option<Seq<char>>)
    ensures
        set_superseded(rows, target, by).len() == rows.len(),
        forall|i: int|
            0 <= i < rows.len() ==> {
                let r = #[trigger] set_superseded(rows, target, by)[i];
                &&& r.memory == rows[i].memory
                &&& r.importance == rows[i].importance
                &&& r.status == rows[i].status
                &&& r.version == rows[i].version
                &&& r.superseded_by == if rows[i].memory.id == target {
                    by
                } else {
                    rows[i].superseded_by
                }
            },
        forall|id: Seq<char>|
            find_first(set_superseded(rows, target, by), #[trigger] memory_is(id)) == find_first(
                rows,
                memory_is(id),
            ),
        forall|id: Seq<char>|
            any(set_superseded(rows, target, by), #[trigger] memory_is(id)) == any(
                rows,
                memory_is(id),
            ),
{
    let t = set_superseded(rows, target, by);
    assert forall|id: Seq<char>|
        find_first(t, #[trigger] memory_is(id)) == find_first(rows, memory_is(id)) && any(
            t,
            memory_is(id),
        ) == any(rows, memory_is(id)) by {
        lemma_any_same(t, rows, memory_is(id));
    }
}

/// A store that differs from a well-formed one only in `superseded_by`
/// columns and relations is well formed if its relations are consistent and
/// their endpoints exist.
proof fn lemma_wf_after_relation_change(old: DatabaseView, new: DatabaseView)
    requires
        old.wf(),
        new.turns == old.turns,
        new.workspaces == old.workspaces,
        new.projects == old.projects,
        new.areas == old.areas,
        new.topics == old.topics,
        new.versions == old.versions,
        new.index_notes == old.index_notes,
        new.summaries == old.summaries,
        new.agentic == old.agentic,
        new.memories.len() == old.memories.len(),
        forall|i: int|
            0 <= i < old.memories.len() ==> {
                &&& (#[trigger] new.memories[i]).memory == old.memories[i].memory
                &&& new.memories[i].importance == old.memories[i].importance
                &&& new.memories[i].version == old.memories[i].version
            },
        distinct_keys(new.relations, |r: MemoryRelationView| r.id),
        new.relations_consistent(),
        forall|i: int|
            0 <= i < new.relations.len() ==> old.has_memory(
                (#[trigger] new.relations[i]).source_id,
            ) && old.has_memory(new.relations[i].target_id),
    ensures
        new.wf(),
{
    assert forall|id: Seq<char>|
        find_first(new.memories, #[trigger] memory_is(id)) == find_first(
            old.memories,
            memory_is(id),
        ) && any(new.memories, memory_is(id)) == any(old.memories, memory_is(id)) by {
        lemma_any_same(new.memories, old.memories, memory_is(id));
    }
    assert(new.ids_unique()) by {
        assert forall|i: int, j: int| 0 <= i < j < new.memories.len() implies new.memories[i].memory.id
            != new.memories[j].memory.id by {
            assert(old.memories[i].memory.id != old.memories[j].memory.id);
        }
    }
    assert(new.names_unique());
    assert(new.references_hold()) by {
        assert forall|i: int| 0 <= i < new.memories.len() implies match (
        #[trigger] new.memories[i]).memory.topic_id {
            Some(t) => new.has_topic(t),
            None => true,
        } by {
            assert(new.memories[i].memory == old.memories[i].memory);
        }
        assert forall|i: int| 0 <= i < new.versions.len() implies new.has_memory(
            (#[trigger] new.versions[i]).memory_id,
        ) by {
            assert(old.has_memory(old.versions[i].memory_id));
        }
        assert forall|i: int| 0 <= i < new.summaries.len() implies new.has_memory(
            (#[trigger] new.summaries[i]).memory_id,
        ) by {
            assert(old.has_memory(old.summaries[i].memory_id));
        }
        assert forall|i: int| 0 <= i < new.agentic.len() implies new.has_memory(
            (#[trigger] new.agentic[i]).id,
        ) by {
            assert(old.has_memory(old.agentic[i].id));
        }
    }
    assert(new.versions_consistent()) by {
        assert forall|i: int| 0 <= i < new.memories.len() implies (
        #[trigger] new.memories[i]).version >= 1 by {
            assert(old.memories[i].version >= 1);
        }
        assert forall|i: int| 0 <= i < new.versions.len() implies (
        #[trigger] new.versions[i]).version_number >= 1 && match new.memory(
            new.versions[i].memory_id,
        ) {
            Some(m) => new.versions[i].version_number < m.version,
            None => false,
        } by {
            let id = old.versions[i].memory_id;
            assert(old.versions[i].version_number >= 1);
            assert(find_first(new.memories, memory_is(id)) == find_first(
                old.memories,
                memory_is(id),
            ));
            lemma_find_some(old.memories, memory_is(id));
        }
    }
    assert(new.importance_bounded()) by {
        assert forall|i: int| 0 <= i < new.memories.len() implies (
        #[trigger] new.memories[i]).importance <= crate::store::MAX_IMPORTANCE by {
            assert(old.memories[i].importance <= crate::store::MAX_IMPORTANCE);
        }
    }
}

/// Creating a relation keeps the store well formed.
pub proof fn create_relation_keeps_wf(before: DatabaseView, row: MemoryRelationView)
    requires
        before.wf(),
    ensures
        before.after_create_relation(row).wf(),
{
    if before.relation_is_new(row.source_id, row.target_id, row.relation_type, row.id) {
        let after = before.with_relation(row);
        let joins = relation_joins(row.source_id, row.target_id, row.relation_type);
        lemma_find_none(before.relations, joins);
        lemma_find_none(before.relations, relation_is(row.id));
        lemma_set_superseded(before.memories, row.target_id, Some(row.source_id));
        assert(distinct_keys(after.relations, |r: MemoryRelationView| r.id)) by {
            assert forall|i: int, j: int| 0 <= i < j < after.relations.len() implies (
            after.relations[i]).id != after.relations[j].id by {
                if j == before.relations.len() {
                    assert(!relation_is(row.id)(before.relations[i]));
                } else {
                    assert(before.relations[i].id != before.relations[j].id);
                }
            }
        }
        assert(after.relations_consistent()) by {
            let key = |r: MemoryRelationView| (r.source_id, r.target_id, r.relation_type);
            assert forall|i: int, j: int| 0 <= i < j < after.relations.len() implies key(
                after.relations[i],
            ) != key(after.relations[j]) by {
                if j == before.relations.len() {
                    assert(!joins(before.relations[i]));
                } else {
                    assert(key(before.relations[i]) != key(before.relations[j]));
                }
            }
            assert forall|i: int| 0 <= i < after.memories.len() implies match (
            #[trigger] after.memories[i]).superseded_by {
                Some(s) => any(
                    after.relations,
                    relation_joins(s, after.memories[i].memory.id, RelationType::Supersedes),
                ),
                None => true,
            } by {
                match after.memories[i].superseded_by {
                    Some(s) => {
                        let q = relation_joins(
                            s,
                            after.memories[i].memory.id,
                            RelationType::Supersedes,
                        );
                        lemma_any_push(before.relations, row, q);
                        if row.relation_type == RelationType::Supersedes
                            && before.memories[i].memory.id == row.target_id {
                            assert(q(row));
                        } else {
                            assert(before.memories[i].superseded_by == Some(s));
                        }
                    },
                    None => {},
                }
            }
        }
        assert forall|i: int| 0 <= i < after.relations.len() implies before.has_memory(
            (#[trigger] after.relations[i]).source_id,
        ) && before.has_memory(after.relations[i].target_id) by {
            if i < before.relations.len() {
                assert(after.relations[i] == before.relations[i]);
            }
        }
        lemma_wf_after_relation_change(before, after);
    }
}

/// Deleting a relation keeps the store well formed.
pub proof fn delete_relation_keeps_wf(before: DatabaseView, id: Seq<char>)
    requires
        before.wf(),
    ensures
        before.after_delete_relation(id).wf(),
{
    lemma_find_some(before.relations, relation_is(id));
    match find_first(before.relations, relation_is(id)) {
        None => {},
        Some(i) => {
            let after = before.after_delete_relation(id);
            let gone = before.relations[i];
            lemma_set_superseded(before.memories, gone.target_id, None);
            let key = |r: MemoryRelationView| (r.source_id, r.target_id, r.relation_type);
            assert forall|a: int| 0 <= a < after.relations.len() implies #[trigger] after.relations[a]
                == before.relations[if a < i {
                a
            } else {
                a + 1
            }] by {}
            assert(distinct_keys(after.relations, |r: MemoryRelationView| r.id)) by {
                assert forall|a: int, b: int|
                    0 <= a < b < after.relations.len() implies after.relations[a].id
                    != after.relations[b].id by {
                    let a0 = if a < i {
                        a
                    } else {
                        a + 1
                    };
                    let b0 = if b < i {
                        b
                    } else {
                        b + 1
                    };
                    assert(before.relations[a0].id != before.relations[b0].id);
                }
            }
            assert(distinct_keys(after.relations, key)) by {
                assert forall|a: int, b: int|
                    0 <= a < b < after.relations.len() implies key(after.relations[a]) != key(
                    after.relations[b],
                ) by {
                    let a0 = if a < i {
                        a
                    } else {
                        a + 1
                    };
                    let b0 = if b < i {
                        b
                    } else {
                        b + 1
                    };
                    assert(key(before.relations[a0]) != key(before.relations[b0]));
                }
            }
            assert forall|m: int| 0 <= m < after.memories.len() implies match (
            #[trigger] after.memories[m]).superseded_by {
                Some(s) => any(
                    after.relations,
                    relation_joins(s, after.memories[m].memory.id, RelationType::Supersedes),
                ),
                None => true,
            } by {
                lemma_pointer_survives_delete(before, i, m);
            }
            assert forall|a: int| 0 <= a < after.relations.len() implies before.has_memory(
                (#[trigger] after.relations[a]).source_id,
            ) && before.has_memory(after.relations[a].target_id) by {
                let a0 = if a < i {
                    a
                } else {
                    a + 1
                };
                assert(after.relations[a] == before.relations[a0]);
            }
            lemma_wf_after_relation_change(before, after);
        },
    }
}

/// After the relation at row `i` is deleted, a `superseded_by` pointer that
/// is still set is still backed by a stored relation.
proof fn lemma_pointer_survives_delete(before: DatabaseView, i: int, m: int)
    requires
        before.wf(),
        0 <= i < before.relations.len(),
        0 <= m < before.memories.len(),
    ensures
        ({
            let gone = before.relations[i];
            let rows = if gone.relation_type == RelationType::Supersedes {
                set_superseded(before.memories, gone.target_id, None)
            } else {
                before.memories
            };
            match rows[m].superseded_by {
                Some(s) => any(
                    before.relations.remove(i),
                    relation_joins(s, rows[m].memory.id, RelationType::Supersedes),
                ),
                None => true,
            }
        }),
{
    let gone = before.relations[i];
    lemma_set_superseded(before.memories, gone.target_id, None);
    let rows = if gone.relation_type == RelationType::Supersedes {
        set_superseded(before.memories, gone.target_id, None)
    } else {
        before.memories
    };
    match rows[m].superseded_by {
        Some(s) => {
            let q = relation_joins(s, rows[m].memory.id, RelationType::Supersedes);
            assert(before.memories[m].superseded_by == Some(s));
            assert(rows[m].memory.id == before.memories[m].memory.id);
            assert(any(before.relations, q));
            let w = choose|w: int| 0 <= w < before.relations.len() && q(before.relations[w]);
            assert(w != i);
            let w1 = if w < i {
                w
            } else {
                w - 1
            };
            assert(before.relations.remove(i)[w1] == before.relations[w]);
        },
        None => {},
    }
}

impl Database {
    /// Index of the stored relation that joins `source` to `target` with the
    /// meaning `ty`.
    pub(crate) fn relation_index(
        &self,
        source: &MemoryId,
        target: &MemoryId,
        ty: RelationType,
    ) -> (r: Option<usize>)
        ensures
            match r {
                Some(i) => i < self.relations.len() && find_first(
                    self@.relations,
                    relation_joins(source@, target@, ty),
                ) == Some(i as int),
                None => !any(self@.relations, relation_joins(source@, target@, ty)),
            },
    {
        let mut i: usize = 0;
        let ghost rows = self@.relations;
        let ghost p = relation_joins(source@, target@, ty);
        while i < self.relations.len()
            invariant
                i <= self.relations.len(),
                rows == self@.relations,
                p == relation_joins(source@, target@, ty),
                forall|j: int| 0 <= j < i ==> !p(rows[j]),
            decreases self.relations.len() - i,
        {
            assert(rows[i as int] == self.relations@[i as int]@);
            let r = &self.relations[i];
            if r.source_id == *source && r.target_id == *target && r.relation_type == ty {
                proof {
                    lemma_find_first(rows, p, i as int);
                }
                return Some(i);
            }
            i += 1;
        }
        proof {
            lemma_find_none(rows, p);
        }
        None
    }

    /// Index of the stored relation with the identifier `id`.
    pub(crate) fn relation_id_index(&self, id: &RelationId) -> (r: Option<usize>)
        ensures
            match r {
                Some(i) => i < self.relations.len() && find_first(
                    self@.relations,
                    relation_is(id@),
                ) == Some(i as int),
                None => !any(self@.relations, relation_is(id@)),
            },
    {
        let mut i: usize = 0;
        let ghost rows = self@.relations;
        while i < self.relations.len()
            invariant
                i <= self.relations.len(),
                rows == self@.relations,
                forall|j: int| 0 <= j < i ==> !relation_is(id@)(rows[j]),
            decreases self.relations.len() - i,
        {
            assert(rows[i as int] == self.relations@[i as int]@);
            if self.relations[i].id == *id {
                proof {
                    lemma_find_first(rows, relation_is(id@), i as int);
                }
                return Some(i);
            }
            i += 1;
        }
        proof {
            lemma_find_none(rows, relation_is(id@));
        }
        None
    }

    /// Sets `superseded_by` on the memory at row `i`.
    fn write_superseded(&mut self, i: usize, by: Option<MemoryId>)
        requires
            i < old(self).memories.len(),
            distinct_keys(old(self)@.memories, |r: MemoryRowView| r.memory.id),
        ensures
            final(self)@.memories == set_superseded(
                old(self)@.memories,
                old(self)@.memories[i as int].memory.id,
                opt_view(by),
            ),
            final(self)@ == (DatabaseView { memories: final(self)@.memories, ..old(self)@ }),
    {
        let ghost rows = self@.memories;
        let ghost target = rows[i as int].memory.id;
        assert(rows[i as int] == self.memories@[i as int]@);
        let mut row = self.memories[i].dup();
        row.superseded_by = by;
        self.memories.set(i, row);
        proof {
            let want = set_superseded(rows, target, opt_view(by));
            assert(self@.memories =~= want) by {
                assert forall|j: int| 0 <= j < rows.len() implies self@.memories[j] == want[j] by {
                    if j != i {
                        assert(self.memories@[j] == old(self).memories@[j]);
                        assert(rows[j] == old(self).memories@[j]@);
                        if j < i {
                            assert(rows[j].memory.id != rows[i as int].memory.id);
                        } else {
                            assert(rows[i as int].memory.id != rows[j].memory.id);
                        }
                    }
                }
            }
        }
    }

    /// Creates the relation `source_id → target_id` of type `relation_type`
    /// under the identifier `id`, stamped `now`, unless such a relation is
    /// already stored, whose identifier is then returned.
    pub fn create_memory_relation_with(
        &mut self,
        source_id: &MemoryId,
        target_id: &MemoryId,
        relation_type: RelationType,
        rationale: Option<&str>,
        id: RelationId,
        now: &str,
    ) -> (r: Result<RelationId, StoreError>)
        requires
            old(self)@.wf(),
        ensures
            final(self)@.wf(),
            result_view(r) == old(self)@.relation_outcome(
                source_id@,
                target_id@,
                relation_type,
                id@,
            ),
            final(self)@ == old(self)@.after_create_relation(
                MemoryRelationView {
                    id: id@,
                    source_id: source_id@,
                    target_id: target_id@,
                    relation_type,
                    rationale: opt_str_view(rationale),
                    created_at: now@,
                },
            ),
    {
        let ghost before = self@;
        let ghost joins = relation_joins(source_id@, target_id@, relation_type);
        let si = self.memory_index(source_id);
        let ti = self.memory_index(target_id);
        if si.is_none() || ti.is_none() {
            return Err(StoreError::NotFound);
        }
        let ti = ti.unwrap();
        match self.relation_index(source_id, target_id, relation_type) {
            Some(i) => {
                assert(before.relations[i as int] == self.relations@[i as int]@);
                return Ok(self.relations[i].id.clone());
            },
            None => {},
        }
        if self.relation_id_index(&id).is_some() {
            return Err(StoreError::Conflict);
        }
        proof {
            lemma_find_none(before.relations, joins);
        }
        let row = MemoryRelation {
            id: id.clone(),
            source_id: source_id.clone(),
            target_id: target_id.clone(),
            relation_type,
            rationale: match rationale {
                Some(s) => Some(s.to_owned()),
                None => None,
            },
            created_at: now.to_owned(),
        };
        let ghost rv = row@;
        self.relations.push(row);
        assert(self@.relations =~= before.relations.push(rv));
        if relation_type == RelationType::Supersedes {
            proof {
                lemma_find_some(before.memories, memory_is(target_id@));
            }
            self.write_superseded(ti, Some(source_id.clone()));
        }
        proof {
            assert(self@ == before.with_relation(rv));
            create_relation_keeps_wf(before, rv);
        }
        Ok(id)
    }

    /// Creates the relation `source_id → target_id` of type `relation_type`
    /// under a fresh identifier, stamped with the current time, unless such a
    /// relation is already stored, whose identifier is then returned.
    pub fn create_memory_relation(
        &mut self,
        source_id: &MemoryId,
        target_id: &MemoryId,
        relation_type: RelationType,
        rationale: Option<&str>,
    ) -> (r: Result<RelationId, StoreError>)
        requires
            old(self)@.wf(),
        ensures
            final(self)@.wf(),
            exists|id: Seq<char>, now: Seq<char>|
                {
                    &&& is_generated(id, "rel_"@)
                    &&& result_view(r) == old(self)@.relation_outcome(
                        source_id@,
                        target_id@,
                        relation_type,
                        id,
                    )
                    &&& final(self)@ == #[trigger] old(self)@.after_create_relation(
                        MemoryRelationView {
                            id,
                            source_id: source_id@,
                            target_id: target_id@,
                            relation_type,
                            rationale: opt_str_view(rationale),
                            created_at: now,
                        },
                    )
                },
    {
        let id = generate_relation_id();
        let now = now_rfc3339();
        let ghost idv = id@;
        let ghost nowv = now@;
        let r = self.create_memory_relation_with(
            source_id,
            target_id,
            relation_type,
            rationale,
            id,
            now.as_str(),
        );
        proof {
            let row = MemoryRelationView {
                id: idv,
                source_id: source_id@,
                target_id: target_id@,
                relation_type,
                rationale: opt_str_view(rationale),
                created_at: nowv,
            };
            assert(self@ == old(self)@.after_create_relation(row));
        }
        r
    }

    /// Deletes the relation `relation_id`. Deleting a `Supersedes` relation
    /// clears its target's `superseded_by`; an unknown identifier changes
    /// nothing.
    pub fn delete_memory_relation(&mut self, relation_id: &RelationId) -> (r: Result<
        (),
        StoreError,
    >)
        requires
            old(self)@.wf(),
        ensures
            final(self)@.wf(),
            r is Ok,
            final(self)@ == old(self)@.after_delete_relation(relation_id@),
    {
        let ghost before = self@;
        match self.relation_id_index(relation_id) {
            None => {
                proof {
                    lemma_find_none(before.relations, relation_is(relation_id@));
                }
                Ok(())
            },
            Some(i) => {
                assert(before.relations[i as int] == self.relations@[i as int]@);
                let ghost gone = before.relations[i as int];
                let supersedes = self.relations[i].relation_type == RelationType::Supersedes;
                let target = self.relations[i].target_id.clone();
                let removed = self.relations.remove(i);
                assert(self@.relations =~= before.relations.remove(i as int));
                if supersedes {
                    assert(before.has_memory(gone.target_id));
                    match self.memory_index(&target) {
                        Some(ti) => {
                            proof {
                                lemma_find_some(before.memories, memory_is(target@));
                            }
                            self.write_superseded(ti, None);
                        },
                        None => {
                            assert(false);
                        },
                    }
                }
                proof {
                    assert(self@ == before.after_delete_relation(relation_id@));
                    delete_relation_keeps_wf(before, relation_id@);
                }
                Ok(())
            },
        }
    }
}

/// Creating the same relation again returns the identifier that the first
/// call returned and stores nothing: after the first call exactly one
/// relation joins the source to the target with this meaning.
pub proof fn relation_creation_is_idempotent(
    db: DatabaseView,
    first: MemoryRelationView,
    second: MemoryRelationView,
)
    requires
        db.wf(),
        second.source_id == first.source_id,
        second.target_id == first.target_id,
        second.relation_type == first.relation_type,
        db.relation_outcome(first.source_id, first.target_id, first.relation_type, first.id) is Ok,
    ensures
        ({
            let once = db.after_create_relation(first);
            &&& once.relation_outcome(
                first.source_id,
                first.target_id,
                first.relation_type,
                second.id,
            ) == db.relation_outcome(
                first.source_id,
                first.target_id,
                first.relation_type,
                first.id,
            )
            &&& once.after_create_relation(second) == once
            &&& once.relations.filter(
                relation_joins(first.source_id, first.target_id, first.relation_type),
            ).len() == 1
        }),
{
    let joins = relation_joins(first.source_id, first.target_id, first.relation_type);
    let once = db.after_create_relation(first);
    create_relation_keeps_wf(db, first);
    lemma_find_some(db.relations, joins);
    lemma_any_push(db.relations, first, joins);
    lemma_find_some(once.relations, joins);
    lemma_set_superseded(db.memories, first.target_id, Some(first.source_id));
    let i = find_first(once.relations, joins)->0;
    let key = |r: MemoryRelationView| (r.source_id, r.target_id, r.relation_type);
    assert forall|j: int| 0 <= j < once.relations.len() && j != i implies !joins(
        once.relations[j],
    ) by {
        if j < i {
            assert(key(once.relations[j]) != key(once.relations[i]));
        } else {
            assert(key(once.relations[i]) != key(once.relations[j]));
        }
    }
    crate::laws::lemma_single_match(once.relations, joins, i);
}

/// After a `Supersedes` relation from `s` to `t` was created, `t` is
/// superseded by `s`. This holds of every call that stores the relation,
/// and of a call that finds it stored while `t` is still superseded by
/// `s`; it fails where another memory has superseded `t` since.
pub proof fn supersedes_sets_pointer(db: DatabaseView, row: MemoryRelationView)
    requires
        db.wf(),
        row.relation_type == RelationType::Supersedes,
        db.relation_outcome(row.source_id, row.target_id, row.relation_type, row.id) is Ok,
        any(db.relations, relation_joins(row.source_id, row.target_id, row.relation_type))
            ==> db.memory(row.target_id)->0.superseded_by == Some(row.source_id),
    ensures
        db.after_create_relation(row).memory(row.target_id) matches Some(m) && m.superseded_by
            == Some(row.source_id),
{
    let after = db.after_create_relation(row);
    lemma_find_some(db.memories, memory_is(row.target_id));
    lemma_set_superseded(db.memories, row.target_id, Some(row.source_id));
    lemma_find_some(after.memories, memory_is(row.target_id));
}

/// After a `Supersedes` relation was deleted, its target is superseded by
/// nothing.
pub proof fn deleting_supersedes_clears_pointer(db: DatabaseView, id: Seq<char>)
    requires
        db.wf(),
        find_first(db.relations, relation_is(id)) matches Some(i) && db.relations[i].relation_type
            == RelationType::Supersedes,
    ensures
        db.after_delete_relation(id).memory(
            db.relations[find_first(db.relations, relation_is(id))->0].target_id,
        ) matches Some(m) && m.superseded_by is None,
{
    let i = find_first(db.relations, relation_is(id))->0;
    let target = db.relations[i].target_id;
    let after = db.after_delete_relation(id);
    lemma_find_some(db.relations, relation_is(id));
    assert(db.has_memory(target));
    lemma_find_some(db.memories, memory_is(target));
    lemma_set_superseded(db.memories, target, None);
    lemma_find_some(after.memories, memory_is(target));
}

} // verus!
