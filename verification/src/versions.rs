//! Versioned history: snapshots of a memory's earlier content, numbered from
//! 1 without gaps, reverting to a snapshot, and pruning old snapshots.

use crate::clock::now_rfc3339;
use crate::dup::{seq_view, Dup};
use crate::ids::{generate_version_id, is_generated, MemoryId, VersionId};
use crate::pieces::{decimal, push_decimal};
use crate::relations::{opt_str_view, result_view};
use crate::schemas::{MemoryVersion, MemoryVersionView, RelationType};
use crate::store::{
    any, find_first, lemma_any_same, lemma_find_first, lemma_find_none, lemma_find_some,
    memory_is, relation_joins, Database, DatabaseView, MemoryRowView, StoreError, MAX_IMPORTANCE,
};
use crate::text::{append_str, from_chars};
use vstd::prelude::*;

verus! {

/// The version row has the identifier `id`.
pub open spec fn version_is(id: Seq<char>) -> spec_fn(MemoryVersionView) -> bool {
    |v: MemoryVersionView| v.id == id
}

/// The version row belongs to the memory `memory_id`.
pub open spec fn version_of(memory_id: Seq<char>) -> spec_fn(MemoryVersionView) -> bool {
    |v: MemoryVersionView| v.memory_id == memory_id
}

/// The rows with the version counter of the memory `id` raised by one.
pub open spec fn bump_version(rows: Seq<MemoryRowView>, id: Seq<char>) -> Seq<MemoryRowView> {
    Seq::new(
        rows.len(),
        |i: int|
            if rows[i].memory.id == id {
                MemoryRowView { version: (rows[i].version + 1) as u32, ..rows[i] }
            } else {
                rows[i]
            },
    )
}

/// The rows with the text of the memory `id` replaced by `text`.
pub open spec fn set_text(rows: Seq<MemoryRowView>, id: Seq<char>, text: Seq<char>) -> Seq<
    MemoryRowView,
> {
    Seq::new(
        rows.len(),
        |i: int|
            if rows[i].memory.id == id {
                MemoryRowView {
                    memory: crate::schemas::MemoryView { text, ..rows[i].memory },
                    ..rows[i]
                }
            } else {
                rows[i]
            },
    )
}

/// `s` without the first `n` of its elements that satisfy `p`.
pub open spec fn drop_first_matching<T>(s: Seq<T>, p: spec_fn(T) -> bool, n: nat) -> Seq<T>
    decreases s.len(),
{
    if s.len() == 0 || n == 0 {
        s
    } else if p(s[0]) {
        drop_first_matching(s.drop_first(), p, (n - 1) as nat)
    } else {
        seq![s[0]] + drop_first_matching(s.drop_first(), p, n)
    }
}

/// The change summary that a revert records.
pub open spec fn revert_summary(target_version: u32, reason: Seq<char>) -> Seq<char> {
    "reverted to v"@ + decimal(target_version as nat) + ": "@ + reason
}

impl DatabaseView {
    /// The stored versions of a memory, oldest first.
    pub open spec fn versions_of(self, memory_id: Seq<char>) -> Seq<MemoryVersionView> {
        self.versions.filter(version_of(memory_id))
    }

    /// The stored version of a memory with the number `n`.
    pub open spec fn version_numbered(self, memory_id: Seq<char>, n: u32) -> Option<
        MemoryVersionView,
    > {
        match find_first(
            self.versions,
            |v: MemoryVersionView| v.memory_id == memory_id && v.version_number == n,
        ) {
            Some(i) => Some(self.versions[i]),
            None => None,
        }
    }

    /// What creating a version returns: `NotFound` for an unknown memory,
    /// `Conflict` if the new identifier is taken, `Internal` if the version
    /// counter cannot grow, else the new identifier.
    pub open spec fn version_outcome(self, memory_id: Seq<char>, id: Seq<char>) -> Result<
        Seq<char>,
        StoreError,
    > {
        match self.memory(memory_id) {
            None => Err(StoreError::NotFound),
            Some(m) => if any(self.versions, version_is(id)) {
                Err(StoreError::Conflict)
            } else if m.version == u32::MAX {
                Err(StoreError::Internal)
            } else {
                Ok(id)
            },
        }
    }

    /// The store after creating a version: the snapshot carries the memory's
    /// version counter as its number, and the counter has grown by one.
    pub open spec fn after_create_version(
        self,
        memory_id: Seq<char>,
        content: Seq<char>,
        summary: Option<Seq<char>>,
        id: Seq<char>,
        now: Seq<char>,
    ) -> DatabaseView {
        if self.version_outcome(memory_id, id) is Ok {
            DatabaseView {
                versions: self.versions.push(
                    MemoryVersionView {
                        id,
                        memory_id,
                        content,
                        version_number: self.memory(memory_id)->0.version,
                        change_summary: summary,
                        created_at: now,
                    },
                ),
                memories: bump_version(self.memories, memory_id),
                ..self
            }
        } else {
            self
        }
    }

    /// What reverting returns: `NotFound` if the memory has no version with
    /// the number asked for, else what taking the snapshot returns.
    pub open spec fn revert_outcome(self, memory_id: Seq<char>, target_version: u32, id: Seq<char>)
        -> Result<(), StoreError> {
        if self.version_numbered(memory_id, target_version) is None {
            Err(StoreError::NotFound)
        } else {
            match self.version_outcome(memory_id, id) {
                Ok(_) => Ok(()),
                Err(e) => Err(e),
            }
        }
    }

    /// The store after reverting: the current text is kept as a new version,
    /// and the memory's text is the content of the version asked for.
    pub open spec fn after_revert(
        self,
        memory_id: Seq<char>,
        target_version: u32,
        reason: Seq<char>,
        id: Seq<char>,
        now: Seq<char>,
    ) -> DatabaseView {
        if self.revert_outcome(memory_id, target_version, id) is Ok {
            let snap = self.after_create_version(
                memory_id,
                self.memory(memory_id)->0.memory.text,
                Some(revert_summary(target_version, reason)),
                id,
                now,
            );
            DatabaseView {
                memories: set_text(
                    snap.memories,
                    memory_id,
                    self.version_numbered(memory_id, target_version)->0.content,
                ),
                ..snap
            }
        } else {
            self
        }
    }

    /// Number of versions that pruning removes: all but the `keep` newest.
    pub open spec fn pruned_count(self, memory_id: Seq<char>, keep: u32) -> nat {
        let k = self.versions_of(memory_id).len();
        if k <= keep {
            0
        } else {
            (k - keep) as nat
        }
    }

    /// The store after pruning: the oldest versions of the memory are gone.
    pub open spec fn after_prune(self, memory_id: Seq<char>, keep: u32) -> DatabaseView {
        DatabaseView {
            versions: drop_first_matching(
                self.versions,
                version_of(memory_id),
                self.pruned_count(memory_id, keep),
            ),
            ..self
        }
    }

    /// Every number from 1 up to the memory's counter has its version: no
    /// snapshot of this memory was ever pruned.
    pub open spec fn versions_complete(self, memory_id: Seq<char>) -> bool {
        match self.memory(memory_id) {
            Some(m) => forall|n: u32|
                1 <= n < m.version ==> (#[trigger] self.version_numbered(memory_id, n)) is Some,
            None => true,
        }
    }
}

/// Rewriting the version counter or the text keeps every identifier and
/// every other column.
pub proof fn lemma_rows_rewritten(rows: Seq<MemoryRowView>, id: Seq<char>, text: Seq<char>)
    ensures
        bump_version(rows, id).len() == rows.len(),
        set_text(rows, id, text).len() == rows.len(),
        forall|k: Seq<char>|
            find_first(bump_version(rows, id), #[trigger] memory_is(k)) == find_first(
                rows,
                memory_is(k),
            ) && any(bump_version(rows, id), memory_is(k)) == any(rows, memory_is(k)),
        forall|k: Seq<char>|
            find_first(set_text(rows, id, text), #[trigger] memory_is(k)) == find_first(
                rows,
                memory_is(k),
            ) && any(set_text(rows, id, text), memory_is(k)) == any(rows, memory_is(k)),
{
    assert forall|k: Seq<char>|
        find_first(bump_version(rows, id), #[trigger] memory_is(k)) == find_first(
            rows,
            memory_is(k),
        ) && any(bump_version(rows, id), memory_is(k)) == any(rows, memory_is(k)) by {
        lemma_any_same(bump_version(rows, id), rows, memory_is(k));
    }
    assert forall|k: Seq<char>|
        find_first(set_text(rows, id, text), #[trigger] memory_is(k)) == find_first(
            rows,
            memory_is(k),
        ) && any(set_text(rows, id, text), memory_is(k)) == any(rows, memory_is(k)) by {
        lemma_any_same(set_text(rows, id, text), rows, memory_is(k));
    }
}

/// Replacing a text keeps the versions consistent.
pub proof fn set_text_keeps_versions(db: DatabaseView, id: Seq<char>, text: Seq<char>)
    requires
        db.versions_consistent(),
    ensures
        (DatabaseView { memories: set_text(db.memories, id, text), ..db }).versions_consistent(),
{
    let new = DatabaseView { memories: set_text(db.memories, id, text), ..db };
    lemma_rows_rewritten(db.memories, id, text);
    assert forall|i: int| 0 <= i < new.memories.len() implies (#[trigger] new.memories[i]).version
        >= 1 by {
        assert(db.memories[i].version >= 1);
    }
    assert forall|i: int| 0 <= i < new.versions.len() implies (
    #[trigger] new.versions[i]).version_number >= 1 && match new.memory(new.versions[i].memory_id) {
        Some(m) => new.versions[i].version_number < m.version,
        None => false,
    } by {
        let vid = db.versions[i].memory_id;
        assert(db.versions[i].version_number >= 1);
        lemma_find_some(db.memories, memory_is(vid));
        assert(find_first(new.memories, memory_is(vid)) == find_first(db.memories, memory_is(vid)));
    }
}

/// A store that differs from a well-formed one only in the text and the
/// version counter of memories and in its versions is well formed if its
/// versions are consistent, carry distinct identifiers and belong to stored
/// memories.
pub proof fn lemma_wf_after_version_change(old: DatabaseView, new: DatabaseView)
    requires
        old.wf(),
        new.turns == old.turns,
        new.workspaces == old.workspaces,
        new.projects == old.projects,
        new.areas == old.areas,
        new.topics == old.topics,
        new.relations == old.relations,
        new.index_notes == old.index_notes,
        new.summaries == old.summaries,
        new.agentic == old.agentic,
        new.memories.len() == old.memories.len(),
        forall|i: int|
            0 <= i < old.memories.len() ==> {
                &&& (#[trigger] new.memories[i]).memory.id == old.memories[i].memory.id
                &&& new.memories[i].memory.topic_id == old.memories[i].memory.topic_id
                &&& new.memories[i].importance == old.memories[i].importance
                &&& new.memories[i].superseded_by == old.memories[i].superseded_by
            },
        crate::store::distinct_keys(new.versions, |r: MemoryVersionView| r.id),
        new.versions_consistent(),
        forall|i: int|
            0 <= i < new.versions.len() ==> old.has_memory((#[trigger] new.versions[i]).memory_id),
    ensures
        new.wf(),
{
    assert forall|id: Seq<char>|
        find_first(new.memories, #[trigger] memory_is(id)) == find_first(
            old.memories,
            memory_is(id),
        ) && any(new.memories, memory_is(id)) == any(old.memories, memory_is(id)) by {
        lemma_any_same(new.memories, old.memories, memory_is(id));
    }
    assert(new.ids_unique()) by {
        assert forall|i: int, j: int| 0 <= i < j < new.memories.len() implies new.memories[i].memory.id
            != new.memories[j].memory.id by {
            assert(old.memories[i].memory.id != old.memories[j].memory.id);
        }
    }
    assert(new.references_hold()) by {
        assert forall|i: int| 0 <= i < new.memories.len() implies match (
        #[trigger] new.memories[i]).memory.topic_id {
            Some(t) => new.has_topic(t),
            None => true,
        } by {
            assert(new.memories[i].memory.topic_id == old.memories[i].memory.topic_id);
        }
        assert forall|i: int| 0 <= i < new.relations.len() implies new.has_memory(
            (#[trigger] new.relations[i]).source_id,
        ) && new.has_memory(new.relations[i].target_id) by {
            assert(old.has_memory(old.relations[i].source_id));
            assert(old.has_memory(old.relations[i].target_id));
        }
        assert forall|i: int| 0 <= i < new.summaries.len() implies new.has_memory(
            (#[trigger] new.summaries[i]).memory_id,
        ) by {
            assert(old.has_memory(old.summaries[i].memory_id));
        }
        assert forall|i: int| 0 <= i < new.agentic.len() implies new.has_memory(
            (#[trigger] new.agentic[i]).id,
        ) by {
            assert(old.has_memory(old.agentic[i].id));
        }
    }
    assert(new.relations_consistent()) by {
        assert forall|i: int| 0 <= i < new.memories.len() implies match (
        #[trigger] new.memories[i]).superseded_by {
            Some(s) => any(
                new.relations,
                relation_joins(s, new.memories[i].memory.id, RelationType::Supersedes),
            ),
            None => true,
        } by {
            assert(new.memories[i].superseded_by == old.memories[i].superseded_by);
            assert(new.memories[i].memory.id == old.memories[i].memory.id);
        }
    }
    assert(new.importance_bounded()) by {
        assert forall|i: int| 0 <= i < new.memories.len() implies (
        #[trigger] new.memories[i]).importance <= MAX_IMPORTANCE by {
            assert(old.memories[i].importance <= MAX_IMPORTANCE);
        }
    }
}

/// Creating a version keeps the store well formed.
pub proof fn create_version_keeps_wf(
    before: DatabaseView,
    memory_id: Seq<char>,
    content: Seq<char>,
    summary: Option<Seq<char>>,
    id: Seq<char>,
    now: Seq<char>,
)
    requires
        before.wf(),
    ensures
        before.after_create_version(memory_id, content, summary, id, now).wf(),
{
    if before.version_outcome(memory_id, id) is Ok {
        let after = before.after_create_version(memory_id, content, summary, id, now);
        let m = before.memory(memory_id)->0;
        lemma_find_some(before.memories, memory_is(memory_id));
        lemma_find_none(before.versions, version_is(id));
        lemma_rows_rewritten(before.memories, memory_id, Seq::empty());
        let mi = find_first(before.memories, memory_is(memory_id))->0;
        assert(crate::store::distinct_keys(after.versions, |r: MemoryVersionView| r.id)) by {
            assert forall|i: int, j: int| 0 <= i < j < after.versions.len() implies after.versions[i].id
                != after.versions[j].id by {
                if j == before.versions.len() {
                    assert(!version_is(id)(before.versions[i]));
                } else {
                    assert(before.versions[i].id != before.versions[j].id);
                }
            }
        }
        assert(after.versions_consistent()) by {
            assert forall|i: int| 0 <= i < after.memories.len() implies (
            #[trigger] after.memories[i]).version >= 1 by {
                assert(before.memories[i].version >= 1);
                if before.memories[i].memory.id == memory_id {
                    // the counter of the memory itself: found at its first row
                    crate::store::lemma_distinct_found(
                        before.memories,
                        |r: MemoryRowView| r.memory.id,
                        memory_id,
                        i,
                    );
                    assert(find_first(before.memories, |r: MemoryRowView| r.memory.id == memory_id)
                        == Some(i));
                }
            }
            assert forall|i: int| 0 <= i < after.versions.len() implies (
            #[trigger] after.versions[i]).version_number >= 1 && match after.memory(
                after.versions[i].memory_id,
            ) {
                Some(r) => after.versions[i].version_number < r.version,
                None => false,
            } by {
                let vid = after.versions[i].memory_id;
                if i < before.versions.len() {
                    assert(after.versions[i] == before.versions[i]);
                    assert(before.versions[i].version_number >= 1);
                }
                lemma_find_some(before.memories, memory_is(vid));
                assert(find_first(after.memories, memory_is(vid)) == find_first(
                    before.memories,
                    memory_is(vid),
                ));
            }
            assert forall|i: int, j: int|
                0 <= i < j < after.versions.len() && (#[trigger] after.versions[i]).memory_id == (
                #[trigger] after.versions[j]).memory_id implies after.versions[i].version_number
                < after.versions[j].version_number by {
                if j == before.versions.len() {
                    assert(after.versions[i] == before.versions[i]);
                    assert(before.versions[i].version_number < m.version);
                } else {
                    assert(after.versions[i] == before.versions[i]);
                    assert(after.versions[j] == before.versions[j]);
                }
            }
        }
        assert forall|i: int| 0 <= i < after.versions.len() implies before.has_memory(
            (#[trigger] after.versions[i]).memory_id,
        ) by {
            if i < before.versions.len() {
                assert(after.versions[i] == before.versions[i]);
            }
        }
        lemma_wf_after_version_change(before, after);
    }
}


/// What is left after dropping the first matches is what follows them among
/// the matches, and everything that did not match.
pub proof fn lemma_drop_first_matching<T>(s: Seq<T>, p: spec_fn(T) -> bool, n: nat)
    ensures
        drop_first_matching(s, p, n).filter(p) == s.filter(p).skip(
            if n <= s.filter(p).len() {
                n as int
            } else {
                s.filter(p).len() as int
            },
        ),
        drop_first_matching(s, p, n).filter(|x: T| !p(x)) == s.filter(|x: T| !p(x)),
        drop_first_matching(s, p, n).len() == s.len() - if n <= s.filter(p).len() {
            n as int
        } else {
            s.filter(p).len() as int
        },
    decreases s.len(),
{
    broadcast use Seq::filter_distributes_over_add;

    let np = |x: T| !p(x);
    reveal(Seq::filter);
    if s.len() == 0 || n == 0 {
        assert(s.filter(p).skip(0) =~= s.filter(p));
        s.lemma_filter_len(p);
    } else {
        let x = s[0];
        let t = s.drop_first();
        assert(s =~= seq![x] + t);
        assert(seq![x] =~= Seq::<T>::empty().push(x));
        crate::query::lemma_filter_push(Seq::<T>::empty(), x, p);
        crate::query::lemma_filter_push(Seq::<T>::empty(), x, np);
        assert(Seq::<T>::empty().filter(p) =~= Seq::<T>::empty());
        assert(Seq::<T>::empty().filter(np) =~= Seq::<T>::empty());
        assert(seq![x].filter(p) =~= if p(x) {
            seq![x]
        } else {
            Seq::<T>::empty()
        });
        assert(seq![x].filter(np) =~= if np(x) {
            seq![x]
        } else {
            Seq::<T>::empty()
        });
        assert(s.filter(p) == seq![x].filter(p) + t.filter(p));
        assert(s.filter(np) == seq![x].filter(np) + t.filter(np));
        if p(x) {
            lemma_drop_first_matching(t, p, (n - 1) as nat);
            let k = if n - 1 <= t.filter(p).len() {
                n - 1
            } else {
                t.filter(p).len() as int
            };
            assert((seq![x] + t.filter(p)).skip(k + 1) =~= t.filter(p).skip(k));
            assert(s.filter(np) =~= t.filter(np));
        } else {
            lemma_drop_first_matching(t, p, n);
            let r = drop_first_matching(t, p, n);
            assert((seq![x] + r).filter(p) == seq![x].filter(p) + r.filter(p));
            assert((seq![x] + r).filter(np) == seq![x].filter(np) + r.filter(np));
            assert(s.filter(p) =~= t.filter(p));
            assert((seq![x] + r).filter(p) =~= r.filter(p));
        }
    }
}

/// Where each element left after dropping the first matches stood before.
pub open spec fn kept_indices<T>(s: Seq<T>, p: spec_fn(T) -> bool, n: nat) -> Seq<int>
    decreases s.len(),
{
    if s.len() == 0 || n == 0 {
        Seq::new(s.len(), |i: int| i)
    } else if p(s[0]) {
        kept_indices(s.drop_first(), p, (n - 1) as nat).map_values(|i: int| i + 1)
    } else {
        seq![0int] + kept_indices(s.drop_first(), p, n).map_values(|i: int| i + 1)
    }
}

/// Dropping elements keeps the others in their order.
pub proof fn lemma_kept_indices<T>(s: Seq<T>, p: spec_fn(T) -> bool, n: nat)
    ensures
        kept_indices(s, p, n).len() == drop_first_matching(s, p, n).len(),
        forall|a: int|
            0 <= a < kept_indices(s, p, n).len() ==> 0 <= (#[trigger] kept_indices(s, p, n)[a])
                < s.len() && drop_first_matching(s, p, n)[a] == s[kept_indices(s, p, n)[a]],
        forall|a: int, b: int|
            0 <= a < b < kept_indices(s, p, n).len() ==> kept_indices(s, p, n)[a] < kept_indices(
                s,
                p,
                n,
            )[b],
    decreases s.len(),
{
    if s.len() == 0 || n == 0 {
    } else {
        let t = s.drop_first();
        if p(s[0]) {
            lemma_kept_indices(t, p, (n - 1) as nat);
            let m = kept_indices(t, p, (n - 1) as nat);
            assert forall|a: int| 0 <= a < m.len() implies t[m[a]] == s[m[a] + 1] by {}
        } else {
            lemma_kept_indices(t, p, n);
            let m = kept_indices(t, p, n);
            let r = drop_first_matching(t, p, n);
            let mm = kept_indices(s, p, n);
            assert forall|a: int| 0 <= a < mm.len() implies 0 <= (#[trigger] mm[a]) < s.len() && (
            seq![s[0]] + r)[a] == s[mm[a]] by {
                if a > 0 {
                    assert(mm[a] == m[a - 1] + 1);
                    assert(t[m[a - 1]] == s[m[a - 1] + 1]);
                }
            }
            assert forall|a: int, b: int| 0 <= a < b < mm.len() implies mm[a] < mm[b] by {
                if a > 0 {
                    assert(m[a - 1] < m[b - 1]);
                }
            }
        }
    }
}

/// Pruning keeps the store well formed.
pub proof fn prune_keeps_wf(before: DatabaseView, memory_id: Seq<char>, keep: u32)
    requires
        before.wf(),
    ensures
        before.after_prune(memory_id, keep).wf(),
{
    let after = before.after_prune(memory_id, keep);
    let n = before.pruned_count(memory_id, keep);
    let p = version_of(memory_id);
    lemma_kept_indices(before.versions, p, n);
    let m = kept_indices(before.versions, p, n);
    assert(crate::store::distinct_keys(after.versions, |r: MemoryVersionView| r.id)) by {
        assert forall|i: int, j: int| 0 <= i < j < after.versions.len() implies after.versions[i].id
            != after.versions[j].id by {
            assert(m[i] < m[j]);
            assert(before.versions[m[i]].id != before.versions[m[j]].id);
        }
    }
    assert(after.versions_consistent()) by {
        assert forall|i: int| 0 <= i < after.versions.len() implies (
        #[trigger] after.versions[i]).version_number >= 1 && match after.memory(
            after.versions[i].memory_id,
        ) {
            Some(r) => after.versions[i].version_number < r.version,
            None => false,
        } by {
            assert(after.versions[i] == before.versions[m[i]]);
            assert(before.versions[m[i]].version_number >= 1);
        }
        assert forall|i: int, j: int|
            0 <= i < j < after.versions.len() && (#[trigger] after.versions[i]).memory_id == (
            #[trigger] after.versions[j]).memory_id implies after.versions[i].version_number
            < after.versions[j].version_number by {
            assert(m[i] < m[j]);
            assert(after.versions[i] == before.versions[m[i]]);
            assert(after.versions[j] == before.versions[m[j]]);
        }
    }
    assert forall|i: int| 0 <= i < after.versions.len() implies before.has_memory(
        (#[trigger] after.versions[i]).memory_id,
    ) by {
        assert(after.versions[i] == before.versions[m[i]]);
        assert(before.has_memory(before.versions[m[i]].memory_id));
    }
    lemma_wf_after_version_change(before, after);
}

impl Database {
    /// Index of the stored version with the identifier `id`.
    pub(crate) fn version_id_index(&self, id: &VersionId) -> (r: Option<usize>)
        ensures
            match r {
                Some(i) => i < self.versions.len() && find_first(self@.versions, version_is(id@))
                    == Some(i as int),
                None => !any(self@.versions, version_is(id@)),
            },
    {
        let mut i: usize = 0;
        let ghost rows = self@.versions;
        while i < self.versions.len()
            invariant
                i <= self.versions.len(),
                rows == self@.versions,
                forall|j: int| 0 <= j < i ==> !version_is(id@)(rows[j]),
            decreases self.versions.len() - i,
        {
            assert(rows[i as int] == self.versions@[i as int]@);
            if self.versions[i].id == *id {
                proof {
                    lemma_find_first(rows, version_is(id@), i as int);
                }
                return Some(i);
            }
            i += 1;
        }
        proof {
            lemma_find_none(rows, version_is(id@));
        }
        None
    }

    /// Raises the version counter of the memory at row `i` by one.
    fn write_version_counter(&mut self, i: usize)
        requires
            i < old(self).memories.len(),
            old(self).memories[i as int].version < u32::MAX,
            crate::store::distinct_keys(old(self)@.memories, |r: MemoryRowView| r.memory.id),
        ensures
            final(self)@.memories == bump_version(
                old(self)@.memories,
                old(self)@.memories[i as int].memory.id,
            ),
            final(self)@ == (DatabaseView { memories: final(self)@.memories, ..old(self)@ }),
    {
        let ghost rows = self@.memories;
        let ghost target = rows[i as int].memory.id;
        assert(rows[i as int] == self.memories@[i as int]@);
        let mut row = self.memories[i].dup();
        row.version = row.version + 1;
        self.memories.set(i, row);
        proof {
            let want = bump_version(rows, target);
            assert(self@.memories =~= want) by {
                assert forall|j: int| 0 <= j < rows.len() implies self@.memories[j] == want[j] by {
                    if j != i {
                        assert(self.memories@[j] == old(self).memories@[j]);
                        assert(rows[j] == old(self).memories@[j]@);
                        if j < i {
                            assert(rows[j].memory.id != rows[i as int].memory.id);
                        } else {
                            assert(rows[i as int].memory.id != rows[j].memory.id);
                        }
                    }
                }
            }
        }
    }

    /// Replaces the text of the memory at row `i`.
    fn write_text(&mut self, i: usize, text: String)
        requires
            i < old(self).memories.len(),
            crate::store::distinct_keys(old(self)@.memories, |r: MemoryRowView| r.memory.id),
        ensures
            final(self)@.memories == set_text(
                old(self)@.memories,
                old(self)@.memories[i as int].memory.id,
                text@,
            ),
            final(self)@ == (DatabaseView { memories: final(self)@.memories, ..old(self)@ }),
    {
        let ghost rows = self@.memories;
        let ghost target = rows[i as int].memory.id;
        let ghost tv = text@;
        assert(rows[i as int] == self.memories@[i as int]@);
        let mut row = self.memories[i].dup();
        row.memory.text = text;
        self.memories.set(i, row);
        proof {
            let want = set_text(rows, target, tv);
            assert(self@.memories =~= want) by {
                assert forall|j: int| 0 <= j < rows.len() implies self@.memories[j] == want[j] by {
                    if j != i {
                        assert(self.memories@[j] == old(self).memories@[j]);
                        assert(rows[j] == old(self).memories@[j]@);
                        if j < i {
                            assert(rows[j].memory.id != rows[i as int].memory.id);
                        } else {
                            assert(rows[i as int].memory.id != rows[j].memory.id);
                        }
                    }
                }
            }
        }
    }

    /// Stores `old_content` as a version of the memory under the identifier
    /// `id`, stamped `now`, and raises the memory's version counter.
    pub fn create_memory_version_with(
        &mut self,
        memory_id: &MemoryId,
        old_content: &str,
        change_summary: Option<&str>,
        id: VersionId,
        now: &str,
    ) -> (r: Result<VersionId, StoreError>)
        requires
            old(self)@.wf(),
        ensures
            final(self)@.wf(),
            result_view(r) == old(self)@.version_outcome(memory_id@, id@),
            final(self)@ == old(self)@.after_create_version(
                memory_id@,
                old_content@,
                opt_str_view(change_summary),
                id@,
                now@,
            ),
    {
        let ghost before = self@;
        let mi = match self.memory_index(memory_id) {
            Some(i) => i,
            None => {
                return Err(StoreError::NotFound);
            },
        };
        assert(before.memories[mi as int] == self.memories@[mi as int]@);
        proof {
            lemma_find_some(before.memories, memory_is(memory_id@));
            assert(before.memories[mi as int].memory.id == memory_id@);
        }
        if self.version_id_index(&id).is_some() {
            return Err(StoreError::Conflict);
        }
        let number = self.memories[mi].version;
        if number == u32::MAX {
            return Err(StoreError::Internal);
        }
        let row = MemoryVersion {
            id: id.clone(),
            memory_id: memory_id.clone(),
            content: old_content.to_owned(),
            version_number: number,
            change_summary: match change_summary {
                Some(s) => Some(s.to_owned()),
                None => None,
            },
            created_at: now.to_owned(),
        };
        let ghost rv = row@;
        self.versions.push(row);
        assert(self@.versions =~= before.versions.push(rv));
        self.write_version_counter(mi);
        proof {
            assert(self@ == before.after_create_version(
                memory_id@,
                old_content@,
                opt_str_view(change_summary),
                id@,
                now@,
            ));
            create_version_keeps_wf(
                before,
                memory_id@,
                old_content@,
                opt_str_view(change_summary),
                id@,
                now@,
            );
        }
        Ok(id)
    }

    /// Stores `old_content` as a version of the memory under a fresh
    /// identifier, stamped with the current time, and raises the memory's
    /// version counter.
    pub fn create_memory_version(
        &mut self,
        memory_id: &MemoryId,
        old_content: &str,
        change_summary: Option<&str>,
    ) -> (r: Result<VersionId, StoreError>)
        requires
            old(self)@.wf(),
        ensures
            final(self)@.wf(),
            exists|id: Seq<char>, now: Seq<char>|
                {
                    &&& is_generated(id, "ver_"@)
                    &&& result_view(r) == old(self)@.version_outcome(memory_id@, id)
                    &&& final(self)@ == #[trigger] old(self)@.after_create_version(
                        memory_id@,
                        old_content@,
                        opt_str_view(change_summary),
                        id,
                        now,
                    )
                },
    {
        let id = generate_version_id();
        let now = now_rfc3339();
        let ghost idv = id@;
        let ghost nowv = now@;
        let r = self.create_memory_version_with(
            memory_id,
            old_content,
            change_summary,
            id,
            now.as_str(),
        );
        assert(self@ == old(self)@.after_create_version(
            memory_id@,
            old_content@,
            opt_str_view(change_summary),
            idv,
            nowv,
        ));
        r
    }

    /// The stored versions of a memory, newest first.
    pub fn get_memory_versions(&self, memory_id: &MemoryId) -> (r: Vec<MemoryVersion>)
        ensures
            seq_view(r@) == self@.versions_of(memory_id@).reverse(),
    {
        let ghost p = version_of(memory_id@);
        let pick = |v: &MemoryVersion| -> (o: bool)
            ensures
                o == p(v@),
            { v.memory_id == *memory_id };
        let mine = crate::query::select(&self.versions, pick, Ghost(p));
        crate::query::reversed(&mine)
    }

    /// The stored version of a memory with the number `version_number`.
    pub fn get_version_by_number(&self, memory_id: &MemoryId, version_number: u32) -> (r: Option<
        MemoryVersion,
    >)
        ensures
            crate::dup::opt_view(r) == self@.version_numbered(memory_id@, version_number),
    {
        let ghost rows = self@.versions;
        let ghost p = |v: MemoryVersionView|
            v.memory_id == memory_id@ && v.version_number == version_number;
        let mut i: usize = 0;
        while i < self.versions.len()
            invariant
                i <= self.versions.len(),
                rows == self@.versions,
                p == (|v: MemoryVersionView|
                    v.memory_id == memory_id@ && v.version_number == version_number),
                forall|j: int| 0 <= j < i ==> !p(rows[j]),
            decreases self.versions.len() - i,
        {
            assert(rows[i as int] == self.versions@[i as int]@);
            if self.versions[i].memory_id == *memory_id && self.versions[i].version_number
                == version_number {
                proof {
                    lemma_find_first(rows, p, i as int);
                }
                return Some(self.versions[i].clone());
            }
            i += 1;
        }
        proof {
            lemma_find_none(rows, p);
        }
        None
    }

    /// The stored version with the identifier `version_id`.
    pub fn get_version_by_id(&self, version_id: &VersionId) -> (r: Option<MemoryVersion>)
        ensures
            match find_first(self@.versions, version_is(version_id@)) {
                Some(i) => r is Some && r->0@ == self@.versions[i],
                None => r is None,
            },
    {
        match self.version_id_index(version_id) {
            Some(i) => {
                assert(self@.versions[i as int] == self.versions@[i as int]@);
                Some(self.versions[i].clone())
            },
            None => {
                proof {
                    lemma_find_some(self@.versions, version_is(version_id@));
                }
                None
            },
        }
    }

    /// Replaces the text of a memory.
    pub fn set_memory_text(&mut self, memory_id: &MemoryId, text: &str) -> (r: Result<
        (),
        StoreError,
    >)
        requires
            old(self)@.wf(),
        ensures
            final(self)@.wf(),
            r == if old(self)@.has_memory(memory_id@) {
                Ok::<(), StoreError>(())
            } else {
                Err(StoreError::NotFound)
            },
            final(self)@ == (DatabaseView {
                memories: set_text(old(self)@.memories, memory_id@, text@),
                ..old(self)@
            }),
    {
        let ghost before = self@;
        match self.memory_index(memory_id) {
            Some(i) => {
                proof {
                    lemma_find_some(before.memories, memory_is(memory_id@));
                }
                self.write_text(i, text.to_owned());
                proof {
                    assert(before.memories[i as int].memory.id == memory_id@);
                    set_text_keeps_versions(before, memory_id@, text@);
                    lemma_wf_after_version_change(before, self@);
                }
                Ok(())
            },
            None => {
                proof {
                    lemma_find_some(before.memories, memory_is(memory_id@));
                    assert(set_text(before.memories, memory_id@, text@) =~= before.memories);
                }
                Err(StoreError::NotFound)
            },
        }
    }

    /// Keeps the current text as a new version under the identifier `id`,
    /// stamped `now`, and replaces the text by the content of the version
    /// numbered `target_version`.
    pub fn revert_memory_to_version_with(
        &mut self,
        memory_id: &MemoryId,
        target_version: u32,
        revert_reason: &str,
        id: VersionId,
        now: &str,
    ) -> (r: Result<(), StoreError>)
        requires
            old(self)@.wf(),
        ensures
            final(self)@.wf(),
            r == old(self)@.revert_outcome(memory_id@, target_version, id@),
            final(self)@ == old(self)@.after_revert(
                memory_id@,
                target_version,
                revert_reason@,
                id@,
                now@,
            ),
    {
        let ghost before = self@;
        let target = match self.get_version_by_number(memory_id, target_version) {
            Some(t) => t,
            None => {
                return Err(StoreError::NotFound);
            },
        };
        let mi = match self.memory_index(memory_id) {
            Some(i) => i,
            None => {
                return Err(StoreError::NotFound);
            },
        };
        assert(before.memories[mi as int] == self.memories@[mi as int]@);
        let current = self.memories[mi].memory.text.clone();
        let mut summary: Vec<char> = Vec::new();
        append_str(&mut summary, "reverted to v");
        push_decimal(&mut summary, target_version as u64);
        append_str(&mut summary, ": ");
        append_str(&mut summary, revert_reason);
        let summary = from_chars(&summary);
        assert(summary@ =~= revert_summary(target_version, revert_reason@));
        match self.create_memory_version_with(
            memory_id,
            current.as_str(),
            Some(summary.as_str()),
            id,
            now,
        ) {
            Err(e) => Err(e),
            Ok(_) => {
                let ghost snap = self@;
                proof {
                    lemma_rows_rewritten(before.memories, memory_id@, target.content@);
                    lemma_find_some(snap.memories, memory_is(memory_id@));
                }
                match self.memory_index(memory_id) {
                    Some(i) => {
                        let ghost tc = target.content@;
                        self.write_text(i, target.content);
                        proof {
                            assert(snap.memories[i as int].memory.id == memory_id@);
                            set_text_keeps_versions(snap, memory_id@, tc);
                            lemma_wf_after_version_change(snap, self@);
                        }
                        Ok(())
                    },
                    None => {
                        assert(false);
                        Err(StoreError::Internal)
                    },
                }
            },
        }
    }

    /// Keeps the current text as a new version under a fresh identifier,
    /// stamped with the current time, and replaces the text by the content of
    /// the version numbered `target_version`.
    pub fn revert_memory_to_version(
        &mut self,
        memory_id: &MemoryId,
        target_version: u32,
        revert_reason: &str,
    ) -> (r: Result<(), StoreError>)
        requires
            old(self)@.wf(),
        ensures
            final(self)@.wf(),
            exists|id: Seq<char>, now: Seq<char>|
                {
                    &&& is_generated(id, "ver_"@)
                    &&& r == old(self)@.revert_outcome(memory_id@, target_version, id)
                    &&& final(self)@ == #[trigger] old(self)@.after_revert(
                        memory_id@,
                        target_version,
                        revert_reason@,
                        id,
                        now,
                    )
                },
    {
        let id = generate_version_id();
        let now = now_rfc3339();
        let ghost idv = id@;
        let ghost nowv = now@;
        let r = self.revert_memory_to_version_with(
            memory_id,
            target_version,
            revert_reason,
            id,
            now.as_str(),
        );
        assert(self@ == old(self)@.after_revert(
            memory_id@,
            target_version,
            revert_reason@,
            idv,
            nowv,
        ));
        r
    }

    /// Removes all but the `keep_count` newest versions of a memory and
    /// returns how many were removed.
    pub fn prune_old_versions(&mut self, memory_id: &MemoryId, keep_count: u32) -> (r: Result<
        usize,
        StoreError,
    >)
        requires
            old(self)@.wf(),
        ensures
            final(self)@.wf(),
            r == Ok::<usize, StoreError>(old(self)@.pruned_count(memory_id@, keep_count) as usize),
            final(self)@ == old(self)@.after_prune(memory_id@, keep_count),
    {
        let ghost before = self@;
        let ghost p = version_of(memory_id@);
        let pick = |v: &MemoryVersion| -> (o: bool)
            ensures
                o == p(v@),
            { v.memory_id == *memory_id };
        let mine = crate::query::select(&self.versions, pick, Ghost(p));
        let k = mine.len();
        assert(k == before.versions_of(memory_id@).len());
        let doomed: usize = if k <= keep_count as usize {
            0
        } else {
            k - keep_count as usize
        };
        assert(doomed == before.pruned_count(memory_id@, keep_count));
        let mut rest: Vec<MemoryVersion> = Vec::new();
        std::mem::swap(&mut self.versions, &mut rest);
        let ghost orig = seq_view(rest@);
        assert(orig == before.versions);
        let mut left = doomed;
        assert(seq_view(self.versions@) =~= Seq::<MemoryVersionView>::empty());
        while rest.len() > 0
            invariant
                p == version_of(memory_id@),
                drop_first_matching(orig, p, doomed as nat) == seq_view(self.versions@)
                    + drop_first_matching(seq_view(rest@), p, left as nat),
                self@ == (DatabaseView { versions: seq_view(self.versions@), ..before }),
            decreases rest.len(),
        {
            let ghost rv = seq_view(rest@);
            let ghost kept = seq_view(self.versions@);
            let x = rest.remove(0);
            proof {
                assert(rv[0] == x@);
                assert(seq_view(rest@) =~= rv.drop_first());
            }
            if left > 0 && x.memory_id == *memory_id {
                left -= 1;
            } else {
                self.versions.push(x);
                proof {
                    assert(seq_view(self.versions@) =~= kept.push(x@));
                    if left == 0 {
                        assert(drop_first_matching(rv.drop_first(), p, 0) == rv.drop_first());
                        assert(rv =~= seq![x@] + rv.drop_first());
                    }
                    assert(kept + (seq![x@] + drop_first_matching(
                        rv.drop_first(),
                        p,
                        left as nat,
                    )) =~= kept.push(x@) + drop_first_matching(rv.drop_first(), p, left as nat));
                }
            }
        }
        proof {
            assert(seq_view(self.versions@) + Seq::<MemoryVersionView>::empty() =~= seq_view(
                self.versions@,
            ));
            assert(self@ == before.after_prune(memory_id@, keep_count));
            prune_keeps_wf(before, memory_id@, keep_count);
        }
        Ok(doomed)
    }
}

/// The stored versions of a memory carry climbing numbers.
pub proof fn versions_climb(db: DatabaseView, memory_id: Seq<char>)
    requires
        db.wf(),
    ensures
        forall|a: int, b: int|
            0 <= a < b < db.versions_of(memory_id).len() ==> (#[trigger] db.versions_of(
                memory_id,
            )[a]).version_number < (#[trigger] db.versions_of(memory_id)[b]).version_number,
        forall|k: int|
            0 <= k < db.versions_of(memory_id).len() ==> (#[trigger] db.versions_of(
                memory_id,
            )[k]).memory_id == memory_id,
{
    let p = version_of(memory_id);
    crate::laws::lemma_picked(db.versions, p);
    let idx = crate::laws::picked(db.versions, p);
    let vs = db.versions_of(memory_id);
    assert forall|a: int, b: int| 0 <= a < b < vs.len() implies (#[trigger] vs[a]).version_number
        < (#[trigger] vs[b]).version_number by {
        assert(idx[a] < idx[b]);
        assert(vs[a] == db.versions[idx[a]]);
        assert(vs[b] == db.versions[idx[b]]);
    }
    assert forall|k: int| 0 <= k < vs.len() implies (#[trigger] vs[k]).memory_id == memory_id by {
        assert(p(vs[k]));
    }
}

/// While no version of a memory was pruned, its versions carry the numbers
/// 1, 2, … up to one below its version counter, without a gap.
pub proof fn complete_versions_are_contiguous(db: DatabaseView, memory_id: Seq<char>)
    requires
        db.wf(),
        db.has_memory(memory_id),
        db.versions_complete(memory_id),
    ensures
        db.versions_of(memory_id).len() == db.memory(memory_id)->0.version - 1,
        forall|k: int|
            0 <= k < db.versions_of(memory_id).len() ==> (#[trigger] db.versions_of(
                memory_id,
            )[k]).version_number == k + 1,
{
    let p = version_of(memory_id);
    let vs = db.versions_of(memory_id);
    let v = db.memory(memory_id)->0.version as int;
    lemma_find_some(db.memories, memory_is(memory_id));
    versions_climb(db, memory_id);
    crate::laws::lemma_picked(db.versions, p);
    let idx = crate::laws::picked(db.versions, p);
    let nums = Seq::new(vs.len(), |k: int| vs[k].version_number as int);
    assert forall|k: int| 0 <= k < nums.len() implies 1 <= #[trigger] nums[k] < v by {
        assert(vs[k] == db.versions[idx[k]]);
        assert(db.versions[idx[k]].version_number >= 1);
        assert(p(vs[k]));
    }
    assert forall|n: int| 1 <= n < v implies #[trigger] crate::laws::occurs(nums, n) by {
        let q = |x: MemoryVersionView| x.memory_id == memory_id && x.version_number == n as u32;
        assert(db.version_numbered(memory_id, n as u32) is Some);
        lemma_find_some(db.versions, q);
        let i = find_first(db.versions, q)->0;
        assert(p(db.versions[i]));
        let k = choose|k: int| 0 <= k < idx.len() && idx[k] == i;
        assert(vs[k] == db.versions[i]);
        assert(nums[k] == n);
    }
    assert forall|a: int, b: int| 0 <= a < b < nums.len() implies nums[a] < nums[b] by {
        assert(vs[a].version_number < vs[b].version_number);
    }
    crate::laws::lemma_climbing_without_gap(nums, v);
    assert forall|k: int| 0 <= k < vs.len() implies (#[trigger] vs[k]).version_number == k + 1 by {
        assert(nums[k] == k + 1);
    }
}

/// Creating a version of a memory leaves every memory that was complete
/// complete: the new version takes the number that was missing next.
pub proof fn create_version_keeps_complete(
    db: DatabaseView,
    memory_id: Seq<char>,
    content: Seq<char>,
    summary: Option<Seq<char>>,
    id: Seq<char>,
    now: Seq<char>,
    other: Seq<char>,
)
    requires
        db.wf(),
        db.versions_complete(other),
    ensures
        db.after_create_version(memory_id, content, summary, id, now).versions_complete(other),
{
    let after = db.after_create_version(memory_id, content, summary, id, now);
    if db.version_outcome(memory_id, id) is Ok {
        lemma_rows_rewritten(db.memories, memory_id, Seq::empty());
        lemma_find_some(db.memories, memory_is(other));
        lemma_find_some(db.memories, memory_is(memory_id));
        match db.memory(other) {
            None => {},
            Some(m) => {
                let grown = after.memory(other)->0;
                let added = after.versions[db.versions.len() as int];
                assert forall|n: u32| 1 <= n < grown.version implies (
                #[trigger] after.version_numbered(other, n)) is Some by {
                    let q = |x: MemoryVersionView| x.memory_id == other && x.version_number == n;
                    crate::store::lemma_any_push(db.versions, added, q);
                    if n < m.version {
                        assert(db.version_numbered(other, n) is Some);
                    } else {
                        assert(other == memory_id);
                        assert(q(added));
                    }
                }
            },
        }
    }
}

/// Pruning keeps the newest versions of the memory, at most `keep` of them:
/// what is left of its versions is the end of what there was, and every
/// version removed carries a lower number than every version kept.
pub proof fn prune_keeps_newest(db: DatabaseView, memory_id: Seq<char>, keep: u32)
    requires
        db.wf(),
    ensures
        ({
            let before = db.versions_of(memory_id);
            let after = db.after_prune(memory_id, keep).versions_of(memory_id);
            let gone = db.pruned_count(memory_id, keep) as int;
            &&& after == before.skip(gone)
            &&& after.len() == if before.len() <= keep {
                before.len()
            } else {
                keep as nat
            }
            &&& forall|a: int, b: int|
                0 <= a < gone && gone <= b < before.len() ==> (#[trigger] before[a]).version_number
                    < (#[trigger] before[b]).version_number
        }),
{
    lemma_drop_first_matching(
        db.versions,
        version_of(memory_id),
        db.pruned_count(memory_id, keep),
    );
    versions_climb(db, memory_id);
}

/// One taking of a snapshot: what is kept, why, under which identifier and
/// when.
pub struct Snapshot {
    pub content: Seq<char>,
    pub summary: Option<Seq<char>>,
    pub id: Seq<char>,
    pub now: Seq<char>,
}

impl DatabaseView {
    /// The store after snapshots of a memory were taken one after another.
    pub open spec fn after_versions(self, memory_id: Seq<char>, calls: Seq<Snapshot>)
        -> DatabaseView
        decreases calls.len(),
    {
        if calls.len() == 0 {
            self
        } else {
            let c = calls.last();
            self.after_versions(memory_id, calls.drop_last()).after_create_version(
                memory_id,
                c.content,
                c.summary,
                c.id,
                c.now,
            )
        }
    }

    /// Every one of the snapshots was taken: none met a taken identifier or
    /// a counter that cannot grow.
    pub open spec fn all_taken(self, memory_id: Seq<char>, calls: Seq<Snapshot>) -> bool
        decreases calls.len(),
    {
        calls.len() == 0 || (self.all_taken(memory_id, calls.drop_last()) && self.after_versions(
            memory_id,
            calls.drop_last(),
        ).version_outcome(memory_id, calls.last().id) is Ok)
    }
}

/// After any number of snapshots of a memory that had none, taken one after
/// another, the memory has as many versions as snapshots were taken; they
/// carry the numbers 1, 2, … in the order of taking, each with its content
/// and identifier; and the memory's counter is one more than their number.
pub proof fn versions_are_numbered_from_one(
    db: DatabaseView,
    memory_id: Seq<char>,
    calls: Seq<Snapshot>,
)
    requires
        db.wf(),
        db.memory(memory_id) matches Some(m) && m.version == 1,
        db.all_taken(memory_id, calls),
    ensures
        ({
            let after = db.after_versions(memory_id, calls);
            let vs = after.versions_of(memory_id);
            &&& after.wf()
            &&& vs.len() == calls.len()
            &&& forall|i: int|
                0 <= i < calls.len() ==> (#[trigger] vs[i]).version_number == i + 1 && vs[i].content
                    == calls[i].content && vs[i].id == calls[i].id && vs[i].change_summary
                    == calls[i].summary
            &&& after.memory(memory_id) matches Some(m) && m.version == calls.len() + 1
        }),
    decreases calls.len(),
{
    let p = version_of(memory_id);
    lemma_find_some(db.memories, memory_is(memory_id));
    if calls.len() == 0 {
        let vs = db.versions_of(memory_id);
        if vs.len() > 0 {
            crate::laws::lemma_picked(db.versions, p);
            let idx = crate::laws::picked(db.versions, p);
            assert(vs[0] == db.versions[idx[0]]);
            assert(p(vs[0]));
            assert(db.versions[idx[0]].version_number >= 1);
        }
    } else {
        let c = calls.last();
        let rest = calls.drop_last();
        versions_are_numbered_from_one(db, memory_id, rest);
        let d = db.after_versions(memory_id, rest);
        let after = d.after_create_version(memory_id, c.content, c.summary, c.id, c.now);
        assert(after == db.after_versions(memory_id, calls));
        create_version_keeps_wf(d, memory_id, c.content, c.summary, c.id, c.now);
        lemma_rows_rewritten(d.memories, memory_id, Seq::empty());
        lemma_find_some(d.memories, memory_is(memory_id));
        let mi = find_first(d.memories, memory_is(memory_id))->0;
        assert(after.memories[mi].version == d.memories[mi].version + 1);
        lemma_find_some(after.memories, memory_is(memory_id));
        let added = after.versions[d.versions.len() as int];
        crate::query::lemma_filter_push(d.versions, added, p);
        assert(p(added));
        let before = d.versions_of(memory_id);
        let vs = after.versions_of(memory_id);
        assert(vs == before.push(added));
        assert forall|i: int| 0 <= i < calls.len() implies (#[trigger] vs[i]).version_number == i
            + 1 && vs[i].content == calls[i].content && vs[i].id == calls[i].id
            && vs[i].change_summary == calls[i].summary by {
            if i < rest.len() {
                assert(vs[i] == before[i]);
                assert(rest[i] == calls[i]);
            }
        }
    }
}

} // verus!
