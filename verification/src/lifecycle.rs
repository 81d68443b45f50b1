//! The columns that the engine maintains on each memory: importance, status
//! and the topic under which the memory is filed.

use crate::clock::{rfc3339_days_ago, REACHABLE_DAYS};
use crate::dup::Dup;
use crate::ids::{MemoryId, TopicId};
use crate::memories::{
    archive_stale, clamp_importance, is_stale, lemma_wf_after_rows_rewritten, set_importance,
    set_status, set_topic_id, status_named, str_less,
};
use crate::query::lemma_filter_push;
use crate::schemas::{MemoryStatus, MemoryView};
use crate::store::{Database, DatabaseView, MemoryRow, MemoryRowView, StoreError, MAX_IMPORTANCE};
use vstd::prelude::*;

verus! {

impl DatabaseView {
    /// What setting a status by name returns: `BadRequest` for a name that
    /// is no status.
    pub open spec fn status_outcome(self, name: Seq<char>) -> Result<(), StoreError> {
        if status_named(name) is Some {
            Ok(())
        } else {
            Err(StoreError::BadRequest)
        }
    }

    /// What promoting a memory returns: `NotFound` for an unknown memory,
    /// `BadRequest` for one that is not fleeting.
    pub open spec fn promote_outcome(self, id: Seq<char>) -> Result<(), StoreError> {
        match self.memory(id) {
            None => Err(StoreError::NotFound),
            Some(m) => if m.status == MemoryStatus::Fleeting {
                Ok(())
            } else {
                Err(StoreError::BadRequest)
            },
        }
    }

    /// What reassigning memories to a topic returns: `NotFound` if the topic
    /// is not stored, else the number of memories with the old topic text.
    pub open spec fn retopic_outcome(self, old_topic: Seq<char>, topic_id: Seq<char>) -> Result<
        usize,
        StoreError,
    > {
        if !self.has_topic(topic_id) {
            Err(StoreError::NotFound)
        } else {
            Ok(self.memories.filter(|r: MemoryRowView| r.memory.topic == old_topic).len() as usize)
        }
    }
}

impl Database {
    /// Rewrites the memory rows: `f` returns the new row for each row that
    /// changes. Returns the number of rows that changed.
    pub(crate) fn rewrite_rows<F: Fn(&MemoryRow) -> Option<MemoryRow>>(
        &mut self,
        f: F,
        Ghost(g): Ghost<spec_fn(MemoryRowView) -> MemoryRowView>,
        Ghost(changed): Ghost<spec_fn(MemoryRowView) -> bool>,
    ) -> (n: usize)
        requires
            forall|r: &MemoryRow| #[trigger] f.requires((r,)),
            forall|r: &MemoryRow, o: Option<MemoryRow>| #[trigger]
                f.ensures((r,), o) ==> match o {
                    Some(x) => changed(r@) && x@ == g(r@),
                    None => !changed(r@) && g(r@) == r@,
                },
        ensures
            final(self)@ == (DatabaseView {
                memories: old(self)@.memories.map_values(g),
                ..old(self)@
            }),
            n == old(self)@.memories.filter(changed).len(),
    {
        let ghost before = self@;
        let ghost rows = before.memories;
        let mut n: usize = 0;
        let mut i: usize = 0;
        proof {
            reveal(Seq::filter);
            assert(rows.take(0).filter(changed) =~= Seq::<MemoryRowView>::empty());
        }
        while i < self.memories.len()
            invariant
                i <= self.memories.len(),
                self.memories.len() == rows.len(),
                rows == before.memories,
                self@ == (DatabaseView { memories: self@.memories, ..before }),
                forall|j: int| 0 <= j < i ==> (#[trigger] self@.memories[j]) == g(rows[j]),
                forall|j: int| i <= j < rows.len() ==> (#[trigger] self@.memories[j]) == rows[j],
                n == rows.take(i as int).filter(changed).len(),
                n <= i,
                forall|r: &MemoryRow| #[trigger] f.requires((r,)),
                forall|r: &MemoryRow, o: Option<MemoryRow>| #[trigger]
                    f.ensures((r,), o) ==> match o {
                        Some(x) => changed(r@) && x@ == g(r@),
                        None => !changed(r@) && g(r@) == r@,
                    },
            decreases self.memories.len() - i,
        {
            let ghost cur = self@.memories;
            assert(cur[i as int] == self.memories@[i as int]@);
            proof {
                assert(rows.take(i + 1) =~= rows.take(i as int).push(rows[i as int]));
                lemma_filter_push(rows.take(i as int), rows[i as int], changed);
            }
            match f(&self.memories[i]) {
                Some(x) => {
                    self.memories.set(i, x);
                    n += 1;
                    proof {
                        assert forall|j: int| 0 <= j < i + 1 implies (
                        #[trigger] self@.memories[j]) == g(rows[j]) by {
                            if j < i {
                                assert(self@.memories[j] == cur[j]);
                            }
                        }
                        assert forall|j: int| i + 1 <= j < rows.len() implies (
                        #[trigger] self@.memories[j]) == rows[j] by {
                            assert(self@.memories[j] == cur[j]);
                        }
                    }
                },
                None => {},
            }
            i += 1;
        }
        proof {
            assert(rows.take(rows.len() as int) =~= rows);
            assert(self@.memories =~= rows.map_values(g));
        }
        n
    }

    /// Sets the importance of a memory, brought into its range. An unknown
    /// identifier changes nothing.
    pub fn update_memory_importance(&mut self, memory_id: &MemoryId, importance: u8) -> (r: Result<
        (),
        StoreError,
    >)
        requires
            old(self)@.wf(),
        ensures
            final(self)@.wf(),
            r is Ok,
            final(self)@ == (DatabaseView {
                memories: set_importance(
                    old(self)@.memories,
                    memory_id@,
                    clamp_importance(importance),
                ),
                ..old(self)@
            }),
    {
        let ghost before = self@;
        let value = if importance > MAX_IMPORTANCE {
            MAX_IMPORTANCE
        } else {
            importance
        };
        let ghost changed = |r: MemoryRowView| r.memory.id == memory_id@;
        let ghost g = |r: MemoryRowView|
            if r.memory.id == memory_id@ {
                MemoryRowView { importance: value, ..r }
            } else {
                r
            };
        let f = |r: &MemoryRow| -> (o: Option<MemoryRow>)
            ensures
                match o {
                    Some(x) => changed(r@) && x@ == g(r@),
                    None => !changed(r@) && g(r@) == r@,
                },
            {
                if r.memory.id == *memory_id {
                    let mut x = r.dup();
                    x.importance = value;
                    Some(x)
                } else {
                    None
                }
            };
        let _ = self.rewrite_rows(f, Ghost(g), Ghost(changed));
        proof {
            assert(self@.memories =~= set_importance(before.memories, memory_id@, value));
            lemma_wf_after_rows_rewritten(before, self@);
        }
        Ok(())
    }

    /// Sets the status of a memory to the one that `new_status` names. An
    /// unknown identifier changes nothing.
    pub fn update_memory_status(&mut self, memory_id: &MemoryId, new_status: &str) -> (r: Result<
        (),
        StoreError,
    >)
        requires
            old(self)@.wf(),
        ensures
            final(self)@.wf(),
            r == old(self)@.status_outcome(new_status@),
            final(self)@ == match status_named(new_status@) {
                Some(s) => DatabaseView {
                    memories: set_status(old(self)@.memories, memory_id@, s),
                    ..old(self)@
                },
                None => old(self)@,
            },
    {
        let name = new_status.to_owned();
        let status = if name == "fleeting".to_owned() {
            MemoryStatus::Fleeting
        } else if name == "permanent".to_owned() {
            MemoryStatus::Permanent
        } else if name == "archived".to_owned() {
            MemoryStatus::Archived
        } else if name == "deprecated".to_owned() {
            MemoryStatus::Deprecated
        } else {
            return Err(StoreError::BadRequest);
        };
        self.set_memory_status(memory_id, status);
        Ok(())
    }

    /// Sets the status of a memory. An unknown identifier changes nothing.
    pub fn set_memory_status(&mut self, memory_id: &MemoryId, status: MemoryStatus)
        requires
            old(self)@.wf(),
        ensures
            final(self)@.wf(),
            final(self)@ == (DatabaseView {
                memories: set_status(old(self)@.memories, memory_id@, status),
                ..old(self)@
            }),
    {
        let ghost before = self@;
        let ghost changed = |r: MemoryRowView| r.memory.id == memory_id@;
        let ghost g = |r: MemoryRowView|
            if r.memory.id == memory_id@ {
                MemoryRowView { status, ..r }
            } else {
                r
            };
        let f = |r: &MemoryRow| -> (o: Option<MemoryRow>)
            ensures
                match o {
                    Some(x) => changed(r@) && x@ == g(r@),
                    None => !changed(r@) && g(r@) == r@,
                },
            {
                if r.memory.id == *memory_id {
                    let mut x = r.dup();
                    x.status = status;
                    Some(x)
                } else {
                    None
                }
            };
        let _ = self.rewrite_rows(f, Ghost(g), Ghost(changed));
        proof {
            assert(self@.memories =~= set_status(before.memories, memory_id@, status));
            lemma_wf_after_rows_rewritten(before, self@);
        }
    }

    /// Makes a fleeting memory permanent.
    pub fn promote_to_permanent(&mut self, memory_id: &MemoryId) -> (r: Result<(), StoreError>)
        requires
            old(self)@.wf(),
        ensures
            final(self)@.wf(),
            r == old(self)@.promote_outcome(memory_id@),
            final(self)@ == if r is Ok {
                DatabaseView {
                    memories: set_status(
                        old(self)@.memories,
                        memory_id@,
                        MemoryStatus::Permanent,
                    ),
                    ..old(self)@
                }
            } else {
                old(self)@
            },
    {
        match self.memory_index(memory_id) {
            None => Err(StoreError::NotFound),
            Some(i) => {
                assert(self@.memories[i as int] == self.memories@[i as int]@);
                if self.memories[i].status != MemoryStatus::Fleeting {
                    Err(StoreError::BadRequest)
                } else {
                    self.set_memory_status(memory_id, MemoryStatus::Permanent);
                    Ok(())
                }
            },
        }
    }

    /// Archives every fleeting memory that nothing supersedes and that was
    /// created before `threshold`. Returns how many were archived.
    pub fn archive_memories_before(&mut self, threshold: &str) -> (n: usize)
        requires
            old(self)@.wf(),
        ensures
            final(self)@.wf(),
            final(self)@ == (DatabaseView {
                memories: archive_stale(old(self)@.memories, threshold@),
                ..old(self)@
            }),
            n == old(self)@.memories.filter(is_stale(threshold@)).len(),
    {
        let ghost before = self@;
        let ghost changed = is_stale(threshold@);
        let ghost g = |r: MemoryRowView|
            if is_stale(threshold@)(r) {
                MemoryRowView { status: MemoryStatus::Archived, ..r }
            } else {
                r
            };
        let f = |r: &MemoryRow| -> (o: Option<MemoryRow>)
            ensures
                match o {
                    Some(x) => changed(r@) && x@ == g(r@),
                    None => !changed(r@) && g(r@) == r@,
                },
            {
                if r.status == MemoryStatus::Fleeting && r.superseded_by.is_none() && str_less(
                    r.memory.created_at.as_str(),
                    threshold,
                ) {
                    let mut x = r.dup();
                    x.status = MemoryStatus::Archived;
                    Some(x)
                } else {
                    None
                }
            };
        let n = self.rewrite_rows(f, Ghost(g), Ghost(changed));
        proof {
            assert(self@.memories =~= archive_stale(before.memories, threshold@));
            lemma_wf_after_rows_rewritten(before, self@);
        }
        n
    }

    /// Archives every fleeting memory that nothing supersedes and that is
    /// older than `age_threshold_days` days by the current time. Fails with
    /// `BadRequest` where that many days ago is no representable date.
    pub fn archive_old_memories(&mut self, age_threshold_days: u32) -> (r: Result<
        usize,
        StoreError,
    >)
        requires
            old(self)@.wf(),
        ensures
            final(self)@.wf(),
            match r {
                Ok(n) => exists|threshold: Seq<char>|
                    {
                        &&& final(self)@ == (DatabaseView {
                            memories: #[trigger] archive_stale(old(self)@.memories, threshold),
                            ..old(self)@
                        })
                        &&& n == old(self)@.memories.filter(is_stale(threshold)).len()
                    },
                Err(e) => e == StoreError::BadRequest && final(self)@ == old(self)@,
            },
            age_threshold_days <= REACHABLE_DAYS ==> r is Ok,
    {
        match rfc3339_days_ago(age_threshold_days) {
            None => Err(StoreError::BadRequest),
            Some(threshold) => {
                let n = self.archive_memories_before(threshold.as_str());
                assert(self@.memories == archive_stale(old(self)@.memories, threshold@));
                Ok(n)
            },
        }
    }

    /// Files every memory whose topic text is `old_topic` under the topic
    /// `new_topic_id`. Returns how many memories that were.
    pub fn update_memories_topic(&mut self, old_topic: &str, new_topic_id: &TopicId) -> (r: Result<
        usize,
        StoreError,
    >)
        requires
            old(self)@.wf(),
        ensures
            final(self)@.wf(),
            r == old(self)@.retopic_outcome(old_topic@, new_topic_id@),
            final(self)@ == if r is Ok {
                DatabaseView {
                    memories: set_topic_id(old(self)@.memories, old_topic@, new_topic_id@),
                    ..old(self)@
                }
            } else {
                old(self)@
            },
    {
        let ghost before = self@;
        if !self.has_topic(new_topic_id) {
            return Err(StoreError::NotFound);
        }
        let wanted = old_topic.to_owned();
        let ghost changed = |r: MemoryRowView| r.memory.topic == old_topic@;
        let ghost g = |r: MemoryRowView|
            if r.memory.topic == old_topic@ {
                MemoryRowView {
                    memory: MemoryView { topic_id: Some(new_topic_id@), ..r.memory },
                    ..r
                }
            } else {
                r
            };
        let f = |r: &MemoryRow| -> (o: Option<MemoryRow>)
            ensures
                match o {
                    Some(x) => changed(r@) && x@ == g(r@),
                    None => !changed(r@) && g(r@) == r@,
                },
            {
                if r.memory.topic == wanted {
                    let mut x = r.dup();
                    x.memory.topic_id = Some(new_topic_id.clone());
                    Some(x)
                } else {
                    None
                }
            };
        let n = self.rewrite_rows(f, Ghost(g), Ghost(changed));
        proof {
            assert(self@.memories =~= set_topic_id(before.memories, old_topic@, new_topic_id@));
            lemma_wf_after_rows_rewritten(before, self@);
        }
        Ok(n)
    }
}

} // verus!
