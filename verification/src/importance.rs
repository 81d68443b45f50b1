//! How important a memory is: a score from what the store knows of it, with
//! the summary layers and index notes that enter the score.

use crate::clock::now_rfc3339;
use crate::dup::seq_view;
use crate::ids::{is_token, new_token, MemoryId};
use crate::memories::set_importance;
use crate::query::{select, sort_rows};
use crate::schemas::{MemoryRelation, MemoryRelationView, MemoryStatus};
use crate::sorting::stable_sort;
use crate::store::{
    any, lemma_find_none, Database, DatabaseView, IndexNoteView, ProgressiveSummary,
    ProgressiveSummaryView, StoreError, MAX_IMPORTANCE,
};
use crate::text::{contains, from_chars, has, to_chars};
use vstd::prelude::*;

verus! {

/// The smaller of two numbers.
pub open spec fn least(a: nat, b: nat) -> nat {
    if a <= b {
        a
    } else {
        b
    }
}

/// The importance of a memory: 5, plus 1 for each incoming relation up to
/// 3, plus 1 for each two outgoing relations up to 2, plus 2 if it is
/// permanent, plus 1 for each summary layer up to 2, plus 3 if an index
/// note refers to it; at most 10.
pub open spec fn importance_score(
    incoming: nat,
    outgoing: nat,
    permanent: bool,
    layers: nat,
    in_index: bool,
) -> nat {
    least(
        10,
        5 + least(incoming, 3) + least(outgoing, 4) / 2 + (if permanent {
            2nat
        } else {
            0nat
        }) + least(layers, 2) + (if in_index {
            3nat
        } else {
            0nat
        }),
    )
}

/// The importance of a memory with the given counts and marks.
pub fn importance_from(
    incoming: usize,
    outgoing: usize,
    permanent: bool,
    layers: usize,
    in_index: bool,
) -> (r: u8)
    ensures
        r == importance_score(incoming as nat, outgoing as nat, permanent, layers as nat, in_index),
        5 <= r <= MAX_IMPORTANCE,
{
    let a: u8 = if incoming < 3 {
        incoming as u8
    } else {
        3
    };
    let b: u8 = if outgoing < 4 {
        (outgoing / 2) as u8
    } else {
        2
    };
    let c: u8 = if permanent {
        2
    } else {
        0
    };
    let d: u8 = if layers < 2 {
        layers as u8
    } else {
        2
    };
    let e: u8 = if in_index {
        3
    } else {
        0
    };
    let sum: u8 = 5 + a + b + c + d + e;
    if sum > 10 {
        10
    } else {
        sum
    }
}

/// Some key memory of the note holds `id` in its text.
pub open spec fn mentions(keys: Seq<Seq<char>>, id: Seq<char>) -> bool {
    exists|k: int| 0 <= k < keys.len() && contains(#[trigger] keys[k], id)
}

/// The summary belongs to the memory `id` and is of the layer `layer`.
pub open spec fn summary_at(id: Seq<char>, layer: u8) -> spec_fn(ProgressiveSummaryView) -> bool {
    |s: ProgressiveSummaryView| s.memory_id == id && s.layer == layer
}

impl DatabaseView {
    /// Number of relations that point at the memory.
    pub open spec fn incoming(self, id: Seq<char>) -> nat {
        self.relations.filter(|r: MemoryRelationView| r.target_id == id).len()
    }

    /// Number of relations that start at the memory.
    pub open spec fn outgoing(self, id: Seq<char>) -> nat {
        self.relations.filter(|r: MemoryRelationView| r.source_id == id).len()
    }

    /// Whether the memory is stored and permanent.
    pub open spec fn is_permanent(self, id: Seq<char>) -> bool {
        match self.memory(id) {
            Some(m) => m.status == MemoryStatus::Permanent,
            None => false,
        }
    }

    /// Whether the memory has a summary of the layer `layer`.
    pub open spec fn has_layer(self, id: Seq<char>, layer: u8) -> bool {
        any(self.summaries, summary_at(id, layer))
    }

    /// Number of different summary layers that the memory has.
    pub open spec fn layer_count(self, id: Seq<char>) -> nat {
        (if self.has_layer(id, 1) {
            1nat
        } else {
            0nat
        }) + (if self.has_layer(id, 2) {
            1nat
        } else {
            0nat
        }) + (if self.has_layer(id, 3) {
            1nat
        } else {
            0nat
        }) + (if self.has_layer(id, 4) {
            1nat
        } else {
            0nat
        })
    }

    /// Whether some index note refers to the memory.
    pub open spec fn in_index(self, id: Seq<char>) -> bool {
        any(self.index_notes, |n: IndexNoteView| mentions(n.key_memories, id))
    }

    /// The importance that the store's content gives the memory.
    pub open spec fn importance_of(self, id: Seq<char>) -> nat {
        importance_score(
            self.incoming(id),
            self.outgoing(id),
            self.is_permanent(id),
            self.layer_count(id),
            self.in_index(id),
        )
    }

    /// What adding a summary layer returns: `BadRequest` for a layer outside
    /// 1 to 4, `NotFound` for an unknown memory, `Conflict` if the new
    /// identifier is taken, else the new identifier.
    pub open spec fn summary_outcome(self, memory_id: Seq<char>, layer: u8, id: Seq<char>) -> Result<
        Seq<char>,
        StoreError,
    > {
        if layer == 0 || layer > 4 {
            Err(StoreError::BadRequest)
        } else if !self.has_memory(memory_id) {
            Err(StoreError::NotFound)
        } else if any(self.summaries, |s: ProgressiveSummaryView| s.id == id) {
            Err(StoreError::Conflict)
        } else {
            Ok(id)
        }
    }

    /// The store after adding a summary layer.
    pub open spec fn after_add_summary(self, row: ProgressiveSummaryView) -> DatabaseView {
        if self.summary_outcome(row.memory_id, row.layer, row.id) is Ok {
            DatabaseView { summaries: self.summaries.push(row), ..self }
        } else {
            self
        }
    }
}

/// Adding a summary layer keeps the store well formed.
pub proof fn add_summary_keeps_wf(before: DatabaseView, row: ProgressiveSummaryView)
    requires
        before.wf(),
    ensures
        before.after_add_summary(row).wf(),
{
    if before.summary_outcome(row.memory_id, row.layer, row.id) is Ok {
        let after = before.after_add_summary(row);
        let taken = |s: ProgressiveSummaryView| s.id == row.id;
        lemma_find_none(before.summaries, taken);
        assert forall|i: int, j: int| 0 <= i < j < after.summaries.len() implies after.summaries[i].id
            != after.summaries[j].id by {
            if j == before.summaries.len() {
                assert(!taken(before.summaries[i]));
            } else {
                assert(before.summaries[i].id != before.summaries[j].id);
            }
        }
        assert forall|i: int| 0 <= i < after.summaries.len() implies after.has_memory(
            (#[trigger] after.summaries[i]).memory_id,
        ) by {
            if i < before.summaries.len() {
                assert(after.summaries[i] == before.summaries[i]);
            }
        }
    }
}

impl Database {
    /// The importance that the store's content gives the memory: always
    /// between 5 and 10. Nothing is written.
    pub fn calculate_memory_importance(&self, memory_id: &MemoryId) -> (r: Result<u8, StoreError>)
        ensures
            r == Ok::<u8, StoreError>(self@.importance_of(memory_id@) as u8),
            r->Ok_0 <= MAX_IMPORTANCE,
    {
        let ghost pin = |r: MemoryRelationView| r.target_id == memory_id@;
        let into = |r: &MemoryRelation| -> (o: bool)
            ensures
                o == pin(r@),
            { r.target_id == *memory_id };
        let incoming = select(&self.relations, into, Ghost(pin)).len();
        let ghost pout = |r: MemoryRelationView| r.source_id == memory_id@;
        let from = |r: &MemoryRelation| -> (o: bool)
            ensures
                o == pout(r@),
            { r.source_id == *memory_id };
        let outgoing = select(&self.relations, from, Ghost(pout)).len();
        let permanent = match self.memory_index(memory_id) {
            Some(i) => {
                assert(self@.memories[i as int] == self.memories@[i as int]@);
                self.memories[i].status == MemoryStatus::Permanent
            },
            None => false,
        };
        let mut layers: usize = 0;
        if self.has_summary_layer(memory_id, 1) {
            layers += 1;
        }
        if self.has_summary_layer(memory_id, 2) {
            layers += 1;
        }
        if self.has_summary_layer(memory_id, 3) {
            layers += 1;
        }
        if self.has_summary_layer(memory_id, 4) {
            layers += 1;
        }
        let in_index = self.is_in_index(memory_id);
        Ok(importance_from(incoming, outgoing, permanent, layers, in_index))
    }

    /// Whether the memory has a summary of the layer `layer`.
    pub fn has_summary_layer(&self, memory_id: &MemoryId, layer: u8) -> (r: bool)
        ensures
            r == self@.has_layer(memory_id@, layer),
    {
        let ghost rows = self@.summaries;
        let ghost p = summary_at(memory_id@, layer);
        let mut i: usize = 0;
        while i < self.summaries.len()
            invariant
                i <= self.summaries.len(),
                rows == self@.summaries,
                p == summary_at(memory_id@, layer),
                forall|j: int| 0 <= j < i ==> !p(rows[j]),
            decreases self.summaries.len() - i,
        {
            assert(rows[i as int] == self.summaries@[i as int]@);
            if self.summaries[i].memory_id == *memory_id && self.summaries[i].layer == layer {
                assert(p(rows[i as int]));
                return true;
            }
            i += 1;
        }
        false
    }

    /// Whether some index note refers to the memory.
    pub fn is_in_index(&self, memory_id: &MemoryId) -> (r: bool)
        ensures
            r == self@.in_index(memory_id@),
    {
        let ghost rows = self@.index_notes;
        let ghost p = |n: IndexNoteView| mentions(n.key_memories, memory_id@);
        let needle = to_chars(memory_id.0.as_str());
        let mut i: usize = 0;
        while i < self.index_notes.len()
            invariant
                i <= self.index_notes.len(),
                rows == self@.index_notes,
                needle@ == memory_id@,
                p == (|n: IndexNoteView| mentions(n.key_memories, memory_id@)),
                forall|j: int| 0 <= j < i ==> !p(rows[j]),
            decreases self.index_notes.len() - i,
        {
            assert(rows[i as int] == self.index_notes@[i as int]@);
            let keys = &self.index_notes[i].key_memories;
            let ghost kv = rows[i as int].key_memories;
            let mut k: usize = 0;
            while k < keys.len()
                invariant
                    k <= keys.len(),
                    0 <= i < rows.len(),
                    rows == self@.index_notes,
                    kv == seq_view(keys@),
                    kv == rows[i as int].key_memories,
                    p == (|n: IndexNoteView| mentions(n.key_memories, memory_id@)),
                    needle@ == memory_id@,
                    forall|j: int| 0 <= j < k ==> !contains(#[trigger] kv[j], memory_id@),
                decreases keys.len() - k,
            {
                assert(kv[k as int] == keys@[k as int]@);
                let key = to_chars(keys[k].as_str());
                if has(&key, &needle) {
                    assert(p(rows[i as int]));
                    return true;
                }
                k += 1;
            }
            assert(!p(rows[i as int]));
            i += 1;
        }
        false
    }

    /// Computes the importance of a memory and stores it.
    pub fn recalculate_and_update_importance(&mut self, memory_id: &MemoryId) -> (r: Result<
        u8,
        StoreError,
    >)
        requires
            old(self)@.wf(),
        ensures
            final(self)@.wf(),
            r == Ok::<u8, StoreError>(old(self)@.importance_of(memory_id@) as u8),
            final(self)@ == (DatabaseView {
                memories: set_importance(
                    old(self)@.memories,
                    memory_id@,
                    old(self)@.importance_of(memory_id@) as u8,
                ),
                ..old(self)@
            }),
    {
        match self.calculate_memory_importance(memory_id) {
            Ok(importance) => {
                let _ = self.update_memory_importance(memory_id, importance);
                Ok(importance)
            },
            Err(e) => Err(e),
        }
    }

    /// Adds a summary of the layer `layer` to a memory under the identifier
    /// `id`, stamped `now`.
    pub fn add_summary_layer_with(
        &mut self,
        memory_id: &MemoryId,
        layer: u8,
        content: &str,
        id: String,
        now: &str,
    ) -> (r: Result<String, StoreError>)
        requires
            old(self)@.wf(),
        ensures
            final(self)@.wf(),
            match r {
                Ok(s) => Ok::<Seq<char>, StoreError>(s@),
                Err(e) => Err(e),
            } == old(self)@.summary_outcome(memory_id@, layer, id@),
            final(self)@ == old(self)@.after_add_summary(
                ProgressiveSummaryView {
                    id: id@,
                    memory_id: memory_id@,
                    layer,
                    content: content@,
                    created_at: now@,
                },
            ),
    {
        let ghost before = self@;
        if layer == 0 || layer > 4 {
            return Err(StoreError::BadRequest);
        }
        if self.memory_index(memory_id).is_none() {
            return Err(StoreError::NotFound);
        }
        let ghost taken = |s: ProgressiveSummaryView| s.id == id@;
        let mut i: usize = 0;
        while i < self.summaries.len()
            invariant
                i <= self.summaries.len(),
                self@ == before,
                before.wf(),
                1 <= layer <= 4,
                before.has_memory(memory_id@),
                taken == (|s: ProgressiveSummaryView| s.id == id@),
                forall|j: int| 0 <= j < i ==> !taken(before.summaries[j]),
            decreases self.summaries.len() - i,
        {
            assert(before.summaries[i as int] == self.summaries@[i as int]@);
            if self.summaries[i].id == id {
                assert(taken(before.summaries[i as int]));
                return Err(StoreError::Conflict);
            }
            i += 1;
        }
        let row = ProgressiveSummary {
            id: id.clone(),
            memory_id: memory_id.clone(),
            layer,
            content: content.to_owned(),
            created_at: now.to_owned(),
        };
        let ghost rv = row@;
        self.summaries.push(row);
        proof {
            assert(self@.summaries =~= before.summaries.push(rv));
            add_summary_keeps_wf(before, rv);
        }
        Ok(id)
    }

    /// Adds a summary of the layer `layer` to a memory under a fresh
    /// identifier, stamped with the current time.
    pub fn add_summary_layer(&mut self, memory_id: &MemoryId, layer: u8, content: &str) -> (r: Result<
        String,
        StoreError,
    >)
        requires
            old(self)@.wf(),
        ensures
            final(self)@.wf(),
            exists|id: Seq<char>, now: Seq<char>|
                {
                    &&& is_token(id)
                    &&& match r {
                        Ok(s) => Ok::<Seq<char>, StoreError>(s@),
                        Err(e) => Err(e),
                    } == old(self)@.summary_outcome(memory_id@, layer, id)
                    &&& final(self)@ == #[trigger] old(self)@.after_add_summary(
                        ProgressiveSummaryView {
                            id,
                            memory_id: memory_id@,
                            layer,
                            content: content@,
                            created_at: now,
                        },
                    )
                },
    {
        let token = new_token();
        let id = from_chars(&token);
        let now = now_rfc3339();
        let ghost idv = id@;
        let ghost nowv = now@;
        let r = self.add_summary_layer_with(memory_id, layer, content, id, now.as_str());
        assert(self@ == old(self)@.after_add_summary(
            ProgressiveSummaryView {
                id: idv,
                memory_id: memory_id@,
                layer,
                content: content@,
                created_at: nowv,
            },
        ));
        r
    }

    /// The summaries of a memory, lowest layer first.
    pub fn get_summary_layers(&self, memory_id: &MemoryId) -> (r: Vec<ProgressiveSummary>)
        ensures
            seq_view(r@) == stable_sort(
                self@.summaries.filter(|s: ProgressiveSummaryView| s.memory_id == memory_id@),
                |a: ProgressiveSummaryView, b: ProgressiveSummaryView| a.layer < b.layer,
            ),
    {
        let ghost p = |s: ProgressiveSummaryView| s.memory_id == memory_id@;
        let pick = |s: &ProgressiveSummary| -> (o: bool)
            ensures
                o == p(s@),
            { s.memory_id == *memory_id };
        let mine = select(&self.summaries, pick, Ghost(p));
        let ghost before = |a: ProgressiveSummaryView, b: ProgressiveSummaryView| a.layer < b.layer;
        let lower = |a: &ProgressiveSummary, b: &ProgressiveSummary| -> (o: bool)
            ensures
                o == before(a@, b@),
            { a.layer < b.layer };
        sort_rows(mine, lower, Ghost(before))
    }
}

} // verus!
