//! The ingestion step: one turn is stored, distilled into memories, and
//! each memory is filed, stored and given its sidecar record.

use crate::clock::now_rfc3339;
use crate::dup::seq_view;
use crate::extraction::drafts_of;
use crate::extractor::{
    are_stamped, is_extraction, is_sure, settled, ExtractedMemory, ExtractedMemoryView,
    HeuristicExtractor, MemoryExtractor,
};
use crate::ids::{
    generate_area_id, generate_project_id, generate_topic_id, generate_workspace_id,
};
use crate::organizer::{
    organized, project_name, HierarchyIds, HierarchyIdsView, MemoryOrganizer,
};
use crate::schemas::{Memory, MemoryView, Turn, TurnView};
use crate::store::{Database, DatabaseView, StoreError, TurnRowView};
use vstd::prelude::*;

verus! {

/// What one memory of a turn was given on its way into the store: the
/// identifiers for hierarchy levels that had to be created, the time of
/// filing, and the time of its sidecar record.
pub struct Step {
    pub ids: HierarchyIdsView,
    pub filed_at: Seq<char>,
    pub linked_at: Seq<char>,
}

impl DatabaseView {
    /// The store after one memory of a turn went in: it is filed under the
    /// hierarchy, stored with its topic, and given its sidecar record. A
    /// memory that cannot be filed or stored is skipped; the hierarchy
    /// levels made for it stay.
    pub open spec fn after_memory(self, turn: TurnView, m: MemoryView, step: Step) -> DatabaseView {
        let filing = self.file(
            turn.source.app,
            project_name(turn.source.path, turn.source.url),
            m.kind,
            m.topic,
            step.ids,
            step.filed_at,
        );
        match organized(m, filing.found) {
            Ok(filed) => if filing.db.memory_outcome(filed) is Ok {
                filing.db.after_insert_memory(filed).after_upsert_sidecar(filed, step.linked_at)
            } else {
                filing.db
            },
            Err(e) => filing.db,
        }
    }

    /// The store after the memories of a turn went in, one after another.
    pub open spec fn after_memories(self, turn: TurnView, ms: Seq<MemoryView>, steps: Seq<Step>)
        -> DatabaseView
        decreases ms.len(),
    {
        if ms.len() == 0 || steps.len() != ms.len() {
            self
        } else {
            self.after_memories(turn, ms.drop_last(), steps.drop_last()).after_memory(
                turn,
                ms.last(),
                steps.last(),
            )
        }
    }
}

/// A memory that went in is stored as the last row, filed under a stored
/// topic, and has its sidecar record.
pub proof fn ingested_memory_is_filed_and_linked(
    db: DatabaseView,
    turn: TurnView,
    m: MemoryView,
    step: Step,
)
    requires
        db.wf(),
        db.after_memory(turn, m, step).memories.len() == db.memories.len() + 1,
    ensures
        ({
            let after = db.after_memory(turn, m, step);
            let row = after.memories.last();
            &&& row.memory.id == m.id
            &&& row.memory.text == m.text
            &&& row.memory.topic_id matches Some(t) && after.has_topic(t)
            &&& after.sidecar(m.id) is Some
        }),
{
    let filing = db.file(
        turn.source.app,
        project_name(turn.source.path, turn.source.url),
        m.kind,
        m.topic,
        step.ids,
        step.filed_at,
    );
    assert(filing.db.memories == db.memories);
    let filed = organized(m, filing.found)->Ok_0;
    assert(organized(m, filing.found) is Ok && filing.db.memory_outcome(filed) is Ok);
    let stored = filing.db.after_insert_memory(filed);
    let after = stored.after_upsert_sidecar(filed, step.linked_at);
    assert(after == db.after_memory(turn, m, step));
    let k = filing.db.memories.len() as int;
    assert(stored.memories[k] == crate::store::fresh_row(filed));
    assert(crate::store::memory_is(filed.id)(stored.memories[k]));
    assert(stored.has_memory(filed.id));
    let row = stored.refreshed_sidecar(filed, step.linked_at);
    let placed = crate::agentic::with_sidecar(stored.agentic, row);
    crate::store::lemma_find_some(stored.agentic, crate::agentic::sidecar_is(row.id));
    let at = match crate::store::find_first(stored.agentic, crate::agentic::sidecar_is(row.id)) {
        Some(i) => i,
        None => stored.agentic.len() as int,
    };
    assert(placed[at] == row);
    crate::agentic::lemma_reverse_linked_all(placed, row.links, filed.id);
    assert(after.agentic[at].id == m.id);
    assert(crate::agentic::sidecar_is(m.id)(after.agentic[at]));
    crate::store::lemma_find_some(after.agentic, crate::agentic::sidecar_is(m.id));
}

/// Files one memory of a turn, stores it and gives it its sidecar record.
/// Returns whether the memory was stored.
pub fn ingest_memory(
    db: &mut Database,
    organizer: &MemoryOrganizer,
    turn: &Turn,
    memory: &Memory,
) -> (r: bool)
    requires
        old(db)@.wf(),
    ensures
        final(db)@.wf(),
        exists|step: Step| final(db)@ == #[trigger] old(db)@.after_memory(turn@, memory@, step),
        r == (final(db)@.memories.len() == old(db)@.memories.len() + 1),
        !r ==> final(db)@.memories == old(db)@.memories,
{
    let ghost before = db@;
    let ids = HierarchyIds {
        workspace: generate_workspace_id(),
        project: generate_project_id(),
        area: generate_area_id(),
        topic: generate_topic_id(),
    };
    let filed_at = now_rfc3339();
    let linked_at = now_rfc3339();
    let ghost step = Step { ids: ids@, filed_at: filed_at@, linked_at: linked_at@ };
    let stored = match organizer.organize_with(db, memory, turn, ids, filed_at.as_str()) {
        Ok(filed) => {
            match db.insert_memory(&filed) {
                Ok(()) => {
                    let _ = db.upsert_agentic_memory_at(&filed, linked_at.as_str());
                    true
                },
                Err(_) => false,
            }
        },
        Err(_) => false,
    };
    assert(db@ == before.after_memory(turn@, memory@, step));
    stored
}

/// Files, stores and links the memories of a turn, one after another. A
/// memory that cannot be filed or stored is skipped and the rest goes on.
/// Returns how many memories were stored.
pub fn ingest_memories(
    db: &mut Database,
    organizer: &MemoryOrganizer,
    turn: &Turn,
    memories: &Vec<Memory>,
) -> (n: usize)
    requires
        old(db)@.wf(),
    ensures
        final(db)@.wf(),
        n == final(db)@.memories.len() - old(db)@.memories.len(),
        exists|steps: Seq<Step>|
            steps.len() == memories.len() && final(db)@ == #[trigger] old(db)@.after_memories(
                turn@,
                seq_view(memories@),
                steps,
            ),
{
    let ghost start = db@;
    let ghost ms = seq_view(memories@);
    let ghost mut steps: Seq<Step> = Seq::empty();
    let mut stored: usize = 0;
    let mut i: usize = 0;
    proof {
        assert(ms.take(0) =~= Seq::<MemoryView>::empty());
    }
    while i < memories.len()
        invariant
            i <= memories.len(),
            ms == seq_view(memories@),
            db@.wf(),
            steps.len() == i,
            db@ == start.after_memories(turn@, ms.take(i as int), steps),
            stored == db@.memories.len() - start.memories.len(),
            stored <= i,
        decreases memories.len() - i,
    {
        let ghost here = db@;
        let kept = ingest_memory(db, organizer, turn, &memories[i]);
        proof {
            let step = choose|step: Step|
                db@ == #[trigger] here.after_memory(turn@, memories@[i as int]@, step);
            assert(ms[i as int] == memories@[i as int]@);
            let grown = steps.push(step);
            assert(ms.take(i + 1).drop_last() =~= ms.take(i as int));
            assert(ms.take(i + 1).last() == ms[i as int]);
            assert(grown.drop_last() =~= steps);
            assert(grown.last() == step);
            steps = grown;
        }
        if kept {
            stored += 1;
        }
        i += 1;
    }
    proof {
        assert(ms.take(memories.len() as int) =~= ms);
        assert(ms.len() == memories.len());
    }
    stored
}

/// Takes one turn into the store: stores the turn, distils its memories,
/// and files, stores and links each of them in turn. A memory that cannot
/// be filed or stored is skipped and the rest goes on. Fails with
/// `Conflict`, and changes nothing, if the turn's identifier is taken.
/// Returns how many memories were stored.
pub fn process_turn(
    db: &mut Database,
    extractor: &MemoryExtractor,
    organizer: &MemoryOrganizer,
    turn: &Turn,
) -> (r: Result<usize, StoreError>)
    requires
        old(db)@.wf(),
    ensures
        final(db)@.wf(),
        match r {
            Ok(n) => {
                &&& old(db)@.turn_outcome(turn@.id) is Ok
                &&& n == final(db)@.memories.len() - old(db)@.memories.len()
                &&& exists|now: Seq<char>, ms: Seq<MemoryView>, steps: Seq<Step>|
                    {
                        &&& are_stamped(ms, drafts_of(turn@).filter(is_sure()), turn@.id)
                        &&& steps.len() == ms.len()
                        &&& final(db)@ == #[trigger] old(db)@.after_insert_turn(
                            TurnRowView { turn: turn@, created_at: now },
                        ).after_memories(turn@, ms, steps)
                    }
            },
            Err(e) => {
                &&& e == StoreError::Conflict
                &&& old(db)@.turn_outcome(turn@.id) is Err
                &&& final(db)@ == old(db)@
            },
        },
{
    let ghost before = db@;
    let now = now_rfc3339();
    match db.insert_turn_at(turn, now.as_str()) {
        Ok(()) => {},
        Err(e) => {
            return Err(e);
        },
    }
    let ghost start = db@;
    let memories = match extractor.extract(turn) {
        Ok(ms) => ms,
        Err(e) => {
            return Err(e);
        },
    };
    let stored = ingest_memories(db, organizer, turn, &memories);
    proof {
        let ms = seq_view(memories@);
        let steps = choose|steps: Seq<Step>|
            steps.len() == memories.len() && db@ == #[trigger] start.after_memories(
                turn@,
                ms,
                steps,
            );
        assert(ms.len() == memories.len());
        assert(start == before.after_insert_turn(TurnRowView { turn: turn@, created_at: now@ }));
        assert(start.memories == before.memories);
        assert(db@ == before.after_insert_turn(
            TurnRowView { turn: turn@, created_at: now@ },
        ).after_memories(turn@, ms, steps));
    }
    Ok(stored)
}

/// What a language model reported, by value; nothing where none was asked or
/// it failed.
pub open spec fn reported_view(reported: Option<Vec<ExtractedMemory>>) -> Option<
    Seq<ExtractedMemoryView>,
> {
    match reported {
        Some(x) => Some(seq_view(x@)),
        None => None,
    }
}

/// Takes one turn into the store by the extractor's strategy, given what a
/// language model reported of it: stores the turn, settles on the memories
/// that the strategy keeps of what the patterns find and the model reported,
/// and files, stores and links each of them in turn. Fails with `Conflict`,
/// and changes nothing, if the turn's identifier is taken. Returns how many
/// memories were stored.
pub fn process_reported_turn(
    db: &mut Database,
    extractor: &MemoryExtractor,
    organizer: &MemoryOrganizer,
    turn: &Turn,
    reported: Option<Vec<ExtractedMemory>>,
) -> (r: Result<usize, StoreError>)
    requires
        old(db)@.wf(),
    ensures
        final(db)@.wf(),
        match r {
            Ok(n) => {
                &&& old(db)@.turn_outcome(turn@.id) is Ok
                &&& n == final(db)@.memories.len() - old(db)@.memories.len()
                &&& exists|now: Seq<char>, found: Seq<ExtractedMemoryView>, steps: Seq<Step>|
                    {
                        &&& is_extraction(found, drafts_of(turn@), turn@.id)
                        &&& steps.len() == settled(
                            extractor.strategy(),
                            found,
                            reported_view(reported),
                        ).len()
                        &&& final(db)@ == #[trigger] old(db)@.after_insert_turn(
                            TurnRowView { turn: turn@, created_at: now },
                        ).after_memories(
                            turn@,
                            settled(extractor.strategy(), found, reported_view(reported)),
                            steps,
                        )
                    }
            },
            Err(e) => {
                &&& e == StoreError::Conflict
                &&& old(db)@.turn_outcome(turn@.id) is Err
                &&& final(db)@ == old(db)@
            },
        },
{
    let ghost before = db@;
    let ghost rv = reported_view(reported);
    let now = now_rfc3339();
    match db.insert_turn_at(turn, now.as_str()) {
        Ok(()) => {},
        Err(e) => {
            return Err(e);
        },
    }
    let ghost start = db@;
    let found = match HeuristicExtractor::new().extract(turn) {
        Ok(f) => f,
        Err(e) => {
            return Err(e);
        },
    };
    let ghost fv = seq_view(found@);
    let memories = extractor.settle(found, reported);
    let stored = ingest_memories(db, organizer, turn, &memories);
    proof {
        let ms = seq_view(memories@);
        assert(ms == settled(extractor.strategy(), fv, rv));
        let steps = choose|steps: Seq<Step>|
            steps.len() == memories.len() && db@ == #[trigger] start.after_memories(
                turn@,
                ms,
                steps,
            );
        assert(ms.len() == memories.len());
        assert(start == before.after_insert_turn(TurnRowView { turn: turn@, created_at: now@ }));
        assert(start.memories == before.memories);
        assert(db@ == before.after_insert_turn(
            TurnRowView { turn: turn@, created_at: now@ },
        ).after_memories(turn@, settled(extractor.strategy(), fv, rv), steps));
    }
    Ok(stored)
}

} // verus!
