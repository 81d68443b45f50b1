//! Reading the relation graph: the relations of a memory, the memories at
//! their other ends, and the stories that they tell together.

use crate::dup::seq_view;
use crate::ids::MemoryId;
use crate::memories::{memories_of, str_less};
use crate::order::lex_less;
use crate::query::{at_most, first_n, select, sort_rows};
use crate::schemas::{
    Memory, MemoryRelation, MemoryRelationView, MemoryVersion, MemoryView, RelationType,
};
use crate::sorting::stable_sort;
use crate::store::{
    find_first, lemma_find_none, Database, DatabaseView, MemoryRow, MemoryRowView, StoreError,
};
use vstd::prelude::*;

verus! {

/// Which relations of a memory a query follows.
#[derive(Debug, Clone, Copy, PartialEq, Eq, Structural)]
pub enum RelationDirection {
    /// The relations that start at the memory.
    Outgoing,
    /// The relations that point at the memory.
    Incoming,
    /// Both.
    Both,
}

/// `a` was created later than `b`, by the order of their time stamps.
pub open spec fn later_relation(a: MemoryRelationView, b: MemoryRelationView) -> bool {
    lex_less(b.created_at, a.created_at)
}

/// The relations with the newest first.
pub open spec fn relations_newest_first(rows: Seq<MemoryRelationView>) -> Seq<MemoryRelationView> {
    stable_sort(rows, |a: MemoryRelationView, b: MemoryRelationView| later_relation(a, b))
}

/// The relation is of the type `ty` and touches the memory `id` in the
/// direction `dir`.
pub open spec fn follows(id: Seq<char>, ty: RelationType, dir: RelationDirection) -> spec_fn(
    MemoryRelationView,
) -> bool {
    |r: MemoryRelationView|
        r.relation_type == ty && match dir {
            RelationDirection::Outgoing => r.source_id == id,
            RelationDirection::Incoming => r.target_id == id,
            RelationDirection::Both => r.source_id == id || r.target_id == id,
        }
}

/// The relation starts at the memory `id`.
pub open spec fn starts_at(id: Seq<char>) -> spec_fn(MemoryRelationView) -> bool {
    |r: MemoryRelationView| r.source_id == id
}

/// The relation points at the memory `id`.
pub open spec fn points_at(id: Seq<char>) -> spec_fn(MemoryRelationView) -> bool {
    |r: MemoryRelationView| r.target_id == id
}

/// The relation starts at or points at the memory `id`.
pub open spec fn touches(id: Seq<char>) -> spec_fn(MemoryRelationView) -> bool {
    |r: MemoryRelationView| r.source_id == id || r.target_id == id
}

/// The memory at the other end of a relation of `id`: the target of a
/// relation followed outwards, the source of one followed inwards; followed
/// both ways, the end that is not `id`, and none for a relation from `id`
/// to itself.
pub open spec fn partner(r: MemoryRelationView, id: Seq<char>, dir: RelationDirection) -> Option<
    Seq<char>,
> {
    match dir {
        RelationDirection::Outgoing => Some(r.target_id),
        RelationDirection::Incoming => Some(r.source_id),
        RelationDirection::Both => {
            let other = if r.source_id == id {
                r.target_id
            } else {
                r.source_id
            };
            if other == id {
                None
            } else {
                Some(other)
            }
        },
    }
}

/// The memory at the other end of a relation of `id`, whichever end that
/// is.
pub open spec fn other_end(r: MemoryRelationView, id: Seq<char>) -> Seq<char> {
    if r.source_id == id {
        r.target_id
    } else {
        r.source_id
    }
}

impl DatabaseView {
    /// The stored memories at the other ends of the given relations of `id`,
    /// in the order of the relations.
    pub open spec fn partners(
        self,
        rels: Seq<MemoryRelationView>,
        id: Seq<char>,
        dir: RelationDirection,
    ) -> Seq<MemoryView>
        decreases rels.len(),
    {
        if rels.len() == 0 {
            Seq::empty()
        } else {
            let before = self.partners(rels.drop_last(), id, dir);
            match partner(rels.last(), id, dir) {
                Some(p) => match self.memory(p) {
                    Some(m) => before.push(m.memory),
                    None => before,
                },
                None => before,
            }
        }
    }

    /// The memories that relations of the type `ty` join to `id` in the
    /// direction `dir`, the one of the newest relation first.
    pub open spec fn related(self, id: Seq<char>, ty: RelationType, dir: RelationDirection) -> Seq<
        MemoryView,
    > {
        self.partners(relations_newest_first(self.relations.filter(follows(id, ty, dir))), id, dir)
    }

    /// The trail walked so far, continued from `current` along `Supersedes`
    /// relations: each step goes to the memory that the newest such relation
    /// of the current memory points at, and the walk ends at a memory that
    /// is not stored, that supersedes nothing, or whose successor is on the
    /// trail already, and after `fuel` steps at the latest.
    pub open spec fn walk(self, current: Seq<char>, trail: Seq<MemoryView>, fuel: nat) -> Seq<
        MemoryView,
    >
        decreases fuel,
    {
        if fuel == 0 {
            trail
        } else {
            match self.memory(current) {
                None => trail,
                Some(m) => {
                    let grown = trail.push(m.memory);
                    let next = self.related(
                        current,
                        RelationType::Supersedes,
                        RelationDirection::Outgoing,
                    );
                    if next.len() == 0 || on_trail(grown, next[0].id) {
                        grown
                    } else {
                        self.walk(next[0].id, grown, (fuel - 1) as nat)
                    }
                },
            }
        }
    }

    /// The evolution trail of a memory: the memories that it supersedes, one
    /// after the other, the oldest first and the memory itself last.
    pub open spec fn evolution_trail(self, id: Seq<char>) -> Seq<MemoryView> {
        self.walk(id, Seq::empty(), self.memories.len() + 1).reverse()
    }

    /// The rationale of the stored `Contradicts` relation from `source` to
    /// `target`, or a note that there is none.
    pub open spec fn contradiction_rationale(self, source: Seq<char>, target: Seq<char>) -> Seq<
        char,
    > {
        match find_first(
            self.relations,
            crate::store::relation_joins(source, target, RelationType::Contradicts),
        ) {
            Some(i) => match self.relations[i].rationale {
                Some(r) => r,
                None => "No rationale provided"@,
            },
            None => "No rationale provided"@,
        }
    }

    /// The memories of the given relations' other ends that are of the type
    /// `ty`, in the order of the relations.
    pub open spec fn ends_of_type(self, rels: Seq<MemoryRelationView>, id: Seq<char>, ty: RelationType)
        -> Seq<MemoryView>
        decreases rels.len(),
    {
        if rels.len() == 0 {
            Seq::empty()
        } else {
            let before = self.ends_of_type(rels.drop_last(), id, ty);
            if rels.last().relation_type == ty {
                match self.memory(other_end(rels.last(), id)) {
                    Some(m) => before.push(m.memory),
                    None => before,
                }
            } else {
                before
            }
        }
    }
}

/// Some memory of the trail has the identifier `id`.
pub open spec fn on_trail(trail: Seq<MemoryView>, id: Seq<char>) -> bool {
    exists|i: int| 0 <= i < trail.len() && (#[trigger] trail[i]).id == id
}

/// A decision with what implements, questions and surrounds it.
#[derive(Debug)]
pub struct DecisionChain {
    pub decision: Memory,
    pub implementations: Vec<Memory>,
    pub questions: Vec<Memory>,
    pub related_context: Vec<Memory>,
}

/// A question with what it questions and what may answer it.
#[derive(Debug)]
pub struct QuestionResolution {
    pub question: Memory,
    pub questioned_memories: Vec<Memory>,
    pub potential_answers: Vec<Memory>,
}

/// A concept with what implements, exemplifies and surrounds it.
#[derive(Debug)]
pub struct ImplementationTracking {
    pub concept: Memory,
    pub direct_implementations: Vec<Memory>,
    pub examples: Vec<Memory>,
    pub related_concepts: Vec<Memory>,
}

/// Everything that the store tells of one memory.
#[derive(Debug)]
pub struct MemoryNarrative {
    pub memory: Memory,
    pub relations: Vec<MemoryRelation>,
    pub versions: Vec<MemoryVersion>,
    pub evolution_trail: Vec<Memory>,
    pub supersedes: Vec<Memory>,
    pub implements: Vec<Memory>,
    pub questions: Vec<Memory>,
    pub relates_to: Vec<Memory>,
    pub contradicts: Vec<Memory>,
    pub exemplifies: Vec<Memory>,
}

/// The versions that a memory has, in numbers.
#[derive(Debug)]
pub struct VersionStats {
    pub total_versions: usize,
    pub oldest_version: Option<MemoryVersion>,
    pub newest_version: Option<MemoryVersion>,
    pub total_changes: usize,
}

impl Database {
    /// Copies of the relations that satisfy `p`, newest first.
    fn relations_where<F: Fn(&MemoryRelation) -> bool>(
        &self,
        f: F,
        Ghost(p): Ghost<spec_fn(MemoryRelationView) -> bool>,
    ) -> (r: Vec<MemoryRelation>)
        requires
            forall|a: &MemoryRelation| #[trigger] f.requires((a,)),
            forall|a: &MemoryRelation, o: bool| #[trigger] f.ensures((a,), o) ==> o == p(a@),
        ensures
            seq_view(r@) == relations_newest_first(self@.relations.filter(p)),
    {
        let picked = select(&self.relations, f, Ghost(p));
        let ghost before = |a: MemoryRelationView, b: MemoryRelationView| later_relation(a, b);
        let later = |a: &MemoryRelation, b: &MemoryRelation| -> (o: bool)
            ensures
                o == before(a@, b@),
            { str_less(b.created_at.as_str(), a.created_at.as_str()) };
        sort_rows(picked, later, Ghost(before))
    }

    /// The relations that start at the memory, newest first.
    pub fn get_memory_relations_from(&self, source_id: &MemoryId) -> (r: Vec<MemoryRelation>)
        ensures
            seq_view(r@) == relations_newest_first(self@.relations.filter(starts_at(source_id@))),
    {
        let ghost p = starts_at(source_id@);
        let pick = |r: &MemoryRelation| -> (o: bool)
            ensures
                o == p(r@),
            { r.source_id == *source_id };
        self.relations_where(pick, Ghost(p))
    }

    /// The relations that point at the memory, newest first.
    pub fn get_memory_relations_to(&self, target_id: &MemoryId) -> (r: Vec<MemoryRelation>)
        ensures
            seq_view(r@) == relations_newest_first(self@.relations.filter(points_at(target_id@))),
    {
        let ghost p = points_at(target_id@);
        let pick = |r: &MemoryRelation| -> (o: bool)
            ensures
                o == p(r@),
            { r.target_id == *target_id };
        self.relations_where(pick, Ghost(p))
    }

    /// The relations that start at or point at the memory, newest first.
    pub fn get_all_memory_relations(&self, memory_id: &MemoryId) -> (r: Vec<MemoryRelation>)
        ensures
            seq_view(r@) == relations_newest_first(self@.relations.filter(touches(memory_id@))),
    {
        let ghost p = touches(memory_id@);
        let pick = |r: &MemoryRelation| -> (o: bool)
            ensures
                o == p(r@),
            { r.source_id == *memory_id || r.target_id == *memory_id };
        self.relations_where(pick, Ghost(p))
    }

    /// The memories that relations of the type `relation_type` join to the
    /// memory in the direction `direction`, the one of the newest relation
    /// first.
    pub fn get_related_memories_by_type(
        &self,
        memory_id: &MemoryId,
        relation_type: RelationType,
        direction: RelationDirection,
    ) -> (r: Vec<Memory>)
        ensures
            seq_view(r@) == self@.related(memory_id@, relation_type, direction),
    {
        let ghost p = follows(memory_id@, relation_type, direction);
        let pick = |r: &MemoryRelation| -> (o: bool)
            ensures
                o == p(r@),
            {
                r.relation_type == relation_type && match direction {
                    RelationDirection::Outgoing => r.source_id == *memory_id,
                    RelationDirection::Incoming => r.target_id == *memory_id,
                    RelationDirection::Both => r.source_id == *memory_id || r.target_id
                        == *memory_id,
                }
            };
        let rels = self.relations_where(pick, Ghost(p));
        let ghost rv = seq_view(rels@);
        let mut out: Vec<Memory> = Vec::new();
        let mut i: usize = 0;
        proof {
            assert(seq_view(out@) =~= self@.partners(rv.take(0), memory_id@, direction));
        }
        while i < rels.len()
            invariant
                i <= rels.len(),
                rv == seq_view(rels@),
                seq_view(out@) == self@.partners(rv.take(i as int), memory_id@, direction),
            decreases rels.len() - i,
        {
            let ghost before = seq_view(out@);
            let r = &rels[i];
            proof {
                assert(rv[i as int] == rels@[i as int]@);
                assert(rv.take(i + 1).drop_last() =~= rv.take(i as int));
                assert(rv.take(i + 1).last() == rv[i as int]);
            }
            let other: Option<&MemoryId> = match direction {
                RelationDirection::Outgoing => Some(&r.target_id),
                RelationDirection::Incoming => Some(&r.source_id),
                RelationDirection::Both => {
                    let o = if r.source_id == *memory_id {
                        &r.target_id
                    } else {
                        &r.source_id
                    };
                    if *o == *memory_id {
                        None
                    } else {
                        Some(o)
                    }
                },
            };
            match other {
                Some(p) => match self.get_memory_by_id(p) {
                    Some(m) => {
                        let ghost mv = m@;
                        out.push(m);
                        assert(seq_view(out@) =~= before.push(mv));
                    },
                    None => {},
                },
                None => {},
            }
            i += 1;
        }
        proof {
            assert(rv.take(rels.len() as int) =~= rv);
        }
        out
    }

    /// Whether a memory with the identifier `id` is on the trail.
    fn is_on_trail(trail: &Vec<Memory>, id: &MemoryId) -> (r: bool)
        ensures
            r == on_trail(seq_view(trail@), id@),
    {
        let ghost tv = seq_view(trail@);
        let mut i: usize = 0;
        while i < trail.len()
            invariant
                i <= trail.len(),
                tv == seq_view(trail@),
                forall|j: int| 0 <= j < i ==> (#[trigger] tv[j]).id != id@,
            decreases trail.len() - i,
        {
            assert(tv[i as int] == trail@[i as int]@);
            if trail[i].id == *id {
                return true;
            }
            i += 1;
        }
        false
    }

    /// The evolution trail of a memory: the memories that it supersedes, one
    /// after the other, the oldest first and the memory itself last. A cycle
    /// of `Supersedes` relations ends the trail where it would repeat.
    pub fn get_evolution_trail(&self, memory_id: &MemoryId) -> (r: Vec<Memory>)
        requires
            self@.memories.len() < usize::MAX,
        ensures
            seq_view(r@) == self@.evolution_trail(memory_id@),
    {
        let mut trail: Vec<Memory> = Vec::new();
        let mut current = memory_id.clone();
        let mut fuel: usize = self.memories.len() + 1;
        let ghost whole = self@.walk(memory_id@, Seq::empty(), (self@.memories.len() + 1) as nat);
        assert(seq_view(trail@) =~= Seq::<MemoryView>::empty());
        while fuel > 0
            invariant
                whole == self@.walk(current@, seq_view(trail@), fuel as nat),
            decreases fuel,
        {
            let ghost tv = seq_view(trail@);
            match self.get_memory_by_id(&current) {
                None => {
                    fuel = 0;
                },
                Some(m) => {
                    let ghost mv = m@;
                    trail.push(m);
                    assert(seq_view(trail@) =~= tv.push(mv));
                    let next = self.get_related_memories_by_type(
                        &current,
                        RelationType::Supersedes,
                        RelationDirection::Outgoing,
                    );
                    if next.len() == 0 {
                        assert(seq_view(next@).len() == 0);
                        fuel = 0;
                    } else {
                        assert(seq_view(next@)[0] == next@[0]@);
                        if Self::is_on_trail(&trail, &next[0].id) {
                            fuel = 0;
                        } else {
                            current = next[0].id.clone();
                            fuel = fuel - 1;
                        }
                    }
                },
            }
        }
        crate::query::reversed(&trail)
    }

    /// A decision with the memories that implement it, that question it and
    /// that relate to it. Fails with `NotFound` for an unknown memory.
    pub fn get_decision_chain(&self, decision_memory_id: &MemoryId) -> (r: Result<
        DecisionChain,
        StoreError,
    >)
        ensures
            match r {
                Ok(c) => {
                    &&& self@.memory(decision_memory_id@) matches Some(m) && c.decision@ == m.memory
                    &&& seq_view(c.implementations@) == self@.related(
                        decision_memory_id@,
                        RelationType::Implements,
                        RelationDirection::Incoming,
                    )
                    &&& seq_view(c.questions@) == self@.related(
                        decision_memory_id@,
                        RelationType::Questions,
                        RelationDirection::Incoming,
                    )
                    &&& seq_view(c.related_context@) == self@.related(
                        decision_memory_id@,
                        RelationType::RelatesTo,
                        RelationDirection::Both,
                    )
                },
                Err(e) => e == StoreError::NotFound && self@.memory(decision_memory_id@) is None,
            },
    {
        let decision = match self.get_memory_by_id(decision_memory_id) {
            Some(m) => m,
            None => {
                return Err(StoreError::NotFound);
            },
        };
        Ok(
            DecisionChain {
                decision,
                implementations: self.get_related_memories_by_type(
                    decision_memory_id,
                    RelationType::Implements,
                    RelationDirection::Incoming,
                ),
                questions: self.get_related_memories_by_type(
                    decision_memory_id,
                    RelationType::Questions,
                    RelationDirection::Incoming,
                ),
                related_context: self.get_related_memories_by_type(
                    decision_memory_id,
                    RelationType::RelatesTo,
                    RelationDirection::Both,
                ),
            },
        )
    }

    /// A concept with the memories that implement it, that exemplify it and
    /// that relate to it. Fails with `NotFound` for an unknown memory.
    pub fn get_implementation_tracking(&self, concept_memory_id: &MemoryId) -> (r: Result<
        ImplementationTracking,
        StoreError,
    >)
        ensures
            match r {
                Ok(c) => {
                    &&& self@.memory(concept_memory_id@) matches Some(m) && c.concept@ == m.memory
                    &&& seq_view(c.direct_implementations@) == self@.related(
                        concept_memory_id@,
                        RelationType::Implements,
                        RelationDirection::Incoming,
                    )
                    &&& seq_view(c.examples@) == self@.related(
                        concept_memory_id@,
                        RelationType::Exemplifies,
                        RelationDirection::Incoming,
                    )
                    &&& seq_view(c.related_concepts@) == self@.related(
                        concept_memory_id@,
                        RelationType::RelatesTo,
                        RelationDirection::Both,
                    )
                },
                Err(e) => e == StoreError::NotFound && self@.memory(concept_memory_id@) is None,
            },
    {
        let concept = match self.get_memory_by_id(concept_memory_id) {
            Some(m) => m,
            None => {
                return Err(StoreError::NotFound);
            },
        };
        Ok(
            ImplementationTracking {
                concept,
                direct_implementations: self.get_related_memories_by_type(
                    concept_memory_id,
                    RelationType::Implements,
                    RelationDirection::Incoming,
                ),
                examples: self.get_related_memories_by_type(
                    concept_memory_id,
                    RelationType::Exemplifies,
                    RelationDirection::Incoming,
                ),
                related_concepts: self.get_related_memories_by_type(
                    concept_memory_id,
                    RelationType::RelatesTo,
                    RelationDirection::Both,
                ),
            },
        )
    }

    /// A question with the memories that it questions and the up to ten
    /// oldest memories of its topic that are newer than it. Fails with
    /// `NotFound` for an unknown memory.
    pub fn get_question_resolution(&self, question_memory_id: &MemoryId) -> (r: Result<
        QuestionResolution,
        StoreError,
    >)
        ensures
            match r {
                Ok(q) => {
                    &&& self@.memory(question_memory_id@) matches Some(m) && q.question@ == m.memory
                        && seq_view(q.potential_answers@) == memories_of(
                        at_most(
                            stable_sort(
                                self@.memories.filter(answers_after(m.memory)),
                                |a: MemoryRowView, b: MemoryRowView|
                                    lex_less(a.memory.created_at, b.memory.created_at),
                            ),
                            10,
                        ),
                    )
                    &&& seq_view(q.questioned_memories@) == self@.related(
                        question_memory_id@,
                        RelationType::Questions,
                        RelationDirection::Outgoing,
                    )
                },
                Err(e) => e == StoreError::NotFound && self@.memory(question_memory_id@) is None,
            },
    {
        let question = match self.get_memory_by_id(question_memory_id) {
            Some(m) => m,
            None => {
                return Err(StoreError::NotFound);
            },
        };
        let questioned_memories = self.get_related_memories_by_type(
            question_memory_id,
            RelationType::Questions,
            RelationDirection::Outgoing,
        );
        let ghost p = answers_after(question@);
        let pick = |r: &MemoryRow| -> (o: bool)
            ensures
                o == p(r@),
            {
                r.memory.topic == question.topic && str_less(
                    question.created_at.as_str(),
                    r.memory.created_at.as_str(),
                )
            };
        let rows = select(&self.memories, pick, Ghost(p));
        let ghost before = |a: MemoryRowView, b: MemoryRowView|
            lex_less(a.memory.created_at, b.memory.created_at);
        let earlier = |a: &MemoryRow, b: &MemoryRow| -> (o: bool)
            ensures
                o == before(a@, b@),
            { str_less(a.memory.created_at.as_str(), b.memory.created_at.as_str()) };
        let sorted = sort_rows(rows, earlier, Ghost(before));
        let potential_answers = crate::memories::take_memories(first_n(sorted, 10));
        Ok(QuestionResolution { question, questioned_memories, potential_answers })
    }

    /// The contradictions among the hundred newest memories of a topic:
    /// each such memory with each memory that it contradicts and the
    /// rationale of the relation between them.
    pub fn find_contradictions(&self, topic: &str) -> (r: Vec<(Memory, Memory, String)>)
        ensures
            r.len() == contradictions(self@, self@.memories_by_topic(topic@, 100)).len(),
            forall|i: int|
                0 <= i < r.len() ==> {
                    let c = contradictions(self@, self@.memories_by_topic(topic@, 100))[i];
                    &&& (#[trigger] r@[i]).0@ == c.0
                    &&& r@[i].1@ == c.1
                    &&& r@[i].2@ == c.2
                },
    {
        let memories = self.get_memories_by_topic(topic, 100);
        let ghost ms = seq_view(memories@);
        let mut out: Vec<(Memory, Memory, String)> = Vec::new();
        let mut i: usize = 0;
        while i < memories.len()
            invariant
                i <= memories.len(),
                ms == seq_view(memories@),
                out.len() == contradictions(self@, ms.take(i as int)).len(),
                forall|k: int|
                    0 <= k < out.len() ==> {
                        let c = contradictions(self@, ms.take(i as int))[k];
                        &&& (#[trigger] out@[k]).0@ == c.0
                        &&& out@[k].1@ == c.1
                        &&& out@[k].2@ == c.2
                    },
            decreases memories.len() - i,
        {
            let memory = &memories[i];
            let ghost done = contradictions(self@, ms.take(i as int));
            proof {
                assert(ms[i as int] == memories@[i as int]@);
                assert(ms.take(i + 1).drop_last() =~= ms.take(i as int));
                assert(ms.take(i + 1).last() == ms[i as int]);
            }
            let contradicted = self.get_related_memories_by_type(
                &memory.id,
                RelationType::Contradicts,
                RelationDirection::Outgoing,
            );
            let ghost cv = seq_view(contradicted@);
            let mut k: usize = 0;
            proof {
                assert(done + pairs_with(self@, ms[i as int], cv.take(0)) =~= done);
            }
            while k < contradicted.len()
                invariant
                    k <= contradicted.len(),
                    i < memories.len(),
                    ms == seq_view(memories@),
                    memory@ == ms[i as int],
                    cv == seq_view(contradicted@),
                    out.len() == (done + pairs_with(self@, ms[i as int], cv.take(k as int))).len(),
                    forall|x: int|
                        0 <= x < out.len() ==> {
                            let c = (done + pairs_with(self@, ms[i as int], cv.take(k as int)))[x];
                            &&& (#[trigger] out@[x]).0@ == c.0
                            &&& out@[x].1@ == c.1
                            &&& out@[x].2@ == c.2
                        },
                decreases contradicted.len() - k,
            {
                let other = &contradicted[k];
                proof {
                    assert(cv[k as int] == contradicted@[k as int]@);
                    assert(cv.take(k + 1).drop_last() =~= cv.take(k as int));
                    assert(cv.take(k + 1).last() == cv[k as int]);
                }
                let rationale = match self.relation_index(
                    &memory.id,
                    &other.id,
                    RelationType::Contradicts,
                ) {
                    Some(j) => {
                        assert(self@.relations[j as int] == self.relations@[j as int]@);
                        match &self.relations[j].rationale {
                            Some(t) => t.clone(),
                            None => "No rationale provided".to_owned(),
                        }
                    },
                    None => {
                        proof {
                            lemma_find_none(
                                self@.relations,
                                crate::store::relation_joins(
                                    memory@.id,
                                    other@.id,
                                    RelationType::Contradicts,
                                ),
                            );
                        }
                        "No rationale provided".to_owned()
                    },
                };
                out.push((memory.clone(), other.clone(), rationale));
                k += 1;
            }
            proof {
                assert(cv.take(contradicted.len() as int) =~= cv);
            }
            i += 1;
        }
        proof {
            assert(ms.take(memories.len() as int) =~= ms);
        }
        out
    }

    /// The memories of the given relations' other ends that are of the type
    /// `ty`, in the order of the relations.
    fn ends(&self, rels: &Vec<MemoryRelation>, memory_id: &MemoryId, ty: RelationType) -> (r: Vec<
        Memory,
    >)
        ensures
            seq_view(r@) == self@.ends_of_type(seq_view(rels@), memory_id@, ty),
    {
        let ghost rv = seq_view(rels@);
        let mut out: Vec<Memory> = Vec::new();
        let mut i: usize = 0;
        proof {
            assert(seq_view(out@) =~= self@.ends_of_type(rv.take(0), memory_id@, ty));
        }
        while i < rels.len()
            invariant
                i <= rels.len(),
                rv == seq_view(rels@),
                seq_view(out@) == self@.ends_of_type(rv.take(i as int), memory_id@, ty),
            decreases rels.len() - i,
        {
            let ghost before = seq_view(out@);
            let r = &rels[i];
            proof {
                assert(rv[i as int] == rels@[i as int]@);
                assert(rv.take(i + 1).drop_last() =~= rv.take(i as int));
                assert(rv.take(i + 1).last() == rv[i as int]);
            }
            if r.relation_type == ty {
                let other = if r.source_id == *memory_id {
                    &r.target_id
                } else {
                    &r.source_id
                };
                match self.get_memory_by_id(other) {
                    Some(m) => {
                        let ghost mv = m@;
                        out.push(m);
                        assert(seq_view(out@) =~= before.push(mv));
                    },
                    None => {},
                }
            }
            i += 1;
        }
        proof {
            assert(rv.take(rels.len() as int) =~= rv);
        }
        out
    }

    /// Everything that the store tells of one memory: its relations, its
    /// versions, its evolution trail, and the memories at the other ends of
    /// its relations by type. Fails with `NotFound` for an unknown memory.
    pub fn get_memory_narrative(&self, memory_id: &MemoryId) -> (r: Result<
        MemoryNarrative,
        StoreError,
    >)
        requires
            self@.memories.len() < usize::MAX,
        ensures
            match r {
                Ok(n) => {
                    let rels = relations_newest_first(self@.relations.filter(touches(memory_id@)));
                    &&& self@.memory(memory_id@) matches Some(m) && n.memory@ == m.memory
                    &&& seq_view(n.relations@) == rels
                    &&& seq_view(n.versions@) == self@.versions_of(memory_id@).reverse()
                    &&& seq_view(n.evolution_trail@) == self@.evolution_trail(memory_id@)
                    &&& seq_view(n.supersedes@) == self@.ends_of_type(
                        rels,
                        memory_id@,
                        RelationType::Supersedes,
                    )
                    &&& seq_view(n.implements@) == self@.ends_of_type(
                        rels,
                        memory_id@,
                        RelationType::Implements,
                    )
                    &&& seq_view(n.questions@) == self@.ends_of_type(
                        rels,
                        memory_id@,
                        RelationType::Questions,
                    )
                    &&& seq_view(n.relates_to@) == self@.ends_of_type(
                        rels,
                        memory_id@,
                        RelationType::RelatesTo,
                    )
                    &&& seq_view(n.contradicts@) == self@.ends_of_type(
                        rels,
                        memory_id@,
                        RelationType::Contradicts,
                    )
                    &&& seq_view(n.exemplifies@) == self@.ends_of_type(
                        rels,
                        memory_id@,
                        RelationType::Exemplifies,
                    )
                },
                Err(e) => e == StoreError::NotFound && self@.memory(memory_id@) is None,
            },
    {
        let memory = match self.get_memory_by_id(memory_id) {
            Some(m) => m,
            None => {
                return Err(StoreError::NotFound);
            },
        };
        let relations = self.get_all_memory_relations(memory_id);
        let versions = self.get_memory_versions(memory_id);
        let evolution_trail = self.get_evolution_trail(memory_id);
        let supersedes = self.ends(&relations, memory_id, RelationType::Supersedes);
        let implements = self.ends(&relations, memory_id, RelationType::Implements);
        let questions = self.ends(&relations, memory_id, RelationType::Questions);
        let relates_to = self.ends(&relations, memory_id, RelationType::RelatesTo);
        let contradicts = self.ends(&relations, memory_id, RelationType::Contradicts);
        let exemplifies = self.ends(&relations, memory_id, RelationType::Exemplifies);
        Ok(
            MemoryNarrative {
                memory,
                relations,
                versions,
                evolution_trail,
                supersedes,
                implements,
                questions,
                relates_to,
                contradicts,
                exemplifies,
            },
        )
    }

    /// How many versions a memory has, with the oldest and the newest.
    pub fn get_version_stats(&self, memory_id: &MemoryId) -> (r: VersionStats)
        ensures
            r.total_versions == self@.versions_of(memory_id@).len(),
            r.total_changes == r.total_versions,
            crate::dup::opt_view(r.oldest_version) == if self@.versions_of(memory_id@).len() > 0 {
                Some(self@.versions_of(memory_id@).first())
            } else {
                None
            },
            crate::dup::opt_view(r.newest_version) == if self@.versions_of(memory_id@).len() > 0 {
                Some(self@.versions_of(memory_id@).last())
            } else {
                None
            },
    {
        let versions = self.get_memory_versions(memory_id);
        let n = versions.len();
        assert(seq_view(versions@).len() == n);
        if n == 0 {
            return VersionStats {
                total_versions: 0,
                oldest_version: None,
                newest_version: None,
                total_changes: 0,
            };
        }
        assert(seq_view(versions@)[0] == versions@[0]@);
        assert(seq_view(versions@)[n - 1] == versions@[n - 1]@);
        VersionStats {
            total_versions: n,
            oldest_version: Some(versions[n - 1].clone()),
            newest_version: Some(versions[0].clone()),
            total_changes: n,
        }
    }
}

/// The row belongs to a memory of the question's topic that was created
/// after the question.
pub open spec fn answers_after(question: MemoryView) -> spec_fn(MemoryRowView) -> bool {
    |r: MemoryRowView|
        r.memory.topic == question.topic && lex_less(question.created_at, r.memory.created_at)
}

/// The memory paired with each of the given memories and the rationale of
/// the contradiction between them.
pub open spec fn pairs_with(db: DatabaseView, memory: MemoryView, others: Seq<MemoryView>) -> Seq<
    (MemoryView, MemoryView, Seq<char>),
> {
    others.map_values(
        |o: MemoryView| (memory, o, db.contradiction_rationale(memory.id, o.id)),
    )
}

/// Each of the given memories with each memory that it contradicts, the one
/// of the newest relation first, and the rationale.
pub open spec fn contradictions(db: DatabaseView, memories: Seq<MemoryView>) -> Seq<
    (MemoryView, MemoryView, Seq<char>),
>
    decreases memories.len(),
{
    if memories.len() == 0 {
        Seq::empty()
    } else {
        contradictions(db, memories.drop_last()) + pairs_with(
            db,
            memories.last(),
            db.related(
                memories.last().id,
                RelationType::Contradicts,
                RelationDirection::Outgoing,
            ),
        )
    }
}

} // verus!
