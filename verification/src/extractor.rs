//! Turning a turn into memories: the drafts that the patterns or a language
//! model find, stamped with identifier, provenance and time, and kept if
//! they are sure enough.

use crate::clock::now_rfc3339;
use crate::dup::{dup_vec, opt_view, seq_view, Dup};
use crate::extraction::{draft_memories, drafts_of};
use crate::heuristic::{Confidence, MemoryDraft, MemoryDraftView, CONFIDENT_FROM, DAY_SECS};
use crate::ids::{generate_memory_id, is_generated, MemoryId, TurnId};
use crate::pieces::{split, split_on_char};
use crate::query::lemma_filter_push;
use crate::schemas::{Memory, MemoryKind, MemoryView, RelationType, Turn, TurnView};
use crate::text::{append_str, contains, from_chars, has_str, lower, lowercase, to_chars, views};
use vstd::prelude::*;

verus! {

/// A memory with the confidence of its extraction.
#[derive(Debug)]
pub struct ExtractedMemory {
    pub memory: Memory,
    pub confidence: Confidence,
}

/// The value of an [`ExtractedMemory`].
pub struct ExtractedMemoryView {
    pub memory: MemoryView,
    pub confidence: nat,
}

impl View for ExtractedMemory {
    type V = ExtractedMemoryView;

    open spec fn view(&self) -> ExtractedMemoryView {
        ExtractedMemoryView { memory: self.memory@, confidence: self.confidence.value() }
    }
}

impl Dup for ExtractedMemory {
    fn dup(&self) -> (r: Self) {
        ExtractedMemory { memory: self.memory.dup(), confidence: self.confidence }
    }
}

impl Clone for ExtractedMemory {
    fn clone(&self) -> (r: Self)
        ensures
            r@ == self@,
    {
        self.dup()
    }
}

/// The memory is the draft stamped for the turn `turn_id`: it says what the
/// draft says, stems from that turn alone, carries a fresh memory
/// identifier, and is filed under no topic yet.
pub open spec fn is_stamped(m: MemoryView, d: MemoryDraftView, turn_id: Seq<char>) -> bool {
    &&& m.kind == d.kind
    &&& m.topic == d.topic
    &&& m.text == d.text
    &&& m.snippet == d.snippet
    &&& m.entities == d.entities
    &&& m.ttl == d.ttl
    &&& m.provenance == seq![turn_id]
    &&& m.topic_id is None
    &&& is_generated(m.id, "mem_"@)
}

/// The memories are the drafts stamped for the turn `turn_id`, one for one.
pub open spec fn are_stamped(ms: Seq<MemoryView>, ds: Seq<MemoryDraftView>, turn_id: Seq<char>)
    -> bool {
    ms.len() == ds.len() && forall|i: int| 0 <= i < ms.len() ==> is_stamped(#[trigger] ms[i], ds[i], turn_id)
}

/// The extraction is the drafts stamped for the turn `turn_id`, each with
/// the confidence of its draft.
pub open spec fn is_extraction(
    es: Seq<ExtractedMemoryView>,
    ds: Seq<MemoryDraftView>,
    turn_id: Seq<char>,
) -> bool {
    es.len() == ds.len() && forall|i: int|
        0 <= i < es.len() ==> is_stamped((#[trigger] es[i]).memory, ds[i], turn_id)
            && es[i].confidence == ds[i].confidence
}

/// Two memories say the same, whatever their identifiers and time stamps.
pub open spec fn same_content(a: MemoryView, b: MemoryView) -> bool {
    &&& a.kind == b.kind
    &&& a.topic == b.topic
    &&& a.text == b.text
    &&& a.snippet == b.snippet
    &&& a.entities == b.entities
    &&& a.ttl == b.ttl
    &&& a.provenance == b.provenance
    &&& a.topic_id == b.topic_id
}

/// The draft is sure enough to be kept.
pub open spec fn is_sure() -> spec_fn(MemoryDraftView) -> bool {
    |d: MemoryDraftView| d.confidence >= CONFIDENT_FROM
}

/// Two extractions from one turn say the same, memory for memory, whatever
/// identifiers and time stamps they were given.
pub proof fn extraction_is_determined(turn: TurnView, a: Seq<MemoryView>, b: Seq<MemoryView>)
    requires
        are_stamped(a, drafts_of(turn).filter(is_sure()), turn.id),
        are_stamped(b, drafts_of(turn).filter(is_sure()), turn.id),
    ensures
        a.len() == b.len(),
        forall|i: int| 0 <= i < a.len() ==> same_content(#[trigger] a[i], b[i]),
{
    let ds = drafts_of(turn).filter(is_sure());
    assert forall|i: int| 0 <= i < a.len() implies same_content(#[trigger] a[i], b[i]) by {
        assert(is_stamped(a[i], ds[i], turn.id));
        assert(is_stamped(b[i], ds[i], turn.id));
    }
}

/// The memory that a draft becomes for a turn, under the identifier `id`
/// and with the time stamp `now`.
pub fn stamp(draft: MemoryDraft, turn_id: &TurnId, id: MemoryId, now: String) -> (r: Memory)
    ensures
        r@.id == id@,
        r@.created_at == now@,
        is_generated(id@, "mem_"@) ==> is_stamped(r@, draft@, turn_id@),
{
    let mut provenance: Vec<TurnId> = Vec::new();
    provenance.push(turn_id.clone());
    let r = Memory {
        id,
        kind: draft.kind,
        topic: draft.topic,
        text: draft.text,
        snippet: draft.snippet,
        entities: draft.entities,
        provenance,
        created_at: now,
        ttl: draft.ttl,
        topic_id: None,
    };
    assert(r@.provenance =~= seq![turn_id@]);
    r
}

/// Extracts memories from turns by patterns alone.
pub struct HeuristicExtractor;

impl HeuristicExtractor {
    /// An extractor.
    pub fn new() -> (r: Self) {
        HeuristicExtractor
    }

    /// Everything that the patterns find in a turn, each find stamped with
    /// a fresh identifier and the current time, with its confidence.
    pub fn extract(&self, turn: &Turn) -> (r: Result<Vec<ExtractedMemory>, crate::store::StoreError>)
        ensures
            r matches Ok(es) && is_extraction(seq_view(es@), drafts_of(turn@), turn@.id),
    {
        let mut drafts = draft_memories(turn);
        let ghost ds = seq_view(drafts@);
        let mut out: Vec<ExtractedMemory> = Vec::new();
        let ghost mut i: int = 0;
        assert(ds.skip(0) =~= ds);
        while drafts.len() > 0
            invariant
                0 <= i <= ds.len(),
                seq_view(drafts@) == ds.skip(i),
                out.len() == i,
                forall|j: int|
                    0 <= j < i ==> is_stamped((#[trigger] out@[j])@.memory, ds[j], turn@.id)
                        && out@[j]@.confidence == ds[j].confidence,
            decreases drafts.len(),
        {
            let ghost rest = seq_view(drafts@);
            let ghost raw = drafts@;
            assert(rest.len() == raw.len());
            let d = drafts.remove(0);
            proof {
                assert(rest[0] == d@);
                assert(ds[i] == rest[0]);
                assert(seq_view(drafts@) =~= rest.drop_first());
                assert(rest.drop_first() =~= ds.skip(i + 1));
            }
            let confidence = d.confidence;
            let memory = stamp(d, &turn.id, generate_memory_id(), now_rfc3339());
            out.push(ExtractedMemory { memory, confidence });
            proof {
                i = i + 1;
            }
        }
        assert(seq_view(out@).len() == ds.len());
        Ok(out)
    }
}

/// How memories are extracted.
#[derive(Debug, Clone, Copy, PartialEq, Eq, Structural)]
pub enum ExtractionStrategy {
    /// By patterns alone.
    HeuristicOnly,
    /// By a language model, and by patterns where that fails.
    LLMWithFallback,
    /// By patterns, and by a language model as well for complex text.
    Hybrid,
}

/// The text holds the word as a part.
pub open spec fn mark(text: Seq<char>, word: Seq<char>) -> nat {
    if contains(text, word) {
        1
    } else {
        0
    }
}

/// Number of sentence ends in a text.
pub open spec fn sentence_ends(text: Seq<char>) -> nat {
    text.filter(|c: char| crate::sidecar::is_sentence_end(c)).len()
}

/// A text is complex if it has more than five sentences, or at least two
/// of the words that give reasons, or at least two of the words that name
/// actions.
pub open spec fn is_complex(text: Seq<char>) -> bool {
    let low = lowercase(text);
    sentence_ends(text) + 1 > 5 || mark(low, "because"@) + mark(low, "since"@) + mark(
        low,
        "therefore"@,
    ) + mark(low, "thus"@) + mark(low, "hence"@) >= 2 || mark(low, "decided"@) + mark(low, "will"@)
        + mark(low, "need to"@) + mark(low, "should"@) + mark(low, "must"@) + mark(low, "todo"@)
        >= 2
}

/// The item has the kind and the topic of `other`.
pub open spec fn same_slot(other: ExtractedMemoryView) -> spec_fn(ExtractedMemoryView) -> bool {
    |e: ExtractedMemoryView| e.memory.kind == other.memory.kind && e.memory.topic
        == other.memory.topic
}

/// `a` is a better extraction than `b`: surer, or as sure with more
/// entities.
pub open spec fn better(a: ExtractedMemoryView, b: ExtractedMemoryView) -> bool {
    a.confidence > b.confidence || (a.confidence == b.confidence && a.memory.entities.len()
        > b.memory.entities.len())
}

/// Index of the kept item of the item's kind and topic, or the number of
/// kept items if there is none.
pub open spec fn slot_index(kept: Seq<ExtractedMemoryView>, item: ExtractedMemoryView) -> nat
    decreases kept.len(),
{
    if kept.len() > 0 && !same_slot(item)(kept[0]) {
        1 + slot_index(kept.drop_first(), item)
    } else {
        0
    }
}

/// The kept items after one more item: an item that is not sure enough is
/// dropped; else it takes the place of the kept item of its kind and topic
/// if it is better, or a new place if there is none.
pub open spec fn absorb(kept: Seq<ExtractedMemoryView>, item: ExtractedMemoryView) -> Seq<
    ExtractedMemoryView,
> {
    if item.confidence < CONFIDENT_FROM {
        kept
    } else {
        let i = slot_index(kept, item) as int;
        if i < kept.len() {
            if better(item, kept[i]) {
                kept.update(i, item)
            } else {
                kept
            }
        } else {
            kept.push(item)
        }
    }
}

/// The best sure item of each kind and topic, in the order in which kinds
/// and topics first occur.
pub open spec fn best_by_slot(items: Seq<ExtractedMemoryView>) -> Seq<ExtractedMemoryView>
    decreases items.len(),
{
    if items.len() == 0 {
        Seq::empty()
    } else {
        absorb(best_by_slot(items.drop_last()), items.last())
    }
}

proof fn lemma_slot_index(kept: Seq<ExtractedMemoryView>, item: ExtractedMemoryView, i: int)
    requires
        0 <= i <= kept.len(),
        forall|j: int| 0 <= j < i ==> !same_slot(item)(kept[j]),
        i == kept.len() || same_slot(item)(kept[i]),
    ensures
        slot_index(kept, item) == i,
    decreases i,
{
    if i > 0 {
        let t = kept.drop_first();
        assert forall|j: int| 0 <= j < i - 1 implies !same_slot(item)(t[j]) by {
            assert(t[j] == kept[j + 1]);
        }
        lemma_slot_index(t, item, i - 1);
    }
}

/// Extracts memories from turns by the strategy it was made with.
pub struct MemoryExtractor {
    strategy: ExtractionStrategy,
    heuristic: HeuristicExtractor,
}

impl MemoryExtractor {
    /// An extractor by patterns alone.
    pub fn new() -> (r: Self)
        ensures
            r.strategy() == ExtractionStrategy::HeuristicOnly,
    {
        MemoryExtractor {
            strategy: ExtractionStrategy::HeuristicOnly,
            heuristic: HeuristicExtractor::new(),
        }
    }

    /// An extractor by the given strategy.
    pub fn with_strategy(strategy: ExtractionStrategy) -> (r: Self)
        ensures
            r.strategy() == strategy,
    {
        MemoryExtractor { strategy, heuristic: HeuristicExtractor::new() }
    }

    /// An extractor by the strategy that is the default: hybrid where a
    /// language model is at hand, else by patterns alone.
    pub fn by_default(model_at_hand: bool) -> (r: Self)
        ensures
            r.strategy() == if model_at_hand {
                ExtractionStrategy::Hybrid
            } else {
                ExtractionStrategy::HeuristicOnly
            },
    {
        if model_at_hand {
            Self::with_strategy(ExtractionStrategy::Hybrid)
        } else {
            Self::with_strategy(ExtractionStrategy::HeuristicOnly)
        }
    }

    /// The strategy of this extractor.
    pub closed spec fn strategy(&self) -> ExtractionStrategy {
        self.strategy
    }

    /// The strategy of this extractor.
    pub fn get_strategy(&self) -> (r: ExtractionStrategy)
        ensures
            r == self.strategy(),
    {
        self.strategy
    }

    /// The memories of a turn that the patterns find and are sure of, each
    /// stamped with a fresh identifier and the current time. Without a
    /// language model at hand every strategy extracts by patterns.
    pub fn extract(&self, turn: &Turn) -> (r: Result<Vec<Memory>, crate::store::StoreError>)
        ensures
            r matches Ok(ms) && are_stamped(
                seq_view(ms@),
                drafts_of(turn@).filter(is_sure()),
                turn@.id,
            ),
    {
        let found = match self.heuristic.extract(turn) {
            Ok(f) => f,
            Err(e) => {
                return Err(e);
            },
        };
        let ghost ds = drafts_of(turn@);
        let ghost es = seq_view(found@);
        let mut found = found;
        let mut out: Vec<Memory> = Vec::new();
        let ghost mut i: int = 0;
        proof {
            reveal(Seq::filter);
            assert(es.skip(0) =~= es);
            assert(ds.take(0).filter(is_sure()) =~= Seq::<MemoryDraftView>::empty());
        }
        while found.len() > 0
            invariant
                0 <= i <= es.len(),
                es.len() == ds.len(),
                is_extraction(es, ds, turn@.id),
                seq_view(found@) == es.skip(i),
                are_stamped(seq_view(out@), ds.take(i).filter(is_sure()), turn@.id),
            decreases found.len(),
        {
            let ghost rest = seq_view(found@);
            let ghost raw = found@;
            let ghost before = seq_view(out@);
            let ghost kept = ds.take(i).filter(is_sure());
            assert(rest.len() == raw.len());
            let e = found.remove(0);
            proof {
                assert(rest[0] == e@);
                assert(es[i] == rest[0]);
                assert(seq_view(found@) =~= rest.drop_first());
                assert(rest.drop_first() =~= es.skip(i + 1));
                assert(ds.take(i + 1) =~= ds.take(i).push(ds[i]));
                lemma_filter_push(ds.take(i), ds[i], is_sure());
            }
            if e.confidence.is_confident() {
                let ghost mv = e.memory@;
                out.push(e.memory);
                proof {
                    assert(seq_view(out@) =~= before.push(mv));
                    assert forall|j: int| 0 <= j < seq_view(out@).len() implies is_stamped(
                        #[trigger] seq_view(out@)[j],
                        kept.push(ds[i])[j],
                        turn@.id,
                    ) by {
                        if j < before.len() {
                            assert(is_stamped(before[j], kept[j], turn@.id));
                        }
                    }
                }
            }
            proof {
                i = i + 1;
            }
        }
        proof {
            assert(ds.take(ds.len() as int) =~= ds);
        }
        Ok(out)
    }

    /// Whether a text is complex enough to be given to a language model.
    pub fn is_complex_text(&self, text: &str) -> (r: bool)
        ensures
            r == is_complex(text@),
    {
        let chars = to_chars(text);
        let ghost ends = |c: char| crate::sidecar::is_sentence_end(c);
        let mut count: usize = 0;
        let mut i: usize = 0;
        proof {
            reveal(Seq::filter);
            assert(chars@.take(0).filter(ends) =~= Seq::<char>::empty());
        }
        while i < chars.len()
            invariant
                i <= chars.len(),
                ends == (|c: char| crate::sidecar::is_sentence_end(c)),
                count == chars@.take(i as int).filter(ends).len(),
                count <= i,
            decreases chars.len() - i,
        {
            proof {
                assert(chars@.take(i + 1) =~= chars@.take(i as int).push(chars@[i as int]));
                lemma_filter_push(chars@.take(i as int), chars@[i as int], ends);
            }
            if chars[i] == '.' || chars[i] == '!' || chars[i] == '?' {
                count += 1;
            }
            i += 1;
        }
        assert(chars@.take(chars.len() as int) =~= chars@);
        if count >= 5 {
            return true;
        }
        let low = lower(&chars);
        let mut reasons: u8 = 0;
        if has_str(&low, "because") {
            reasons += 1;
        }
        if has_str(&low, "since") {
            reasons += 1;
        }
        if has_str(&low, "therefore") {
            reasons += 1;
        }
        if has_str(&low, "thus") {
            reasons += 1;
        }
        if has_str(&low, "hence") {
            reasons += 1;
        }
        if reasons >= 2 {
            return true;
        }
        let mut actions: u8 = 0;
        if has_str(&low, "decided") {
            actions += 1;
        }
        if has_str(&low, "will") {
            actions += 1;
        }
        if has_str(&low, "need to") {
            actions += 1;
        }
        if has_str(&low, "should") {
            actions += 1;
        }
        if has_str(&low, "must") {
            actions += 1;
        }
        if has_str(&low, "todo") {
            actions += 1;
        }
        actions >= 2
    }

    /// The memories of the best sure item of each kind and topic.
    pub fn deduplicate_and_filter(&self, extracted: Vec<ExtractedMemory>) -> (r: Vec<Memory>)
        ensures
            seq_view(r@) == best_by_slot(seq_view(extracted@)).map_values(
                |e: ExtractedMemoryView| e.memory,
            ),
    {
        let ghost all = seq_view(extracted@);
        let mut rest = extracted;
        let mut kept: Vec<ExtractedMemory> = Vec::new();
        let ghost mut i: int = 0;
        proof {
            assert(all.skip(0) =~= all);
            assert(seq_view(kept@) =~= best_by_slot(all.take(0)));
        }
        while rest.len() > 0
            invariant
                0 <= i <= all.len(),
                seq_view(rest@) == all.skip(i),
                seq_view(kept@) == best_by_slot(all.take(i)),
            decreases rest.len(),
        {
            let ghost rv = seq_view(rest@);
            let ghost raw = rest@;
            let ghost kv = seq_view(kept@);
            assert(rv.len() == raw.len());
            let item = rest.remove(0);
            proof {
                assert(rv[0] == item@);
                assert(all[i] == rv[0]);
                assert(seq_view(rest@) =~= rv.drop_first());
                assert(rv.drop_first() =~= all.skip(i + 1));
                assert(all.take(i + 1).drop_last() =~= all.take(i));
                assert(all.take(i + 1).last() == item@);
            }
            if item.confidence.is_confident() {
                let mut k: usize = 0;
                while k < kept.len() && !(kept[k].memory.kind == item.memory.kind
                    && kept[k].memory.topic == item.memory.topic)
                    invariant
                        k <= kept.len(),
                        kv == seq_view(kept@),
                        forall|j: int| 0 <= j < k ==> !same_slot(item@)(kv[j]),
                    decreases kept.len() - k,
                {
                    assert(kv[k as int] == kept@[k as int]@);
                    k += 1;
                }
                proof {
                    if k < kept.len() {
                        assert(kv[k as int] == kept@[k as int]@);
                    }
                    lemma_slot_index(kv, item@, k as int);
                }
                if k < kept.len() {
                    assert(kv[k as int] == kept@[k as int]@);
                    assert(seq_view(item.memory.entities@).len() == item.memory.entities.len());
                    assert(seq_view(kept@[k as int].memory.entities@).len()
                        == kept@[k as int].memory.entities.len());
                    let old = &kept[k];
                    if item.confidence.score() > old.confidence.score() || (
                    item.confidence.score() == old.confidence.score()
                        && item.memory.entities.len() > old.memory.entities.len()) {
                        let ghost iv = item@;
                        kept.set(k, item);
                        assert(seq_view(kept@) =~= kv.update(k as int, iv));
                    }
                } else {
                    let ghost iv = item@;
                    kept.push(item);
                    assert(seq_view(kept@) =~= kv.push(iv));
                }
            }
            proof {
                i = i + 1;
            }
        }
        proof {
            assert(all.take(all.len() as int) =~= all);
        }
        let ghost best = seq_view(kept@);
        let mut out: Vec<Memory> = Vec::new();
        let ghost mut j: int = 0;
        assert(best.skip(0) =~= best);
        while kept.len() > 0
            invariant
                0 <= j <= best.len(),
                seq_view(kept@) == best.skip(j),
                out.len() == j,
                forall|x: int| 0 <= x < j ==> (#[trigger] out@[x])@ == best[x].memory,
            decreases kept.len(),
        {
            let ghost kv = seq_view(kept@);
            let ghost raw = kept@;
            assert(kv.len() == raw.len());
            let e = kept.remove(0);
            proof {
                assert(kv[0] == e@);
                assert(best[j] == kv[0]);
                assert(seq_view(kept@) =~= kv.drop_first());
                assert(kv.drop_first() =~= best.skip(j + 1));
            }
            out.push(e.memory);
            proof {
                j = j + 1;
            }
        }
        assert(seq_view(out@) =~= best.map_values(|e: ExtractedMemoryView| e.memory));
        out
    }

    /// Whether the strategy asks a language model about a turn, given
    /// whether one is at hand.
    pub fn asks_model(&self, turn: &Turn, model_at_hand: bool) -> (r: bool)
        ensures
            r == asks(self.strategy(), turn@.user_text, model_at_hand),
    {
        if !model_at_hand {
            return false;
        }
        match self.strategy {
            ExtractionStrategy::HeuristicOnly => false,
            ExtractionStrategy::LLMWithFallback => true,
            ExtractionStrategy::Hybrid => self.is_complex_text(turn.user_text.as_str()),
        }
    }

    /// The memories of a turn, given what the patterns found and what a
    /// language model reported; `None` where none was asked or it failed.
    pub fn settle(&self, found: Vec<ExtractedMemory>, reported: Option<Vec<ExtractedMemory>>) -> (r:
        Vec<Memory>)
        ensures
            seq_view(r@) == settled(
                self.strategy(),
                seq_view(found@),
                match reported {
                    Some(x) => Some(seq_view(x@)),
                    None => None,
                },
            ),
    {
        match self.strategy {
            ExtractionStrategy::HeuristicOnly => sure_memories(found),
            ExtractionStrategy::LLMWithFallback => match reported {
                Some(x) => sure_memories(x),
                None => sure_memories(found),
            },
            ExtractionStrategy::Hybrid => match reported {
                Some(x) => {
                    let ghost fv = seq_view(found@);
                    let ghost xv = seq_view(x@);
                    let mut all = found;
                    let mut rest = x;
                    let ghost mut i: int = 0;
                    proof {
                        assert(xv.skip(0) =~= xv);
                        assert(fv + xv.take(0) =~= fv);
                    }
                    while rest.len() > 0
                        invariant
                            0 <= i <= xv.len(),
                            seq_view(rest@) == xv.skip(i),
                            seq_view(all@) == fv + xv.take(i),
                        decreases rest.len(),
                    {
                        let ghost rv = seq_view(rest@);
                        let ghost av = seq_view(all@);
                        assert(rv.len() == rest@.len());
                        let e = rest.remove(0);
                        proof {
                            assert(rv[0] == e@);
                            assert(xv[i] == rv[0]);
                            assert(seq_view(rest@) =~= rv.drop_first());
                            assert(rv.drop_first() =~= xv.skip(i + 1));
                        }
                        all.push(e);
                        proof {
                            assert(seq_view(all@) =~= av.push(xv[i]));
                            assert(fv + xv.take(i + 1) =~= (fv + xv.take(i)).push(xv[i]));
                            i = i + 1;
                        }
                    }
                    proof {
                        assert(xv.take(xv.len() as int) =~= xv);
                    }
                    self.deduplicate_and_filter(all)
                },
                None => {
                    assert(seq_view(found@) + Seq::<ExtractedMemoryView>::empty() =~= seq_view(
                        found@,
                    ));
                    self.deduplicate_and_filter(found)
                },
            },
        }
    }
}

/// The item is sure enough to be kept.
pub open spec fn is_kept() -> spec_fn(ExtractedMemoryView) -> bool {
    |e: ExtractedMemoryView| e.confidence >= CONFIDENT_FROM
}

/// The memories of the items that are sure enough, in their order.
pub open spec fn sure(items: Seq<ExtractedMemoryView>) -> Seq<MemoryView> {
    items.filter(is_kept()).map_values(|e: ExtractedMemoryView| e.memory)
}

/// Whether a strategy asks a language model about a text: never without
/// one at hand and never by patterns alone; always with fallback; for
/// complex text in the hybrid strategy.
pub open spec fn asks(strategy: ExtractionStrategy, text: Seq<char>, model_at_hand: bool) -> bool {
    model_at_hand && match strategy {
        ExtractionStrategy::HeuristicOnly => false,
        ExtractionStrategy::LLMWithFallback => true,
        ExtractionStrategy::Hybrid => is_complex(text),
    }
}

/// The memories that a strategy settles on: by patterns alone, the sure
/// items that the patterns found; with fallback, the sure items that the
/// model reported, or those of the patterns where it reported nothing; in
/// the hybrid strategy, the best sure item of each kind and topic among
/// both.
pub open spec fn settled(
    strategy: ExtractionStrategy,
    found: Seq<ExtractedMemoryView>,
    reported: Option<Seq<ExtractedMemoryView>>,
) -> Seq<MemoryView> {
    match strategy {
        ExtractionStrategy::HeuristicOnly => sure(found),
        ExtractionStrategy::LLMWithFallback => match reported {
            Some(x) => sure(x),
            None => sure(found),
        },
        ExtractionStrategy::Hybrid => best_by_slot(
            found + match reported {
                Some(x) => x,
                None => Seq::empty(),
            },
        ).map_values(|e: ExtractedMemoryView| e.memory),
    }
}

/// The memories of the items that are sure enough, in their order.
pub fn sure_memories(items: Vec<ExtractedMemory>) -> (r: Vec<Memory>)
    ensures
        seq_view(r@) == sure(seq_view(items@)),
{
    let ghost all = seq_view(items@);
    let ghost p = is_kept();
    let mut rest = items;
    let mut out: Vec<Memory> = Vec::new();
    let ghost mut i: int = 0;
    proof {
        reveal(Seq::filter);
        assert(all.skip(0) =~= all);
        assert(seq_view(out@) =~= sure(all.take(0)));
    }
    while rest.len() > 0
        invariant
            0 <= i <= all.len(),
            p == is_kept(),
            seq_view(rest@) == all.skip(i),
            seq_view(out@) == sure(all.take(i)),
        decreases rest.len(),
    {
        let ghost rv = seq_view(rest@);
        let ghost ov = seq_view(out@);
        assert(rv.len() == rest@.len());
        let e = rest.remove(0);
        proof {
            assert(rv[0] == e@);
            assert(all[i] == rv[0]);
            assert(seq_view(rest@) =~= rv.drop_first());
            assert(rv.drop_first() =~= all.skip(i + 1));
            assert(all.take(i + 1) =~= all.take(i).push(all[i]));
            lemma_filter_push(all.take(i), all[i], p);
        }
        if e.confidence.is_confident() {
            let ghost mv = e.memory@;
            out.push(e.memory);
            proof {
                assert(seq_view(out@) =~= ov.push(mv));
                assert(sure(all.take(i + 1)) =~= sure(all.take(i)).push(mv));
            }
        }
        proof {
            i = i + 1;
        }
    }
    proof {
        assert(all.take(all.len() as int) =~= all);
    }
    out
}

// ---------------------------------------------------------------------------
// What a language model reports
// ---------------------------------------------------------------------------

/// One memory as a language model reports it.
#[derive(Debug)]
pub struct ExtractedMemoryData {
    pub kind: String,
    pub text: String,
    pub topic: Option<String>,
    pub entities: Vec<String>,
    pub confidence: Confidence,
    pub reasoning: Option<String>,
}

/// The value of an [`ExtractedMemoryData`].
pub struct ExtractedMemoryDataView {
    pub kind: Seq<char>,
    pub text: Seq<char>,
    pub topic: Option<Seq<char>>,
    pub entities: Seq<Seq<char>>,
    pub confidence: nat,
    pub reasoning: Option<Seq<char>>,
}

impl View for ExtractedMemoryData {
    type V = ExtractedMemoryDataView;

    open spec fn view(&self) -> ExtractedMemoryDataView {
        ExtractedMemoryDataView {
            kind: self.kind@,
            text: self.text@,
            topic: opt_view(self.topic),
            entities: seq_view(self.entities@),
            confidence: self.confidence.value(),
            reasoning: opt_view(self.reasoning),
        }
    }
}

/// The kind that a name denotes, whatever its case; a fact for a name that
/// denotes none.
pub open spec fn kind_named(raw: Seq<char>) -> MemoryKind {
    let low = lowercase(raw);
    if low == "decision"@ {
        MemoryKind::Decision
    } else if low == "fact"@ {
        MemoryKind::Fact
    } else if low == "snippet"@ {
        MemoryKind::Snippet
    } else if low == "task"@ {
        MemoryKind::Task
    } else {
        MemoryKind::Fact
    }
}

/// The relation type that a name denotes, whatever its case; `RelatesTo`
/// for a name that denotes none.
pub open spec fn relation_type_named(raw: Seq<char>) -> RelationType {
    let low = lowercase(raw);
    if low == "supersedes"@ {
        RelationType::Supersedes
    } else if low == "implements"@ {
        RelationType::Implements
    } else if low == "questions"@ {
        RelationType::Questions
    } else if low == "relates_to"@ {
        RelationType::RelatesTo
    } else if low == "contradicts"@ {
        RelationType::Contradicts
    } else if low == "exemplifies"@ {
        RelationType::Exemplifies
    } else {
        RelationType::RelatesTo
    }
}

/// The kind that a name denotes.
pub fn parse_memory_kind(raw: &str) -> (r: MemoryKind)
    ensures
        r == kind_named(raw@),
{
    let low = raw.to_lowercase();
    let low = low.as_str();
    if crate::sidecar::str_is(low, "decision") {
        MemoryKind::Decision
    } else if crate::sidecar::str_is(low, "fact") {
        MemoryKind::Fact
    } else if crate::sidecar::str_is(low, "snippet") {
        MemoryKind::Snippet
    } else if crate::sidecar::str_is(low, "task") {
        MemoryKind::Task
    } else {
        MemoryKind::Fact
    }
}

/// The relation type that a name denotes.
pub fn parse_relation_type(raw: &str) -> (r: RelationType)
    ensures
        r == relation_type_named(raw@),
{
    let low = raw.to_lowercase();
    let low = low.as_str();
    if crate::sidecar::str_is(low, "supersedes") {
        RelationType::Supersedes
    } else if crate::sidecar::str_is(low, "implements") {
        RelationType::Implements
    } else if crate::sidecar::str_is(low, "questions") {
        RelationType::Questions
    } else if crate::sidecar::str_is(low, "relates_to") {
        RelationType::RelatesTo
    } else if crate::sidecar::str_is(low, "contradicts") {
        RelationType::Contradicts
    } else if crate::sidecar::str_is(low, "exemplifies") {
        RelationType::Exemplifies
    } else {
        RelationType::RelatesTo
    }
}

/// The topic of a memory that a language model gave none: the last
/// component of the turn's source path, or `general`.
pub open spec fn fallback_topic(turn: TurnView) -> Seq<char> {
    match turn.source.path {
        Some(p) => split(p, seq!['/']).last(),
        None => "general"@,
    }
}

/// The draft that a language model's report of one memory gives: tasks
/// live seven days, and no report carries a snippet.
pub open spec fn reported_draft(data: ExtractedMemoryDataView, turn: TurnView) -> MemoryDraftView {
    MemoryDraftView {
        kind: kind_named(data.kind),
        topic: match data.topic {
            Some(t) => t,
            None => fallback_topic(turn),
        },
        text: data.text,
        snippet: None,
        entities: data.entities,
        ttl: if kind_named(data.kind) == MemoryKind::Task {
            Some((DAY_SECS * 7) as u64)
        } else {
            None
        },
        confidence: data.confidence,
    }
}

/// The drafts that a language model's reports give, one for one.
pub open spec fn reported_drafts(data: Seq<ExtractedMemoryDataView>, turn: TurnView) -> Seq<
    MemoryDraftView,
> {
    data.map_values(|d: ExtractedMemoryDataView| reported_draft(d, turn))
}

/// The memories that a language model reports for a turn, each stamped
/// with a fresh identifier and the current time, with its confidence.
pub fn memories_from_reports(data: &Vec<ExtractedMemoryData>, turn: &Turn) -> (r: Vec<
    ExtractedMemory,
>)
    ensures
        is_extraction(seq_view(r@), reported_drafts(seq_view(data@), turn@), turn@.id),
{
    let ghost dv = seq_view(data@);
    let mut out: Vec<ExtractedMemory> = Vec::new();
    let mut i: usize = 0;
    while i < data.len()
        invariant
            i <= data.len(),
            dv == seq_view(data@),
            out.len() == i,
            forall|j: int|
                0 <= j < i ==> is_stamped(
                    (#[trigger] out@[j])@.memory,
                    reported_draft(dv[j], turn@),
                    turn@.id,
                ) && out@[j]@.confidence == dv[j].confidence,
        decreases data.len() - i,
    {
        let d = &data[i];
        assert(dv[i as int] == data@[i as int]@);
        let kind = parse_memory_kind(d.kind.as_str());
        let topic = match &d.topic {
            Some(t) => t.clone(),
            None => match &turn.source.path {
                Some(p) => {
                    let parts = split_on_char(&to_chars(p.as_str()), '/');
                    let n = parts.len();
                    assert(views(parts@).len() == n);
                    assert(views(parts@).last() == parts@[n - 1]@);
                    from_chars(&parts[n - 1])
                },
                None => "general".to_owned(),
            },
        };
        let draft = MemoryDraft {
            kind,
            topic,
            text: d.text.clone(),
            snippet: None,
            entities: dup_vec(&d.entities),
            ttl: if kind == MemoryKind::Task {
                Some(DAY_SECS * 7)
            } else {
                None
            },
            confidence: d.confidence,
        };
        assert(draft@ == reported_draft(dv[i as int], turn@));
        let confidence = draft.confidence;
        let memory = stamp(draft, &turn.id, generate_memory_id(), now_rfc3339());
        out.push(ExtractedMemory { memory, confidence });
        i += 1;
    }
    assert(seq_view(out@).len() == dv.len());
    out
}

/// The text of an optional part of a prompt: the part, or `N/A`.
pub open spec fn or_not_available(part: Option<Seq<char>>) -> Seq<char> {
    match part {
        Some(p) => p,
        None => "N/A"@,
    }
}

/// The opening of the prompt, up to the turn's text.
pub open spec fn prompt_opening() -> Seq<char> {
    "Extract structured memories from the following text. Identify:\n1. DECISIONS - commitments or choices made (with reasoning)\n2. TASKS - actionable items or TODOs (with priority context)\n3. FACTS - important information, definitions, or key-value pairs\n4. CODE REFERENCES - mentions of functions, classes, files, or code\n\nText:\n"@
}

/// The close of the prompt, after the source.
pub open spec fn prompt_close() -> Seq<char> {
    "\n\nReturn a JSON object with this structure:\n{\n  \"memories\": [\n    {\n      \"kind\": \"decision|task|fact|snippet\",\n      \"text\": \"extracted text with context\",\n      \"topic\": \"inferred topic\",\n      \"entities\": [\"entity1\", \"entity2\"],\n      \"confidence\": 0.0-1.0,\n      \"reasoning\": \"why this was extracted\"\n    }\n  ]\n}\n\nOnly extract clear, actionable memories. Include context and reasoning for each extraction."@
}

/// The prompt that asks a language model for the memories of a turn.
pub open spec fn extraction_prompt(turn: TurnView) -> Seq<char> {
    prompt_opening() + turn.user_text + "\n\nSource context:\n- App: "@ + turn.source.app.label()
        + "\n- Path: "@ + or_not_available(turn.source.path) + "\n- URL: "@ + or_not_available(
        turn.source.url,
    ) + prompt_close()
}

/// The prompt that asks a language model for the memories of a turn.
pub fn build_extraction_prompt(turn: &Turn) -> (r: String)
    ensures
        r@ == extraction_prompt(turn@),
{
    let mut out: Vec<char> = Vec::new();
    append_str(
        &mut out,
        "Extract structured memories from the following text. Identify:\n1. DECISIONS - commitments or choices made (with reasoning)\n2. TASKS - actionable items or TODOs (with priority context)\n3. FACTS - important information, definitions, or key-value pairs\n4. CODE REFERENCES - mentions of functions, classes, files, or code\n\nText:\n",
    );
    append_str(&mut out, turn.user_text.as_str());
    append_str(&mut out, "\n\nSource context:\n- App: ");
    append_str(&mut out, turn.source.app.name());
    append_str(&mut out, "\n- Path: ");
    match &turn.source.path {
        Some(p) => append_str(&mut out, p.as_str()),
        None => append_str(&mut out, "N/A"),
    }
    append_str(&mut out, "\n- URL: ");
    match &turn.source.url {
        Some(u) => append_str(&mut out, u.as_str()),
        None => append_str(&mut out, "N/A"),
    }
    append_str(
        &mut out,
        "\n\nReturn a JSON object with this structure:\n{\n  \"memories\": [\n    {\n      \"kind\": \"decision|task|fact|snippet\",\n      \"text\": \"extracted text with context\",\n      \"topic\": \"inferred topic\",\n      \"entities\": [\"entity1\", \"entity2\"],\n      \"confidence\": 0.0-1.0,\n      \"reasoning\": \"why this was extracted\"\n    }\n  ]\n}\n\nOnly extract clear, actionable memories. Include context and reasoning for each extraction.",
    );
    assert(out@ =~= extraction_prompt(turn@));
    from_chars(&out)
}

} // verus!
