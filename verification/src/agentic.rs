//! The sidecar records of the store: deriving a record from a memory,
//! linking it to the records it resembles, and keeping every link mirrored
//! on the record it points at.

use crate::clock::now_rfc3339;
use crate::dup::{dup_vec, opt_view, seq_view, Dup};
use crate::ids::MemoryId;
use crate::links::{
    by_strength, merge_links, merge_reverse_link, merged_links, propose_link, proposed_link,
    strongest, with_reverse_link,
};
use crate::memories::str_less;
use crate::order::lex_less;
use crate::pieces::{join, join_with_str};
use crate::query::{at_most, select, sort_rows};
use crate::schemas::{
    AgenticEvolution, AgenticEvolutionView, AgenticLink, AgenticLinkView, AgenticMemory,
    AgenticMemoryView, Memory, MemoryView, Strength,
};
use crate::sidecar::{
    derive_context, derive_keywords, derive_tags, derived_context, derived_keywords, derived_tags,
};
use crate::sorting::stable_sort;
use crate::store::{
    distinct_keys, find_first, lemma_find_first, lemma_find_none, lemma_find_some, Database,
    DatabaseView, StoreError,
};
use crate::text::{append, append_str, from_chars, to_chars, trim, trimmed, views};
use vstd::prelude::*;

verus! {

/// Most entries that a record's history holds.
pub const MAX_HISTORY: usize = 25;

/// Most links that a refresh proposes.
pub const MAX_PROPOSALS: usize = 7;

/// The record belongs to the memory `id`.
pub open spec fn sidecar_is(id: Seq<char>) -> spec_fn(AgenticMemoryView) -> bool {
    |r: AgenticMemoryView| r.id == id
}

/// The record belongs to another memory than `id`.
pub open spec fn sidecar_is_not(id: Seq<char>) -> spec_fn(AgenticMemoryView) -> bool {
    |r: AgenticMemoryView| r.id != id
}

/// `a` was accessed later than `b`, by the order of their time stamps.
pub open spec fn accessed_later(a: AgenticMemoryView, b: AgenticMemoryView) -> bool {
    lex_less(b.last_accessed, a.last_accessed)
}

/// The links that a record with the given context and keywords proposes
/// to the candidates, in the order of the candidates.
pub open spec fn proposals(
    candidates: Seq<AgenticMemoryView>,
    context: Seq<char>,
    keywords: Seq<Seq<char>>,
) -> Seq<AgenticLinkView>
    decreases candidates.len(),
{
    if candidates.len() == 0 {
        Seq::empty()
    } else {
        let before = proposals(candidates.drop_last(), context, keywords);
        let c = candidates.last();
        match proposed_link(context, keywords, c.id, c.context, c.keywords) {
            Some(l) => before.push(l),
            None => before,
        }
    }
}

/// The content that a record keeps of a memory: the text of its snippet if
/// that is not blank, else its own text; trimmed.
pub open spec fn sidecar_content(m: MemoryView) -> Seq<char> {
    match m.snippet {
        Some(s) => if trim(s.text).len() > 0 {
            trim(s.text)
        } else {
            trim(m.text)
        },
        None => trim(m.text),
    }
}

/// The context of a record: the memory's topic trimmed, or the context
/// derived from the content where the topic is blank.
pub open spec fn sidecar_context(m: MemoryView) -> Seq<char> {
    if trim(m.topic).len() == 0 {
        derived_context(sidecar_content(m))
    } else {
        trim(m.topic)
    }
}

/// The history entry that a refresh records.
pub open spec fn refresh_entry(now: Seq<char>, context: Seq<char>, keywords: Seq<Seq<char>>)
    -> AgenticEvolutionView {
    AgenticEvolutionView {
        timestamp: now,
        summary: "Refreshed agentic attributes"@,
        changes: Some(seq!["context:"@ + context, "keywords:"@ + join(keywords, ","@)]),
    }
}

/// The newest entries of a history, at most 25.
pub open spec fn newest_entries(h: Seq<AgenticEvolutionView>) -> Seq<AgenticEvolutionView> {
    if h.len() > MAX_HISTORY {
        h.skip(h.len() - MAX_HISTORY)
    } else {
        h
    }
}

/// The records with `row` in place of the record of the same memory, or
/// added at the end if there is none.
pub open spec fn with_sidecar(rows: Seq<AgenticMemoryView>, row: AgenticMemoryView) -> Seq<
    AgenticMemoryView,
> {
    match find_first(rows, sidecar_is(row.id)) {
        Some(i) => rows.update(i, row),
        None => rows.push(row),
    }
}

/// The records with the reverse of the link `from → target` merged into the
/// record of `target`, if that memory has one.
pub open spec fn reverse_linked(
    rows: Seq<AgenticMemoryView>,
    target: Seq<char>,
    from: Seq<char>,
    strength: Strength,
    rationale: Seq<char>,
) -> Seq<AgenticMemoryView> {
    match find_first(rows, sidecar_is(target)) {
        Some(i) => rows.update(
            i,
            AgenticMemoryView {
                links: with_reverse_link(rows[i].links, from, strength, rationale),
                ..rows[i]
            },
        ),
        None => rows,
    }
}

/// The reason that the reverse of a link carries: the rationale of the
/// link itself, nothing where it has none.
pub open spec fn reason_of(link: AgenticLinkView) -> Seq<char> {
    match link.rationale {
        Some(t) => t,
        None => Seq::empty(),
    }
}

/// The records with the reverse of every link of `from` merged in, one link
/// after the other; each reverse link has the strength and the rationale of
/// the link it mirrors.
pub open spec fn reverse_linked_all(
    rows: Seq<AgenticMemoryView>,
    links: Seq<AgenticLinkView>,
    from: Seq<char>,
) -> Seq<AgenticMemoryView>
    decreases links.len(),
{
    if links.len() == 0 {
        rows
    } else {
        reverse_linked(
            reverse_linked_all(rows, links.drop_last(), from),
            links.last().target,
            from,
            links.last().strength,
            reason_of(links.last()),
        )
    }
}

impl DatabaseView {
    /// The record of the memory `id`.
    pub open spec fn sidecar(self, id: Seq<char>) -> Option<AgenticMemoryView> {
        match find_first(self.agentic, sidecar_is(id)) {
            Some(i) => Some(self.agentic[i]),
            None => None,
        }
    }

    /// The records that the record of `current` may link to: all others,
    /// the one accessed latest first.
    pub open spec fn link_candidates(self, current: Seq<char>) -> Seq<AgenticMemoryView> {
        stable_sort(
            self.agentic.filter(sidecar_is_not(current)),
            |a: AgenticMemoryView, b: AgenticMemoryView| accessed_later(a, b),
        )
    }

    /// The strongest links that a record with the given context and keywords
    /// proposes to the other records, at most `limit`.
    pub open spec fn suggested_links(
        self,
        context: Seq<char>,
        keywords: Seq<Seq<char>>,
        current: Seq<char>,
        limit: nat,
    ) -> Seq<AgenticLinkView> {
        at_most(by_strength(proposals(self.link_candidates(current), context, keywords)), limit)
    }

    /// The record that a refresh at `now` gives the memory: content,
    /// context, keywords and tags derived anew; the links it had merged with
    /// those it now proposes; the history grown by one entry; creation time
    /// and retrieval count kept from the record it had.
    pub open spec fn refreshed_sidecar(self, m: MemoryView, now: Seq<char>) -> AgenticMemoryView {
        let content = sidecar_content(m);
        let context = sidecar_context(m);
        let keywords = derived_keywords(content);
        let had = self.sidecar(m.id);
        AgenticMemoryView {
            id: m.id,
            content,
            context,
            keywords,
            tags: derived_tags(m, context, keywords),
            category: Some(m.kind.label()),
            links: merged_links(
                match had {
                    Some(r) => r.links,
                    None => Seq::empty(),
                },
                self.suggested_links(context, keywords, m.id, MAX_PROPOSALS as nat),
            ),
            retrieval_count: match had {
                Some(r) => r.retrieval_count,
                None => 0,
            },
            last_accessed: now,
            created_at: match had {
                Some(r) => r.created_at,
                None => now,
            },
            evolution_history: newest_entries(
                (match had {
                    Some(r) => r.evolution_history,
                    None => Seq::empty(),
                }).push(refresh_entry(now, context, keywords)),
            ),
        }
    }

    /// The store after refreshing the record of a stored memory: the record
    /// is in place, and every record it links to holds the reverse link. An
    /// unknown memory changes nothing.
    pub open spec fn after_upsert_sidecar(self, m: MemoryView, now: Seq<char>) -> DatabaseView {
        if self.has_memory(m.id) {
            let row = self.refreshed_sidecar(m, now);
            DatabaseView {
                agentic: reverse_linked_all(with_sidecar(self.agentic, row), row.links, m.id),
                ..self
            }
        } else {
            self
        }
    }

    /// The store after the reverse of a link was merged into the record of
    /// `from`.
    pub open spec fn after_merge_single_link(
        self,
        from: Seq<char>,
        to: Seq<char>,
        strength: Strength,
        rationale: Seq<char>,
    ) -> DatabaseView {
        DatabaseView { agentic: reverse_linked(self.agentic, from, to, strength, rationale), ..self }
    }
}

/// A store that differs from a well-formed one only in its sidecar records
/// is well formed if the records still belong to different stored memories.
pub proof fn lemma_wf_after_sidecar_change(old: DatabaseView, new: DatabaseView)
    requires
        old.wf(),
        new == (DatabaseView { agentic: new.agentic, ..old }),
        distinct_keys(new.agentic, |r: AgenticMemoryView| r.id),
        forall|i: int| 0 <= i < new.agentic.len() ==> old.has_memory((#[trigger] new.agentic[i]).id),
    ensures
        new.wf(),
{
}

/// Merging a reverse link keeps the records' memories.
pub proof fn lemma_reverse_linked(
    rows: Seq<AgenticMemoryView>,
    target: Seq<char>,
    from: Seq<char>,
    strength: Strength,
    rationale: Seq<char>,
)
    ensures
        reverse_linked(rows, target, from, strength, rationale).len() == rows.len(),
        forall|i: int|
            0 <= i < rows.len() ==> (#[trigger] reverse_linked(
                rows,
                target,
                from,
                strength,
                rationale,
            )[i]).id == rows[i].id,
{
    lemma_find_some(rows, sidecar_is(target));
}

/// Merging the reverse of every link keeps the records' memories.
pub proof fn lemma_reverse_linked_all(
    rows: Seq<AgenticMemoryView>,
    links: Seq<AgenticLinkView>,
    from: Seq<char>,
)
    ensures
        reverse_linked_all(rows, links, from).len() == rows.len(),
        forall|i: int|
            0 <= i < rows.len() ==> (#[trigger] reverse_linked_all(rows, links, from)[i]).id
                == rows[i].id,
    decreases links.len(),
{
    if links.len() > 0 {
        let before = reverse_linked_all(rows, links.drop_last(), from);
        lemma_reverse_linked_all(rows, links.drop_last(), from);
        lemma_reverse_linked(
            before,
            links.last().target,
            from,
            links.last().strength,
            reason_of(links.last()),
        );
    }
}

/// Refreshing a record keeps the store well formed.
pub proof fn upsert_sidecar_keeps_wf(before: DatabaseView, m: MemoryView, now: Seq<char>)
    requires
        before.wf(),
    ensures
        before.after_upsert_sidecar(m, now).wf(),
{
    if before.has_memory(m.id) {
        let row = before.refreshed_sidecar(m, now);
        let placed = with_sidecar(before.agentic, row);
        let after = before.after_upsert_sidecar(m, now);
        lemma_find_some(before.agentic, sidecar_is(m.id));
        lemma_reverse_linked_all(placed, row.links, m.id);
        assert forall|i: int| 0 <= i < placed.len() implies before.has_memory(
            (#[trigger] placed[i]).id,
        ) by {
            if i < before.agentic.len() {
                assert(before.has_memory(before.agentic[i].id));
            }
        }
        assert forall|i: int, j: int| 0 <= i < j < placed.len() implies placed[i].id
            != placed[j].id by {
            match find_first(before.agentic, sidecar_is(m.id)) {
                Some(k) => {
                    assert(before.agentic[i].id != before.agentic[j].id);
                },
                None => {
                    if j == before.agentic.len() {
                        assert(!sidecar_is(m.id)(before.agentic[i]));
                    } else {
                        assert(before.agentic[i].id != before.agentic[j].id);
                    }
                },
            }
        }
        assert forall|i: int, j: int| 0 <= i < j < after.agentic.len() implies after.agentic[i].id
            != after.agentic[j].id by {
            assert(placed[i].id != placed[j].id);
        }
        assert forall|i: int| 0 <= i < after.agentic.len() implies before.has_memory(
            (#[trigger] after.agentic[i]).id,
        ) by {
            assert(before.has_memory(placed[i].id));
        }
        lemma_wf_after_sidecar_change(before, after);
    }
}

/// Merging a reverse link keeps the store well formed.
pub proof fn merge_single_link_keeps_wf(
    before: DatabaseView,
    from: Seq<char>,
    to: Seq<char>,
    strength: Strength,
    rationale: Seq<char>,
)
    requires
        before.wf(),
    ensures
        before.after_merge_single_link(from, to, strength, rationale).wf(),
{
    let after = before.after_merge_single_link(from, to, strength, rationale);
    lemma_reverse_linked(before.agentic, from, to, strength, rationale);
    assert forall|i: int, j: int| 0 <= i < j < after.agentic.len() implies after.agentic[i].id
        != after.agentic[j].id by {
        assert(before.agentic[i].id != before.agentic[j].id);
    }
    assert forall|i: int| 0 <= i < after.agentic.len() implies before.has_memory(
        (#[trigger] after.agentic[i]).id,
    ) by {
        assert(before.has_memory(before.agentic[i].id));
    }
    lemma_wf_after_sidecar_change(before, after);
}

impl Database {
    /// Index of the record of the memory `id`.
    pub(crate) fn sidecar_index(&self, id: &MemoryId) -> (r: Option<usize>)
        ensures
            match r {
                Some(i) => i < self.agentic.len() && find_first(self@.agentic, sidecar_is(id@))
                    == Some(i as int),
                None => find_first(self@.agentic, sidecar_is(id@)) is None,
            },
    {
        let mut i: usize = 0;
        let ghost rows = self@.agentic;
        while i < self.agentic.len()
            invariant
                i <= self.agentic.len(),
                rows == self@.agentic,
                forall|j: int| 0 <= j < i ==> !sidecar_is(id@)(rows[j]),
            decreases self.agentic.len() - i,
        {
            assert(rows[i as int] == self.agentic@[i as int]@);
            if self.agentic[i].id == *id {
                proof {
                    lemma_find_first(rows, sidecar_is(id@), i as int);
                }
                return Some(i);
            }
            i += 1;
        }
        proof {
            lemma_find_none(rows, sidecar_is(id@));
        }
        None
    }

    /// The record of the memory `memory_id`.
    pub fn get_agentic_memory(&self, memory_id: &MemoryId) -> (r: Option<AgenticMemory>)
        ensures
            opt_view(r) == self@.sidecar(memory_id@),
    {
        match self.sidecar_index(memory_id) {
            Some(i) => {
                assert(self@.agentic[i as int] == self.agentic@[i as int]@);
                Some(self.agentic[i].clone())
            },
            None => None,
        }
    }

    /// Stores a record as it stands, in place of the record of the same
    /// memory or as a new one. Fails with `NotFound`, and changes nothing,
    /// for a memory that is not stored.
    pub fn put_agentic_memory(&mut self, record: AgenticMemory) -> (r: Result<(), StoreError>)
        requires
            old(self)@.wf(),
        ensures
            final(self)@.wf(),
            r is Ok <==> old(self)@.has_memory(record@.id),
            r matches Err(e) ==> e == StoreError::NotFound && final(self)@ == old(self)@,
            r is Ok ==> final(self)@ == (DatabaseView {
                agentic: with_sidecar(old(self)@.agentic, record@),
                ..old(self)@
            }),
    {
        let ghost before = self@;
        let ghost row = record@;
        if self.memory_index(&record.id).is_none() {
            return Err(StoreError::NotFound);
        }
        proof {
            lemma_find_some(before.agentic, sidecar_is(row.id));
        }
        match self.sidecar_index(&record.id) {
            Some(i) => {
                assert(before.agentic[i as int] == self.agentic@[i as int]@);
                self.agentic.set(i, record);
                assert(self@.agentic =~= before.agentic.update(i as int, row));
            },
            None => {
                self.agentic.push(record);
                assert(self@.agentic =~= before.agentic.push(row));
            },
        }
        proof {
            let after = self@;
            assert(after.agentic == with_sidecar(before.agentic, row));
            let key = |r: AgenticMemoryView| r.id;
            assert(distinct_keys(before.agentic, key));
            assert forall|i: int, j: int| 0 <= i < j < after.agentic.len() implies key(
                after.agentic[i],
            ) != key(after.agentic[j]) by {
                if j < before.agentic.len() {
                    assert(key(before.agentic[i]) != key(before.agentic[j]));
                    if after.agentic[i] != before.agentic[i] {
                        assert(before.agentic[i].id == row.id);
                    }
                    if after.agentic[j] != before.agentic[j] {
                        assert(before.agentic[j].id == row.id);
                    }
                } else {
                    assert(!sidecar_is(row.id)(before.agentic[i]));
                }
            }
            assert forall|i: int| 0 <= i < after.agentic.len() implies before.has_memory(
                (#[trigger] after.agentic[i]).id,
            ) by {
                if i < before.agentic.len() && after.agentic[i] == before.agentic[i] {
                    assert(before.has_memory(before.agentic[i].id));
                }
            }
            lemma_wf_after_sidecar_change(before, after);
        }
        Ok(())
    }

    /// The strongest links that a record with the given context and keywords
    /// proposes to the records of other memories than `current_memory`, at
    /// most `limit`.
    pub fn suggest_links(
        &self,
        context: &str,
        current_keywords: &Vec<String>,
        current_memory: &MemoryId,
        limit: usize,
    ) -> (r: Vec<AgenticLink>)
        ensures
            seq_view(r@) == self@.suggested_links(
                context@,
                seq_view(current_keywords@),
                current_memory@,
                limit as nat,
            ),
            r.len() <= limit,
    {
        let ghost p = sidecar_is_not(current_memory@);
        let others = |r: &AgenticMemory| -> (o: bool)
            ensures
                o == p(r@),
            { r.id != *current_memory };
        let picked = select(&self.agentic, others, Ghost(p));
        let ghost before = |a: AgenticMemoryView, b: AgenticMemoryView| accessed_later(a, b);
        let later = |a: &AgenticMemory, b: &AgenticMemory| -> (o: bool)
            ensures
                o == before(a@, b@),
            { str_less(b.last_accessed.as_str(), a.last_accessed.as_str()) };
        let candidates = sort_rows(picked, later, Ghost(before));
        let ghost cs = seq_view(candidates@);
        let ghost kws = seq_view(current_keywords@);
        let mut links: Vec<AgenticLink> = Vec::new();
        let mut i: usize = 0;
        proof {
            assert(seq_view(links@) =~= proposals(cs.take(0), context@, kws));
        }
        while i < candidates.len()
            invariant
                i <= candidates.len(),
                cs == seq_view(candidates@),
                kws == seq_view(current_keywords@),
                seq_view(links@) == proposals(cs.take(i as int), context@, kws),
            decreases candidates.len() - i,
        {
            let ghost ls = seq_view(links@);
            let c = &candidates[i];
            proof {
                assert(cs[i as int] == candidates@[i as int]@);
                assert(cs.take(i + 1).drop_last() =~= cs.take(i as int));
                assert(cs.take(i + 1).last() == cs[i as int]);
            }
            match propose_link(context, current_keywords, &c.id, c.context.as_str(), &c.keywords) {
                Some(l) => {
                    let ghost lv = l@;
                    links.push(l);
                    assert(seq_view(links@) =~= ls.push(lv));
                },
                None => {},
            }
            i += 1;
        }
        proof {
            assert(cs.take(candidates.len() as int) =~= cs);
        }
        strongest(links, limit)
    }

    /// Merges the reverse of a link into the record of `from`: afterwards
    /// that record links to `to` with at least the given strength, unless
    /// eight stronger links crowd it out. A memory without record changes
    /// nothing.
    pub fn merge_single_link(
        &mut self,
        from: &MemoryId,
        to: &MemoryId,
        strength: Strength,
        rationale: &str,
    ) -> (r: Result<(), StoreError>)
        requires
            old(self)@.wf(),
        ensures
            final(self)@.wf(),
            r is Ok,
            final(self)@ == old(self)@.after_merge_single_link(from@, to@, strength, rationale@),
    {
        let ghost before = self@;
        match self.sidecar_index(from) {
            Some(i) => {
                assert(before.agentic[i as int] == self.agentic@[i as int]@);
                let mut row = self.agentic[i].dup();
                let links = dup_vec(&row.links);
                row.links = merge_reverse_link(links, to, strength, rationale);
                let ghost rv = row@;
                self.agentic.set(i, row);
                proof {
                    assert(self@.agentic =~= before.agentic.update(i as int, rv));
                    merge_single_link_keeps_wf(before, from@, to@, strength, rationale@);
                }
            },
            None => {
                proof {
                    merge_single_link_keeps_wf(before, from@, to@, strength, rationale@);
                }
            },
        }
        Ok(())
    }

    /// The content that a record keeps of a memory.
    fn content_of(memory: &Memory) -> (r: String)
        ensures
            r@ == sidecar_content(memory@),
    {
        match &memory.snippet {
            Some(s) => {
                let t = trimmed(&to_chars(s.text.as_str()));
                if t.len() > 0 {
                    return from_chars(&t);
                }
            },
            None => {},
        }
        from_chars(&trimmed(&to_chars(memory.text.as_str())))
    }

    /// The history grown by the entry of a refresh and cut to its newest
    /// entries.
    fn grown_history(
        had: Vec<AgenticEvolution>,
        now: &str,
        context: &str,
        keywords: &Vec<String>,
    ) -> (r: Vec<AgenticEvolution>)
        ensures
            seq_view(r@) == newest_entries(
                seq_view(had@).push(refresh_entry(now@, context@, seq_view(keywords@))),
            ),
    {
        let ghost hv = seq_view(had@);
        let mut history = had;
        let mut first: Vec<char> = Vec::new();
        append_str(&mut first, "context:");
        append_str(&mut first, context);
        let mut kw: Vec<Vec<char>> = Vec::new();
        let mut k: usize = 0;
        while k < keywords.len()
            invariant
                k <= keywords.len(),
                kw.len() == k,
                forall|j: int| 0 <= j < k ==> kw@[j]@ == keywords@[j]@,
            decreases keywords.len() - k,
        {
            kw.push(to_chars(keywords[k].as_str()));
            k += 1;
        }
        assert(views(kw@) =~= seq_view(keywords@));
        let joined = join_with_str(&kw, ",");
        let mut second: Vec<char> = Vec::new();
        append_str(&mut second, "keywords:");
        append(&mut second, &joined);
        let mut changes: Vec<String> = Vec::new();
        changes.push(from_chars(&first));
        changes.push(from_chars(&second));
        let entry = AgenticEvolution {
            timestamp: now.to_owned(),
            summary: "Refreshed agentic attributes".to_owned(),
            changes: Some(changes),
        };
        proof {
            assert(seq_view(changes@) =~= seq![
                "context:"@ + context@,
                "keywords:"@ + join(seq_view(keywords@), ","@),
            ]);
            assert(entry@ == refresh_entry(now@, context@, seq_view(keywords@)));
        }
        let ghost ev = entry@;
        history.push(entry);
        assert(seq_view(history@) =~= hv.push(ev));
        let ghost full = seq_view(history@);
        let ghost mut gone: int = 0;
        assert(full.skip(0) =~= full);
        while history.len() > MAX_HISTORY
            invariant
                0 <= gone,
                gone + history.len() == full.len(),
                gone > 0 ==> history.len() >= MAX_HISTORY,
                seq_view(history@) == full.skip(gone),
            decreases history.len(),
        {
            let ghost cur = seq_view(history@);
            let _ = history.remove(0);
            proof {
                assert(seq_view(history@) =~= cur.drop_first());
                assert(cur.drop_first() =~= full.skip(gone + 1));
                gone = gone + 1;
            }
        }
        history
    }

    /// Derives the record of `memory` anew at the time `now`, stores it, and
    /// merges the reverse of each of its links into the record that the link
    /// points at. Fails with `NotFound` for a memory that is not stored.
    pub fn upsert_agentic_memory_at(&mut self, memory: &Memory, now: &str) -> (r: Result<
        AgenticMemory,
        StoreError,
    >)
        requires
            old(self)@.wf(),
        ensures
            final(self)@.wf(),
            match r {
                Ok(row) => old(self)@.has_memory(memory@.id) && row@ == old(self)@.refreshed_sidecar(
                    memory@,
                    now@,
                ),
                Err(e) => !old(self)@.has_memory(memory@.id) && e == StoreError::NotFound,
            },
            final(self)@ == old(self)@.after_upsert_sidecar(memory@, now@),
    {
        let ghost before = self@;
        if self.memory_index(&memory.id).is_none() {
            return Err(StoreError::NotFound);
        }
        let content = Self::content_of(memory);
        let context = if trimmed(&to_chars(memory.topic.as_str())).len() == 0 {
            derive_context(content.as_str())
        } else {
            from_chars(&trimmed(&to_chars(memory.topic.as_str())))
        };
        let keywords = derive_keywords(content.as_str());
        let tags = derive_tags(memory, context.as_str(), &keywords);
        let found = self.sidecar_index(&memory.id);
        let mut created_at = now.to_owned();
        let mut retrieval_count: u32 = 0;
        let mut existing_links: Vec<AgenticLink> = Vec::new();
        let mut history: Vec<AgenticEvolution> = Vec::new();
        match found {
            Some(i) => {
                assert(before.agentic[i as int] == self.agentic@[i as int]@);
                created_at = self.agentic[i].created_at.clone();
                retrieval_count = self.agentic[i].retrieval_count;
                existing_links = dup_vec(&self.agentic[i].links);
                history = dup_vec(&self.agentic[i].evolution_history);
            },
            None => {
                assert(seq_view(existing_links@) =~= Seq::<AgenticLinkView>::empty());
                assert(seq_view(history@) =~= Seq::<AgenticEvolutionView>::empty());
            },
        }
        let mut proposed = self.suggest_links(
            context.as_str(),
            &keywords,
            &memory.id,
            MAX_PROPOSALS,
        );
        let links = merge_links(existing_links, &mut proposed);
        let history = Self::grown_history(history, now, context.as_str(), &keywords);
        let agentic = AgenticMemory {
            id: memory.id.clone(),
            content,
            context,
            keywords,
            tags,
            category: Some(memory.kind.as_str().to_owned()),
            links,
            retrieval_count,
            last_accessed: now.to_owned(),
            created_at,
            evolution_history: history,
        };
        let ghost row = agentic@;
        assert(row == before.refreshed_sidecar(memory@, now@));
        let stored = agentic.dup();
        match found {
            Some(i) => {
                self.agentic.set(i, stored);
                assert(self@.agentic =~= before.agentic.update(i as int, row));
            },
            None => {
                self.agentic.push(stored);
                assert(self@.agentic =~= before.agentic.push(row));
            },
        }
        let ghost placed = with_sidecar(before.agentic, row);
        assert(self@.agentic == placed);
        let mut k: usize = 0;
        proof {
            assert(row.links.take(0) =~= Seq::<AgenticLinkView>::empty());
        }
        while k < agentic.links.len()
            invariant
                k <= agentic.links.len(),
                agentic@ == row,
                self@ == (DatabaseView { agentic: self@.agentic, ..before }),
                self@.agentic == reverse_linked_all(placed, row.links.take(k as int), memory@.id),
            decreases agentic.links.len() - k,
        {
            let ghost cur = self@.agentic;
            let link = &agentic.links[k];
            proof {
                assert(row.links[k as int] == agentic.links@[k as int]@);
                assert(row.links.take(k + 1).drop_last() =~= row.links.take(k as int));
                assert(row.links.take(k + 1).last() == row.links[k as int]);
            }
            match self.sidecar_index(&link.target) {
                Some(i) => {
                    assert(cur[i as int] == self.agentic@[i as int]@);
                    let mut target_row = self.agentic[i].dup();
                    let target_links = dup_vec(&target_row.links);
                    let reason = match &link.rationale {
                        Some(t) => t.dup(),
                        None => String::new(),
                    };
                    assert(reason@ =~= reason_of(row.links[k as int]));
                    target_row.links = merge_reverse_link(
                        target_links,
                        &memory.id,
                        link.strength,
                        reason.as_str(),
                    );
                    let ghost tv = target_row@;
                    self.agentic.set(i, target_row);
                    assert(self@.agentic =~= cur.update(i as int, tv));
                },
                None => {},
            }
            k += 1;
        }
        proof {
            assert(row.links.take(agentic.links.len() as int) =~= row.links);
            assert(self@ == before.after_upsert_sidecar(memory@, now@));
            upsert_sidecar_keeps_wf(before, memory@, now@);
        }
        Ok(agentic)
    }

    /// Derives the record of `memory` anew at the current time, stores it,
    /// and merges the reverse of each of its links into the record that the
    /// link points at.
    pub fn upsert_agentic_memory(&mut self, memory: &Memory) -> (r: Result<
        AgenticMemory,
        StoreError,
    >)
        requires
            old(self)@.wf(),
        ensures
            final(self)@.wf(),
            exists|now: Seq<char>|
                {
                    &&& final(self)@ == #[trigger] old(self)@.after_upsert_sidecar(memory@, now)
                    &&& match r {
                        Ok(row) => old(self)@.has_memory(memory@.id) && row@
                            == old(self)@.refreshed_sidecar(memory@, now),
                        Err(e) => !old(self)@.has_memory(memory@.id) && e == StoreError::NotFound,
                    }
                },
    {
        let now = now_rfc3339();
        let ghost nowv = now@;
        let r = self.upsert_agentic_memory_at(memory, now.as_str());
        assert(self@ == old(self)@.after_upsert_sidecar(memory@, nowv));
        r
    }
}

} // verus!
