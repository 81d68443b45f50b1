//! The sidecar records as a graph: the records accessed last, the links
//! among them, and links added afterwards between records that resemble
//! each other.

use crate::agentic::{accessed_later, sidecar_is};
use crate::clock::now_rfc3339;
use crate::dup::{dup_opt, dup_vec, opt_view, seq_view, Dup};
use crate::ids::MemoryId;
use crate::links::{
    by_strength, find_link, link_index, percent_text, resembles, share_millionths, strongest,
    MAX_AGENTIC_LINKS,
};
use crate::pieces::push_decimal;
use crate::query::{at_most, first_n, saturated, sort_rows};
use crate::schemas::{
    AgenticLink, AgenticLinkView, AgenticMemory, AgenticMemoryView, Strength,
};
use crate::sorting::stable_sort;
use crate::store::{any, find_first, lemma_find_some, Database, DatabaseView, StoreError};
use crate::text::{append_str, from_chars, slice, to_chars, trim, trimmed, views};
use crate::wordsets::{common_count, overlap, union_count};
use vstd::prelude::*;

verus! {

/// How many characters of its content the preview of a record shows.
pub const PREVIEW_CHARS: usize = 160;

/// A sidecar record in short.
#[derive(Debug)]
pub struct AgenticMemorySummary {
    pub id: MemoryId,
    pub context: String,
    pub preview: String,
    pub tags: Vec<String>,
    pub keywords: Vec<String>,
    pub retrieval_count: u32,
    pub last_accessed: String,
}

/// The value of an [`AgenticMemorySummary`].
pub struct AgenticMemorySummaryView {
    pub id: Seq<char>,
    pub context: Seq<char>,
    pub preview: Seq<char>,
    pub tags: Seq<Seq<char>>,
    pub keywords: Seq<Seq<char>>,
    pub retrieval_count: u32,
    pub last_accessed: Seq<char>,
}

impl View for AgenticMemorySummary {
    type V = AgenticMemorySummaryView;

    open spec fn view(&self) -> AgenticMemorySummaryView {
        AgenticMemorySummaryView {
            id: self.id@,
            context: self.context@,
            preview: self.preview@,
            tags: seq_view(self.tags@),
            keywords: seq_view(self.keywords@),
            retrieval_count: self.retrieval_count,
            last_accessed: self.last_accessed@,
        }
    }
}

/// A sidecar record as a node of the graph: the record without its links
/// and its history.
#[derive(Debug)]
pub struct AgenticGraphNodeExport {
    pub id: MemoryId,
    pub content: String,
    pub context: String,
    pub keywords: Vec<String>,
    pub tags: Vec<String>,
    pub category: Option<String>,
    pub retrieval_count: u32,
    pub last_accessed: String,
    pub created_at: String,
}

/// The value of an [`AgenticGraphNodeExport`].
pub struct AgenticGraphNodeExportView {
    pub id: Seq<char>,
    pub content: Seq<char>,
    pub context: Seq<char>,
    pub keywords: Seq<Seq<char>>,
    pub tags: Seq<Seq<char>>,
    pub category: Option<Seq<char>>,
    pub retrieval_count: u32,
    pub last_accessed: Seq<char>,
    pub created_at: Seq<char>,
}

impl View for AgenticGraphNodeExport {
    type V = AgenticGraphNodeExportView;

    open spec fn view(&self) -> AgenticGraphNodeExportView {
        AgenticGraphNodeExportView {
            id: self.id@,
            content: self.content@,
            context: self.context@,
            keywords: seq_view(self.keywords@),
            tags: seq_view(self.tags@),
            category: opt_view(self.category),
            retrieval_count: self.retrieval_count,
            last_accessed: self.last_accessed@,
            created_at: self.created_at@,
        }
    }
}

/// A link between two nodes of the graph.
#[derive(Debug)]
pub struct AgenticGraphEdge {
    pub source: MemoryId,
    pub target: MemoryId,
    pub strength: Strength,
    pub rationale: Option<String>,
}

/// The value of an [`AgenticGraphEdge`].
pub struct AgenticGraphEdgeView {
    pub source: Seq<char>,
    pub target: Seq<char>,
    pub strength: Strength,
    pub rationale: Option<Seq<char>>,
}

impl View for AgenticGraphEdge {
    type V = AgenticGraphEdgeView;

    open spec fn view(&self) -> AgenticGraphEdgeView {
        AgenticGraphEdgeView {
            source: self.source@,
            target: self.target@,
            strength: self.strength,
            rationale: opt_view(self.rationale),
        }
    }
}

/// Sidecar records with the links among them.
#[derive(Debug)]
pub struct AgenticGraph {
    pub nodes: Vec<AgenticGraphNodeExport>,
    pub edges: Vec<AgenticGraphEdge>,
}

/// The value of an [`AgenticGraph`].
pub struct AgenticGraphView {
    pub nodes: Seq<AgenticGraphNodeExportView>,
    pub edges: Seq<AgenticGraphEdgeView>,
}

impl View for AgenticGraph {
    type V = AgenticGraphView;

    open spec fn view(&self) -> AgenticGraphView {
        AgenticGraphView { nodes: seq_view(self.nodes@), edges: seq_view(self.edges@) }
    }
}

/// The preview of a content: its first [`PREVIEW_CHARS`] characters,
/// trimmed.
pub open spec fn preview_of(content: Seq<char>) -> Seq<char> {
    trim(at_most(content, PREVIEW_CHARS as nat))
}

/// A record in short.
pub open spec fn summary_of(r: AgenticMemoryView) -> AgenticMemorySummaryView {
    AgenticMemorySummaryView {
        id: r.id,
        context: r.context,
        preview: preview_of(r.content),
        tags: r.tags,
        keywords: r.keywords,
        retrieval_count: r.retrieval_count,
        last_accessed: r.last_accessed,
    }
}

/// A record as a node.
pub open spec fn node_of(r: AgenticMemoryView) -> AgenticGraphNodeExportView {
    AgenticGraphNodeExportView {
        id: r.id,
        content: r.content,
        context: r.context,
        keywords: r.keywords,
        tags: r.tags,
        category: r.category,
        retrieval_count: r.retrieval_count,
        last_accessed: r.last_accessed,
        created_at: r.created_at,
    }
}

/// The links of the record `source` that point at one of the records
/// `nodes`, as edges, in the order of the links.
pub open spec fn edges_from(
    source: Seq<char>,
    links: Seq<AgenticLinkView>,
    nodes: Seq<AgenticMemoryView>,
) -> Seq<AgenticGraphEdgeView>
    decreases links.len(),
{
    if links.len() == 0 {
        Seq::empty()
    } else {
        let rest = edges_from(source, links.drop_last(), nodes);
        let l = links.last();
        if any(nodes, sidecar_is(l.target)) {
            rest.push(
                AgenticGraphEdgeView {
                    source,
                    target: l.target,
                    strength: l.strength,
                    rationale: l.rationale,
                },
            )
        } else {
            rest
        }
    }
}

/// The links among the records `nodes`, those of the first `upto` records,
/// record after record.
pub open spec fn edges_among(nodes: Seq<AgenticMemoryView>, upto: nat) -> Seq<AgenticGraphEdgeView>
    decreases upto,
{
    if upto == 0 || upto > nodes.len() {
        Seq::empty()
    } else {
        edges_among(nodes, (upto - 1) as nat) + edges_from(
            nodes[upto - 1].id,
            nodes[upto - 1].links,
            nodes,
        )
    }
}

/// The record after one more access at the time `now`.
pub open spec fn accessed(r: AgenticMemoryView, now: Seq<char>) -> AgenticMemoryView {
    AgenticMemoryView {
        retrieval_count: if r.retrieval_count < u32::MAX {
            (r.retrieval_count + 1) as u32
        } else {
            r.retrieval_count
        },
        last_accessed: now,
        ..r
    }
}

/// The rationale of a link added for resembling keywords.
pub open spec fn auto_rationale(common: nat, total: nat) -> Seq<char> {
    "auto-linked: "@ + percent_text(common, total) + " keyword similarity"@
}

/// The link that resembling keywords add from a record to the record `c`:
/// none to itself, to a record without keywords, to one it links to
/// already, or to one that shares 65 in a hundred or less of the keywords.
pub open spec fn auto_link(source: AgenticMemoryView, c: AgenticMemoryView) -> Option<
    AgenticLinkView,
> {
    let common = common_count(source.keywords, c.keywords);
    let total = union_count(source.keywords, c.keywords);
    if c.id != source.id && c.keywords.len() > 0 && link_index(source.links, c.id)
        >= source.links.len() && resembles(common, total) {
        Some(
            AgenticLinkView {
                target: c.id,
                strength: Strength { millionths: share_millionths(common, total) as u32 },
                rationale: Some(auto_rationale(common, total)),
            },
        )
    } else {
        None
    }
}

/// The links that resembling keywords add from a record to the records
/// `others`, in their order.
pub open spec fn auto_links(source: AgenticMemoryView, others: Seq<AgenticMemoryView>) -> Seq<
    AgenticLinkView,
>
    decreases others.len(),
{
    if others.len() == 0 {
        Seq::empty()
    } else {
        let rest = auto_links(source, others.drop_last());
        match auto_link(source, others.last()) {
            Some(l) => rest.push(l),
            None => rest,
        }
    }
}

/// The links that a record gains among the records `all`: none for a
/// record without keywords.
pub open spec fn gained(r: AgenticMemoryView, all: Seq<AgenticMemoryView>) -> Seq<AgenticLinkView> {
    if r.keywords.len() == 0 {
        Seq::empty()
    } else {
        auto_links(r, all)
    }
}

/// The record with the links it gains among the records `all` added: the
/// strongest links first, at most [`MAX_AGENTIC_LINKS`].
pub open spec fn relinked(r: AgenticMemoryView, all: Seq<AgenticMemoryView>) -> AgenticMemoryView {
    if gained(r, all).len() == 0 {
        r
    } else {
        AgenticMemoryView {
            links: at_most(by_strength(r.links + gained(r, all)), MAX_AGENTIC_LINKS as nat),
            ..r
        }
    }
}

/// The first `upto` records relinked among all of them, the others as they
/// are.
pub open spec fn relinked_upto(all: Seq<AgenticMemoryView>, upto: int) -> Seq<AgenticMemoryView> {
    Seq::new(
        all.len(),
        |i: int|
            if i < upto {
                relinked(all[i], all)
            } else {
                all[i]
            },
    )
}

/// Number of links that the first `upto` records gain among all of them,
/// up to the greatest `usize`.
pub open spec fn gained_upto(all: Seq<AgenticMemoryView>, upto: nat) -> nat
    decreases upto,
{
    if upto == 0 || upto > all.len() {
        0
    } else {
        saturated(gained_upto(all, (upto - 1) as nat) + gained(all[upto - 1], all).len())
    }
}

impl DatabaseView {
    /// The `limit` records accessed last, the latest first.
    pub open spec fn recent_sidecars(self, limit: nat) -> Seq<AgenticMemoryView> {
        at_most(
            stable_sort(
                self.agentic,
                |a: AgenticMemoryView, b: AgenticMemoryView| accessed_later(a, b),
            ),
            limit,
        )
    }

    /// The graph of the `limit` records accessed last.
    pub open spec fn graph(self, limit: nat) -> AgenticGraphView {
        let nodes = self.recent_sidecars(limit);
        AgenticGraphView {
            nodes: nodes.map_values(|r: AgenticMemoryView| node_of(r)),
            edges: edges_among(nodes, nodes.len()),
        }
    }

    /// The records after one more access to the record of `id`.
    pub open spec fn after_access(self, id: Seq<char>, now: Seq<char>) -> Seq<AgenticMemoryView> {
        match find_first(self.agentic, sidecar_is(id)) {
            Some(i) => self.agentic.update(i, accessed(self.agentic[i], now)),
            None => self.agentic,
        }
    }

    /// The records after the record of `id` was relinked.
    pub open spec fn after_relink(self, id: Seq<char>) -> Seq<AgenticMemoryView> {
        match find_first(self.agentic, sidecar_is(id)) {
            Some(i) => self.agentic.update(i, relinked(self.agentic[i], self.agentic)),
            None => self.agentic,
        }
    }
}

/// The preview of a content.
pub fn preview(content: &str) -> (r: String)
    ensures
        r@ == preview_of(content@),
{
    let cs = to_chars(content);
    if cs.len() <= PREVIEW_CHARS {
        from_chars(&trimmed(&cs))
    } else {
        let head = slice(&cs, 0, PREVIEW_CHARS);
        assert(head@ =~= cs@.take(PREVIEW_CHARS as int));
        from_chars(&trimmed(&head))
    }
}

/// The views of a list of texts as character vectors.
fn chars_of(items: &Vec<String>) -> (r: Vec<Vec<char>>)
    ensures
        views(r@) == seq_view(items@),
{
    let mut out: Vec<Vec<char>> = Vec::new();
    let mut i: usize = 0;
    while i < items.len()
        invariant
            i <= items.len(),
            out.len() == i,
            forall|j: int| 0 <= j < i ==> out@[j]@ == items@[j]@,
        decreases items.len() - i,
    {
        out.push(to_chars(items[i].as_str()));
        i += 1;
    }
    assert(views(out@) =~= seq_view(items@));
    out
}

/// The link that resembling keywords add from the record `source` to the
/// record `c`.
pub fn auto_link_to(source: &AgenticMemory, c: &AgenticMemory) -> (r: Option<AgenticLink>)
    ensures
        opt_view(r) == auto_link(source@, c@),
{
    assert(c@.keywords.len() == c.keywords.len());
    assert(source@.links.len() == source.links.len());
    if c.id == source.id || c.keywords.len() == 0 {
        return None;
    }
    if find_link(&source.links, &c.id) < source.links.len() {
        return None;
    }
    let mine = chars_of(&source.keywords);
    let theirs = chars_of(&c.keywords);
    let o = overlap(&mine, &theirs);
    let common: u128 = o.common;
    let total: u128 = o.total;
    if 20 * common > 13 * total {
        assert(total > 0);
        let wide: u128 = common * 1_000_000 / total;
        assert(wide <= 1_000_000) by (nonlinear_arith)
            requires
                wide == (common * 1_000_000) / (total as int),
                common <= total,
                total > 0,
        ;
        let millionths = wide as u32;
        let q = common * 1000 / total;
        let rem = common * 1000 % total;
        let tenths: u128 = if 2 * rem > total || (2 * rem == total && q % 2 == 1) {
            q + 1
        } else {
            q
        };
        assert(q <= 1000) by (nonlinear_arith)
            requires
                q == (common * 1000) / (total as int),
                common <= total,
                total > 0,
        ;
        let mut text: Vec<char> = Vec::new();
        append_str(&mut text, "auto-linked: ");
        push_decimal(&mut text, (tenths / 10) as u64);
        append_str(&mut text, ".");
        push_decimal(&mut text, (tenths % 10) as u64);
        append_str(&mut text, "%");
        append_str(&mut text, " keyword similarity");
        proof {
            assert(text@ =~= auto_rationale(o.common as nat, o.total as nat));
        }
        Some(
            AgenticLink {
                target: c.id.clone(),
                strength: Strength { millionths },
                rationale: Some(from_chars(&text)),
            },
        )
    } else {
        None
    }
}

/// The links that the record `source` gains among the records `all`.
pub fn gained_links(source: &AgenticMemory, all: &Vec<AgenticMemory>) -> (r: Vec<AgenticLink>)
    ensures
        seq_view(r@) == gained(source@, seq_view(all@)),
{
    let ghost av = seq_view(all@);
    let mut out: Vec<AgenticLink> = Vec::new();
    assert(source@.keywords.len() == source.keywords.len());
    if source.keywords.len() == 0 {
        assert(seq_view(out@) =~= Seq::<AgenticLinkView>::empty());
        return out;
    }
    let mut i: usize = 0;
    proof {
        assert(seq_view(out@) =~= auto_links(source@, av.take(0)));
    }
    while i < all.len()
        invariant
            i <= all.len(),
            av == seq_view(all@),
            seq_view(out@) == auto_links(source@, av.take(i as int)),
        decreases all.len() - i,
    {
        let ghost ov = seq_view(out@);
        proof {
            assert(av[i as int] == all@[i as int]@);
            assert(av.take(i + 1).drop_last() =~= av.take(i as int));
            assert(av.take(i + 1).last() == av[i as int]);
        }
        match auto_link_to(source, &all[i]) {
            Some(l) => {
                let ghost lv = l@;
                out.push(l);
                assert(seq_view(out@) =~= ov.push(lv));
            },
            None => {},
        }
        i += 1;
    }
    proof {
        assert(av.take(all.len() as int) =~= av);
    }
    out
}

/// The record with the links it gains among the records `all` added, and
/// the number of those links.
pub fn relink(source: &AgenticMemory, all: &Vec<AgenticMemory>) -> (r: (AgenticMemory, usize))
    ensures
        r.0@ == relinked(source@, seq_view(all@)),
        r.1 == gained(source@, seq_view(all@)).len(),
{
    let new = gained_links(source, all);
    let n = new.len();
    assert(seq_view(new@).len() == new.len());
    let mut row = source.dup();
    if n > 0 {
        let ghost before = seq_view(row.links@);
        let ghost nv = seq_view(new@);
        let mut links = dup_vec(&source.links);
        let mut k: usize = 0;
        while k < new.len()
            invariant
                k <= new.len(),
                nv == seq_view(new@),
                seq_view(links@) == before + nv.take(k as int),
            decreases new.len() - k,
        {
            let ghost lv = seq_view(links@);
            assert(nv[k as int] == new@[k as int]@);
            links.push(new[k].dup());
            assert(seq_view(links@) =~= lv.push(nv[k as int]));
            assert(nv.take(k + 1) =~= nv.take(k as int).push(nv[k as int]));
            k += 1;
        }
        assert(nv.take(new.len() as int) =~= nv);
        row.links = strongest(links, MAX_AGENTIC_LINKS);
    }
    (row, n)
}

impl Database {
    /// Copies of the `limit` records accessed last, the latest first.
    fn recent_records(&self, limit: usize) -> (r: Vec<AgenticMemory>)
        ensures
            seq_view(r@) == self@.recent_sidecars(limit as nat),
    {
        let ghost before = |a: AgenticMemoryView, b: AgenticMemoryView| accessed_later(a, b);
        let later = |a: &AgenticMemory, b: &AgenticMemory| -> (o: bool)
            ensures
                o == before(a@, b@),
            { crate::memories::str_less(b.last_accessed.as_str(), a.last_accessed.as_str()) };
        first_n(sort_rows(dup_vec(&self.agentic), later, Ghost(before)), limit)
    }

    /// The `limit` records accessed last in short, the latest first.
    pub fn list_recent(&self, limit: usize) -> (r: Vec<AgenticMemorySummary>)
        ensures
            seq_view(r@) == self@.recent_sidecars(limit as nat).map_values(
                |r: AgenticMemoryView| summary_of(r),
            ),
    {
        let rows = self.recent_records(limit);
        let ghost rv = seq_view(rows@);
        let mut out: Vec<AgenticMemorySummary> = Vec::new();
        let mut i: usize = 0;
        while i < rows.len()
            invariant
                i <= rows.len(),
                rv == seq_view(rows@),
                out.len() == i,
                forall|j: int| 0 <= j < i ==> (#[trigger] out@[j])@ == summary_of(rv[j]),
            decreases rows.len() - i,
        {
            assert(rv[i as int] == rows@[i as int]@);
            let r = &rows[i];
            out.push(
                AgenticMemorySummary {
                    id: r.id.clone(),
                    context: r.context.clone(),
                    preview: preview(r.content.as_str()),
                    tags: dup_vec(&r.tags),
                    keywords: dup_vec(&r.keywords),
                    retrieval_count: r.retrieval_count,
                    last_accessed: r.last_accessed.clone(),
                },
            );
            i += 1;
        }
        assert(seq_view(out@) =~= rv.map_values(|r: AgenticMemoryView| summary_of(r)));
        out
    }

    /// Whether one of the records has the identifier `id`.
    fn among(nodes: &Vec<AgenticMemory>, id: &MemoryId) -> (r: bool)
        ensures
            r == any(seq_view(nodes@), sidecar_is(id@)),
    {
        let ghost nv = seq_view(nodes@);
        let mut i: usize = 0;
        while i < nodes.len()
            invariant
                i <= nodes.len(),
                nv == seq_view(nodes@),
                forall|j: int| 0 <= j < i ==> !sidecar_is(id@)(nv[j]),
            decreases nodes.len() - i,
        {
            assert(nv[i as int] == nodes@[i as int]@);
            if nodes[i].id == *id {
                return true;
            }
            i += 1;
        }
        false
    }

    /// The graph of the `limit` records accessed last: the records as
    /// nodes, and as edges the links of each that point at another of them.
    pub fn graph(&self, limit: usize) -> (r: AgenticGraph)
        ensures
            r@ == self@.graph(limit as nat),
    {
        let rows = self.recent_records(limit);
        let ghost rv = seq_view(rows@);
        let mut nodes: Vec<AgenticGraphNodeExport> = Vec::new();
        let mut edges: Vec<AgenticGraphEdge> = Vec::new();
        let mut i: usize = 0;
        proof {
            assert(seq_view(edges@) =~= edges_among(rv, 0));
        }
        while i < rows.len()
            invariant
                i <= rows.len(),
                rv == seq_view(rows@),
                nodes.len() == i,
                forall|j: int| 0 <= j < i ==> (#[trigger] nodes@[j])@ == node_of(rv[j]),
                seq_view(edges@) == edges_among(rv, i as nat),
            decreases rows.len() - i,
        {
            assert(rv[i as int] == rows@[i as int]@);
            let r = &rows[i];
            nodes.push(
                AgenticGraphNodeExport {
                    id: r.id.clone(),
                    content: r.content.clone(),
                    context: r.context.clone(),
                    keywords: dup_vec(&r.keywords),
                    tags: dup_vec(&r.tags),
                    category: dup_opt(&r.category),
                    retrieval_count: r.retrieval_count,
                    last_accessed: r.last_accessed.clone(),
                    created_at: r.created_at.clone(),
                },
            );
            let ghost lv = seq_view(r.links@);
            let ghost start = seq_view(edges@);
            let mut k: usize = 0;
            proof {
                assert(lv.take(0) =~= Seq::<AgenticLinkView>::empty());
                assert(seq_view(edges@) =~= start + edges_from(rv[i as int].id, lv.take(0), rv));
            }
            while k < r.links.len()
                invariant
                    k <= r.links.len(),
                    i < rows.len(),
                    rv == seq_view(rows@),
                    r == &rows@[i as int],
                    lv == seq_view(r.links@),
                    seq_view(edges@) == start + edges_from(rv[i as int].id, lv.take(k as int), rv),
                decreases r.links.len() - k,
            {
                let ghost ev = seq_view(edges@);
                proof {
                    assert(lv[k as int] == r.links@[k as int]@);
                    assert(lv.take(k + 1).drop_last() =~= lv.take(k as int));
                    assert(lv.take(k + 1).last() == lv[k as int]);
                    assert(rv[i as int] == rows@[i as int]@);
                }
                let l = &r.links[k];
                if Self::among(&rows, &l.target) {
                    let e = AgenticGraphEdge {
                        source: r.id.clone(),
                        target: l.target.clone(),
                        strength: l.strength,
                        rationale: dup_opt(&l.rationale),
                    };
                    let ghost edge = e@;
                    edges.push(e);
                    assert(seq_view(edges@) =~= ev.push(edge));
                }
                k += 1;
            }
            proof {
                assert(lv.take(r.links.len() as int) =~= lv);
                assert(lv == rv[i as int].links);
            }
            i += 1;
        }
        assert(seq_view(nodes@) =~= rv.map_values(|r: AgenticMemoryView| node_of(r)));
        assert(rv.len() == rows.len());
        AgenticGraph { nodes, edges }
    }

    /// Counts one more access to the record of a memory at the time `now`.
    /// An unknown identifier changes nothing.
    pub fn record_access_at(&mut self, id: &MemoryId, now: &str)
        requires
            old(self)@.wf(),
        ensures
            final(self)@.wf(),
            final(self)@ == (DatabaseView {
                agentic: old(self)@.after_access(id@, now@),
                ..old(self)@
            }),
    {
        let ghost before = self@;
        proof {
            lemma_find_some(before.agentic, sidecar_is(id@));
        }
        match self.sidecar_index(id) {
            Some(i) => {
                assert(before.agentic[i as int] == self.agentic@[i as int]@);
                let mut row = self.agentic[i].dup();
                if row.retrieval_count < u32::MAX {
                    row.retrieval_count = row.retrieval_count + 1;
                }
                row.last_accessed = now.to_owned();
                let ghost rv = row@;
                self.agentic.set(i, row);
                proof {
                    assert(seq_view(self.agentic@) =~= before.agentic.update(i as int, rv));
                    lemma_same_ids(before, self@);
                }
            },
            None => {},
        }
    }

    /// Counts one more access to the record of a memory at the present
    /// time.
    pub fn record_access(&mut self, id: &MemoryId) -> (r: Result<(), StoreError>)
        requires
            old(self)@.wf(),
        ensures
            r is Ok,
            final(self)@.wf(),
            exists|now: Seq<char>|
                final(self)@ == (DatabaseView {
                    agentic: #[trigger] old(self)@.after_access(id@, now),
                    ..old(self)@
                }),
    {
        let now = now_rfc3339();
        self.record_access_at(id, now.as_str());
        Ok(())
    }

    /// Adds links between records whose keywords resemble each other: to
    /// the record of `memory_id`, or to every record if none is named.
    /// Returns how many links were added, before each record's links were
    /// cut to the strongest. Fails with `NotFound` for a memory without a
    /// record.
    pub fn link_similar_memories(&mut self, memory_id: Option<&MemoryId>) -> (r: Result<
        usize,
        StoreError,
    >)
        requires
            old(self)@.wf(),
        ensures
            final(self)@.wf(),
            match memory_id {
                Some(id) => match find_first(old(self)@.agentic, sidecar_is(id@)) {
                    Some(i) => {
                        &&& r == Ok::<usize, StoreError>(
                            gained(old(self)@.agentic[i], old(self)@.agentic).len() as usize,
                        )
                        &&& final(self)@ == (DatabaseView {
                            agentic: old(self)@.after_relink(id@),
                            ..old(self)@
                        })
                    },
                    None => r == Err::<usize, StoreError>(StoreError::NotFound) && final(self)@
                        == old(self)@,
                },
                None => {
                    &&& r == Ok::<usize, StoreError>(
                        gained_upto(old(self)@.agentic, old(self)@.agentic.len()) as usize,
                    )
                    &&& final(self)@ == (DatabaseView {
                        agentic: relinked_upto(
                            old(self)@.agentic,
                            old(self)@.agentic.len() as int,
                        ),
                        ..old(self)@
                    })
                },
            },
    {
        let ghost before = self@;
        let all = dup_vec(&self.agentic);
        assert(seq_view(all@) == before.agentic);
        match memory_id {
            Some(id) => {
                proof {
                    lemma_find_some(before.agentic, sidecar_is(id@));
                }
                match self.sidecar_index(id) {
                    Some(i) => {
                        assert(before.agentic[i as int] == self.agentic@[i as int]@);
                        let (row, n) = relink(&self.agentic[i], &all);
                        let ghost rv = row@;
                        self.agentic.set(i, row);
                        proof {
                            assert(seq_view(self.agentic@) =~= before.agentic.update(i as int, rv));
                            lemma_same_ids(before, self@);
                        }
                        Ok(n)
                    },
                    None => Err(StoreError::NotFound),
                }
            },
            None => {
                let mut total: usize = 0;
                let mut i: usize = 0;
                proof {
                    assert(seq_view(self.agentic@) =~= relinked_upto(before.agentic, 0));
                }
                while i < self.agentic.len()
                    invariant
                        i <= self.agentic.len(),
                        self.agentic.len() == before.agentic.len(),
                        seq_view(all@) == before.agentic,
                        seq_view(self.agentic@) == relinked_upto(before.agentic, i as int),
                        total == gained_upto(before.agentic, i as nat),
                        self@ == (DatabaseView { agentic: self@.agentic, ..before }),
                    decreases self.agentic.len() - i,
                {
                    let ghost here = seq_view(self.agentic@);
                    assert(here[i as int] == self.agentic@[i as int]@);
                    assert(here[i as int] == before.agentic[i as int]);
                    let (row, n) = relink(&self.agentic[i], &all);
                    let ghost rv = row@;
                    self.agentic.set(i, row);
                    total = total.saturating_add(n);
                    proof {
                        assert(rv == relinked(before.agentic[i as int], before.agentic));
                        assert(seq_view(self.agentic@) =~= here.update(i as int, rv));
                        let next = relinked_upto(before.agentic, i as int + 1);
                        assert forall|j: int| 0 <= j < next.len() implies here.update(
                            i as int,
                            rv,
                        )[j] == next[j] by {
                            if j != i {
                                assert(here[j] == relinked_upto(before.agentic, i as int)[j]);
                            }
                        }
                        assert(seq_view(self.agentic@) =~= next);
                    }
                    i += 1;
                }
                proof {
                    lemma_same_ids(before, self@);
                }
                Ok(total)
            },
        }
    }
}

/// A store whose records were rewritten, each keeping its memory, is still
/// well formed.
pub proof fn lemma_same_ids(old: DatabaseView, new: DatabaseView)
    requires
        old.wf(),
        new == (DatabaseView { agentic: new.agentic, ..old }),
        new.agentic.len() == old.agentic.len(),
        forall|i: int| 0 <= i < old.agentic.len() ==> (#[trigger] new.agentic[i]).id == old.agentic[i].id,
    ensures
        new.wf(),
{
    assert forall|i: int, j: int| 0 <= i < j < new.agentic.len() implies new.agentic[i].id
        != new.agentic[j].id by {
        let key = |r: AgenticMemoryView| r.id;
        assert(key(old.agentic[i]) != key(old.agentic[j]));
    }
    assert forall|i: int| 0 <= i < new.agentic.len() implies old.has_memory(
        (#[trigger] new.agentic[i]).id,
    ) by {
        assert(old.has_memory(old.agentic[i].id));
    }
    crate::agentic::lemma_wf_after_sidecar_change(old, new);
}

} // verus!
