//! Whether a memory holds one idea: a score from the shape of its text and
//! its place in the graph, and suggestions where to split it.

use crate::dup::{seq_view, Dup};
use crate::heuristic::{find_matches, matches_of, Match};
use crate::ids::MemoryId;
use crate::memories::{newest_first, str_less};
use crate::narrative::touches;
use crate::patterns::{capture_pairs, Capture};
use crate::pieces::{decimal, push_decimal, split, split_on_str, words, words_of};
use crate::query::{saturated, select, sort_rows};
use crate::schemas::{Memory, MemoryRelation, MemoryStatus, MemoryView};
use crate::sorting::stable_sort;
use crate::store::{Database, DatabaseView, MemoryRow, MemoryRowView, StoreError};
use crate::text::{append_str, contains, from_chars, has_str, lower, lowercase, slice, to_chars};
use vstd::prelude::*;

verus! {

/// Least score, in hundredths, of a memory that holds one idea.
pub const ATOMIC_FROM: u8 = 70;

/// Least score, in hundredths, of a memory that needs no splitting.
pub const IMPROVABLE_FROM: u8 = 50;

/// Most words of a memory that is not too long.
pub const MAX_WORDS: usize = 500;

/// Most connecting words of a memory that holds one idea.
pub const MAX_CONNECTORS: usize = 5;

/// Most list items of a memory that holds one idea.
pub const MAX_BULLETS: usize = 7;

/// Least number of headings that suggest a split.
pub const MIN_HEADINGS: usize = 2;

/// Most entities of a memory that covers one subject.
pub const MAX_ENTITIES: usize = 3;

/// Most numbered items of a memory that holds one idea.
pub const MAX_NUMBERED: usize = 5;

/// How many numbered items a suggestion lists.
pub const LISTED_ITEMS: usize = 5;

/// Most characters of a numbered item in a suggestion.
pub const ITEM_CHARS: usize = 50;

/// What was found in a memory that bears on its score.
#[derive(Debug, Clone, Copy, PartialEq, Eq, Structural)]
pub struct Findings {
    /// Number of words.
    pub words: usize,
    /// Number of connecting words.
    pub connectors: usize,
    /// Number of list items.
    pub bullets: usize,
    /// The memory is permanent and no relation touches it.
    pub unlinked: bool,
    /// The text refers to something outside itself.
    pub vague: bool,
    /// The memory names no entity.
    pub unnamed: bool,
}

/// The verdict on one memory.
#[derive(Debug)]
pub struct AtomicityCheck {
    pub memory_id: MemoryId,
    pub is_atomic: bool,
    /// The score in hundredths, 100 for a memory without any finding.
    pub score: u8,
    pub word_count: usize,
    pub issues: Vec<String>,
    pub recommendation: String,
}

/// The value of an [`AtomicityCheck`].
pub struct AtomicityCheckView {
    pub memory_id: Seq<char>,
    pub is_atomic: bool,
    pub score: u8,
    pub word_count: nat,
    pub issues: Seq<Seq<char>>,
    pub recommendation: Seq<char>,
}

impl View for AtomicityCheck {
    type V = AtomicityCheckView;

    open spec fn view(&self) -> AtomicityCheckView {
        AtomicityCheckView {
            memory_id: self.memory_id@,
            is_atomic: self.is_atomic,
            score: self.score,
            word_count: self.word_count as nat,
            issues: seq_view(self.issues@),
            recommendation: self.recommendation@,
        }
    }
}

/// A way to split a memory.
#[derive(Debug)]
pub struct NoteSplitSuggestion {
    pub reason: String,
    pub split_points: Vec<String>,
}

/// The value of a [`NoteSplitSuggestion`].
pub struct NoteSplitSuggestionView {
    pub reason: Seq<char>,
    pub split_points: Seq<Seq<char>>,
}

impl View for NoteSplitSuggestion {
    type V = NoteSplitSuggestionView;

    open spec fn view(&self) -> NoteSplitSuggestionView {
        NoteSplitSuggestionView {
            reason: self.reason@,
            split_points: seq_view(self.split_points@),
        }
    }
}

/// How many of the permanent memories hold one idea.
#[derive(Debug, Clone, Copy, PartialEq, Eq, Structural)]
pub struct AtomicityStats {
    pub total_checked: usize,
    pub atomic_count: usize,
    pub needs_improvement: usize,
    pub needs_splitting: usize,
}

/// Number of non-overlapping occurrences of `part` in `text`, counted from
/// the left.
pub open spec fn occurrences(text: Seq<char>, part: Seq<char>) -> nat {
    (split(text, part).len() - 1) as nat
}

/// Number of connecting words in a text.
pub open spec fn connectors(text: Seq<char>) -> nat {
    saturated(
        saturated(
            saturated(
                saturated(occurrences(text, "and "@) + occurrences(text, "also "@)) + occurrences(
                    text,
                    "furthermore "@,
                ),
            ) + occurrences(text, "additionally "@),
        ) + occurrences(text, "moreover "@),
    )
}

/// Number of list items in a text.
pub open spec fn bullets(text: Seq<char>) -> nat {
    saturated(
        saturated(occurrences(text, "\n- "@) + occurrences(text, "\n* "@)) + occurrences(
            text,
            "\n\u{2022} "@,
        ),
    )
}

/// The text refers to something outside itself.
pub open spec fn is_vague(text: Seq<char>) -> bool {
    let low = lowercase(text);
    contains(low, "see above"@) || contains(low, "as mentioned"@) || contains(
        low,
        "the previous"@,
    ) || contains(low, "as discussed"@)
}

/// The score that findings give, in hundredths: 100 less 20 for too many
/// words, 15 for too many connecting words, 15 for too many list items, 10
/// for a permanent memory without relations, 20 for vague references and
/// 10 for no entity.
pub open spec fn score_of(f: Findings) -> u8 {
    (100 - (if f.words > MAX_WORDS {
        20int
    } else {
        0int
    }) - (if f.connectors > MAX_CONNECTORS {
        15int
    } else {
        0int
    }) - (if f.bullets > MAX_BULLETS {
        15int
    } else {
        0int
    }) - (if f.unlinked {
        10int
    } else {
        0int
    }) - (if f.vague {
        20int
    } else {
        0int
    }) - (if f.unnamed {
        10int
    } else {
        0int
    })) as u8
}

/// The issue of a memory with too many words.
pub open spec fn length_issue(n: nat) -> Seq<char> {
    "Note is too long ("@ + decimal(n)
        + " words). Consider splitting into multiple atomic notes."@
}

/// The issue of a memory with too many connecting words.
pub open spec fn connector_issue(n: nat) -> Seq<char> {
    "High use of compound connectors ("@ + decimal(n)
        + " instances). May contain multiple ideas."@
}

/// The issue of a memory with too many list items.
pub open spec fn bullet_issue(n: nat) -> Seq<char> {
    "Contains "@ + decimal(n) + " bullet points. Consider splitting into separate notes."@
}

/// The issues that findings raise, in the order of the findings.
pub open spec fn issues_of(f: Findings) -> Seq<Seq<char>> {
    (if f.words > MAX_WORDS {
        seq![length_issue(f.words as nat)]
    } else {
        Seq::empty()
    }) + (if f.connectors > MAX_CONNECTORS {
        seq![connector_issue(f.connectors as nat)]
    } else {
        Seq::empty()
    }) + (if f.bullets > MAX_BULLETS {
        seq![bullet_issue(f.bullets as nat)]
    } else {
        Seq::empty()
    }) + (if f.unlinked {
        seq![
            "No relationships to other notes. Atomic notes should connect to the knowledge graph."@,
        ]
    } else {
        Seq::empty()
    }) + (if f.vague {
        seq![
            "Contains vague references ('see above', 'as mentioned'). Note may not be self-contained."@,
        ]
    } else {
        Seq::empty()
    }) + (if f.unnamed {
        seq!["No entities identified. Atomic notes should have clear subject matter."@]
    } else {
        Seq::empty()
    })
}

/// What is recommended for a memory of the given score.
pub open spec fn recommendation_of(score: u8) -> Seq<char> {
    if score >= ATOMIC_FROM {
        "Note follows atomic principles well."@
    } else if score >= IMPROVABLE_FROM {
        "Note could be improved. Consider refining to focus on a single idea."@
    } else {
        "Note likely contains multiple ideas. Strongly consider splitting into atomic notes."@
    }
}

/// The verdict that findings give on the memory `id`.
pub open spec fn verdict(id: Seq<char>, f: Findings) -> AtomicityCheckView {
    AtomicityCheckView {
        memory_id: id,
        is_atomic: score_of(f) >= ATOMIC_FROM,
        score: score_of(f),
        word_count: f.words as nat,
        issues: issues_of(f),
        recommendation: recommendation_of(score_of(f)),
    }
}

/// The memory is permanent.
pub open spec fn is_kept_for_good() -> spec_fn(MemoryRowView) -> bool {
    |r: MemoryRowView| r.status == MemoryStatus::Permanent
}

/// The checked memories found wanting among `rows`, taken from the front:
/// each memory that scores below `threshold` joins those found; the search
/// ends after the memory with which as many as `limit` are found.
pub open spec fn wanting(
    db: DatabaseView,
    rows: Seq<MemoryRowView>,
    threshold: u8,
    limit: Option<usize>,
    found: Seq<(MemoryView, AtomicityCheckView)>,
) -> Seq<(MemoryView, AtomicityCheckView)>
    decreases rows.len(),
{
    if rows.len() == 0 {
        found
    } else {
        let check = db.atomicity(rows[0]);
        let next = if check.score < threshold {
            found.push((rows[0].memory, check))
        } else {
            found
        };
        if limit is Some && next.len() >= limit->0 {
            next
        } else {
            wanting(db, rows.drop_first(), threshold, limit, next)
        }
    }
}

/// The text of group 1 of each match in which the group took part.
pub open spec fn first_groups_of(ms: Seq<Match>) -> Seq<Seq<char>>
    decreases ms.len(),
{
    if ms.len() == 0 {
        Seq::empty()
    } else {
        let rest = first_groups_of(ms.drop_last());
        let m = ms.last();
        if m.1.len() > 1 && m.1[1] is Some {
            rest.push(m.1[1]->0)
        } else {
            rest
        }
    }
}

/// A numbered item as a suggestion shows it: cut to [`ITEM_CHARS`]
/// characters and three dots if it is longer.
pub open spec fn shown(item: Seq<char>) -> Seq<char> {
    if item.len() > ITEM_CHARS {
        item.take(ITEM_CHARS as int) + "..."@
    } else {
        item
    }
}

/// The pattern of a heading line.
pub open spec fn heading_pattern() -> Seq<char> {
    "(?m)^#+\\s+(.+)$"@
}

/// The pattern of a numbered line.
pub open spec fn numbered_pattern() -> Seq<char> {
    "(?m)^\\d+\\.\\s+(.+)$"@
}

/// The suggestion to split by headings.
pub open spec fn heading_suggestion(text: Seq<char>) -> Seq<NoteSplitSuggestionView> {
    let ms = matches_of(heading_pattern(), text);
    if ms.len() >= MIN_HEADINGS {
        seq![
            NoteSplitSuggestionView {
                reason: "Found "@ + decimal(ms.len()) + " headings - each could be a separate note"@,
                split_points: first_groups_of(ms),
            },
        ]
    } else {
        Seq::empty()
    }
}

/// The suggestion to split by entities.
pub open spec fn entity_suggestion(entities: Seq<Seq<char>>) -> Seq<NoteSplitSuggestionView> {
    if entities.len() > MAX_ENTITIES {
        seq![
            NoteSplitSuggestionView {
                reason: "Contains "@ + decimal(entities.len())
                    + " distinct entities - may cover multiple topics"@,
                split_points: entities,
            },
        ]
    } else {
        Seq::empty()
    }
}

/// The suggestion to split by numbered items.
pub open spec fn numbered_suggestion(text: Seq<char>) -> Seq<NoteSplitSuggestionView> {
    let ms = matches_of(numbered_pattern(), text);
    if ms.len() > MAX_NUMBERED {
        seq![
            NoteSplitSuggestionView {
                reason: "Contains "@ + decimal(ms.len())
                    + " numbered items - consider one note per item"@,
                split_points: first_groups_of(ms.take(LISTED_ITEMS as int)).map_values(
                    |t: Seq<char>| shown(t),
                ),
            },
        ]
    } else {
        Seq::empty()
    }
}

/// The suggestions for splitting a memory: by headings, by entities and by
/// numbered items, in this order.
pub open spec fn split_suggestions(m: MemoryView) -> Seq<NoteSplitSuggestionView> {
    heading_suggestion(m.text) + entity_suggestion(m.entities) + numbered_suggestion(m.text)
}

impl DatabaseView {
    /// What is found in a memory.
    pub open spec fn findings(self, r: MemoryRowView) -> Findings {
        Findings {
            words: words(r.memory.text).len() as usize,
            connectors: connectors(r.memory.text) as usize,
            bullets: bullets(r.memory.text) as usize,
            unlinked: r.status == MemoryStatus::Permanent && self.relations.filter(
                touches(r.memory.id),
            ).len() == 0,
            vague: is_vague(r.memory.text),
            unnamed: r.memory.entities.len() == 0,
        }
    }

    /// The verdict on a memory.
    pub open spec fn atomicity(self, r: MemoryRowView) -> AtomicityCheckView {
        verdict(r.memory.id, self.findings(r))
    }

    /// The permanent memories, newest first.
    pub open spec fn permanent_rows(self) -> Seq<MemoryRowView> {
        newest_first(self.memories.filter(is_kept_for_good()))
    }

    /// The permanent memories that score below `threshold`, the lowest
    /// score first.
    pub open spec fn non_atomic(self, threshold: u8, limit: Option<usize>) -> Seq<
        (MemoryView, AtomicityCheckView),
    > {
        stable_sort(
            wanting(self, self.permanent_rows(), threshold, limit, Seq::empty()),
            |a: (MemoryView, AtomicityCheckView), b: (MemoryView, AtomicityCheckView)|
                a.1.score < b.1.score,
        )
    }
}

/// Number of non-overlapping occurrences of `part` in `text`.
pub fn count_occurrences(text: &Vec<char>, part: &str) -> (r: usize)
    ensures
        r == occurrences(text@, part@),
{
    let pieces = split_on_str(text, part);
    assert(crate::text::views(pieces@).len() == pieces.len());
    pieces.len() - 1
}

/// Number of connecting words in a text.
pub fn count_connectors(text: &Vec<char>) -> (r: usize)
    ensures
        r == connectors(text@),
{
    let a = count_occurrences(text, "and ");
    let b = count_occurrences(text, "also ");
    let c = count_occurrences(text, "furthermore ");
    let d = count_occurrences(text, "additionally ");
    let e = count_occurrences(text, "moreover ");
    a.saturating_add(b).saturating_add(c).saturating_add(d).saturating_add(e)
}

/// Number of list items in a text.
pub fn count_bullets(text: &Vec<char>) -> (r: usize)
    ensures
        r == bullets(text@),
{
    let a = count_occurrences(text, "\n- ");
    let b = count_occurrences(text, "\n* ");
    let c = count_occurrences(text, "\n\u{2022} ");
    a.saturating_add(b).saturating_add(c)
}

/// A text with a number in it: `before`, the number, `after`.
fn numbered_text(before: &str, n: usize, after: &str) -> (r: String)
    ensures
        r@ == before@ + decimal(n as nat) + after@,
{
    let mut out: Vec<char> = Vec::new();
    append_str(&mut out, before);
    push_decimal(&mut out, n as u64);
    append_str(&mut out, after);
    assert(out@ =~= before@ + decimal(n as nat) + after@);
    from_chars(&out)
}

/// The verdict that findings give on the memory `id`.
pub fn judge(id: &MemoryId, f: Findings) -> (r: AtomicityCheck)
    ensures
        r@ == verdict(id@, f),
{
    let mut score: u8 = 100;
    let mut issues: Vec<String> = Vec::new();
    let ghost mut sofar: Seq<Seq<char>> = Seq::empty();
    assert(seq_view(issues@) =~= sofar);
    if f.words > MAX_WORDS {
        score = score - 20;
        issues.push(
            numbered_text(
                "Note is too long (",
                f.words,
                " words). Consider splitting into multiple atomic notes.",
            ),
        );
        proof {
            sofar = sofar + seq![length_issue(f.words as nat)];
            assert(seq_view(issues@) =~= sofar);
        }
    }
    if f.connectors > MAX_CONNECTORS {
        score = score - 15;
        issues.push(
            numbered_text(
                "High use of compound connectors (",
                f.connectors,
                " instances). May contain multiple ideas.",
            ),
        );
        proof {
            sofar = sofar + seq![connector_issue(f.connectors as nat)];
            assert(seq_view(issues@) =~= sofar);
        }
    }
    if f.bullets > MAX_BULLETS {
        score = score - 15;
        issues.push(
            numbered_text(
                "Contains ",
                f.bullets,
                " bullet points. Consider splitting into separate notes.",
            ),
        );
        proof {
            sofar = sofar + seq![bullet_issue(f.bullets as nat)];
            assert(seq_view(issues@) =~= sofar);
        }
    }
    if f.unlinked {
        score = score - 10;
        issues.push(
            "No relationships to other notes. Atomic notes should connect to the knowledge graph.".to_owned(),
        );
        proof {
            sofar = sofar + seq![
                "No relationships to other notes. Atomic notes should connect to the knowledge graph."@,
            ];
            assert(seq_view(issues@) =~= sofar);
        }
    }
    if f.vague {
        score = score - 20;
        issues.push(
            "Contains vague references ('see above', 'as mentioned'). Note may not be self-contained.".to_owned(),
        );
        proof {
            sofar = sofar + seq![
                "Contains vague references ('see above', 'as mentioned'). Note may not be self-contained."@,
            ];
            assert(seq_view(issues@) =~= sofar);
        }
    }
    if f.unnamed {
        score = score - 10;
        issues.push(
            "No entities identified. Atomic notes should have clear subject matter.".to_owned(),
        );
        proof {
            sofar = sofar + seq![
                "No entities identified. Atomic notes should have clear subject matter."@,
            ];
            assert(seq_view(issues@) =~= sofar);
        }
    }
    proof {
        assert(sofar =~= issues_of(f));
        assert(score == score_of(f));
    }
    let recommendation = if score >= ATOMIC_FROM {
        "Note follows atomic principles well.".to_owned()
    } else if score >= IMPROVABLE_FROM {
        "Note could be improved. Consider refining to focus on a single idea.".to_owned()
    } else {
        "Note likely contains multiple ideas. Strongly consider splitting into atomic notes.".to_owned()
    };
    AtomicityCheck {
        memory_id: id.clone(),
        is_atomic: score >= ATOMIC_FROM,
        score,
        word_count: f.words,
        issues,
        recommendation,
    }
}

/// The text of group 1 of each match in which the group took part.
pub(crate) fn first_groups_in(ms: &Vec<Capture>, upto: usize) -> (r: Vec<Vec<char>>)
    requires
        upto <= ms.len(),
    ensures
        crate::text::views(r@) == first_groups_of(capture_pairs(ms@).take(upto as int)),
{
    let ghost pairs = capture_pairs(ms@);
    let mut out: Vec<Vec<char>> = Vec::new();
    let mut i: usize = 0;
    proof {
        assert(crate::text::views(out@) =~= first_groups_of(pairs.take(0)));
    }
    while i < upto
        invariant
            i <= upto <= ms.len(),
            pairs == capture_pairs(ms@),
            crate::text::views(out@) == first_groups_of(pairs.take(i as int)),
        decreases upto - i,
    {
        let ghost ov = crate::text::views(out@);
        proof {
            assert(pairs.take(i + 1).drop_last() =~= pairs.take(i as int));
            assert(pairs.take(i + 1).last() == pairs[i as int]);
            assert(pairs[i as int] == (ms@[i as int]@.start, ms@[i as int]@.groups));
            assert(ms@[i as int]@.groups.len() == ms@[i as int].groups.len());
        }
        let m = &ms[i];
        if m.groups.len() > 1 {
            assert(m@.groups[1] == crate::dup::opt_view(m.groups@[1]));
            match &m.groups[1] {
                Some(t) => {
                    out.push(to_chars(t.as_str()));
                    assert(crate::text::views(out@) =~= ov.push(t@));
                },
                None => {},
            }
        }
        i += 1;
    }
    out
}

/// The suggestions for splitting a memory.
pub fn suggest_splits(memory: &Memory) -> (r: Vec<NoteSplitSuggestion>)
    ensures
        seq_view(r@) == split_suggestions(memory@),
{
    let mut out: Vec<NoteSplitSuggestion> = Vec::new();
    let ghost mut sofar: Seq<NoteSplitSuggestionView> = Seq::empty();
    assert(seq_view(out@) =~= sofar);
    let headings = find_matches("(?m)^#+\\s+(.+)$", memory.text.as_str());
    assert(capture_pairs(headings@).len() == headings.len());
    if headings.len() >= MIN_HEADINGS {
        let points = first_groups_in(&headings, headings.len());
        assert(capture_pairs(headings@).take(headings.len() as int) =~= capture_pairs(headings@));
        let s = NoteSplitSuggestion {
            reason: numbered_text(
                "Found ",
                headings.len(),
                " headings - each could be a separate note",
            ),
            split_points: texts_of(&points),
        };
        proof {
            sofar = sofar + seq![s@];
        }
        out.push(s);
        assert(seq_view(out@) =~= sofar);
    }
    assert(sofar =~= heading_suggestion(memory@.text));
    assert(memory@.entities.len() == memory.entities.len());
    if memory.entities.len() > MAX_ENTITIES {
        let s = NoteSplitSuggestion {
            reason: numbered_text(
                "Contains ",
                memory.entities.len(),
                " distinct entities - may cover multiple topics",
            ),
            split_points: crate::dup::dup_vec(&memory.entities),
        };
        proof {
            sofar = sofar + seq![s@];
        }
        out.push(s);
        assert(seq_view(out@) =~= sofar);
    }
    assert(sofar =~= heading_suggestion(memory@.text) + entity_suggestion(memory@.entities));
    let numbered = find_matches("(?m)^\\d+\\.\\s+(.+)$", memory.text.as_str());
    assert(capture_pairs(numbered@).len() == numbered.len());
    if numbered.len() > MAX_NUMBERED {
        let items = first_groups_in(&numbered, LISTED_ITEMS);
        let ghost iv = crate::text::views(items@);
        let mut points: Vec<String> = Vec::new();
        let mut k: usize = 0;
        while k < items.len()
            invariant
                k <= items.len(),
                iv == crate::text::views(items@),
                points.len() == k,
                forall|j: int| 0 <= j < k ==> (#[trigger] points@[j])@ == shown(iv[j]),
            decreases items.len() - k,
        {
            assert(iv[k as int] == items@[k as int]@);
            let item = &items[k];
            if item.len() > ITEM_CHARS {
                let mut cut = slice(item, 0, ITEM_CHARS);
                append_str(&mut cut, "...");
                assert(cut@ =~= item@.take(ITEM_CHARS as int) + "..."@);
                points.push(from_chars(&cut));
            } else {
                points.push(from_chars(item));
            }
            k += 1;
        }
        assert(seq_view(points@) =~= iv.map_values(|t: Seq<char>| shown(t)));
        let s = NoteSplitSuggestion {
            reason: numbered_text(
                "Contains ",
                numbered.len(),
                " numbered items - consider one note per item",
            ),
            split_points: points,
        };
        proof {
            sofar = sofar + seq![s@];
        }
        out.push(s);
        assert(seq_view(out@) =~= sofar);
    }
    assert(sofar =~= split_suggestions(memory@));
    out
}

/// The texts as strings.
fn texts_of(items: &Vec<Vec<char>>) -> (r: Vec<String>)
    ensures
        seq_view(r@) == crate::text::views(items@),
{
    let mut out: Vec<String> = Vec::new();
    let mut i: usize = 0;
    while i < items.len()
        invariant
            i <= items.len(),
            out.len() == i,
            forall|j: int| 0 <= j < i ==> (#[trigger] out@[j])@ == items@[j]@,
        decreases items.len() - i,
    {
        out.push(from_chars(&items[i]));
        i += 1;
    }
    assert(seq_view(out@) =~= crate::text::views(items@));
    out
}

impl Database {
    /// What is found in a stored memory.
    pub fn findings_of(&self, row: &MemoryRow) -> (r: Findings)
        ensures
            r == self@.findings(row@),
    {
        let text = to_chars(row.memory.text.as_str());
        let ghost p = touches(row@.memory.id);
        let pick = |r: &MemoryRelation| -> (o: bool)
            ensures
                o == p(r@),
            { r.source_id == row.memory.id || r.target_id == row.memory.id };
        let related = select(&self.relations, pick, Ghost(p)).len();
        let low = lower(&text);
        let word_list = words_of(&text);
        assert(crate::text::views(word_list@).len() == word_list.len());
        assert(row@.memory.entities.len() == row.memory.entities.len());
        Findings {
            words: word_list.len(),
            connectors: count_connectors(&text),
            bullets: count_bullets(&text),
            unlinked: row.status == MemoryStatus::Permanent && related == 0,
            vague: has_str(&low, "see above") || has_str(&low, "as mentioned") || has_str(
                &low,
                "the previous",
            ) || has_str(&low, "as discussed"),
            unnamed: row.memory.entities.len() == 0,
        }
    }

    /// The verdict on a memory: its score, what was found, and what is
    /// recommended. Fails with `NotFound` for a memory that is not stored.
    pub fn check_atomicity(&self, memory_id: &MemoryId) -> (r: Result<AtomicityCheck, StoreError>)
        ensures
            match self@.memory(memory_id@) {
                Some(m) => r matches Ok(c) && c@ == self@.atomicity(m),
                None => r matches Err(e) && e == StoreError::NotFound,
            },
    {
        match self.memory_index(memory_id) {
            Some(i) => {
                assert(self@.memories[i as int] == self.memories@[i as int]@);
                let row = &self.memories[i];
                Ok(judge(&row.memory.id, self.findings_of(row)))
            },
            None => Err(StoreError::NotFound),
        }
    }

    /// Copies of the rows of the permanent memories, newest first.
    fn permanent(&self) -> (r: Vec<MemoryRow>)
        ensures
            seq_view(r@) == self@.permanent_rows(),
    {
        let ghost p = is_kept_for_good();
        let pick = |r: &MemoryRow| -> (o: bool)
            ensures
                o == p(r@),
            { r.status == MemoryStatus::Permanent };
        let rows = select(&self.memories, pick, Ghost(p));
        let ghost before = |a: MemoryRowView, b: MemoryRowView| crate::memories::newer(a, b);
        let later = |a: &MemoryRow, b: &MemoryRow| -> (o: bool)
            ensures
                o == before(a@, b@),
            { str_less(b.memory.created_at.as_str(), a.memory.created_at.as_str()) };
        sort_rows(rows, later, Ghost(before))
    }

    /// The permanent memories that score below `threshold`, each with its
    /// verdict, the lowest score first. With a limit, the permanent
    /// memories are checked from the newest on, and no further than the
    /// memory with which as many as `limit` are found.
    pub fn get_non_atomic_memories(&self, threshold: u8, limit: Option<usize>) -> (r: Vec<
        (Memory, AtomicityCheck),
    >)
        ensures
            seq_view(r@) == self@.non_atomic(threshold, limit),
    {
        let rows = self.permanent();
        let ghost rv = seq_view(rows@);
        let mut found: Vec<(Memory, AtomicityCheck)> = Vec::new();
        let mut i: usize = 0;
        let mut done = false;
        proof {
            assert(rv.skip(0) =~= rv);
            assert(seq_view(found@) =~= Seq::<(MemoryView, AtomicityCheckView)>::empty());
        }
        while i < rows.len() && !done
            invariant
                i <= rows.len(),
                rv == seq_view(rows@),
                !done ==> wanting(self@, rv, threshold, limit, Seq::empty()) == wanting(
                    self@,
                    rv.skip(i as int),
                    threshold,
                    limit,
                    seq_view(found@),
                ),
                done ==> wanting(self@, rv, threshold, limit, Seq::empty()) == seq_view(found@),
            decreases rows.len() - i + if done {
                0int
            } else {
                1int
            },
        {
            let ghost fv = seq_view(found@);
            proof {
                assert(rv[i as int] == rows@[i as int]@);
                assert(rv.skip(i as int)[0] == rv[i as int]);
                assert(rv.skip(i as int).drop_first() =~= rv.skip(i + 1));
            }
            let check = judge(&rows[i].memory.id, self.findings_of(&rows[i]));
            if check.score < threshold {
                let ghost cv = check@;
                found.push((rows[i].memory.dup(), check));
                assert(seq_view(found@) =~= fv.push((rv[i as int].memory, cv)));
            }
            assert(seq_view(found@).len() == found.len());
            match limit {
                Some(n) => {
                    if found.len() >= n {
                        done = true;
                    }
                },
                None => {},
            }
            i += 1;
        }
        proof {
            if !done {
                assert(rv.skip(rows.len() as int) =~= Seq::<MemoryRowView>::empty());
            }
        }
        let ghost before = |a: (MemoryView, AtomicityCheckView), b: (MemoryView, AtomicityCheckView)|
            a.1.score < b.1.score;
        let worse = |a: &(Memory, AtomicityCheck), b: &(Memory, AtomicityCheck)| -> (o: bool)
            ensures
                o == before(a@, b@),
            { a.1.score < b.1.score };
        sort_rows(found, worse, Ghost(before))
    }

    /// The suggestions for splitting a memory. Fails with `NotFound` for a
    /// memory that is not stored.
    pub fn suggest_note_splits(&self, memory_id: &MemoryId) -> (r: Result<
        Vec<NoteSplitSuggestion>,
        StoreError,
    >)
        ensures
            match self@.memory(memory_id@) {
                Some(m) => r matches Ok(s) && seq_view(s@) == split_suggestions(m.memory),
                None => r matches Err(e) && e == StoreError::NotFound,
            },
    {
        match self.memory_index(memory_id) {
            Some(i) => {
                assert(self@.memories[i as int] == self.memories@[i as int]@);
                Ok(suggest_splits(&self.memories[i].memory))
            },
            None => Err(StoreError::NotFound),
        }
    }

    /// How many of the permanent memories hold one idea, how many could be
    /// improved, and how many should be split.
    pub fn get_atomicity_stats(&self) -> (r: AtomicityStats)
        ensures
            r.total_checked == self@.permanent_rows().len(),
            r.atomic_count == self@.permanent_rows().filter(
                |m: MemoryRowView| self@.atomicity(m).score >= ATOMIC_FROM,
            ).len(),
            r.needs_splitting == self@.permanent_rows().filter(
                |m: MemoryRowView| self@.atomicity(m).score < IMPROVABLE_FROM,
            ).len(),
            r.total_checked == r.atomic_count + r.needs_improvement + r.needs_splitting,
    {
        let rows = self.permanent();
        let ghost rv = seq_view(rows@);
        let ghost good = |m: MemoryRowView| self@.atomicity(m).score >= ATOMIC_FROM;
        let ghost bad = |m: MemoryRowView| self@.atomicity(m).score < IMPROVABLE_FROM;
        let mut atomic: usize = 0;
        let mut improve: usize = 0;
        let mut splitting: usize = 0;
        let mut i: usize = 0;
        proof {
            reveal(Seq::filter);
            assert(rv.take(0).filter(good).len() == 0);
            assert(rv.take(0).filter(bad).len() == 0);
        }
        while i < rows.len()
            invariant
                i <= rows.len(),
                rv == seq_view(rows@),
                good == (|m: MemoryRowView| self@.atomicity(m).score >= ATOMIC_FROM),
                bad == (|m: MemoryRowView| self@.atomicity(m).score < IMPROVABLE_FROM),
                atomic == rv.take(i as int).filter(good).len(),
                splitting == rv.take(i as int).filter(bad).len(),
                atomic + improve + splitting == i,
            decreases rows.len() - i,
        {
            proof {
                assert(rv[i as int] == rows@[i as int]@);
                assert(rv.take(i + 1) =~= rv.take(i as int).push(rv[i as int]));
                crate::query::lemma_filter_push(rv.take(i as int), rv[i as int], good);
                crate::query::lemma_filter_push(rv.take(i as int), rv[i as int], bad);
            }
            let check = judge(&rows[i].memory.id, self.findings_of(&rows[i]));
            if check.score >= ATOMIC_FROM {
                atomic += 1;
            } else if check.score >= IMPROVABLE_FROM {
                improve += 1;
            } else {
                splitting += 1;
            }
            i += 1;
        }
        proof {
            assert(rv.take(rows.len() as int) =~= rv);
            assert(rv.len() == rows.len());
        }
        AtomicityStats {
            total_checked: rows.len(),
            atomic_count: atomic,
            needs_improvement: improve,
            needs_splitting: splitting,
        }
    }
}

} // verus!
