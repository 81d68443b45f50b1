//! What a turn yields: the drafts that the patterns find in its text, in the
//! order code blocks, file references, decision, tasks, facts.

use crate::dup::{opt_view, seq_view};
use crate::heuristic::{
    capped, context_around, detect_language, entities_of, extract_context_around, extract_entities,
    fact_pattern, file_pattern, find_matches, group, group_text, has_technical_terms, infer_topic,
    inferred_topic, language_of, match_position, matches_of, position_of, priority_pattern,
    task_pattern, technical, decision_pattern, Confidence, Match, MemoryDraft, MemoryDraftView,
    DAY_SECS,
};
use crate::patterns::capture_pairs;
use crate::pieces::{join, join_with_str, lines, split, split_on_str};
use crate::schemas::{MemoryKind, Snippet, SnippetView, Turn, TurnView};
use crate::text::{
    append, append_str, contains, from_chars, has_str, is_alnum, lower, lowercase, slice,
    starts_with, to_chars, trim, trimmed, uppercase, views,
};
use crate::wordsets::{byte_len, has_bytes};
use vstd::prelude::*;

verus! {

/// Characters either side of a decision that make its context.
pub const DECISION_RADIUS: usize = 200;

/// Characters either side of a task that make its context.
pub const TASK_RADIUS: usize = 150;

/// Characters either side of a file reference that make its context.
pub const REFERENCE_RADIUS: usize = 100;

// ---------------------------------------------------------------------------
// Code blocks
// ---------------------------------------------------------------------------

/// Every character of the text is a letter or a digit.
pub open spec fn all_alnum(s: Seq<char>) -> bool {
    forall|i: int| 0 <= i < s.len() ==> is_alnum(#[trigger] s[i])
}

/// The language that a fenced block names: its first line trimmed, if that
/// is not empty and made of letters and digits.
pub open spec fn block_language(block: Seq<char>) -> Option<Seq<char>> {
    if lines(block).len() > 0 && trim(lines(block)[0]).len() > 0 && all_alnum(
        trim(lines(block)[0]),
    ) {
        Some(trim(lines(block)[0]))
    } else {
        None
    }
}

/// The code of a fenced block: the lines after the one that names the
/// language, or the whole block if none does.
pub open spec fn block_code(block: Seq<char>) -> Seq<char> {
    if block_language(block) is Some {
        join(lines(block).skip(1), "\n"@)
    } else {
        block
    }
}

/// The draft that a fenced block of a turn gives.
pub open spec fn code_block_draft(turn: TurnView, block: Seq<char>) -> MemoryDraftView {
    MemoryDraftView {
        kind: MemoryKind::Snippet,
        topic: inferred_topic(turn),
        text: "Code snippet"@,
        snippet: Some(
            SnippetView {
                title: "Snippet from "@ + turn.source.app.label(),
                text: block_code(block),
                loc: None,
                language: block_language(block),
            },
        ),
        entities: entities_of(turn.user_text),
        ttl: None,
        confidence: 950,
    }
}

/// The drafts of every second piece of a text cut at the fences, the
/// second piece first.
pub open spec fn fenced_drafts(turn: TurnView, pieces: Seq<Seq<char>>) -> Seq<MemoryDraftView>
    decreases pieces.len(),
{
    if pieces.len() == 0 {
        Seq::empty()
    } else if (pieces.len() - 1) % 2 == 1 {
        fenced_drafts(turn, pieces.drop_last()).push(code_block_draft(turn, pieces.last()))
    } else {
        fenced_drafts(turn, pieces.drop_last())
    }
}

/// The drafts of the fenced code blocks of a turn.
pub open spec fn code_block_drafts(turn: TurnView) -> Seq<MemoryDraftView> {
    fenced_drafts(turn, split(turn.user_text, "```"@))
}

/// The language that a fenced block names, with the block's lines.
fn language_of_block(all: &Vec<Vec<char>>) -> (r: Option<Vec<char>>)
    ensures
        opt_view(r) == if views(all@).len() > 0 && trim(views(all@)[0]).len() > 0 && all_alnum(
            trim(views(all@)[0]),
        ) {
            Some(trim(views(all@)[0]))
        } else {
            None
        },
{
    if all.len() == 0 {
        return None;
    }
    assert(views(all@)[0] == all@[0]@);
    let first = trimmed(&all[0]);
    if first.len() == 0 {
        return None;
    }
    let mut i: usize = 0;
    while i < first.len()
        invariant
            i <= first.len(),
            all.len() > 0,
            first@ == trim(views(all@)[0]),
            forall|j: int| 0 <= j < i ==> is_alnum(#[trigger] first@[j]),
        decreases first.len() - i,
    {
        if !first[i].is_alphanumeric() {
            assert(!is_alnum(first@[i as int]));
            return None;
        }
        i += 1;
    }
    Some(first)
}

/// The drafts of the fenced code blocks of a turn.
pub fn extract_code_blocks(turn: &Turn) -> (r: Vec<MemoryDraft>)
    ensures
        seq_view(r@) == code_block_drafts(turn@),
{
    proof {
        reveal_strlit("```");
    }
    let text = to_chars(turn.user_text.as_str());
    let pieces = split_on_str(&text, "```");
    let ghost pv = views(pieces@);
    let mut out: Vec<MemoryDraft> = Vec::new();
    let mut i: usize = 0;
    proof {
        assert(seq_view(out@) =~= fenced_drafts(turn@, pv.take(0)));
    }
    while i < pieces.len()
        invariant
            i <= pieces.len(),
            pv == views(pieces@),
            seq_view(out@) == fenced_drafts(turn@, pv.take(i as int)),
        decreases pieces.len() - i,
    {
        let ghost before = seq_view(out@);
        proof {
            assert(pv[i as int] == pieces@[i as int]@);
            assert(pv.take(i + 1).drop_last() =~= pv.take(i as int));
            assert(pv.take(i + 1).last() == pv[i as int]);
        }
        if i % 2 == 1 {
            let block = &pieces[i];
            let all = crate::pieces::all_lines_of(block);
            let language = language_of_block(&all);
            let code = match &language {
                Some(_) => {
                    let rest = skip_first(&all);
                    join_with_str(&rest, "\n")
                },
                None => slice(block, 0, block.len()),
            };
            assert(code@ =~= block_code(block@));
            let mut title: Vec<char> = Vec::new();
            append_str(&mut title, "Snippet from ");
            append_str(&mut title, turn.source.app.name());
            let draft = MemoryDraft {
                kind: MemoryKind::Snippet,
                topic: infer_topic(turn),
                text: "Code snippet".to_owned(),
                snippet: Some(
                    Snippet {
                        title: from_chars(&title),
                        text: from_chars(&code),
                        loc: None,
                        language: match &language {
                            Some(l) => Some(from_chars(l)),
                            None => None,
                        },
                    },
                ),
                entities: extract_entities(turn.user_text.as_str()),
                ttl: None,
                confidence: Confidence::new(950),
            };
            let ghost dv = draft@;
            assert(dv == code_block_draft(turn@, pv[i as int]));
            out.push(draft);
            assert(seq_view(out@) =~= before.push(dv));
        }
        i += 1;
    }
    proof {
        assert(pv.take(pieces.len() as int) =~= pv);
    }
    out
}

/// The pieces after the first.
fn skip_first(all: &Vec<Vec<char>>) -> (r: Vec<Vec<char>>)
    requires
        all.len() > 0,
    ensures
        views(r@) == views(all@).skip(1),
{
    let mut out: Vec<Vec<char>> = Vec::new();
    let mut i: usize = 1;
    while i < all.len()
        invariant
            1 <= i <= all.len(),
            out.len() == i - 1,
            forall|j: int| 0 <= j < i - 1 ==> out@[j]@ == all@[j + 1]@,
        decreases all.len() - i,
    {
        out.push(slice(&all[i], 0, all[i].len()));
        assert(out@[i - 1]@ =~= all@[i as int]@);
        i += 1;
    }
    assert(views(out@) =~= views(all@).skip(1));
    out
}

// ---------------------------------------------------------------------------
// File references
// ---------------------------------------------------------------------------

/// The location that a file reference names: a line, or a range of lines.
pub open spec fn reference_loc(m: Match) -> Seq<char> {
    if m.1.len() > 3 && m.1[3] is Some {
        "L"@ + group(m, 2) + "-L"@ + m.1[3]->0
    } else {
        "L"@ + group(m, 2)
    }
}

/// The draft that a file reference in a turn's text gives.
pub open spec fn file_reference_draft(turn: TurnView, m: Match) -> MemoryDraftView {
    MemoryDraftView {
        kind: MemoryKind::Snippet,
        topic: inferred_topic(turn),
        text: "Reference to "@ + group(m, 1),
        snippet: Some(
            SnippetView {
                title: group(m, 1),
                text: context_around(
                    turn.user_text,
                    match_position(m, turn.user_text, turn.user_text.len()),
                    REFERENCE_RADIUS as nat,
                ),
                loc: Some(reference_loc(m)),
                language: language_of(group(m, 1)),
            },
        ),
        entities: seq![group(m, 1)],
        ttl: None,
        confidence: 900,
    }
}

/// The drafts of the file references of a turn.
pub open spec fn file_reference_drafts(turn: TurnView) -> Seq<MemoryDraftView> {
    matches_of(file_pattern(), turn.user_text).map_values(|m: Match| file_reference_draft(turn, m))
}

/// The drafts of the file references of a turn.
pub fn extract_file_references(turn: &Turn) -> (r: Vec<MemoryDraft>)
    ensures
        seq_view(r@) == file_reference_drafts(turn@),
{
    let text = to_chars(turn.user_text.as_str());
    let ms = find_matches("([a-zA-Z0-9_\\-./]+\\.[a-z]+):(\\d+)(?:-(\\d+))?", turn.user_text.as_str());
    let ghost mv = capture_pairs(ms@);
    let mut out: Vec<MemoryDraft> = Vec::new();
    let mut i: usize = 0;
    while i < ms.len()
        invariant
            i <= ms.len(),
            mv == capture_pairs(ms@),
            text@ == turn@.user_text,
            out.len() == i,
            forall|k: int| 0 <= k < ms.len() ==> (#[trigger] ms[k]).start
                <= vstd::utf8::encode_utf8(turn@.user_text).len(),
            forall|j: int| 0 <= j < i ==> (#[trigger] out@[j])@ == file_reference_draft(
                turn@,
                mv[j],
            ),
        decreases ms.len() - i,
    {
        let m = &ms[i];
        assert(mv[i as int] == (m@.start, m@.groups));
        let file = group_text(m, 1);
        let start_line = group_text(m, 2);
        let mut loc: Vec<char> = Vec::new();
        append_str(&mut loc, "L");
        append(&mut loc, &start_line);
        if m.groups.len() > 3 {
            match &m.groups[3] {
                Some(end) => {
                    append_str(&mut loc, "-L");
                    append_str(&mut loc, end.as_str());
                },
                None => {},
            }
        }
        assert(loc@ =~= reference_loc(mv[i as int]));
        let position = position_of(m, turn.user_text.as_str(), text.len());
        let context = extract_context_around(&text, position, REFERENCE_RADIUS);
        let mut label: Vec<char> = Vec::new();
        append_str(&mut label, "Reference to ");
        append(&mut label, &file);
        let file_name = from_chars(&file);
        let mut entities: Vec<String> = Vec::new();
        entities.push(from_chars(&file));
        let draft = MemoryDraft {
            kind: MemoryKind::Snippet,
            topic: infer_topic(turn),
            text: from_chars(&label),
            snippet: Some(
                Snippet {
                    title: from_chars(&file),
                    text: from_chars(&context),
                    loc: Some(from_chars(&loc)),
                    language: detect_language(file_name.as_str()),
                },
            ),
            entities,
            ttl: None,
            confidence: Confidence::new(900),
        };
        proof {
            assert(draft@.entities =~= seq![group(mv[i as int], 1)]);
            assert(draft@ == file_reference_draft(turn@, mv[i as int]));
        }
        out.push(draft);
        i += 1;
    }
    assert(seq_view(out@) =~= file_reference_drafts(turn@));
    out
}

// ---------------------------------------------------------------------------
// Decisions
// ---------------------------------------------------------------------------

/// The text gives a reason.
pub open spec fn gives_reason(low: Seq<char>) -> bool {
    contains(low, "because"@) || contains(low, "since"@) || contains(low, "reason"@)
}

/// The confidence of a decision: seven tenths, more for a reason given,
/// for entities named and for technical vocabulary.
pub open spec fn decision_confidence(turn: TurnView) -> nat {
    capped(
        700 + (if gives_reason(lowercase(turn.user_text)) {
            150nat
        } else {
            0nat
        }) + (if entities_of(turn.user_text).len() > 0 {
            100nat
        } else {
            0nat
        }) + (if has_technical_terms(lowercase(turn.user_text)) {
            50nat
        } else {
            0nat
        }),
    )
}

/// The draft of the decision that a match in the lowercase text shows.
pub open spec fn decision_draft(turn: TurnView, m: Match) -> MemoryDraftView {
    MemoryDraftView {
        kind: MemoryKind::Decision,
        topic: inferred_topic(turn),
        text: context_around(
            turn.user_text,
            match_position(m, lowercase(turn.user_text), turn.user_text.len()),
            DECISION_RADIUS as nat,
        ),
        snippet: None,
        entities: entities_of(turn.user_text),
        ttl: None,
        confidence: decision_confidence(turn),
    }
}

/// The draft of the decision of a turn by the patterns from the `i`th on:
/// the first match of the first pattern that matches.
pub open spec fn decision_from(turn: TurnView, i: int) -> Seq<MemoryDraftView>
    decreases 4 - i,
{
    if i < 0 || i >= 4 {
        Seq::empty()
    } else if matches_of(decision_pattern(i), lowercase(turn.user_text)).len() > 0 {
        seq![decision_draft(turn, matches_of(decision_pattern(i), lowercase(turn.user_text))[0])]
    } else {
        decision_from(turn, i + 1)
    }
}

/// The draft of the decision of a turn, if its text shows one.
pub fn extract_decision_with_context(turn: &Turn) -> (r: Vec<MemoryDraft>)
    ensures
        seq_view(r@) == decision_from(turn@, 0),
        r.len() <= 1,
{
    let text = to_chars(turn.user_text.as_str());
    let low = turn.user_text.as_str().to_lowercase();
    let low_chars = to_chars(low.as_str());
    let mut i: usize = 0;
    while i < 4
        invariant
            i <= 4,
            text@ == turn@.user_text,
            low@ == lowercase(turn@.user_text),
            low_chars@ == low@,
            decision_from(turn@, 0) == decision_from(turn@, i as int),
        decreases 4 - i,
    {
        let ms = find_matches(crate::heuristic::decision_pattern_at(i), low.as_str());
        assert(capture_pairs(ms@).len() == ms.len());
        if ms.len() > 0 {
            let m = &ms[0];
            assert(capture_pairs(ms@)[0] == (m@.start, m@.groups));
            let position = position_of(m, low.as_str(), text.len());
            let context = extract_context_around(&text, position, DECISION_RADIUS);
            let entities = extract_entities(turn.user_text.as_str());
            let mut confidence: u32 = 700;
            if has_str(&low_chars, "because") || has_str(&low_chars, "since") || has_str(
                &low_chars,
                "reason",
            ) {
                confidence += 150;
            }
            assert(seq_view(entities@).len() == entities.len());
            if entities.len() > 0 {
                confidence += 100;
            }
            if technical(&low_chars) {
                confidence += 50;
            }
            let draft = MemoryDraft {
                kind: MemoryKind::Decision,
                topic: infer_topic(turn),
                text: from_chars(&context),
                snippet: None,
                entities,
                ttl: None,
                confidence: Confidence::new(confidence),
            };
            let ghost dv = draft@;
            assert(dv == decision_draft(turn@, capture_pairs(ms@)[0]));
            let mut out: Vec<MemoryDraft> = Vec::new();
            out.push(draft);
            assert(seq_view(out@) =~= seq![dv]);
            return out;
        }
        i += 1;
    }
    let out: Vec<MemoryDraft> = Vec::new();
    assert(seq_view(out@) =~= Seq::<MemoryDraftView>::empty());
    out
}

// ---------------------------------------------------------------------------
// Tasks
// ---------------------------------------------------------------------------

/// The text speaks of urgency.
pub open spec fn is_urgent(text: Seq<char>) -> bool {
    matches_of(priority_pattern(0), lowercase(text)).len() > 0 || matches_of(
        priority_pattern(1),
        lowercase(text),
    ).len() > 0
}

/// Whether a text speaks of urgency.
pub fn is_high_priority(text: &str) -> (r: bool)
    ensures
        r == is_urgent(text@),
{
    let low = text.to_lowercase();
    let a = find_matches(crate::heuristic::priority_pattern_at(0), low.as_str());
    assert(capture_pairs(a@).len() == a.len());
    if a.len() > 0 {
        return true;
    }
    let b = find_matches(crate::heuristic::priority_pattern_at(1), low.as_str());
    assert(capture_pairs(b@).len() == b.len());
    b.len() > 0
}

/// The wording of the task that a match shows: its second group if the
/// pattern has one, else the whole match.
pub open spec fn task_wording(m: Match) -> Seq<char> {
    if m.1.len() > 2 {
        group(m, 2)
    } else {
        group(m, 0)
    }
}

/// The context of the task that a match in the lowercase text shows.
pub open spec fn task_context(turn: TurnView, m: Match) -> Seq<char> {
    context_around(
        turn.user_text,
        match_position(m, lowercase(turn.user_text), turn.user_text.len()),
        TASK_RADIUS as nat,
    )
}

/// The marker names a task outright: `TODO`, `FIXME` or `XXX`, in any case.
pub open spec fn is_explicit_marker(marker: Seq<char>) -> bool {
    uppercase(marker) == "TODO"@ || uppercase(marker) == "FIXME"@ || uppercase(marker) == "XXX"@
}

/// The draft of the task that a match in the lowercase text shows, if its
/// wording is not blank: nine tenths sure for a marker `TODO`, `FIXME` or
/// `XXX`, else three quarters, and a tenth more for urgency; urgent tasks
/// live two days, others seven.
pub open spec fn task_draft(turn: TurnView, m: Match) -> Option<MemoryDraftView> {
    if trim(task_wording(m)).len() == 0 {
        None
    } else {
        let context = task_context(turn, m);
        let urgent = is_urgent(context);
        Some(
            MemoryDraftView {
                kind: MemoryKind::Task,
                topic: inferred_topic(turn),
                text: context,
                snippet: None,
                entities: entities_of(context),
                ttl: Some(
                    if urgent {
                        (DAY_SECS * 2) as u64
                    } else {
                        (DAY_SECS * 7) as u64
                    },
                ),
                confidence: capped(
                    (if is_explicit_marker(group(m, 1)) {
                        900nat
                    } else {
                        750nat
                    }) + if urgent {
                        100nat
                    } else {
                        0nat
                    },
                ),
            },
        )
    }
}

/// The drafts of the tasks that the matches show, in order.
pub open spec fn task_drafts_of(turn: TurnView, ms: Seq<Match>) -> Seq<MemoryDraftView>
    decreases ms.len(),
{
    if ms.len() == 0 {
        Seq::empty()
    } else {
        match task_draft(turn, ms.last()) {
            Some(d) => task_drafts_of(turn, ms.drop_last()).push(d),
            None => task_drafts_of(turn, ms.drop_last()),
        }
    }
}

/// The drafts of the tasks of a turn by the first `n` patterns.
pub open spec fn task_drafts_upto(turn: TurnView, n: int) -> Seq<MemoryDraftView>
    decreases n,
{
    if n <= 0 {
        Seq::empty()
    } else {
        task_drafts_upto(turn, n - 1) + task_drafts_of(
            turn,
            matches_of(task_pattern(n - 1), lowercase(turn.user_text)),
        )
    }
}

/// The drafts of the tasks of a turn.
pub open spec fn task_drafts(turn: TurnView) -> Seq<MemoryDraftView> {
    task_drafts_upto(turn, 4)
}

/// The drafts of the tasks of a turn.
pub fn extract_tasks_with_priority(turn: &Turn) -> (r: Vec<MemoryDraft>)
    ensures
        seq_view(r@) == task_drafts(turn@),
{
    let text = to_chars(turn.user_text.as_str());
    let low = turn.user_text.as_str().to_lowercase();
    let mut out: Vec<MemoryDraft> = Vec::new();
    let mut p: usize = 0;
    proof {
        assert(seq_view(out@) =~= task_drafts_upto(turn@, 0));
    }
    while p < 4
        invariant
            p <= 4,
            text@ == turn@.user_text,
            low@ == lowercase(turn@.user_text),
            seq_view(out@) == task_drafts_upto(turn@, p as int),
        decreases 4 - p,
    {
        let ms = find_matches(crate::heuristic::task_pattern_at(p), low.as_str());
        let ghost mv = capture_pairs(ms@);
        let ghost head = seq_view(out@);
        let mut i: usize = 0;
        proof {
            assert(seq_view(out@) =~= head + task_drafts_of(turn@, mv.take(0)));
        }
        while i < ms.len()
            invariant
                i <= ms.len(),
                mv == capture_pairs(ms@),
                text@ == turn@.user_text,
                low@ == lowercase(turn@.user_text),
                forall|k: int| 0 <= k < ms.len() ==> (#[trigger] ms[k]).start
                    <= vstd::utf8::encode_utf8(low@).len(),
                seq_view(out@) == head + task_drafts_of(turn@, mv.take(i as int)),
            decreases ms.len() - i,
        {
            let ghost before = seq_view(out@);
            let m = &ms[i];
            proof {
                assert(mv[i as int] == (m@.start, m@.groups));
                assert(mv.take(i + 1).drop_last() =~= mv.take(i as int));
                assert(mv.take(i + 1).last() == mv[i as int]);
            }
            let wording = if m.groups.len() > 2 {
                group_text(m, 2)
            } else {
                group_text(m, 0)
            };
            if trimmed(&wording).len() > 0 {
                let position = position_of(m, low.as_str(), text.len());
                let context = from_chars(&extract_context_around(&text, position, TASK_RADIUS));
                let urgent = is_high_priority(context.as_str());
                let marker = from_chars(&group_text(m, 1));
                let shouted = marker.as_str().to_uppercase();
                let mut confidence: u32 = if crate::sidecar::str_is(shouted.as_str(), "TODO")
                    || crate::sidecar::str_is(shouted.as_str(), "FIXME") || crate::sidecar::str_is(
                    shouted.as_str(),
                    "XXX",
                ) {
                    900
                } else {
                    750
                };
                if urgent {
                    confidence += 100;
                }
                let ttl = if urgent {
                    Some(DAY_SECS * 2)
                } else {
                    Some(DAY_SECS * 7)
                };
                let entities = extract_entities(context.as_str());
                let draft = MemoryDraft {
                    kind: MemoryKind::Task,
                    topic: infer_topic(turn),
                    text: context,
                    snippet: None,
                    entities,
                    ttl,
                    confidence: Confidence::new(confidence),
                };
                let ghost dv = draft@;
                assert(Some(dv) == task_draft(turn@, mv[i as int]));
                out.push(draft);
                assert(seq_view(out@) =~= before.push(dv));
                assert(before.push(dv) =~= head + task_drafts_of(turn@, mv.take(i as int)).push(
                    dv,
                ));
            }
            i += 1;
        }
        proof {
            assert(mv.take(ms.len() as int) =~= mv);
        }
        p += 1;
    }
    out
}

// ---------------------------------------------------------------------------
// Facts
// ---------------------------------------------------------------------------

/// A key and a value that state no fact: too short, led by a pronoun, or a
/// question.
pub open spec fn is_false_positive(key: Seq<char>, value: Seq<char>) -> bool {
    byte_len(key) < 2 || byte_len(value) < 3 || starts_with(lowercase(key), "this"@) || starts_with(
        lowercase(key),
        "that"@,
    ) || starts_with(lowercase(key), "it"@) || contains(lowercase(value), seq!['?'])
}

/// Whether a key and a value state no fact.
pub fn is_likely_false_positive(key: &Vec<char>, value: &Vec<char>) -> (r: bool)
    ensures
        r == is_false_positive(key@, value@),
{
    if !has_bytes(key, 2) || !has_bytes(value, 3) {
        return true;
    }
    let lk = lower(key);
    if crate::text::begins_with(&lk, "this") || crate::text::begins_with(&lk, "that")
        || crate::text::begins_with(&lk, "it") {
        return true;
    }
    let lv = lower(value);
    proof {
        reveal_strlit("?");
        assert("?"@ =~= seq!['?']);
    }
    has_str(&lv, "?")
}

/// The wording of a fact: key and value trimmed, with a colon between.
pub open spec fn fact_wording(m: Match) -> Seq<char> {
    trim(group(m, 1)) + ": "@ + trim(group(m, 2))
}

/// The draft of the fact that a match in a turn's text shows, if key and
/// value are not blank and state a fact: six tenths sure, more for
/// technical vocabulary and for the wording of a definition.
pub open spec fn fact_draft(turn: TurnView, m: Match) -> Option<MemoryDraftView> {
    if m.1.len() < 2 || trim(group(m, 1)).len() == 0 || trim(group(m, 2)).len() == 0
        || is_false_positive(group(m, 1), group(m, 2)) {
        None
    } else {
        Some(
            MemoryDraftView {
                kind: MemoryKind::Fact,
                topic: inferred_topic(turn),
                text: fact_wording(m),
                snippet: None,
                entities: seq![trim(group(m, 1))],
                ttl: None,
                confidence: capped(
                    600 + (if has_technical_terms(lowercase(fact_wording(m))) {
                        200nat
                    } else {
                        0nat
                    }) + if contains(turn.user_text, "defined as"@) || contains(
                        turn.user_text,
                        "means"@,
                    ) {
                        150nat
                    } else {
                        0nat
                    },
                ),
            },
        )
    }
}

/// The drafts of the facts that the matches show, in order.
pub open spec fn fact_drafts_of(turn: TurnView, ms: Seq<Match>) -> Seq<MemoryDraftView>
    decreases ms.len(),
{
    if ms.len() == 0 {
        Seq::empty()
    } else {
        match fact_draft(turn, ms.last()) {
            Some(d) => fact_drafts_of(turn, ms.drop_last()).push(d),
            None => fact_drafts_of(turn, ms.drop_last()),
        }
    }
}

/// The drafts of the facts of a turn by the first `n` patterns.
pub open spec fn fact_drafts_upto(turn: TurnView, n: int) -> Seq<MemoryDraftView>
    decreases n,
{
    if n <= 0 {
        Seq::empty()
    } else {
        fact_drafts_upto(turn, n - 1) + fact_drafts_of(
            turn,
            matches_of(fact_pattern(n - 1), turn.user_text),
        )
    }
}

/// The drafts of the facts of a turn.
pub open spec fn fact_drafts(turn: TurnView) -> Seq<MemoryDraftView> {
    fact_drafts_upto(turn, 3)
}

/// The drafts of the facts of a turn.
pub fn extract_facts_with_structure(turn: &Turn) -> (r: Vec<MemoryDraft>)
    ensures
        seq_view(r@) == fact_drafts(turn@),
{
    let text = to_chars(turn.user_text.as_str());
    let defining = has_str(&text, "defined as") || has_str(&text, "means");
    let mut out: Vec<MemoryDraft> = Vec::new();
    let mut p: usize = 0;
    proof {
        assert(seq_view(out@) =~= fact_drafts_upto(turn@, 0));
    }
    while p < 3
        invariant
            p <= 3,
            text@ == turn@.user_text,
            defining == (contains(turn@.user_text, "defined as"@) || contains(
                turn@.user_text,
                "means"@,
            )),
            seq_view(out@) == fact_drafts_upto(turn@, p as int),
        decreases 3 - p,
    {
        let ms = find_matches(crate::heuristic::fact_pattern_at(p), turn.user_text.as_str());
        let ghost mv = capture_pairs(ms@);
        let ghost head = seq_view(out@);
        let mut i: usize = 0;
        proof {
            assert(seq_view(out@) =~= head + fact_drafts_of(turn@, mv.take(0)));
        }
        while i < ms.len()
            invariant
                i <= ms.len(),
                mv == capture_pairs(ms@),
                text@ == turn@.user_text,
                defining == (contains(turn@.user_text, "defined as"@) || contains(
                    turn@.user_text,
                    "means"@,
                )),
                seq_view(out@) == head + fact_drafts_of(turn@, mv.take(i as int)),
            decreases ms.len() - i,
        {
            let ghost before = seq_view(out@);
            let m = &ms[i];
            proof {
                assert(mv[i as int] == (m@.start, m@.groups));
                assert(mv.take(i + 1).drop_last() =~= mv.take(i as int));
                assert(mv.take(i + 1).last() == mv[i as int]);
            }
            if m.groups.len() >= 2 {
                let key = group_text(m, 1);
                let value = group_text(m, 2);
                let k = trimmed(&key);
                let v = trimmed(&value);
                if k.len() > 0 && v.len() > 0 && !is_likely_false_positive(&key, &value) {
                    let mut wording: Vec<char> = Vec::new();
                    append(&mut wording, &k);
                    append_str(&mut wording, ": ");
                    append(&mut wording, &v);
                    assert(wording@ =~= fact_wording(mv[i as int]));
                    let mut confidence: u32 = 600;
                    if technical(&lower(&wording)) {
                        confidence += 200;
                    }
                    if defining {
                        confidence += 150;
                    }
                    let mut entities: Vec<String> = Vec::new();
                    entities.push(from_chars(&k));
                    let draft = MemoryDraft {
                        kind: MemoryKind::Fact,
                        topic: infer_topic(turn),
                        text: from_chars(&wording),
                        snippet: None,
                        entities,
                        ttl: None,
                        confidence: Confidence::new(confidence),
                    };
                    let ghost dv = draft@;
                    proof {
                        assert(dv.entities =~= seq![trim(group(mv[i as int], 1))]);
                        assert(Some(dv) == fact_draft(turn@, mv[i as int]));
                    }
                    out.push(draft);
                    assert(seq_view(out@) =~= before.push(dv));
                    assert(before.push(dv) =~= head + fact_drafts_of(
                        turn@,
                        mv.take(i as int),
                    ).push(dv));
                }
            }
            i += 1;
        }
        proof {
            assert(mv.take(ms.len() as int) =~= mv);
        }
        p += 1;
    }
    out
}

// ---------------------------------------------------------------------------
// All of a turn
// ---------------------------------------------------------------------------

/// Everything that the patterns find in a turn: code blocks, file
/// references, the decision, tasks and facts, in this order.
pub open spec fn drafts_of(turn: TurnView) -> Seq<MemoryDraftView> {
    code_block_drafts(turn) + file_reference_drafts(turn) + decision_from(turn, 0) + task_drafts(
        turn,
    ) + fact_drafts(turn)
}

/// Moves the drafts of `more` to the end of `out`.
pub fn extend(out: &mut Vec<MemoryDraft>, more: Vec<MemoryDraft>)
    ensures
        seq_view(final(out)@) == seq_view(old(out)@) + seq_view(more@),
{
    let ghost start = seq_view(out@);
    let ghost all = seq_view(more@);
    let mut more = more;
    let ghost mut i: int = 0;
    assert(all.skip(0) =~= all);
    assert(seq_view(out@) =~= start + all.take(0));
    while more.len() > 0
        invariant
            0 <= i <= all.len(),
            seq_view(more@) == all.skip(i),
            seq_view(out@) == start + all.take(i),
        decreases more.len(),
    {
        let ghost rest = seq_view(more@);
        let ghost raw = more@;
        let ghost before = seq_view(out@);
        assert(rest.len() == raw.len());
        let d = more.remove(0);
        proof {
            assert(rest[0] == d@);
            assert(seq_view(more@) =~= rest.drop_first());
            assert(rest.drop_first() =~= all.skip(i + 1));
        }
        out.push(d);
        proof {
            assert(seq_view(out@) =~= before.push(all[i]));
            assert(all.take(i + 1) =~= all.take(i).push(all[i]));
            i = i + 1;
        }
    }
    assert(all.take(all.len() as int) =~= all);
}

/// Everything that the patterns find in a turn.
pub fn draft_memories(turn: &Turn) -> (r: Vec<MemoryDraft>)
    ensures
        seq_view(r@) == drafts_of(turn@),
{
    let mut out = extract_code_blocks(turn);
    extend(&mut out, extract_file_references(turn));
    extend(&mut out, extract_decision_with_context(turn));
    extend(&mut out, extract_tasks_with_priority(turn));
    extend(&mut out, extract_facts_with_structure(turn));
    out
}

} // verus!
