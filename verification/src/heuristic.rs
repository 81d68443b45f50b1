//! Pattern-driven extraction: what a turn's text says of decisions, tasks,
//! facts and code, each candidate with a confidence.

use crate::dup::{dup_opt, dup_vec, opt_view, seq_view, Dup};
use crate::order::{sort_unique, sorted_unique};
use crate::patterns::{
    capture_pairs, captures_of, char_offset, chars_before, regex_captures, Capture,
};
use crate::pieces::{lines, split, split_on_char, split_on_str, words, words_of};
use crate::schemas::{MemoryKind, Snippet, SnippetView, Turn, TurnView};
use crate::sidecar::{is_sentence_end, sentence_len, strip_marks, stripped_of_marks};
use crate::text::{
    contains, from_chars, has_str, is_upper, lower, lowercase, slice, to_chars, trim, trimmed,
    views,
};
use crate::wordsets::{byte_len, has_bytes};
use vstd::prelude::*;
use vstd::string::StringSliceAdditionalSpecFns;

verus! {

/// How sure an extraction is: a value between 0 and 1, in thousandths.
#[derive(Debug, Clone, Copy, PartialEq, Eq, Structural)]
pub struct Confidence {
    thousandths: u32,
}

/// One whole, in thousandths.
pub const CONFIDENCE_ONE: u32 = 1000;

/// The confidence from which a candidate is kept.
pub const CONFIDENT_FROM: u32 = 700;

/// Seconds of a day.
pub const DAY_SECS: u64 = 86400;

impl Confidence {
    /// The confidence in thousandths.
    pub closed spec fn value(self) -> nat {
        self.thousandths as nat
    }

    /// A confidence of `thousandths`, brought into its range.
    pub fn new(thousandths: u32) -> (r: Self)
        ensures
            r.value() == if thousandths > CONFIDENCE_ONE {
                CONFIDENCE_ONE as nat
            } else {
                thousandths as nat
            },
    {
        Confidence {
            thousandths: if thousandths > CONFIDENCE_ONE {
                CONFIDENCE_ONE
            } else {
                thousandths
            },
        }
    }

    /// The confidence in thousandths.
    pub fn score(&self) -> (r: u32)
        ensures
            r == self.value(),
    {
        self.thousandths
    }

    /// Whether the confidence is seven tenths or more.
    pub fn is_confident(&self) -> (r: bool)
        ensures
            r == (self.value() >= CONFIDENT_FROM),
    {
        self.thousandths >= CONFIDENT_FROM
    }
}

/// A confidence brought into its range.
pub open spec fn capped(thousandths: nat) -> nat {
    if thousandths > CONFIDENCE_ONE {
        CONFIDENCE_ONE as nat
    } else {
        thousandths
    }
}

/// What an extraction found, before it is given an identifier and a time.
#[derive(Debug)]
pub struct MemoryDraft {
    pub kind: MemoryKind,
    pub topic: String,
    pub text: String,
    pub snippet: Option<Snippet>,
    pub entities: Vec<String>,
    pub ttl: Option<u64>,
    pub confidence: Confidence,
}

/// The value of a [`MemoryDraft`].
pub struct MemoryDraftView {
    pub kind: MemoryKind,
    pub topic: Seq<char>,
    pub text: Seq<char>,
    pub snippet: Option<SnippetView>,
    pub entities: Seq<Seq<char>>,
    pub ttl: Option<u64>,
    pub confidence: nat,
}

impl View for MemoryDraft {
    type V = MemoryDraftView;

    open spec fn view(&self) -> MemoryDraftView {
        MemoryDraftView {
            kind: self.kind,
            topic: self.topic@,
            text: self.text@,
            snippet: opt_view(self.snippet),
            entities: seq_view(self.entities@),
            ttl: self.ttl,
            confidence: self.confidence.value(),
        }
    }
}

impl Dup for MemoryDraft {
    fn dup(&self) -> (r: Self) {
        MemoryDraft {
            kind: self.kind,
            topic: self.topic.dup(),
            text: self.text.dup(),
            snippet: dup_opt(&self.snippet),
            entities: dup_vec(&self.entities),
            ttl: self.ttl,
            confidence: self.confidence,
        }
    }
}

/// One match: the byte offset of its start and the texts of its groups.
pub type Match = (int, Seq<Option<Seq<char>>>);

/// The text of the group `i` of a match, empty where the group is missing.
pub open spec fn group(m: Match, i: int) -> Seq<char> {
    if 0 <= i < m.1.len() {
        match m.1[i] {
            Some(t) => t,
            None => Seq::empty(),
        }
    } else {
        Seq::empty()
    }
}

/// The matches of a pattern in a text, none for a pattern that is not
/// accepted.
pub open spec fn matches_of(pattern: Seq<char>, text: Seq<char>) -> Seq<Match> {
    match regex_captures(pattern, text) {
        Some(ms) => ms,
        None => Seq::empty(),
    }
}

/// The index of the character at which a match starts in the text
/// searched, no greater than `limit`.
pub open spec fn match_position(m: Match, searched: Seq<char>, limit: nat) -> nat {
    let p = chars_before(vstd::utf8::encode_utf8(searched), m.0);
    if p > limit {
        limit
    } else {
        p
    }
}

// ---------------------------------------------------------------------------
// The patterns
// ---------------------------------------------------------------------------

/// The patterns of a decision, the strongest first.
pub open spec fn decision_pattern(i: int) -> Seq<char> {
    if i == 0 {
        "(?i)\\b(decided|chose|selected|picked|opted)\\s+to\\b"@
    } else if i == 1 {
        "(?i)\\b(will|going to|plan to|planning to)\\s+(?:use|adopt|implement|switch to|move to)\\b"@
    } else if i == 2 {
        "(?i)\\b(switching|moving|migrating|adopting)\\s+(?:from|to)\\b"@
    } else {
        "(?i)\\b(because|since|as|reason|rationale|why).*\\b(decided|chose|using|adopted)\\b"@
    }
}

/// The patterns of a task.
pub open spec fn task_pattern(i: int) -> Seq<char> {
    if i == 0 {
        "(?i)\\b(TODO|FIXME|HACK|XXX|NOTE)\\s*[:\\-]?\\s*(.+)"@
    } else if i == 1 {
        "(?i)\\b(need to|must|should|have to|got to)\\s+([a-z].+)"@
    } else if i == 2 {
        "(?i)\\b(remember to|don't forget to|action item)\\s*[:\\-]?\\s*(.+)"@
    } else {
        "(?i)\\b(next step|next up|upcoming).*[:\\-]\\s*(.+)"@
    }
}

/// The patterns of a fact.
pub open spec fn fact_pattern(i: int) -> Seq<char> {
    if i == 0 {
        "(?i)(\\w+)\\s+(?:is|means|refers to|defined as)\\s+(.+)"@
    } else if i == 1 {
        "(?i)(\\w+)\\s*[=:]\\s*([^\\n]+)"@
    } else {
        "(?i)\\b(uses|requires|depends on|built with)\\s+(.+)"@
    }
}

/// The pattern of a file with a line or a range of lines.
pub open spec fn file_pattern() -> Seq<char> {
    "([a-zA-Z0-9_\\-./]+\\.[a-z]+):(\\d+)(?:-(\\d+))?"@
}

/// The pattern of an identifier between backticks.
pub open spec fn identifier_pattern() -> Seq<char> {
    "`([a-zA-Z0-9_:.<>]+(?:\\([^)]*\\))?)`"@
}

/// The patterns of urgency.
pub open spec fn priority_pattern(i: int) -> Seq<char> {
    if i == 0 {
        "(?i)\\b(urgent|critical|asap|high priority|immediately)\\b"@
    } else {
        "(?i)\\b(blocking|blocker|broken|bug)\\b"@
    }
}

/// The pattern text of index `i`.
pub fn decision_pattern_at(i: usize) -> (r: &'static str)
    ensures
        r@ == decision_pattern(i as int),
{
    if i == 0 {
        "(?i)\\b(decided|chose|selected|picked|opted)\\s+to\\b"
    } else if i == 1 {
        "(?i)\\b(will|going to|plan to|planning to)\\s+(?:use|adopt|implement|switch to|move to)\\b"
    } else if i == 2 {
        "(?i)\\b(switching|moving|migrating|adopting)\\s+(?:from|to)\\b"
    } else {
        "(?i)\\b(because|since|as|reason|rationale|why).*\\b(decided|chose|using|adopted)\\b"
    }
}

/// The pattern text of index `i`.
pub fn task_pattern_at(i: usize) -> (r: &'static str)
    ensures
        r@ == task_pattern(i as int),
{
    if i == 0 {
        "(?i)\\b(TODO|FIXME|HACK|XXX|NOTE)\\s*[:\\-]?\\s*(.+)"
    } else if i == 1 {
        "(?i)\\b(need to|must|should|have to|got to)\\s+([a-z].+)"
    } else if i == 2 {
        "(?i)\\b(remember to|don't forget to|action item)\\s*[:\\-]?\\s*(.+)"
    } else {
        "(?i)\\b(next step|next up|upcoming).*[:\\-]\\s*(.+)"
    }
}

/// The pattern text of index `i`.
pub fn fact_pattern_at(i: usize) -> (r: &'static str)
    ensures
        r@ == fact_pattern(i as int),
{
    if i == 0 {
        "(?i)(\\w+)\\s+(?:is|means|refers to|defined as)\\s+(.+)"
    } else if i == 1 {
        "(?i)(\\w+)\\s*[=:]\\s*([^\\n]+)"
    } else {
        "(?i)\\b(uses|requires|depends on|built with)\\s+(.+)"
    }
}

/// The pattern text of index `i`.
pub fn priority_pattern_at(i: usize) -> (r: &'static str)
    ensures
        r@ == priority_pattern(i as int),
{
    if i == 0 {
        "(?i)\\b(urgent|critical|asap|high priority|immediately)\\b"
    } else {
        "(?i)\\b(blocking|blocker|broken|bug)\\b"
    }
}

/// The matches of a pattern in a text.
pub fn find_matches(pattern: &str, text: &str) -> (r: Vec<Capture>)
    ensures
        capture_pairs(r@) == matches_of(pattern@, text@),
        forall|i: int|
            0 <= i < r.len() ==> (#[trigger] r[i]).groups.len() >= 1 && r[i].start
                <= text.spec_bytes().len(),
{
    match captures_of(pattern, text) {
        Some(cs) => cs,
        None => {
            let r: Vec<Capture> = Vec::new();
            assert(capture_pairs(r@) =~= Seq::<Match>::empty());
            r
        },
    }
}

/// The text of the group `i` of a match, empty where the group is missing.
pub fn group_text(m: &Capture, i: usize) -> (r: Vec<char>)
    ensures
        r@ == group((m@.start, m@.groups), i as int),
{
    if i < m.groups.len() {
        match &m.groups[i] {
            Some(t) => to_chars(t.as_str()),
            None => Vec::new(),
        }
    } else {
        Vec::new()
    }
}

/// The index of the character at which a match starts in the text
/// searched, no greater than `limit`.
pub(crate) fn position_of(m: &Capture, searched: &str, limit: usize) -> (r: usize)
    requires
        m.start <= searched.spec_bytes().len(),
    ensures
        r == match_position((m@.start, m@.groups), searched@, limit as nat),
        r <= limit,
{
    let p = char_offset(searched, m.start);
    if p > limit {
        limit
    } else {
        p
    }
}

// ---------------------------------------------------------------------------
// Shared judgements
// ---------------------------------------------------------------------------

/// The text holds a word of technical vocabulary.
pub open spec fn has_technical_terms(text: Seq<char>) -> bool {
    contains(text, "api"@) || contains(text, "function"@) || contains(text, "class"@) || contains(
        text,
        "method"@,
    ) || contains(text, "library"@) || contains(text, "framework"@) || contains(text, "database"@)
        || contains(text, "sql"@) || contains(text, "endpoint"@) || contains(text, "service"@)
        || contains(text, "module"@) || contains(text, "package"@) || contains(text, "interface"@)
        || contains(text, "struct"@) || contains(text, "type"@) || contains(text, "trait"@)
        || contains(text, "impl"@) || contains(text, "enum"@)
}

/// Whether the text holds a word of technical vocabulary.
pub fn technical(text: &Vec<char>) -> (r: bool)
    ensures
        r == has_technical_terms(text@),
{
    has_str(text, "api") || has_str(text, "function") || has_str(text, "class") || has_str(
        text,
        "method",
    ) || has_str(text, "library") || has_str(text, "framework") || has_str(text, "database")
        || has_str(text, "sql") || has_str(text, "endpoint") || has_str(text, "service") || has_str(
        text,
        "module",
    ) || has_str(text, "package") || has_str(text, "interface") || has_str(text, "struct")
        || has_str(text, "type") || has_str(text, "trait") || has_str(text, "impl") || has_str(
        text,
        "enum",
    )
}

/// A capitalised word that names nothing.
pub open spec fn is_common_word(w: Seq<char>) -> bool {
    w == "The"@ || w == "This"@ || w == "That"@ || w == "These"@ || w == "Those"@ || w == "Here"@
        || w == "There"@ || w == "When"@ || w == "Where"@ || w == "What"@ || w == "Which"@ || w
        == "How"@ || w == "Why"@ || w == "Who"@ || w == "But"@ || w == "And"@ || w == "Or"@ || w
        == "Not"@ || w == "If"@ || w == "Then"@ || w == "So"@
}

/// Whether a capitalised word names nothing.
pub fn common_word(w: &Vec<char>) -> (r: bool)
    ensures
        r == is_common_word(w@),
{
    let s = from_chars(w);
    let s = s.as_str();
    crate::sidecar::str_is(s, "The") || crate::sidecar::str_is(s, "This") || crate::sidecar::str_is(
        s,
        "That",
    ) || crate::sidecar::str_is(s, "These") || crate::sidecar::str_is(s, "Those")
        || crate::sidecar::str_is(s, "Here") || crate::sidecar::str_is(s, "There")
        || crate::sidecar::str_is(s, "When") || crate::sidecar::str_is(s, "Where")
        || crate::sidecar::str_is(s, "What") || crate::sidecar::str_is(s, "Which")
        || crate::sidecar::str_is(s, "How") || crate::sidecar::str_is(s, "Why")
        || crate::sidecar::str_is(s, "Who") || crate::sidecar::str_is(s, "But")
        || crate::sidecar::str_is(s, "And") || crate::sidecar::str_is(s, "Or")
        || crate::sidecar::str_is(s, "Not") || crate::sidecar::str_is(s, "If")
        || crate::sidecar::str_is(s, "Then") || crate::sidecar::str_is(s, "So")
}

/// The name that a capitalised word gives, if any: the word without marks
/// at its ends, if it takes more than two bytes, begins with an upper-case
/// letter, and is no common word.
pub open spec fn name_in(word: Seq<char>) -> Option<Seq<char>> {
    if byte_len(word) > 2 && word.len() > 0 && is_upper(word[0]) && strip_marks(word).len() > 0
        && !is_common_word(strip_marks(word)) {
        Some(strip_marks(word))
    } else {
        None
    }
}

/// The names among the words, in order.
pub open spec fn names_among(ws: Seq<Seq<char>>) -> Seq<Seq<char>>
    decreases ws.len(),
{
    if ws.len() == 0 {
        Seq::empty()
    } else {
        match name_in(ws.last()) {
            Some(n) => names_among(ws.drop_last()).push(n),
            None => names_among(ws.drop_last()),
        }
    }
}

/// The first groups of the matches that have one, in order.
pub open spec fn first_groups(ms: Seq<Match>) -> Seq<Seq<char>>
    decreases ms.len(),
{
    if ms.len() == 0 {
        Seq::empty()
    } else {
        let m = ms.last();
        if m.1.len() > 1 && m.1[1] is Some {
            first_groups(ms.drop_last()).push(m.1[1]->0)
        } else {
            first_groups(ms.drop_last())
        }
    }
}

/// The entities of a text: its capitalised words that are names and its
/// identifiers between backticks, each once, in dictionary order.
pub open spec fn entities_of(text: Seq<char>) -> Seq<Seq<char>> {
    sort_unique(
        names_among(words(text)) + first_groups(matches_of(identifier_pattern(), text)),
    )
}

/// The entities of a text.
pub fn extract_entities(text: &str) -> (r: Vec<String>)
    ensures
        seq_view(r@) == entities_of(text@),
{
    let chars = to_chars(text);
    let ws = words_of(&chars);
    let ghost wv = views(ws@);
    let mut found: Vec<Vec<char>> = Vec::new();
    let mut i: usize = 0;
    proof {
        assert(views(found@) =~= names_among(wv.take(0)));
    }
    while i < ws.len()
        invariant
            i <= ws.len(),
            wv == views(ws@),
            views(found@) == names_among(wv.take(i as int)),
        decreases ws.len() - i,
    {
        let ghost before = views(found@);
        let w = &ws[i];
        proof {
            assert(wv[i as int] == ws@[i as int]@);
            assert(wv.take(i + 1).drop_last() =~= wv.take(i as int));
            assert(wv.take(i + 1).last() == wv[i as int]);
        }
        if has_bytes(w, 3) && w.len() > 0 && w[0].is_uppercase() {
            let clean = stripped_of_marks(w);
            if clean.len() > 0 && !common_word(&clean) {
                found.push(clean);
                assert(views(found@) =~= before.push(clean@));
            }
        }
        i += 1;
    }
    proof {
        assert(wv.take(ws.len() as int) =~= wv);
    }
    let ghost names = views(found@);
    let ms = find_matches("`([a-zA-Z0-9_:.<>]+(?:\\([^)]*\\))?)`", text);
    let ghost mv = capture_pairs(ms@);
    let mut k: usize = 0;
    proof {
        assert(views(found@) =~= names + first_groups(mv.take(0)));
    }
    while k < ms.len()
        invariant
            k <= ms.len(),
            mv == capture_pairs(ms@),
            views(found@) == names + first_groups(mv.take(k as int)),
        decreases ms.len() - k,
    {
        let ghost before = views(found@);
        let m = &ms[k];
        proof {
            assert(mv[k as int] == (m@.start, m@.groups));
            assert(mv.take(k + 1).drop_last() =~= mv.take(k as int));
            assert(mv.take(k + 1).last() == mv[k as int]);
        }
        if m.groups.len() > 1 {
            match &m.groups[1] {
                Some(t) => {
                    let id = to_chars(t.as_str());
                    found.push(id);
                    assert(views(found@) =~= before.push(t@));
                    assert(before.push(t@) =~= names + first_groups(mv.take(k as int)).push(t@));
                },
                None => {},
            }
        }
        k += 1;
    }
    proof {
        assert(mv.take(ms.len() as int) =~= mv);
    }
    let sorted = sorted_unique(&found);
    let ghost sv = views(sorted@);
    let mut out: Vec<String> = Vec::new();
    let mut j: usize = 0;
    while j < sorted.len()
        invariant
            j <= sorted.len(),
            sv == views(sorted@),
            out.len() == j,
            forall|x: int| 0 <= x < j ==> out@[x]@ == sv[x],
        decreases sorted.len() - j,
    {
        assert(sv[j as int] == sorted@[j as int]@);
        out.push(from_chars(&sorted[j]));
        j += 1;
    }
    assert(seq_view(out@) =~= sv);
    out
}

/// The first technical keyword that a lowercase text holds.
pub open spec fn keyword_topic(low: Seq<char>) -> Option<Seq<char>> {
    if contains(low, "rust"@) {
        Some("rust"@)
    } else if contains(low, "python"@) {
        Some("python"@)
    } else if contains(low, "javascript"@) {
        Some("javascript"@)
    } else if contains(low, "typescript"@) {
        Some("typescript"@)
    } else if contains(low, "go"@) {
        Some("go"@)
    } else if contains(low, "java"@) {
        Some("java"@)
    } else if contains(low, "api"@) {
        Some("api"@)
    } else if contains(low, "database"@) {
        Some("database"@)
    } else if contains(low, "auth"@) {
        Some("auth"@)
    } else if contains(low, "frontend"@) {
        Some("frontend"@)
    } else if contains(low, "backend"@) {
        Some("backend"@)
    } else if contains(low, "testing"@) {
        Some("testing"@)
    } else if contains(low, "deployment"@) {
        Some("deployment"@)
    } else if contains(low, "docker"@) {
        Some("docker"@)
    } else if contains(low, "kubernetes"@) {
        Some("kubernetes"@)
    } else if contains(low, "ci/cd"@) {
        Some("ci/cd"@)
    } else {
        None
    }
}

/// The host of an address: what stands between `://` and the next slash.
pub open spec fn host_of(url: Seq<char>) -> Option<Seq<char>> {
    let pieces = split(url, "://"@);
    if pieces.len() < 2 {
        None
    } else {
        Some(split(pieces[1], seq!['/'])[0])
    }
}

/// The topic of a turn: the last component of its source path; else the
/// host of its source address; else the first technical keyword of its
/// text; else the tag of its source application.
pub open spec fn inferred_topic(turn: TurnView) -> Seq<char> {
    match turn.source.path {
        Some(p) => split(p, seq!['/']).last(),
        None => {
            let host = match turn.source.url {
                Some(u) => host_of(u),
                None => None,
            };
            match host {
                Some(h) => h,
                None => match keyword_topic(lowercase(turn.user_text)) {
                    Some(k) => k,
                    None => turn.source.app.label(),
                },
            }
        },
    }
}

/// The first technical keyword that a lowercase text holds.
fn keyword_topic_of(low: &Vec<char>) -> (r: Option<&'static str>)
    ensures
        match r {
            Some(k) => keyword_topic(low@) == Some(k@),
            None => keyword_topic(low@) is None,
        },
{
    if has_str(low, "rust") {
        Some("rust")
    } else if has_str(low, "python") {
        Some("python")
    } else if has_str(low, "javascript") {
        Some("javascript")
    } else if has_str(low, "typescript") {
        Some("typescript")
    } else if has_str(low, "go") {
        Some("go")
    } else if has_str(low, "java") {
        Some("java")
    } else if has_str(low, "api") {
        Some("api")
    } else if has_str(low, "database") {
        Some("database")
    } else if has_str(low, "auth") {
        Some("auth")
    } else if has_str(low, "frontend") {
        Some("frontend")
    } else if has_str(low, "backend") {
        Some("backend")
    } else if has_str(low, "testing") {
        Some("testing")
    } else if has_str(low, "deployment") {
        Some("deployment")
    } else if has_str(low, "docker") {
        Some("docker")
    } else if has_str(low, "kubernetes") {
        Some("kubernetes")
    } else if has_str(low, "ci/cd") {
        Some("ci/cd")
    } else {
        None
    }
}

/// The topic of a turn.
pub fn infer_topic(turn: &Turn) -> (r: String)
    ensures
        r@ == inferred_topic(turn@),
{
    match &turn.source.path {
        Some(p) => {
            let parts = split_on_char(&to_chars(p.as_str()), '/');
            let n = parts.len();
            assert(views(parts@).len() == n);
            assert(views(parts@).last() == parts@[n - 1]@);
            return from_chars(&parts[n - 1]);
        },
        None => {},
    }
    match &turn.source.url {
        Some(u) => {
            proof {
                reveal_strlit("://");
            }
            let pieces = split_on_str(&to_chars(u.as_str()), "://");
            assert(views(pieces@).len() == pieces.len());
            if pieces.len() >= 2 {
                assert(views(pieces@)[1] == pieces@[1]@);
                let segments = split_on_char(&pieces[1], '/');
                assert(views(segments@)[0] == segments@[0]@);
                return from_chars(&segments[0]);
            }
        },
        None => {},
    }
    let low = lower(&to_chars(turn.user_text.as_str()));
    match keyword_topic_of(&low) {
        Some(k) => k.to_owned(),
        None => turn.source.app.name().to_owned(),
    }
}

/// The language that the extension of a file name stands for.
pub open spec fn language_of(file: Seq<char>) -> Option<Seq<char>> {
    let ext = split(file, seq!['.']).last();
    if ext == "rs"@ {
        Some("rust"@)
    } else if ext == "py"@ {
        Some("python"@)
    } else if ext == "js"@ || ext == "jsx"@ {
        Some("javascript"@)
    } else if ext == "ts"@ || ext == "tsx"@ {
        Some("typescript"@)
    } else if ext == "go"@ {
        Some("go"@)
    } else if ext == "java"@ {
        Some("java"@)
    } else if ext == "swift"@ {
        Some("swift"@)
    } else if ext == "kt"@ {
        Some("kotlin"@)
    } else if ext == "cpp"@ || ext == "cc"@ || ext == "cxx"@ || ext == "hpp"@ {
        Some("cpp"@)
    } else if ext == "c"@ || ext == "h"@ {
        Some("c"@)
    } else if ext == "sh"@ {
        Some("bash"@)
    } else if ext == "json"@ {
        Some("json"@)
    } else if ext == "yaml"@ || ext == "yml"@ {
        Some("yaml"@)
    } else if ext == "toml"@ {
        Some("toml"@)
    } else if ext == "md"@ {
        Some("markdown"@)
    } else if ext == "html"@ {
        Some("html"@)
    } else if ext == "css"@ {
        Some("css"@)
    } else if ext == "sql"@ {
        Some("sql"@)
    } else {
        None
    }
}

/// The language that the extension of a file name stands for.
pub fn detect_language(filename: &str) -> (r: Option<String>)
    ensures
        opt_view(r) == language_of(filename@),
{
    let parts = split_on_char(&to_chars(filename), '.');
    let n = parts.len();
    assert(views(parts@).len() == n);
    assert(views(parts@).last() == parts@[n - 1]@);
    let e = from_chars(&parts[n - 1]);
    let e = e.as_str();
    let lang: &'static str = if crate::sidecar::str_is(e, "rs") {
        "rust"
    } else if crate::sidecar::str_is(e, "py") {
        "python"
    } else if crate::sidecar::str_is(e, "js") || crate::sidecar::str_is(e, "jsx") {
        "javascript"
    } else if crate::sidecar::str_is(e, "ts") || crate::sidecar::str_is(e, "tsx") {
        "typescript"
    } else if crate::sidecar::str_is(e, "go") {
        "go"
    } else if crate::sidecar::str_is(e, "java") {
        "java"
    } else if crate::sidecar::str_is(e, "swift") {
        "swift"
    } else if crate::sidecar::str_is(e, "kt") {
        "kotlin"
    } else if crate::sidecar::str_is(e, "cpp") || crate::sidecar::str_is(e, "cc")
        || crate::sidecar::str_is(e, "cxx") || crate::sidecar::str_is(e, "hpp") {
        "cpp"
    } else if crate::sidecar::str_is(e, "c") || crate::sidecar::str_is(e, "h") {
        "c"
    } else if crate::sidecar::str_is(e, "sh") {
        "bash"
    } else if crate::sidecar::str_is(e, "json") {
        "json"
    } else if crate::sidecar::str_is(e, "yaml") || crate::sidecar::str_is(e, "yml") {
        "yaml"
    } else if crate::sidecar::str_is(e, "toml") {
        "toml"
    } else if crate::sidecar::str_is(e, "md") {
        "markdown"
    } else if crate::sidecar::str_is(e, "html") {
        "html"
    } else if crate::sidecar::str_is(e, "css") {
        "css"
    } else if crate::sidecar::str_is(e, "sql") {
        "sql"
    } else {
        return None;
    };
    Some(lang.to_owned())
}

// ---------------------------------------------------------------------------
// Context around a match
// ---------------------------------------------------------------------------

/// Number of trailing characters that end no sentence.
pub open spec fn trailing_plain(s: Seq<char>) -> nat
    decreases s.len(),
{
    if s.len() > 0 && !is_sentence_end(s.last()) {
        1 + trailing_plain(s.drop_last())
    } else {
        0
    }
}

/// The sentence around the character `position` of a text: what stands
/// within `radius` characters either side of it, from after the last
/// sentence end before the position to the first sentence end at or after
/// it, trimmed.
pub open spec fn context_around(text: Seq<char>, position: nat, radius: nat) -> Seq<char> {
    let pos = if position > text.len() {
        text.len() as int
    } else {
        position as int
    };
    let start = if pos > radius {
        pos - radius
    } else {
        0
    };
    let end = if pos + radius < text.len() {
        pos + radius
    } else {
        text.len() as int
    };
    let after = text.subrange(pos, end);
    let from = pos - trailing_plain(text.subrange(start, pos));
    let to = if sentence_len(after) < after.len() {
        pos + sentence_len(after) + 1
    } else {
        end
    };
    trim(text.subrange(from, to))
}

proof fn lemma_trailing_plain(s: Seq<char>, k: int)
    requires
        0 <= k <= s.len(),
        forall|j: int| s.len() - k <= j < s.len() ==> !is_sentence_end(s[j]),
        k == s.len() || is_sentence_end(s[s.len() - k - 1]),
    ensures
        trailing_plain(s) == k,
    decreases k,
{
    if k > 0 {
        let t = s.drop_last();
        assert forall|j: int| t.len() - (k - 1) <= j < t.len() implies !is_sentence_end(t[j]) by {
            assert(t[j] == s[j]);
        }
        lemma_trailing_plain(t, k - 1);
    }
}

/// Whether a character ends a sentence.
fn ends_sentence(c: char) -> (r: bool)
    ensures
        r == is_sentence_end(c),
{
    c == '.' || c == '!' || c == '?'
}

/// The sentence around the character `position` of a text.
pub fn extract_context_around(text: &Vec<char>, position: usize, radius: usize) -> (r: Vec<char>)
    ensures
        r@ == context_around(text@, position as nat, radius as nat),
{
    let n = text.len();
    let pos = if position > n {
        n
    } else {
        position
    };
    let start = if pos > radius {
        pos - radius
    } else {
        0
    };
    let end = if radius < n - pos {
        pos + radius
    } else {
        n
    };
    let ghost before = text@.subrange(start as int, pos as int);
    let ghost after = text@.subrange(pos as int, end as int);
    let mut from = pos;
    while from > start && !ends_sentence(text[from - 1])
        invariant
            start <= from <= pos <= n,
            n == text.len(),
            before == text@.subrange(start as int, pos as int),
            forall|j: int| from - start <= j < before.len() ==> !is_sentence_end(before[j]),
        decreases from - start,
    {
        from -= 1;
    }
    proof {
        if from > start {
            assert(before[from - start - 1] == text@[from - 1]);
        }
        lemma_trailing_plain(before, (pos - from) as int);
    }
    let mut k = pos;
    while k < end && !ends_sentence(text[k])
        invariant
            pos <= k <= end <= n,
            n == text.len(),
            after == text@.subrange(pos as int, end as int),
            forall|j: int| 0 <= j < k - pos ==> !is_sentence_end(after[j]),
        decreases end - k,
    {
        k += 1;
    }
    proof {
        if k < end {
            assert(after[k - pos] == text@[k as int]);
        }
        crate::sidecar::lemma_sentence_len(after, (k - pos) as int);
    }
    let to = if k < end {
        k + 1
    } else {
        end
    };
    trimmed(&slice(text, from, to))
}

} // verus!
