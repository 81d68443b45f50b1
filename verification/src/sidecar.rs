//! What a sidecar record says of a memory's content: a context line, ranked
//! keywords and normalised tags.

use crate::dup::seq_view;
use crate::order::{less, lex_less, sort_unique, sorted_unique};
use crate::patterns::{captures_of, regex_captures, Capture};
use crate::pieces::{first_line, first_line_of, replace, replace_all, squeeze, squeezed};
use crate::query::at_most;
use crate::schemas::{Memory, MemoryView};
use crate::sorting::stable_sort;
use crate::text::{
    append_str, from_chars, is_alnum, lowercase, same, slice, to_chars, trim, trimmed, views,
};
use vstd::prelude::*;

verus! {

/// Most keywords that a record holds.
pub const MAX_KEYWORDS: usize = 8;

/// Most tags that a record holds.
pub const MAX_TAGS: usize = 12;

/// Most keywords that become tags.
pub const MAX_KEYWORD_TAGS: usize = 4;

/// Most characters of a derived context line.
pub const MAX_CONTEXT_CHARS: usize = 96;

/// Fewest characters of a keyword.
pub const MIN_KEYWORD_CHARS: usize = 4;

/// The pattern of a keyword candidate in lowercase text.
pub open spec fn keyword_pattern() -> Seq<char> {
    "[a-z0-9][a-z0-9_\\-/]{3,}"@
}

// ---------------------------------------------------------------------------
// Context
// ---------------------------------------------------------------------------

/// A character that ends a sentence.
pub open spec fn is_sentence_end(c: char) -> bool {
    c == '.' || c == '!' || c == '?'
}

/// Number of leading characters that end no sentence.
pub open spec fn sentence_len(s: Seq<char>) -> nat
    decreases s.len(),
{
    if s.len() > 0 && !is_sentence_end(s[0]) {
        1 + sentence_len(s.drop_first())
    } else {
        0
    }
}

/// The text up to its first sentence end.
pub open spec fn first_sentence(s: Seq<char>) -> Seq<char> {
    s.take(sentence_len(s) as int)
}

/// The context line derived from a content: the first sentence of its first
/// line, or the content itself where that is empty, cut to 96 characters;
/// `general` for a blank content.
pub open spec fn derived_context(content: Seq<char>) -> Seq<char> {
    let body = trim(content);
    if body.len() == 0 {
        "general"@
    } else {
        let sentence = trim(first_sentence(trim(first_line(body))));
        let candidate = if sentence.len() == 0 {
            body
        } else {
            sentence
        };
        if candidate.len() > MAX_CONTEXT_CHARS {
            candidate.take(MAX_CONTEXT_CHARS as int)
        } else {
            candidate
        }
    }
}

pub proof fn lemma_sentence_len(s: Seq<char>, i: int)
    requires
        0 <= i <= s.len(),
        forall|j: int| 0 <= j < i ==> !is_sentence_end(s[j]),
        i == s.len() || is_sentence_end(s[i]),
    ensures
        sentence_len(s) == i,
    decreases i,
{
    if i > 0 {
        let t = s.drop_first();
        assert forall|j: int| 0 <= j < i - 1 implies !is_sentence_end(t[j]) by {
            assert(t[j] == s[j + 1]);
        }
        lemma_sentence_len(t, i - 1);
    }
}

/// The text up to its first sentence end.
pub fn first_sentence_of(s: &Vec<char>) -> (r: Vec<char>)
    ensures
        r@ == first_sentence(s@),
{
    let mut i: usize = 0;
    while i < s.len() && !(s[i] == '.' || s[i] == '!' || s[i] == '?')
        invariant
            i <= s.len(),
            forall|j: int| 0 <= j < i ==> !is_sentence_end(s@[j]),
        decreases s.len() - i,
    {
        i += 1;
    }
    proof {
        lemma_sentence_len(s@, i as int);
    }
    slice(s, 0, i)
}

/// The context line derived from a content.
pub fn derive_context(content: &str) -> (r: String)
    ensures
        r@ == derived_context(content@),
{
    let body = trimmed(&to_chars(content));
    if body.len() == 0 {
        return "general".to_owned();
    }
    let line = trimmed(&first_line_of(&body));
    let sentence = trimmed(&first_sentence_of(&line));
    let candidate = if sentence.len() == 0 {
        body
    } else {
        sentence
    };
    if candidate.len() > MAX_CONTEXT_CHARS {
        from_chars(&slice(&candidate, 0, MAX_CONTEXT_CHARS))
    } else {
        from_chars(&candidate)
    }
}

// ---------------------------------------------------------------------------
// Keywords
// ---------------------------------------------------------------------------

/// Number of leading characters that are neither letters nor digits.
pub open spec fn leading_marks(s: Seq<char>) -> nat
    decreases s.len(),
{
    if s.len() > 0 && !is_alnum(s[0]) {
        1 + leading_marks(s.drop_first())
    } else {
        0
    }
}

/// Number of trailing characters that are neither letters nor digits.
pub open spec fn trailing_marks(s: Seq<char>) -> nat
    decreases s.len(),
{
    if s.len() > 0 && !is_alnum(s.last()) {
        1 + trailing_marks(s.drop_last())
    } else {
        0
    }
}

/// The text without the characters at either end that are neither letters
/// nor digits.
pub open spec fn strip_marks(s: Seq<char>) -> Seq<char> {
    let t = s.skip(leading_marks(s) as int);
    t.take(t.len() - trailing_marks(t))
}

proof fn lemma_leading_marks(s: Seq<char>, i: int)
    requires
        0 <= i <= s.len(),
        forall|j: int| 0 <= j < i ==> !is_alnum(s[j]),
        i == s.len() || is_alnum(s[i]),
    ensures
        leading_marks(s) == i,
    decreases i,
{
    if i > 0 {
        let t = s.drop_first();
        assert forall|j: int| 0 <= j < i - 1 implies !is_alnum(t[j]) by {
            assert(t[j] == s[j + 1]);
        }
        lemma_leading_marks(t, i - 1);
    }
}

proof fn lemma_trailing_marks(s: Seq<char>, k: int)
    requires
        0 <= k <= s.len(),
        forall|j: int| s.len() - k <= j < s.len() ==> !is_alnum(s[j]),
        k == s.len() || is_alnum(s[s.len() - k - 1]),
    ensures
        trailing_marks(s) == k,
    decreases k,
{
    if k > 0 {
        let t = s.drop_last();
        assert forall|j: int| t.len() - (k - 1) <= j < t.len() implies !is_alnum(t[j]) by {
            assert(t[j] == s[j]);
        }
        lemma_trailing_marks(t, k - 1);
    }
}

/// The text without the characters at either end that are neither letters
/// nor digits.
pub fn stripped_of_marks(s: &Vec<char>) -> (r: Vec<char>)
    ensures
        r@ == strip_marks(s@),
{
    let n = s.len();
    let mut a: usize = 0;
    while a < n && !s[a].is_alphanumeric()
        invariant
            a <= n,
            n == s.len(),
            forall|j: int| 0 <= j < a ==> !is_alnum(s@[j]),
        decreases n - a,
    {
        a += 1;
    }
    proof {
        lemma_leading_marks(s@, a as int);
    }
    let mut b: usize = n;
    let ghost t = s@.skip(a as int);
    while b > a && !s[b - 1].is_alphanumeric()
        invariant
            a <= b <= n,
            n == s.len(),
            t == s@.skip(a as int),
            forall|j: int| b - a <= j < t.len() ==> !is_alnum(t[j]),
        decreases b - a,
    {
        b -= 1;
    }
    proof {
        if b > a {
            assert(t[b - a - 1] == s@[b - 1]);
        }
        lemma_trailing_marks(t, (n - b) as int);
        assert(t.take(t.len() - (n - b)) =~= s@.subrange(a as int, b as int));
    }
    slice(s, a, b)
}

/// Words too common to be keywords.
pub open spec fn is_stopword(w: Seq<char>) -> bool {
    w == "the"@ || w == "and"@ || w == "that"@ || w == "this"@ || w == "with"@ || w == "from"@ || w
        == "have"@ || w == "would"@ || w == "there"@ || w == "could"@ || w == "should"@ || w
        == "about"@ || w == "after"@ || w == "before"@ || w == "while"@ || w == "since"@ || w
        == "where"@ || w == "which"@ || w == "into"@ || w == "using"@ || w == "also"@ || w
        == "because"@ || w == "these"@ || w == "those"@ || w == "been"@ || w == "being"@ || w
        == "were"@ || w == "does"@ || w == "done"@ || w == "make"@ || w == "made"@ || w == "when"@
        || w == "then"@ || w == "than"@ || w == "your"@ || w == "their"@ || w == "them"@ || w
        == "they"@ || w == "what"@ || w == "ever"@ || w == "over"@ || w == "just"@ || w == "more"@
        || w == "only"@ || w == "each"@ || w == "such"@ || w == "very"@ || w == "much"@ || w
        == "like"@ || w == "onto"@ || w == "upon"@ || w == "ourselves"@ || w == "himself"@ || w
        == "herself"@ || w == "itself"@
}

/// Whether a word is too common to be a keyword.
pub fn is_stop(w: &Vec<char>) -> (r: bool)
    ensures
        r == is_stopword(w@),
{
    let s = from_chars(w);
    let s = s.as_str();
    str_is(s, "the") || str_is(s, "and") || str_is(s, "that") || str_is(s, "this") || str_is(
        s,
        "with",
    ) || str_is(s, "from") || str_is(s, "have") || str_is(s, "would") || str_is(s, "there")
        || str_is(s, "could") || str_is(s, "should") || str_is(s, "about") || str_is(s, "after")
        || str_is(s, "before") || str_is(s, "while") || str_is(s, "since") || str_is(s, "where")
        || str_is(s, "which") || str_is(s, "into") || str_is(s, "using") || str_is(s, "also")
        || str_is(s, "because") || str_is(s, "these") || str_is(s, "those") || str_is(s, "been")
        || str_is(s, "being") || str_is(s, "were") || str_is(s, "does") || str_is(s, "done")
        || str_is(s, "make") || str_is(s, "made") || str_is(s, "when") || str_is(s, "then")
        || str_is(s, "than") || str_is(s, "your") || str_is(s, "their") || str_is(s, "them")
        || str_is(s, "they") || str_is(s, "what") || str_is(s, "ever") || str_is(s, "over")
        || str_is(s, "just") || str_is(s, "more") || str_is(s, "only") || str_is(s, "each")
        || str_is(s, "such") || str_is(s, "very") || str_is(s, "much") || str_is(s, "like")
        || str_is(s, "onto") || str_is(s, "upon") || str_is(s, "ourselves") || str_is(s, "himself")
        || str_is(s, "herself") || str_is(s, "itself")
}

/// Whether two texts are the same.
pub fn str_is(a: &str, b: &str) -> (r: bool)
    ensures
        r == (a@ == b@),
{
    let x = to_chars(a);
    let y = to_chars(b);
    same(&x, &y)
}

/// The keyword that a candidate stands for, if any: the candidate without
/// marks at its ends, if that has at least four characters and is no
/// stopword.
pub open spec fn keyword_of(candidate: Option<Seq<char>>) -> Option<Seq<char>> {
    match candidate {
        Some(c) => {
            let token = strip_marks(c);
            if token.len() < MIN_KEYWORD_CHARS || is_stopword(token) {
                None
            } else {
                Some(token)
            }
        },
        None => None,
    }
}

/// The keywords among the matches, in the order of the matches.
pub open spec fn keyword_tokens(matches: Seq<(int, Seq<Option<Seq<char>>>)>) -> Seq<Seq<char>>
    decreases matches.len(),
{
    if matches.len() == 0 {
        Seq::empty()
    } else {
        let before = keyword_tokens(matches.drop_last());
        match keyword_of(
            if matches.last().1.len() > 0 {
                matches.last().1[0]
            } else {
                None
            },
        ) {
            Some(t) => before.push(t),
            None => before,
        }
    }
}

/// A keyword with the number of times it occurs.
pub struct Tally {
    pub token: Vec<char>,
    pub count: usize,
}

/// The value of a [`Tally`].
pub struct TallyView {
    pub token: Seq<char>,
    pub count: nat,
}

impl View for Tally {
    type V = TallyView;

    open spec fn view(&self) -> TallyView {
        TallyView { token: self.token@, count: self.count as nat }
    }
}

/// Index of the entry for `token`, or the number of entries if there is
/// none.
pub open spec fn entry_index(entries: Seq<TallyView>, token: Seq<char>) -> nat
    decreases entries.len(),
{
    if entries.len() > 0 && entries[0].token != token {
        1 + entry_index(entries.drop_first(), token)
    } else {
        0
    }
}

/// The entries with one more occurrence of `token`.
pub open spec fn count_one(entries: Seq<TallyView>, token: Seq<char>) -> Seq<TallyView> {
    let i = entry_index(entries, token) as int;
    if i < entries.len() {
        entries.update(i, TallyView { token, count: entries[i].count + 1 })
    } else {
        entries.push(TallyView { token, count: 1 })
    }
}

/// Each different token with the number of times it occurs, in the order of
/// first occurrence.
pub open spec fn tally(tokens: Seq<Seq<char>>) -> Seq<TallyView>
    decreases tokens.len(),
{
    if tokens.len() == 0 {
        Seq::empty()
    } else {
        count_one(tally(tokens.drop_last()), tokens.last())
    }
}

/// `a` ranks before `b`: it occurs more often, or as often and is longer,
/// or as often and as long and comes first in the dictionary.
pub open spec fn ranks_before(a: TallyView, b: TallyView) -> bool {
    a.count > b.count || (a.count == b.count && (a.token.len() > b.token.len() || (a.token.len()
        == b.token.len() && lex_less(a.token, b.token))))
}

/// The tokens of the entries.
pub open spec fn tokens_of(entries: Seq<TallyView>) -> Seq<Seq<char>> {
    entries.map_values(|e: TallyView| e.token)
}

/// The keywords that a list of tokens yields: the different tokens by rank,
/// at most eight.
pub open spec fn ranked_keywords(tokens: Seq<Seq<char>>) -> Seq<Seq<char>> {
    at_most(
        tokens_of(stable_sort(tally(tokens), |a: TallyView, b: TallyView| ranks_before(a, b))),
        MAX_KEYWORDS as nat,
    )
}

/// The keywords of a content: the keyword candidates of its lowercase form,
/// ranked. No keywords where the keyword pattern is not accepted.
pub open spec fn derived_keywords(content: Seq<char>) -> Seq<Seq<char>> {
    match regex_captures(keyword_pattern(), lowercase(content)) {
        Some(ms) => ranked_keywords(keyword_tokens(ms)),
        None => Seq::empty(),
    }
}

/// The entry for a token is the first one that carries it.
pub proof fn lemma_entry_index(entries: Seq<TallyView>, token: Seq<char>, i: int)
    requires
        0 <= i <= entries.len(),
        forall|j: int| 0 <= j < i ==> entries[j].token != token,
        i == entries.len() || entries[i].token == token,
    ensures
        entry_index(entries, token) == i,
    decreases i,
{
    if i > 0 {
        let t = entries.drop_first();
        assert forall|j: int| 0 <= j < i - 1 implies t[j].token != token by {
            assert(t[j] == entries[j + 1]);
        }
        lemma_entry_index(t, token, i - 1);
    }
}

/// Each different token with the number of times it occurs, in the order of
/// first occurrence.
pub fn tally_of(tokens: &Vec<Vec<char>>) -> (r: Vec<Tally>)
    ensures
        seq_view(r@) == tally(views(tokens@)),
{
    let ghost ts = views(tokens@);
    let mut entries: Vec<Tally> = Vec::new();
    let mut i: usize = 0;
    proof {
        assert(seq_view(entries@) =~= tally(ts.take(0)));
    }
    while i < tokens.len()
        invariant
            i <= tokens.len(),
            ts == views(tokens@),
            seq_view(entries@) == tally(ts.take(i as int)),
            forall|j: int| 0 <= j < entries.len() ==> (#[trigger] entries@[j]).count <= i,
        decreases tokens.len() - i,
    {
        let ghost es = seq_view(entries@);
        proof {
            assert(ts.take(i + 1).drop_last() =~= ts.take(i as int));
            assert(ts.take(i + 1).last() == tokens@[i as int]@);
        }
        let mut k: usize = 0;
        while k < entries.len() && !same(&entries[k].token, &tokens[i])
            invariant
                k <= entries.len(),
                i < tokens.len(),
                es == seq_view(entries@),
                forall|j: int| 0 <= j < k ==> es[j].token != tokens@[i as int]@,
            decreases entries.len() - k,
        {
            assert(es[k as int] == entries@[k as int]@);
            k += 1;
        }
        proof {
            if k < entries.len() {
                assert(es[k as int] == entries@[k as int]@);
            }
            lemma_entry_index(es, tokens@[i as int]@, k as int);
        }
        let token = slice(&tokens[i], 0, tokens[i].len());
        assert(token@ =~= tokens@[i as int]@);
        if k < entries.len() {
            let count = entries[k].count + 1;
            entries.set(k, Tally { token, count });
            assert(seq_view(entries@) =~= es.update(
                k as int,
                TallyView { token: tokens@[i as int]@, count: es[k as int].count + 1 },
            ));
        } else {
            entries.push(Tally { token, count: 1 });
            assert(seq_view(entries@) =~= es.push(
                TallyView { token: tokens@[i as int]@, count: 1 },
            ));
        }
        i += 1;
    }
    proof {
        assert(ts.take(tokens.len() as int) =~= ts);
    }
    entries
}

/// The keywords that ranking the given tokens yields.
pub fn rank_keywords(tokens: &Vec<Vec<char>>) -> (r: Vec<String>)
    ensures
        seq_view(r@) == ranked_keywords(views(tokens@)),
        r.len() <= MAX_KEYWORDS,
{
    let ghost ts = views(tokens@);
    let entries = tally_of(tokens);
    let ghost before = |a: TallyView, b: TallyView| ranks_before(a, b);
    let first = |a: &Tally, b: &Tally| -> (o: bool)
        ensures
            o == before(a@, b@),
        {
            a.count > b.count || (a.count == b.count && (a.token.len() > b.token.len() || (
            a.token.len() == b.token.len() && less(&a.token, &b.token))))
        };
    let sorted = crate::query::sort_rows(entries, first, Ghost(before));
    let best = crate::query::first_n(sorted, MAX_KEYWORDS);
    let ghost bv = seq_view(best@);
    let mut out: Vec<String> = Vec::new();
    let mut j: usize = 0;
    while j < best.len()
        invariant
            j <= best.len(),
            bv == seq_view(best@),
            out.len() == j,
            forall|x: int| 0 <= x < j ==> out@[x]@ == bv[x].token,
        decreases best.len() - j,
    {
        assert(bv[j as int] == best@[j as int]@);
        out.push(from_chars(&best[j].token));
        j += 1;
    }
    proof {
        let all = stable_sort(tally(ts), before);
        assert(seq_view(out@) =~= tokens_of(bv));
        assert(tokens_of(at_most(all, MAX_KEYWORDS as nat)) =~= at_most(
            tokens_of(all),
            MAX_KEYWORDS as nat,
        ));
    }
    out
}

/// The keywords among the matches, in the order of the matches.
pub fn keyword_tokens_of(matches: &Vec<Capture>) -> (r: Vec<Vec<char>>)
    ensures
        views(r@) == keyword_tokens(crate::patterns::capture_pairs(matches@)),
{
    let ghost ms = crate::patterns::capture_pairs(matches@);
    let mut out: Vec<Vec<char>> = Vec::new();
    let mut i: usize = 0;
    proof {
        assert(views(out@) =~= keyword_tokens(ms.take(0)));
    }
    while i < matches.len()
        invariant
            i <= matches.len(),
            ms == crate::patterns::capture_pairs(matches@),
            views(out@) == keyword_tokens(ms.take(i as int)),
        decreases matches.len() - i,
    {
        let ghost before = views(out@);
        proof {
            assert(ms.take(i + 1).drop_last() =~= ms.take(i as int));
            assert(ms.take(i + 1).last() == ms[i as int]);
        }
        let m = &matches[i];
        if m.groups.len() > 0 {
            match &m.groups[0] {
                Some(text) => {
                    let token = stripped_of_marks(&to_chars(text.as_str()));
                    if token.len() >= MIN_KEYWORD_CHARS && !is_stop(&token) {
                        out.push(token);
                        assert(views(out@) =~= before.push(token@));
                    }
                },
                None => {},
            }
        }
        i += 1;
    }
    proof {
        assert(ms.take(matches.len() as int) =~= ms);
    }
    out
}

/// The keywords of a content.
pub fn derive_keywords(content: &str) -> (r: Vec<String>)
    ensures
        seq_view(r@) == derived_keywords(content@),
        r.len() <= MAX_KEYWORDS,
{
    let low = content.to_lowercase();
    match captures_of("[a-z0-9][a-z0-9_\\-/]{3,}", low.as_str()) {
        Some(ms) => {
            let tokens = keyword_tokens_of(&ms);
            rank_keywords(&tokens)
        },
        None => {
            let r: Vec<String> = Vec::new();
            assert(seq_view(r@) =~= Seq::<Seq<char>>::empty());
            r
        },
    }
}

// ---------------------------------------------------------------------------
// Tags
// ---------------------------------------------------------------------------

/// A tag in its normal form: line feeds and tabs are blanks, runs of white
/// space are one blank, and there is none at either end.
pub open spec fn normal_tag(tag: Seq<char>) -> Seq<char> {
    squeeze(replace(replace(tag, seq!['\n'], seq![' ']), seq!['\t'], seq![' ']))
}

/// The tags that the first keywords give, one for each of at most four.
pub open spec fn keyword_tags(keywords: Seq<Seq<char>>) -> Seq<Seq<char>> {
    at_most(keywords, MAX_KEYWORD_TAGS as nat).map_values(|k: Seq<char>| "kw:"@ + k)
}

/// The tags of a memory before they are normalised: its kind, its topic and
/// the context if they are not blank, the language of its snippet, and its
/// first keywords.
pub open spec fn raw_tags(memory: MemoryView, context: Seq<char>, keywords: Seq<Seq<char>>) -> Seq<
    Seq<char>,
> {
    seq!["kind:"@ + memory.kind.label()] + (if trim(memory.topic).len() > 0 {
        seq!["topic:"@ + lowercase(memory.topic)]
    } else {
        Seq::empty()
    }) + (if trim(context).len() > 0 {
        seq!["context:"@ + lowercase(context)]
    } else {
        Seq::empty()
    }) + (match memory.snippet {
        Some(s) => match s.language {
            Some(l) => seq!["lang:"@ + lowercase(l)],
            None => Seq::empty(),
        },
        None => Seq::empty(),
    }) + keyword_tags(keywords)
}

/// The tags of a memory: the raw tags in normal form, without empty ones,
/// each once, in dictionary order, at most twelve.
pub open spec fn derived_tags(memory: MemoryView, context: Seq<char>, keywords: Seq<Seq<char>>)
    -> Seq<Seq<char>> {
    at_most(
        sort_unique(
            raw_tags(memory, context, keywords).map_values(|t: Seq<char>| normal_tag(t)).filter(
                |t: Seq<char>| t.len() > 0,
            ),
        ),
        MAX_TAGS as nat,
    )
}

/// `prefix` followed by the lowercase form of `text`, or by `text` itself.
fn tagged(prefix: &str, text: &str, lowered: bool) -> (r: Vec<char>)
    ensures
        r@ == prefix@ + if lowered {
            lowercase(text@)
        } else {
            text@
        },
{
    let mut v: Vec<char> = Vec::new();
    append_str(&mut v, prefix);
    if lowered {
        let low = text.to_lowercase();
        append_str(&mut v, low.as_str());
    } else {
        append_str(&mut v, text);
    }
    assert(v@ =~= prefix@ + if lowered {
        lowercase(text@)
    } else {
        text@
    });
    v
}

/// A tag in its normal form.
fn normalised(tag: &Vec<char>) -> (r: Vec<char>)
    ensures
        r@ == normal_tag(tag@),
{
    proof {
        reveal_strlit("\n");
        reveal_strlit("\t");
        reveal_strlit(" ");
        assert("\n"@ =~= seq!['\n']);
        assert("\t"@ =~= seq!['\t']);
        assert(" "@ =~= seq![' ']);
    }
    let a = replace_all(tag, "\n", " ");
    let b = replace_all(&a, "\t", " ");
    squeezed(&b)
}

/// The tags of a memory with the given context and keywords.
pub fn derive_tags(memory: &Memory, context: &str, keywords: &Vec<String>) -> (r: Vec<String>)
    ensures
        seq_view(r@) == derived_tags(memory@, context@, seq_view(keywords@)),
        r.len() <= MAX_TAGS,
{
    let mut raw: Vec<Vec<char>> = Vec::new();
    raw.push(tagged("kind:", memory.kind.as_str(), false));
    if trimmed(&to_chars(memory.topic.as_str())).len() > 0 {
        raw.push(tagged("topic:", memory.topic.as_str(), true));
    }
    if trimmed(&to_chars(context)).len() > 0 {
        raw.push(tagged("context:", context, true));
    }
    match &memory.snippet {
        Some(s) => match &s.language {
            Some(l) => {
                raw.push(tagged("lang:", l.as_str(), true));
            },
            None => {},
        },
        None => {},
    }
    let ghost head = views(raw@);
    let ghost kws = seq_view(keywords@);
    let mut k: usize = 0;
    while k < keywords.len() && k < MAX_KEYWORD_TAGS
        invariant
            k <= keywords.len(),
            k <= MAX_KEYWORD_TAGS,
            kws == seq_view(keywords@),
            views(raw@) == head + kws.take(k as int).map_values(|t: Seq<char>| "kw:"@ + t),
        decreases keywords.len() - k,
    {
        let ghost before = views(raw@);
        let tag = tagged("kw:", keywords[k].as_str(), false);
        raw.push(tag);
        proof {
            assert(kws[k as int] == keywords@[k as int]@);
            assert(views(raw@) =~= before.push("kw:"@ + kws[k as int]));
            assert(kws.take(k + 1).map_values(|t: Seq<char>| "kw:"@ + t) =~= kws.take(
                k as int,
            ).map_values(|t: Seq<char>| "kw:"@ + t).push("kw:"@ + kws[k as int]));
        }
        k += 1;
    }
    proof {
        assert(kws.take(k as int) =~= at_most(kws, MAX_KEYWORD_TAGS as nat));
        assert(views(raw@) =~= raw_tags(memory@, context@, kws));
    }
    let ghost rawv = views(raw@);
    let ghost norm = |t: Seq<char>| normal_tag(t);
    let ghost keep = |t: Seq<char>| t.len() > 0;
    let mut kept: Vec<Vec<char>> = Vec::new();
    let mut i: usize = 0;
    proof {
        reveal(Seq::filter);
        assert(views(kept@) =~= rawv.take(0).map_values(norm).filter(keep));
    }
    while i < raw.len()
        invariant
            i <= raw.len(),
            rawv == views(raw@),
            norm == (|t: Seq<char>| normal_tag(t)),
            keep == (|t: Seq<char>| t.len() > 0),
            views(kept@) == rawv.take(i as int).map_values(norm).filter(keep),
        decreases raw.len() - i,
    {
        let ghost before = views(kept@);
        let t = normalised(&raw[i]);
        proof {
            assert(rawv[i as int] == raw@[i as int]@);
            assert(rawv.take(i + 1).map_values(norm) =~= rawv.take(i as int).map_values(norm).push(
                normal_tag(rawv[i as int]),
            ));
            crate::query::lemma_filter_push(
                rawv.take(i as int).map_values(norm),
                normal_tag(rawv[i as int]),
                keep,
            );
        }
        if t.len() > 0 {
            kept.push(t);
            assert(views(kept@) =~= before.push(t@));
        }
        i += 1;
    }
    proof {
        assert(rawv.take(raw.len() as int) =~= rawv);
    }
    let sorted = sorted_unique(&kept);
    let ghost sv = views(sorted@);
    let mut out: Vec<String> = Vec::new();
    let mut j: usize = 0;
    while j < sorted.len() && j < MAX_TAGS
        invariant
            j <= sorted.len(),
            j <= MAX_TAGS,
            sv == views(sorted@),
            out.len() == j,
            forall|x: int| 0 <= x < j ==> out@[x]@ == sv[x],
        decreases sorted.len() - j,
    {
        assert(sv[j as int] == sorted@[j as int]@);
        out.push(from_chars(&sorted[j]));
        j += 1;
    }
    assert(seq_view(out@) =~= at_most(sv, MAX_TAGS as nat));
    out
}

} // verus!
