//! Keywords of a text without any model: its most frequent words.

use crate::dup::seq_view;
use crate::pieces::{words, words_of};
use crate::query::{at_most, first_n, lemma_filter_push, sort_rows};
use crate::sidecar::{
    strip_marks, stripped_of_marks, tally, tally_of, tokens_of, str_is, Tally, TallyView,
};
use crate::sorting::stable_sort;
use crate::text::{from_chars, lower, lowercase, to_chars, views};
use crate::wordsets::{byte_len, has_bytes};
use vstd::prelude::*;

verus! {

/// How many keywords a text gets at most.
pub const SIMPLE_KEYWORDS: usize = 10;

/// Least number of bytes of a keyword.
pub const KEYWORD_BYTES: usize = 4;

/// Whether a word is a particle that is never a keyword.
pub open spec fn is_particle(w: Seq<char>) -> bool {
    w == "the"@ || w == "a"@ || w == "an"@ || w == "and"@ || w == "or"@ || w == "but"@ || w
        == "in"@ || w == "on"@ || w == "at"@ || w == "to"@ || w == "for"@ || w == "of"@ || w
        == "with"@ || w == "by"@ || w == "from"@ || w == "as"@ || w == "is"@ || w == "was"@ || w
        == "are"@ || w == "were"@ || w == "been"@ || w == "this"@ || w == "that"@ || w
        == "these"@ || w == "those"@ || w == "it"@ || w == "its"@ || w == "they"@ || w
        == "their"@
}

/// The word can be a keyword: it takes four bytes or more and is no
/// particle.
pub open spec fn is_candidate() -> spec_fn(Seq<char>) -> bool {
    |w: Seq<char>| byte_len(w) >= KEYWORD_BYTES && !is_particle(w)
}

/// The words of a text that can be keywords, in lower case and without the
/// marks around them, in their order.
pub open spec fn candidates(content: Seq<char>) -> Seq<Seq<char>> {
    words(lowercase(content)).map_values(|w: Seq<char>| strip_marks(w)).filter(is_candidate())
}

/// The keywords of a text: its most frequent candidate words, at most
/// [`SIMPLE_KEYWORDS`]; words that occur equally often stand in the order
/// of their first occurrence.
pub open spec fn simple_keywords(content: Seq<char>) -> Seq<Seq<char>> {
    tokens_of(
        at_most(
            stable_sort(tally(candidates(content)), |a: TallyView, b: TallyView| a.count > b.count),
            SIMPLE_KEYWORDS as nat,
        ),
    )
}

/// Whether a word is a particle that is never a keyword.
pub fn is_particle_word(w: &Vec<char>) -> (r: bool)
    ensures
        r == is_particle(w@),
{
    let s = from_chars(w);
    let s = s.as_str();
    str_is(s, "the") || str_is(s, "a") || str_is(s, "an") || str_is(s, "and") || str_is(s, "or")
        || str_is(s, "but") || str_is(s, "in") || str_is(s, "on") || str_is(s, "at") || str_is(
        s,
        "to",
    ) || str_is(s, "for") || str_is(s, "of") || str_is(s, "with") || str_is(s, "by") || str_is(
        s,
        "from",
    ) || str_is(s, "as") || str_is(s, "is") || str_is(s, "was") || str_is(s, "are") || str_is(
        s,
        "were",
    ) || str_is(s, "been") || str_is(s, "this") || str_is(s, "that") || str_is(s, "these")
        || str_is(s, "those") || str_is(s, "it") || str_is(s, "its") || str_is(s, "they")
        || str_is(s, "their")
}

/// The keywords of a text: its most frequent words of four bytes or more
/// that are no particles, in lower case and without the marks around them.
pub fn extract_keywords_simple(content: &str) -> (r: Vec<String>)
    ensures
        seq_view(r@) == simple_keywords(content@),
        r.len() <= SIMPLE_KEYWORDS,
{
    let all = words_of(&lower(&to_chars(content)));
    let ghost av = views(all@);
    let ghost stripped = av.map_values(|w: Seq<char>| strip_marks(w));
    let ghost p = is_candidate();
    let mut kept: Vec<Vec<char>> = Vec::new();
    let mut i: usize = 0;
    proof {
        reveal(Seq::filter);
        assert(views(kept@) =~= stripped.take(0).filter(p));
    }
    while i < all.len()
        invariant
            i <= all.len(),
            av == views(all@),
            stripped == av.map_values(|w: Seq<char>| strip_marks(w)),
            p == is_candidate(),
            views(kept@) == stripped.take(i as int).filter(p),
        decreases all.len() - i,
    {
        let ghost kv = views(kept@);
        let word = stripped_of_marks(&all[i]);
        proof {
            assert(av[i as int] == all@[i as int]@);
            assert(stripped[i as int] == word@);
            assert(stripped.take(i + 1) =~= stripped.take(i as int).push(stripped[i as int]));
            lemma_filter_push(stripped.take(i as int), stripped[i as int], p);
        }
        if has_bytes(&word, KEYWORD_BYTES) && !is_particle_word(&word) {
            kept.push(word);
            assert(views(kept@) =~= kv.push(stripped[i as int]));
        }
        i += 1;
    }
    proof {
        assert(stripped.take(all.len() as int) =~= stripped);
    }
    let ghost before = |a: TallyView, b: TallyView| a.count > b.count;
    let more = |a: &Tally, b: &Tally| -> (o: bool)
        ensures
            o == before(a@, b@),
        { a.count > b.count };
    let top = first_n(sort_rows(tally_of(&kept), more, Ghost(before)), SIMPLE_KEYWORDS);
    let ghost tv = seq_view(top@);
    let mut out: Vec<String> = Vec::new();
    let mut k: usize = 0;
    while k < top.len()
        invariant
            k <= top.len(),
            tv == seq_view(top@),
            out.len() == k,
            forall|j: int| 0 <= j < k ==> (#[trigger] out@[j])@ == tv[j].token,
        decreases top.len() - k,
    {
        assert(tv[k as int] == top@[k as int]@);
        out.push(from_chars(&top[k].token));
        k += 1;
    }
    assert(seq_view(out@) =~= tokens_of(tv));
    assert(tv.len() == top.len());
    assert(tv.len() <= SIMPLE_KEYWORDS);
    out
}

} // verus!
