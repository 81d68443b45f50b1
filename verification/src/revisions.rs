//! How much two texts have in common, word for word: the difference
//! between two versions of a memory, and the older memories that a memory
//! may replace.

use crate::dup::seq_view;
use crate::ids::MemoryId;
use crate::links::share_millionths;
use crate::memories::{newer, newest_first, str_less};
use crate::order::{lex_less, sorted_unique};
use crate::pieces::{words, words_of};
use crate::query::{at_most, first_n, lemma_filter_push, select, sort_rows};
use crate::schemas::Strength;
use crate::sidecar::{is_stop, is_stopword};
use crate::sorting::stable_sort;
use crate::store::{Database, DatabaseView, MemoryRow, MemoryRowView, StoreError};
use crate::text::{lower, lowercase, slice, to_chars, views};
use crate::wordsets::{
    byte_len, common_count, has_bytes, lemma_ascending_distinct, overlap, union_count,
};
use vstd::prelude::*;

verus! {

/// Least number of bytes of a word that counts.
pub const MIN_WORD_BYTES: usize = 3;

/// How many older memories are looked at for one that a memory replaces.
pub const SUPERSEDE_CANDIDATES: usize = 20;

/// The difference between two versions of a memory.
#[derive(Debug)]
pub struct VersionDiff {
    pub from_version: u32,
    pub to_version: u32,
    pub from_content: String,
    pub to_content: String,
    pub similarity: Strength,
    pub words_added: usize,
    pub words_removed: usize,
    pub from_created_at: String,
    pub to_created_at: String,
}

/// The value of a [`VersionDiff`].
pub struct VersionDiffView {
    pub from_version: u32,
    pub to_version: u32,
    pub from_content: Seq<char>,
    pub to_content: Seq<char>,
    pub similarity: Strength,
    pub words_added: nat,
    pub words_removed: nat,
    pub from_created_at: Seq<char>,
    pub to_created_at: Seq<char>,
}

impl View for VersionDiff {
    type V = VersionDiffView;

    open spec fn view(&self) -> VersionDiffView {
        VersionDiffView {
            from_version: self.from_version,
            to_version: self.to_version,
            from_content: self.from_content@,
            to_content: self.to_content@,
            similarity: self.similarity,
            words_added: self.words_added as nat,
            words_removed: self.words_removed as nat,
            from_created_at: self.from_created_at@,
            to_created_at: self.to_created_at@,
        }
    }
}

/// The word counts: it takes three bytes or more and is no stop word.
pub open spec fn counts() -> spec_fn(Seq<char>) -> bool {
    |w: Seq<char>| byte_len(w) >= MIN_WORD_BYTES && !is_stopword(w)
}

/// The words of a text that count, in lower case, in their order.
pub open spec fn content_words(text: Seq<char>) -> Seq<Seq<char>> {
    words(lowercase(text)).filter(counts())
}

/// Number of different texts of `a` that `b` lacks.
pub open spec fn only_in(a: Seq<Seq<char>>, b: Seq<Seq<char>>) -> nat {
    a.to_set().difference(b.to_set()).len()
}

/// The share of the different words of two texts that both hold, in
/// millionths; nothing if neither holds a word.
pub open spec fn similarity(a: Seq<char>, b: Seq<char>) -> Strength {
    Strength {
        millionths: share_millionths(
            common_count(content_words(a), content_words(b)),
            union_count(content_words(a), content_words(b)),
        ) as u32,
    }
}

/// The share of the different words of two texts that both hold is at
/// least `threshold`.
pub open spec fn similar_enough(a: Seq<char>, b: Seq<char>, threshold: Strength) -> bool {
    let common = common_count(content_words(a), content_words(b));
    let total = union_count(content_words(a), content_words(b));
    if total == 0 {
        threshold.millionths == 0
    } else {
        common * 1_000_000 >= threshold.millionths * total
    }
}

/// The memory may have been replaced by the memory `m`: it has the same
/// topic text, another identifier, and was created before.
pub open spec fn may_precede(m: MemoryRowView) -> spec_fn(MemoryRowView) -> bool {
    |r: MemoryRowView|
        r.memory.topic == m.memory.topic && r.memory.id != m.memory.id && lex_less(
            r.memory.created_at,
            m.memory.created_at,
        )
}

/// The candidates whose text is similar enough to `text`, each with its
/// similarity, in the order of the candidates.
pub open spec fn similar_among(candidates: Seq<MemoryRowView>, text: Seq<char>, threshold: Strength)
    -> Seq<(Seq<char>, Strength)>
    decreases candidates.len(),
{
    if candidates.len() == 0 {
        Seq::empty()
    } else {
        let rest = similar_among(candidates.drop_last(), text, threshold);
        let c = candidates.last();
        if similar_enough(text, c.memory.text, threshold) {
            rest.push((c.memory.id, similarity(text, c.memory.text)))
        } else {
            rest
        }
    }
}

impl DatabaseView {
    /// The difference between two stored versions of a memory.
    pub open spec fn version_diff(self, memory_id: Seq<char>, from: u32, to: u32) -> Option<
        VersionDiffView,
    > {
        match (self.version_numbered(memory_id, from), self.version_numbered(memory_id, to)) {
            (Some(a), Some(b)) => Some(
                VersionDiffView {
                    from_version: from,
                    to_version: to,
                    from_content: a.content,
                    to_content: b.content,
                    similarity: similarity(a.content, b.content),
                    words_added: only_in(content_words(b.content), content_words(a.content)),
                    words_removed: only_in(content_words(a.content), content_words(b.content)),
                    from_created_at: a.created_at,
                    to_created_at: b.created_at,
                },
            ),
            _ => None,
        }
    }

    /// The older memories that the memory `m` may replace: of the newest
    /// [`SUPERSEDE_CANDIDATES`] older memories of its topic, those whose
    /// text is similar enough, the most similar first.
    pub open spec fn potential_supersedes(self, m: MemoryRowView, threshold: Strength) -> Seq<
        (Seq<char>, Strength),
    > {
        stable_sort(
            similar_among(
                at_most(
                    newest_first(self.memories.filter(may_precede(m))),
                    SUPERSEDE_CANDIDATES as nat,
                ),
                m.memory.text,
                threshold,
            ),
            |a: (Seq<char>, Strength), b: (Seq<char>, Strength)|
                a.1.millionths > b.1.millionths,
        )
    }
}

/// The words of a text that count, in lower case.
pub fn content_words_of(text: &str) -> (r: Vec<Vec<char>>)
    ensures
        views(r@) == content_words(text@),
{
    let all = words_of(&lower(&to_chars(text)));
    let ghost av = views(all@);
    let ghost p = counts();
    let mut out: Vec<Vec<char>> = Vec::new();
    let mut i: usize = 0;
    proof {
        reveal(Seq::filter);
        assert(views(out@) =~= av.take(0).filter(p));
    }
    while i < all.len()
        invariant
            i <= all.len(),
            av == views(all@),
            p == counts(),
            views(out@) == av.take(i as int).filter(p),
        decreases all.len() - i,
    {
        let ghost ov = views(out@);
        proof {
            assert(av[i as int] == all@[i as int]@);
            assert(av.take(i + 1) =~= av.take(i as int).push(av[i as int]));
            lemma_filter_push(av.take(i as int), av[i as int], p);
        }
        if has_bytes(&all[i], MIN_WORD_BYTES) && !is_stop(&all[i]) {
            out.push(slice(&all[i], 0, all[i].len()));
            assert(out@[out.len() - 1]@ =~= av[i as int]);
            assert(views(out@) =~= ov.push(av[i as int]));
        }
        i += 1;
    }
    proof {
        assert(av.take(all.len() as int) =~= av);
    }
    out
}

/// A finite set is as large as its part inside another set and its part
/// outside it together.
pub proof fn lemma_split_len<A>(a: Set<A>, b: Set<A>)
    requires
        a.finite(),
    ensures
        a.len() == a.difference(b).len() + a.intersect(b).len(),
{
    let outside = a.difference(b);
    let inside = a.intersect(b);
    vstd::set_lib::lemma_len_difference(a, b);
    vstd::set_lib::lemma_len_intersect(a, b);
    assert(outside.disjoint(inside));
    assert(outside + inside =~= a);
    vstd::set_lib::lemma_set_disjoint_lens(outside, inside);
}

/// The number of different words that the second text holds and the first
/// lacks, and the number that the first holds and the second lacks.
pub fn count_word_changes(text1: &str, text2: &str) -> (r: (usize, usize))
    ensures
        r.0 == only_in(content_words(text2@), content_words(text1@)),
        r.1 == only_in(content_words(text1@), content_words(text2@)),
{
    broadcast use vstd::seq_lib::seq_to_set_is_finite;

    let a = content_words_of(text1);
    let b = content_words_of(text2);
    let ua = sorted_unique(&a);
    let ub = sorted_unique(&b);
    let o = overlap(&a, &b);
    proof {
        let sa = views(a@).to_set();
        let sb = views(b@).to_set();
        lemma_ascending_distinct(views(ua@));
        lemma_ascending_distinct(views(ub@));
        views(ua@).unique_seq_to_set();
        views(ub@).unique_seq_to_set();
        lemma_split_len(sa, sb);
        lemma_split_len(sb, sa);
        assert(sa.intersect(sb) =~= sb.intersect(sa));
        assert(views(ua@).len() == ua.len());
        assert(views(ub@).len() == ub.len());
    }
    ((ub.len() as u128 - o.common) as usize, (ua.len() as u128 - o.common) as usize)
}

/// The share of the different words of two texts that both hold.
pub fn calculate_text_similarity(text1: &str, text2: &str) -> (r: Strength)
    ensures
        r == similarity(text1@, text2@),
        r.valid(),
{
    let a = content_words_of(text1);
    let b = content_words_of(text2);
    let o = overlap(&a, &b);
    let common: u128 = o.common;
    let total: u128 = o.total;
    if total == 0 {
        Strength { millionths: 0 }
    } else {
        let wide: u128 = common * 1_000_000 / total;
        assert(wide <= 1_000_000) by (nonlinear_arith)
            requires
                wide == (common * 1_000_000) / (total as int),
                common <= total,
                total > 0,
        ;
        Strength { millionths: wide as u32 }
    }
}

/// Whether the share of the different words of two texts that both hold is
/// at least `threshold`.
pub fn is_similar_enough(text1: &str, text2: &str, threshold: Strength) -> (r: bool)
    ensures
        r == similar_enough(text1@, text2@, threshold),
{
    let a = content_words_of(text1);
    let b = content_words_of(text2);
    let o = overlap(&a, &b);
    let common: u128 = o.common;
    let total: u128 = o.total;
    if total == 0 {
        threshold.millionths == 0
    } else {
        let t: u128 = threshold.millionths as u128;
        assert(t * total <= 0x1_0000_0000 * 0x2_0000_0000_0000_0000) by (nonlinear_arith)
            requires
                t <= 0xffff_ffff,
                total <= 0x2_0000_0000_0000_0000,
        ;
        common * 1_000_000 >= t * total
    }
}

impl Database {
    /// The difference between two stored versions of a memory. Fails with
    /// `NotFound` unless both are stored.
    pub fn get_version_diff(&self, memory_id: &MemoryId, from_version: u32, to_version: u32) -> (r:
        Result<VersionDiff, StoreError>)
        ensures
            match self@.version_diff(memory_id@, from_version, to_version) {
                Some(d) => r matches Ok(x) && x@ == d,
                None => r matches Err(e) && e == StoreError::NotFound,
            },
    {
        let from = self.get_version_by_number(memory_id, from_version);
        let to = self.get_version_by_number(memory_id, to_version);
        match (from, to) {
            (Some(a), Some(b)) => {
                let similarity = calculate_text_similarity(a.content.as_str(), b.content.as_str());
                let changed = count_word_changes(a.content.as_str(), b.content.as_str());
                Ok(
                    VersionDiff {
                        from_version,
                        to_version,
                        from_content: a.content,
                        to_content: b.content,
                        similarity,
                        words_added: changed.0,
                        words_removed: changed.1,
                        from_created_at: a.created_at,
                        to_created_at: b.created_at,
                    },
                )
            },
            _ => Err(StoreError::NotFound),
        }
    }

    /// The older memories that a memory may replace, each with the
    /// similarity of its text, the most similar first; none for a memory
    /// that is not stored.
    pub fn find_potential_supersedes(&self, memory_id: &MemoryId, threshold: Strength) -> (r: Vec<
        (MemoryId, Strength),
    >)
        ensures
            seq_view(r@) == match self@.memory(memory_id@) {
                Some(m) => self@.potential_supersedes(m, threshold),
                None => Seq::empty(),
            },
    {
        let i = match self.memory_index(memory_id) {
            Some(i) => i,
            None => {
                let none: Vec<(MemoryId, Strength)> = Vec::new();
                assert(seq_view(none@) =~= Seq::<(Seq<char>, Strength)>::empty());
                return none;
            },
        };
        let m = &self.memories[i];
        assert(self@.memories[i as int] == self.memories@[i as int]@);
        let ghost p = may_precede(m@);
        let pick = |r: &MemoryRow| -> (o: bool)
            ensures
                o == p(r@),
            {
                r.memory.topic == m.memory.topic && r.memory.id != m.memory.id && str_less(
                    r.memory.created_at.as_str(),
                    m.memory.created_at.as_str(),
                )
            };
        let rows = select(&self.memories, pick, Ghost(p));
        let ghost before = |a: MemoryRowView, b: MemoryRowView| newer(a, b);
        let later = |a: &MemoryRow, b: &MemoryRow| -> (o: bool)
            ensures
                o == before(a@, b@),
            { str_less(b.memory.created_at.as_str(), a.memory.created_at.as_str()) };
        let candidates = first_n(sort_rows(rows, later, Ghost(before)), SUPERSEDE_CANDIDATES);
        let ghost cv = seq_view(candidates@);
        let mut found: Vec<(MemoryId, Strength)> = Vec::new();
        let mut k: usize = 0;
        proof {
            assert(seq_view(found@) =~= similar_among(cv.take(0), m@.memory.text, threshold));
        }
        while k < candidates.len()
            invariant
                k <= candidates.len(),
                cv == seq_view(candidates@),
                seq_view(found@) == similar_among(cv.take(k as int), m@.memory.text, threshold),
            decreases candidates.len() - k,
        {
            let ghost fv = seq_view(found@);
            proof {
                assert(cv[k as int] == candidates@[k as int]@);
                assert(cv.take(k + 1).drop_last() =~= cv.take(k as int));
                assert(cv.take(k + 1).last() == cv[k as int]);
            }
            let c = &candidates[k];
            if is_similar_enough(m.memory.text.as_str(), c.memory.text.as_str(), threshold) {
                let s = calculate_text_similarity(m.memory.text.as_str(), c.memory.text.as_str());
                found.push((c.memory.id.clone(), s));
                assert(seq_view(found@) =~= fv.push((cv[k as int].memory.id, s)));
            }
            k += 1;
        }
        proof {
            assert(cv.take(candidates.len() as int) =~= cv);
        }
        let ghost above = |a: (Seq<char>, Strength), b: (Seq<char>, Strength)|
            a.1.millionths > b.1.millionths;
        let more = |a: &(MemoryId, Strength), b: &(MemoryId, Strength)| -> (o: bool)
            ensures
                o == above(a@, b@),
            { a.1.millionths > b.1.millionths };
        sort_rows(found, more, Ghost(above))
    }
}

} // verus!
