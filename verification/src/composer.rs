//! Composing context capsules: a style and a number of memories chosen by
//! the token budget, a rendered preamble with its bookkeeping, a cache by
//! thread, and the change class between two capsules.

use crate::clock::now_unix;
use crate::dup::{opt_view, seq_view};
use crate::ids::{generate_capsule_id, is_generated, CapsuleId};
use crate::pieces::{decimal, push_decimal, words, words_of};
use crate::schemas::{
    ContextCapsule, ContextCapsuleView, ContextRequest, ContextRequestView, ContextStyle, Memory,
    MemoryView, Message, MessageRole, MessageView, ProvenanceItem, ProvenanceItemView,
    ProvenanceType,
};
use crate::store::{find_first, lemma_find_first, lemma_find_none};
use crate::templates::{preamble, TemplateRenderer};
use crate::text::{append_str, from_chars, to_chars};
use crate::wordsets::{common_count, overlap, union_count};
use vstd::prelude::*;

verus! {

/// Seconds for which a capsule stays valid.
pub const CAPSULE_TTL_SECS: u64 = 600;

/// Budget below which the short style is used.
pub const SHORT_BUDGET: u64 = 100;

/// Budget below which the standard style is used.
pub const STANDARD_BUDGET: u64 = 300;

/// Tokens reckoned for one memory.
pub const TOKENS_PER_MEMORY: u64 = 40;

/// Fewest memories asked for.
pub const MIN_MEMORIES: u64 = 5;

/// Most memories asked for.
pub const MAX_MEMORIES: u64 = 50;

/// The change class between two capsules.
#[derive(Debug, Clone, Copy, PartialEq, Eq, Structural)]
pub enum DeltaResult {
    /// The preambles are the same.
    NoChange,
    /// The preambles differ in few words.
    Small,
    /// The preambles differ.
    Changed,
}

/// The style that a token budget calls for.
pub open spec fn style_for(budget: u64) -> ContextStyle {
    if budget < SHORT_BUDGET {
        ContextStyle::Short
    } else if budget < STANDARD_BUDGET {
        ContextStyle::Standard
    } else {
        ContextStyle::Detailed
    }
}

/// The number of memories that a token budget calls for: one for each 40
/// tokens, at least 5 and at most 50.
pub open spec fn memory_limit_for(budget: u64) -> nat {
    let n = budget / TOKENS_PER_MEMORY;
    if n < MIN_MEMORIES {
        MIN_MEMORIES as nat
    } else if n > MAX_MEMORIES {
        MAX_MEMORIES as nat
    } else {
        n as nat
    }
}

/// The topic of a request: its hint, or `General`.
pub open spec fn topic_of(request: ContextRequestView) -> Seq<char> {
    match request.topic_hint {
        Some(t) => t,
        None => "General"@,
    }
}

/// The tokens that a preamble is reckoned to take: a quarter of its bytes.
pub open spec fn token_estimate(preamble: Seq<char>) -> nat {
    ((vstd::utf8::encode_utf8(preamble).len() as usize) / 4) as nat
}

/// The capsule composed for a request from the given memories under the
/// identifier `id` at the time `now`.
pub open spec fn composed(
    request: ContextRequestView,
    memories: Seq<MemoryView>,
    id: Seq<char>,
    now: int,
) -> ContextCapsuleView {
    let style = style_for(request.budget_tokens);
    let text = preamble(style, topic_of(request), memories, now);
    ContextCapsuleView {
        capsule_id: id,
        preamble_text: text,
        messages: seq![MessageView { role: MessageRole::System, content: text }],
        provenance: seq![
            ProvenanceItemView {
                kind: ProvenanceType::Memory,
                reference: decimal(memories.len()) + " memories"@,
                when: None,
            },
        ],
        delta_of: request.last_capsule_id,
        ttl_sec: CAPSULE_TTL_SECS,
        token_count: Some(token_estimate(text) as u64),
        style: Some(style),
    }
}

/// The two preambles share more than nine in ten of the words that occur in
/// either.
pub open spec fn nearly_same(a: Seq<char>, b: Seq<char>) -> bool {
    10 * common_count(words(a), words(b)) > 9 * union_count(words(a), words(b)) || union_count(
        words(a),
        words(b),
    ) == 0
}

/// The change class between two preambles.
pub open spec fn delta(prev: Seq<char>, current: Seq<char>) -> DeltaResult {
    if prev == current {
        DeltaResult::NoChange
    } else if nearly_same(prev, current) {
        DeltaResult::Small
    } else {
        DeltaResult::Changed
    }
}

/// A capsule kept for a thread.
pub struct CachedCapsule {
    pub thread_key: String,
    pub capsule: ContextCapsule,
}

/// The value of a [`CachedCapsule`].
pub struct CachedCapsuleView {
    pub thread_key: Seq<char>,
    pub capsule: ContextCapsuleView,
}

impl View for CachedCapsule {
    type V = CachedCapsuleView;

    open spec fn view(&self) -> CachedCapsuleView {
        CachedCapsuleView { thread_key: self.thread_key@, capsule: self.capsule@ }
    }
}

/// The entry is kept for the thread `key`.
pub open spec fn kept_for(key: Seq<char>) -> spec_fn(CachedCapsuleView) -> bool {
    |e: CachedCapsuleView| e.thread_key == key
}

/// The cache with `capsule` kept for `key`, in place of what was kept for
/// it before.
pub open spec fn cached(cache: Seq<CachedCapsuleView>, key: Seq<char>, capsule: ContextCapsuleView)
    -> Seq<CachedCapsuleView> {
    match find_first(cache, kept_for(key)) {
        Some(i) => cache.update(i, CachedCapsuleView { thread_key: key, capsule }),
        None => cache.push(CachedCapsuleView { thread_key: key, capsule }),
    }
}

/// The capsule kept for `key`.
pub open spec fn lookup(cache: Seq<CachedCapsuleView>, key: Seq<char>) -> Option<
    ContextCapsuleView,
> {
    match find_first(cache, kept_for(key)) {
        Some(i) => Some(cache[i].capsule),
        None => None,
    }
}

/// The cache after composing for a request.
pub open spec fn cache_after(
    cache: Seq<CachedCapsuleView>,
    request: ContextRequestView,
    capsule: ContextCapsuleView,
) -> Seq<CachedCapsuleView> {
    match request.thread_key {
        Some(k) => cached(cache, k, capsule),
        None => cache,
    }
}

/// Composes context capsules and keeps the last one of each thread.
pub struct Composer {
    renderer: TemplateRenderer,
    cache: Vec<CachedCapsule>,
}

impl View for Composer {
    type V = Seq<CachedCapsuleView>;

    closed spec fn view(&self) -> Seq<CachedCapsuleView> {
        seq_view(self.cache@)
    }
}

impl Composer {
    /// A composer with an empty cache.
    pub fn new() -> (r: Self)
        ensures
            r@ == Seq::<CachedCapsuleView>::empty(),
    {
        let r = Composer { renderer: TemplateRenderer::new(), cache: Vec::new() };
        assert(r@ =~= Seq::<CachedCapsuleView>::empty());
        r
    }

    /// The style that a token budget calls for.
    pub fn select_style(budget_tokens: u64) -> (r: ContextStyle)
        ensures
            r == style_for(budget_tokens),
    {
        if budget_tokens < SHORT_BUDGET {
            ContextStyle::Short
        } else if budget_tokens < STANDARD_BUDGET {
            ContextStyle::Standard
        } else {
            ContextStyle::Detailed
        }
    }

    /// The number of memories that a token budget calls for.
    pub fn memory_limit(budget_tokens: u64) -> (r: usize)
        ensures
            r == memory_limit_for(budget_tokens),
            MIN_MEMORIES <= r <= MAX_MEMORIES,
    {
        let n = budget_tokens / TOKENS_PER_MEMORY;
        if n < MIN_MEMORIES {
            MIN_MEMORIES as usize
        } else if n > MAX_MEMORIES {
            MAX_MEMORIES as usize
        } else {
            n as usize
        }
    }

    /// Index of the entry kept for `key`.
    fn entry_index(&self, key: &str) -> (r: Option<usize>)
        ensures
            match r {
                Some(i) => i < self.cache.len() && find_first(self@, kept_for(key@)) == Some(
                    i as int,
                ),
                None => find_first(self@, kept_for(key@)) is None,
            },
    {
        let ghost rows = self@;
        let wanted = key.to_owned();
        let mut i: usize = 0;
        while i < self.cache.len()
            invariant
                i <= self.cache.len(),
                rows == self@,
                wanted@ == key@,
                forall|j: int| 0 <= j < i ==> !kept_for(key@)(rows[j]),
            decreases self.cache.len() - i,
        {
            assert(rows[i as int] == self.cache@[i as int]@);
            if self.cache[i].thread_key == wanted {
                proof {
                    lemma_find_first(rows, kept_for(key@), i as int);
                }
                return Some(i);
            }
            i += 1;
        }
        proof {
            lemma_find_none(rows, kept_for(key@));
        }
        None
    }

    /// Composes the capsule for `request` from `memories` under the
    /// identifier `id`, with ages counted from `now` in seconds since the
    /// Unix epoch, and keeps it for the request's thread if it names one.
    pub fn compose_with(
        &mut self,
        request: &ContextRequest,
        memories: &Vec<Memory>,
        id: CapsuleId,
        now: i64,
    ) -> (r: ContextCapsule)
        ensures
            r@ == composed(request@, seq_view(memories@), id@, now as int),
            final(self)@ == cache_after(old(self)@, request@, r@),
    {
        let ghost before = self@;
        let topic = match &request.topic_hint {
            Some(t) => t.clone(),
            None => "General".to_owned(),
        };
        let style = Self::select_style(request.budget_tokens);
        let preamble_text = self.renderer.render_at(
            &style,
            topic.as_str(),
            memories,
            request.budget_tokens,
            now,
        );
        let estimated_tokens = (preamble_text.as_str().len() / 4) as u64;
        let mut reference: Vec<char> = Vec::new();
        push_decimal(&mut reference, memories.len() as u64);
        append_str(&mut reference, " memories");
        assert(seq_view(memories@).len() == memories.len());
        let mut messages: Vec<Message> = Vec::new();
        messages.push(Message { role: MessageRole::System, content: preamble_text.clone() });
        let mut provenance: Vec<ProvenanceItem> = Vec::new();
        provenance.push(
            ProvenanceItem {
                kind: ProvenanceType::Memory,
                reference: from_chars(&reference),
                when: None,
            },
        );
        let capsule = ContextCapsule {
            capsule_id: id,
            preamble_text,
            messages,
            provenance,
            delta_of: crate::dup::dup_opt(&request.last_capsule_id),
            ttl_sec: CAPSULE_TTL_SECS,
            token_count: Some(estimated_tokens),
            style: Some(style),
        };
        proof {
            let want = composed(request@, seq_view(memories@), id@, now as int);
            assert(capsule@.messages =~= want.messages);
            assert(capsule@.provenance =~= want.provenance);
            assert(capsule@ == want);
        }
        match &request.thread_key {
            Some(key) => {
                let entry = CachedCapsule { thread_key: key.clone(), capsule: capsule.clone() };
                let ghost ev = entry@;
                match self.entry_index(key.as_str()) {
                    Some(i) => {
                        self.cache.set(i, entry);
                        assert(self@ =~= before.update(i as int, ev));
                    },
                    None => {
                        self.cache.push(entry);
                        assert(self@ =~= before.push(ev));
                    },
                }
            },
            None => {},
        }
        capsule
    }

    /// Composes the capsule for `request` from `memories` under a fresh
    /// identifier, with ages counted from the current time, and keeps it for
    /// the request's thread if it names one.
    pub fn compose(&mut self, request: &ContextRequest, memories: &Vec<Memory>) -> (r:
        ContextCapsule)
        ensures
            exists|id: Seq<char>, now: int|
                {
                    &&& is_generated(id, "cap_"@)
                    &&& r@ == #[trigger] composed(request@, seq_view(memories@), id, now)
                },
            final(self)@ == cache_after(old(self)@, request@, r@),
    {
        let id = generate_capsule_id();
        let now = now_unix();
        let ghost idv = id@;
        let r = self.compose_with(request, memories, id, now);
        assert(r@ == composed(request@, seq_view(memories@), idv, now as int));
        r
    }

    /// The change class between two capsules: `NoChange` for equal
    /// preambles, `Small` for preambles that share more than nine in ten of
    /// their words, else `Changed`.
    pub fn compute_delta(&self, prev: &ContextCapsule, current: &ContextCapsule) -> (r: DeltaResult)
        ensures
            r == delta(prev@.preamble_text, current@.preamble_text),
    {
        if prev.preamble_text == current.preamble_text {
            DeltaResult::NoChange
        } else {
            let a = words_of(&to_chars(prev.preamble_text.as_str()));
            let b = words_of(&to_chars(current.preamble_text.as_str()));
            let o = overlap(&a, &b);
            assert(o.total <= 2 * usize::MAX);
            if o.total == 0 || 10 * o.common > 9 * o.total {
                DeltaResult::Small
            } else {
                DeltaResult::Changed
            }
        }
    }

    /// The capsule kept for a thread.
    pub fn get_cached(&self, thread_key: &str) -> (r: Option<ContextCapsule>)
        ensures
            opt_view(r) == lookup(self@, thread_key@),
    {
        match self.entry_index(thread_key) {
            Some(i) => {
                assert(self@[i as int] == self.cache@[i as int]@);
                Some(self.cache[i].capsule.clone())
            },
            None => None,
        }
    }

    /// Empties the cache.
    pub fn clear_cache(&mut self)
        ensures
            final(self)@ == Seq::<CachedCapsuleView>::empty(),
    {
        self.cache = Vec::new();
        assert(self@ =~= Seq::<CachedCapsuleView>::empty());
    }
}

/// A capsule compared with itself shows no change.
pub proof fn delta_of_same_is_no_change(preamble: Seq<char>)
    ensures
        delta(preamble, preamble) == DeltaResult::NoChange,
{
}

/// Replacing `changed` of the `total` different words of a preamble by as
/// many new words is a small change if fewer than one word in nineteen is
/// replaced.
pub proof fn delta_of_few_changed_words_is_small(
    prev: Seq<char>,
    current: Seq<char>,
    total: nat,
    changed: nat,
)
    requires
        prev != current,
        words(prev).to_set().len() == total,
        words(current).to_set().len() == total,
        common_count(words(prev), words(current)) == total - changed,
        changed <= total,
        19 * changed < total,
    ensures
        delta(prev, current) == DeltaResult::Small,
{
    broadcast use vstd::seq_lib::seq_to_set_is_finite;

    vstd::set_lib::lemma_set_intersect_union_lens(
        words(prev).to_set(),
        words(current).to_set(),
    );
}

} // verus!
