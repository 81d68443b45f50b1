//! Rendering the preamble of a context capsule in one of three styles.

use crate::clock::{now_unix, parse_rfc3339, rfc3339_seconds};
use crate::dup::seq_view;
use crate::pieces::{join, join_with_str, lines, lines_of, signed_decimal, split, split_on_char};
use crate::query::{at_most, select};
use crate::schemas::{ContextStyle, Memory, MemoryKind, MemoryView, SnippetView};
use crate::store::{find_first, lemma_find_first, lemma_find_none};
use crate::text::{append, append_str, from_chars, slice, to_chars, trim, trimmed, views};
use vstd::prelude::*;

verus! {

/// Most characters of a text that is its own gist.
pub const GIST_CHARS: usize = 50;

/// Fewest characters of a snippet line that is too long for the short style.
pub const SHORT_SNIPPET_CHARS: usize = 80;

/// The footer of the standard style.
pub open spec fn standard_footer() -> Seq<char> {
    "Instructions: Use the context to answer. Don't restate it. Ask one concise follow-up if a key detail is missing."@
}

/// The closing instruction of the detailed style.
pub open spec fn detailed_footer() -> Seq<char> {
    "Use this context to inform your responses. Reference specific details when relevant. If critical information is missing, ask clarifying questions before proceeding."@
}

/// The gist of a text: the text itself if it has at most 50 characters,
/// else the first 50 characters of what stands before its first full stop,
/// trimmed, with three dots.
pub open spec fn gist(text: Seq<char>) -> Seq<char> {
    if text.len() <= GIST_CHARS {
        text
    } else {
        trim(at_most(split(text, seq!['.'])[0], GIST_CHARS as nat)) + "..."@
    }
}

/// The quotient of two integers, rounded towards zero.
pub open spec fn toward_zero(a: int, b: int) -> int
    recommends
        b > 0,
{
    if a >= 0 {
        a / b
    } else {
        -((-a) / b)
    }
}

/// An age in seconds as a short text: minutes under an hour, hours under a
/// day, days under a week, else weeks.
pub open spec fn age_text(seconds: int) -> Seq<char> {
    if toward_zero(seconds, 3600) < 1 {
        signed_decimal(toward_zero(seconds, 60)) + "m ago"@
    } else if toward_zero(seconds, 86400) < 1 {
        signed_decimal(toward_zero(seconds, 3600)) + "h ago"@
    } else if toward_zero(seconds, 86400) < 7 {
        signed_decimal(toward_zero(seconds, 86400)) + "d ago"@
    } else {
        signed_decimal(toward_zero(seconds, 604800)) + "w ago"@
    }
}

/// How long before `now` the time stamp `created_at` lies, as a short text;
/// `recently` for a text that is no time stamp.
pub open spec fn relative_time(created_at: Seq<char>, now: int) -> Seq<char> {
    match rfc3339_seconds(created_at) {
        Some(t) => age_text(now - t),
        None => "recently"@,
    }
}

/// The memory carries a snippet.
pub open spec fn has_snippet() -> spec_fn(MemoryView) -> bool {
    |m: MemoryView| m.snippet is Some
}

/// The memory is of the kind `kind`.
pub open spec fn of_kind(kind: MemoryKind) -> spec_fn(MemoryView) -> bool {
    |m: MemoryView| m.kind == kind
}

/// The snippet of the first memory that carries one.
pub open spec fn first_snippet(memories: Seq<MemoryView>) -> Option<SnippetView> {
    match find_first(memories, has_snippet()) {
        Some(i) => memories[i].snippet,
        None => None,
    }
}

/// The first line of a text, or the empty text if it has none.
pub open spec fn opening_line(text: Seq<char>) -> Seq<char> {
    if lines(text).len() > 0 {
        lines(text)[0]
    } else {
        Seq::empty()
    }
}

/// The gists of the first two memories.
pub open spec fn recent_gists(memories: Seq<MemoryView>) -> Seq<Seq<char>> {
    at_most(memories, 2).map_values(|m: MemoryView| gist(m.text))
}

/// The gists of the first two memories, each with its age.
pub open spec fn recent_gists_with_age(memories: Seq<MemoryView>, now: int) -> Seq<Seq<char>> {
    at_most(memories, 2).map_values(
        |m: MemoryView| gist(m.text) + " ("@ + relative_time(m.created_at, now) + ")"@,
    )
}

/// The preamble in the short style: the topic, the gists of the two first
/// memories, and the first line of the first snippet if it has fewer than
/// 80 characters; joined by full stops.
pub open spec fn short_preamble(topic: Seq<char>, memories: Seq<MemoryView>) -> Seq<char> {
    join(
        seq!["Context: "@ + topic] + (if memories.len() > 0 {
            seq!["Last: "@ + join(recent_gists(memories), ", "@)]
        } else {
            Seq::empty()
        }) + (match first_snippet(memories) {
            Some(s) => if opening_line(s.text).len() < SHORT_SNIPPET_CHARS {
                seq!["\""@ + opening_line(s.text) + "\""@]
            } else {
                Seq::empty()
            },
            None => Seq::empty(),
        }),
        ". "@,
    )
}

/// The lines that the standard style gives a snippet: its first three
/// lines, and its title and location if it has a location.
pub open spec fn standard_snippet_lines(s: SnippetView) -> Seq<Seq<char>> {
    seq!["• Snip: \""@ + join(at_most(lines(s.text), 3), "\n"@) + "\""@] + match s.loc {
        Some(l) => seq!["  ("@ + s.title + " "@ + l + ")"@],
        None => Seq::empty(),
    }
}

/// The preamble in the standard style.
pub open spec fn standard_preamble(topic: Seq<char>, memories: Seq<MemoryView>, now: int) -> Seq<
    char,
> {
    join(
        seq!["Context (continue without re-explaining):"@, "• Project/Topic: "@ + topic] + (
        if memories.len() > 0 {
            seq!["• Recent: "@ + join(recent_gists_with_age(memories, now), "; "@)]
        } else {
            Seq::empty()
        }) + (match first_snippet(memories) {
            Some(s) => standard_snippet_lines(s),
            None => Seq::empty(),
        }) + seq![standard_footer()],
        "\n"@,
    )
}

/// A section of the detailed style: its title and one line for each of the
/// first `most` memories; nothing for no memories.
pub open spec fn section(title: Seq<char>, memories: Seq<MemoryView>, most: nat) -> Seq<Seq<char>> {
    if memories.len() == 0 {
        Seq::empty()
    } else {
        seq![title] + at_most(memories, most).map_values(|m: MemoryView| "- "@ + m.text)
    }
}

/// The lines that the detailed style gives the snippets of the memories.
pub open spec fn snippet_blocks(memories: Seq<MemoryView>) -> Seq<Seq<char>>
    decreases memories.len(),
{
    if memories.len() == 0 {
        Seq::empty()
    } else {
        snippet_blocks(memories.drop_last()) + match memories.last().snippet {
            Some(s) => seq!["\n#### "@ + s.title] + (match s.loc {
                Some(l) => seq!["Location: "@ + l],
                None => Seq::empty(),
            }) + seq!["```\n"@ + s.text + "\n```"@],
            None => Seq::empty(),
        }
    }
}

/// The section of code snippets of the detailed style.
pub open spec fn snippet_section(memories: Seq<MemoryView>) -> Seq<Seq<char>> {
    if memories.len() == 0 {
        Seq::empty()
    } else {
        seq!["\n### Code Snippets:"@] + snippet_blocks(at_most(memories, 2))
    }
}

/// The preamble in the detailed style: up to three decisions, five facts,
/// three tasks and two code snippets, and the instructions.
pub open spec fn detailed_preamble(topic: Seq<char>, memories: Seq<MemoryView>) -> Seq<char> {
    join(
        seq!["# Context Summary"@, "\n## Project: "@ + topic, "\n## Recent Activities:"@] + section(
            "\n### Decisions:"@,
            memories.filter(of_kind(MemoryKind::Decision)),
            3,
        ) + section("\n### Facts:"@, memories.filter(of_kind(MemoryKind::Fact)), 5) + section(
            "\n### Tasks:"@,
            memories.filter(of_kind(MemoryKind::Task)),
            3,
        ) + snippet_section(memories.filter(of_kind(MemoryKind::Snippet))) + seq![
            "\n## Instructions:"@,
            detailed_footer(),
        ],
        "\n"@,
    )
}

/// The preamble in the given style.
pub open spec fn preamble(
    style: ContextStyle,
    topic: Seq<char>,
    memories: Seq<MemoryView>,
    now: int,
) -> Seq<char> {
    match style {
        ContextStyle::Short => short_preamble(topic, memories),
        ContextStyle::Standard => standard_preamble(topic, memories, now),
        ContextStyle::Detailed => detailed_preamble(topic, memories),
    }
}

/// A text made of a prefix, a body and a suffix.
fn framed(prefix: &str, body: &Vec<char>, suffix: &str) -> (r: Vec<char>)
    ensures
        r@ == prefix@ + body@ + suffix@,
{
    let mut v: Vec<char> = Vec::new();
    append_str(&mut v, prefix);
    append(&mut v, body);
    append_str(&mut v, suffix);
    assert(v@ =~= prefix@ + body@ + suffix@);
    v
}

/// The quotient of a number of seconds and a positive unit, rounded
/// towards zero.
fn whole(seconds: i128, unit: i128) -> (r: i128)
    requires
        unit > 0,
        -0xFFFF_FFFF_FFFF_FFFF <= seconds <= 0xFFFF_FFFF_FFFF_FFFF,
    ensures
        r == toward_zero(seconds as int, unit as int),
        -0xFFFF_FFFF_FFFF_FFFF <= r <= 0xFFFF_FFFF_FFFF_FFFF,
{
    if seconds >= 0 {
        let q = (seconds as u128) / (unit as u128);
        assert(q <= seconds) by (nonlinear_arith)
            requires
                q == (seconds as int) / (unit as int),
                seconds >= 0,
                unit > 0,
        ;
        q as i128
    } else {
        let m: u128 = (-seconds) as u128;
        let q = m / (unit as u128);
        assert(q <= m) by (nonlinear_arith)
            requires
                q == (m as int) / (unit as int),
                m >= 0,
                unit > 0,
        ;
        -(q as i128)
    }
}

/// Renders context preambles.
pub struct TemplateRenderer;

impl TemplateRenderer {
    /// A renderer.
    pub fn new() -> (r: Self) {
        TemplateRenderer
    }

    /// The gist of a memory's text.
    pub fn gist_from_memory(&self, memory: &Memory) -> (r: String)
        ensures
            r@ == gist(memory@.text),
    {
        from_chars(&Self::gist_chars(memory))
    }

    /// The gist of a memory's text as characters.
    fn gist_chars(memory: &Memory) -> (r: Vec<char>)
        ensures
            r@ == gist(memory@.text),
    {
        let text = to_chars(memory.text.as_str());
        if text.len() <= GIST_CHARS {
            text
        } else {
            let pieces = split_on_char(&text, '.');
            assert(views(pieces@)[0] == pieces@[0]@);
            let first = &pieces[0];
            let cut = if first.len() > GIST_CHARS {
                slice(first, 0, GIST_CHARS)
            } else {
                slice(first, 0, first.len())
            };
            assert(cut@ =~= at_most(first@, GIST_CHARS as nat));
            let mut out = trimmed(&cut);
            append_str(&mut out, "...");
            out
        }
    }

    /// How long before `now` the time stamp lies, as a short text.
    pub fn format_relative_time(&self, rfc3339: &str, now: i64) -> (r: String)
        ensures
            r@ == relative_time(rfc3339@, now as int),
    {
        from_chars(&Self::relative_chars(rfc3339, now))
    }

    /// An age as a number and a unit.
    fn age_chars(n: i128, unit: &str) -> (r: Vec<char>)
        requires
            -0xFFFF_FFFF_FFFF_FFFF <= n <= 0xFFFF_FFFF_FFFF_FFFF,
        ensures
            r@ == signed_decimal(n as int) + unit@,
    {
        let mut out: Vec<char> = Vec::new();
        if n < 0 {
            out.push('-');
            crate::pieces::push_decimal(&mut out, (-n) as u64);
            assert(out@ =~= seq!['-'] + crate::pieces::decimal((-n) as nat));
            assert(out@ =~= signed_decimal(n as int));
        } else {
            crate::pieces::push_decimal(&mut out, n as u64);
            assert(out@ =~= signed_decimal(n as int));
        }
        append_str(&mut out, unit);
        out
    }

    /// How long before `now` the time stamp lies, as characters.
    fn relative_chars(rfc3339: &str, now: i64) -> (r: Vec<char>)
        ensures
            r@ == relative_time(rfc3339@, now as int),
    {
        match parse_rfc3339(rfc3339) {
            None => to_chars("recently"),
            Some(t) => {
                let seconds: i128 = now as i128 - t as i128;
                let hours = whole(seconds, 3600);
                let days = whole(seconds, 86400);
                if hours < 1 {
                    Self::age_chars(whole(seconds, 60), "m ago")
                } else if days < 1 {
                    Self::age_chars(hours, "h ago")
                } else if days < 7 {
                    Self::age_chars(days, "d ago")
                } else {
                    Self::age_chars(whole(seconds, 604800), "w ago")
                }
            },
        }
    }

    /// Index of the first memory that carries a snippet.
    fn first_with_snippet(memories: &Vec<Memory>) -> (r: Option<usize>)
        ensures
            match r {
                Some(i) => i < memories.len() && memories@[i as int].snippet is Some && find_first(
                    seq_view(memories@),
                    has_snippet(),
                ) == Some(i as int),
                None => find_first(seq_view(memories@), has_snippet()) is None,
            },
    {
        let ghost ms = seq_view(memories@);
        let mut i: usize = 0;
        while i < memories.len()
            invariant
                i <= memories.len(),
                ms == seq_view(memories@),
                forall|j: int| 0 <= j < i ==> !has_snippet()(ms[j]),
            decreases memories.len() - i,
        {
            assert(ms[i as int] == memories@[i as int]@);
            if memories[i].snippet.is_some() {
                proof {
                    lemma_find_first(ms, has_snippet(), i as int);
                }
                return Some(i);
            }
            i += 1;
        }
        proof {
            lemma_find_none(ms, has_snippet());
        }
        None
    }

    /// The preamble in the short style.
    pub fn render_short(&self, topic: &str, memories: &Vec<Memory>, _token_budget: u64) -> (r:
        String)
        ensures
            r@ == short_preamble(topic@, seq_view(memories@)),
    {
        let ghost ms = seq_view(memories@);
        let mut parts: Vec<Vec<char>> = Vec::new();
        parts.push(framed("Context: ", &to_chars(topic), ""));
        proof {
            reveal_strlit("");
            assert(views(parts@) =~= seq!["Context: "@ + topic@]);
        }
        let mut recent: Vec<Vec<char>> = Vec::new();
        let mut i: usize = 0;
        while i < memories.len() && i < 2
            invariant
                i <= memories.len(),
                i <= 2,
                ms == seq_view(memories@),
                recent.len() == i,
                forall|j: int| 0 <= j < i ==> recent@[j]@ == gist(ms[j].text),
            decreases memories.len() - i,
        {
            assert(ms[i as int] == memories@[i as int]@);
            recent.push(Self::gist_chars(&memories[i]));
            i += 1;
        }
        assert(views(recent@) =~= recent_gists(ms));
        if recent.len() > 0 {
            let ghost before = views(parts@);
            let joined = join_with_str(&recent, ", ");
            parts.push(framed("Last: ", &joined, ""));
            assert(views(parts@) =~= before + seq!["Last: "@ + join(recent_gists(ms), ", "@)]);
        }
        match Self::first_with_snippet(memories) {
            Some(k) => {
                assert(ms[k as int] == memories@[k as int]@);
                match &memories[k].snippet {
                    Some(s) => {
                        let line = crate::pieces::first_line_of(&to_chars(s.text.as_str()));
                        if line.len() < SHORT_SNIPPET_CHARS {
                            let ghost before = views(parts@);
                            parts.push(framed("\"", &line, "\""));
                            assert(views(parts@) =~= before + seq![
                                "\""@ + opening_line(s@.text) + "\""@,
                            ]);
                        }
                    },
                    None => {},
                }
            },
            None => {},
        }
        from_chars(&join_with_str(&parts, ". "))
    }

    /// The preamble in the standard style, with ages counted from `now`, in
    /// seconds since the Unix epoch.
    pub fn render_standard_at(&self, topic: &str, memories: &Vec<Memory>, now: i64) -> (r: String)
        ensures
            r@ == standard_preamble(topic@, seq_view(memories@), now as int),
    {
        let ghost ms = seq_view(memories@);
        let mut out: Vec<Vec<char>> = Vec::new();
        out.push(to_chars("Context (continue without re-explaining):"));
        out.push(framed("• Project/Topic: ", &to_chars(topic), ""));
        proof {
            reveal_strlit("");
            assert(views(out@) =~= seq![
                "Context (continue without re-explaining):"@,
                "• Project/Topic: "@ + topic@,
            ]);
        }
        let mut recent: Vec<Vec<char>> = Vec::new();
        let mut i: usize = 0;
        while i < memories.len() && i < 2
            invariant
                i <= memories.len(),
                i <= 2,
                ms == seq_view(memories@),
                recent.len() == i,
                forall|j: int|
                    0 <= j < i ==> recent@[j]@ == gist(ms[j].text) + " ("@ + relative_time(
                        ms[j].created_at,
                        now as int,
                    ) + ")"@,
            decreases memories.len() - i,
        {
            assert(ms[i as int] == memories@[i as int]@);
            let mut item = Self::gist_chars(&memories[i]);
            append_str(&mut item, " (");
            append(&mut item, &Self::relative_chars(memories[i].created_at.as_str(), now));
            append_str(&mut item, ")");
            recent.push(item);
            i += 1;
        }
        assert(views(recent@) =~= recent_gists_with_age(ms, now as int));
        if recent.len() > 0 {
            let ghost before = views(out@);
            let joined = join_with_str(&recent, "; ");
            out.push(framed("• Recent: ", &joined, ""));
            assert(views(out@) =~= before + seq![
                "• Recent: "@ + join(recent_gists_with_age(ms, now as int), "; "@),
            ]);
        }
        match Self::first_with_snippet(memories) {
            Some(k) => {
                assert(ms[k as int] == memories@[k as int]@);
                match &memories[k].snippet {
                    Some(s) => {
                        let ghost before = views(out@);
                        let three = lines_of(&to_chars(s.text.as_str()), 3);
                        let text = join_with_str(&three, "\n");
                        out.push(framed("• Snip: \"", &text, "\""));
                        match &s.loc {
                            Some(l) => {
                                let mut line: Vec<char> = Vec::new();
                                append_str(&mut line, "  (");
                                append_str(&mut line, s.title.as_str());
                                append_str(&mut line, " ");
                                append_str(&mut line, l.as_str());
                                append_str(&mut line, ")");
                                out.push(line);
                            },
                            None => {},
                        }
                        assert(views(out@) =~= before + standard_snippet_lines(s@));
                    },
                    None => {},
                }
            },
            None => {},
        }
        let ghost before = views(out@);
        out.push(
            to_chars(
                "Instructions: Use the context to answer. Don't restate it. Ask one concise follow-up if a key detail is missing.",
            ),
        );
        assert(views(out@) =~= before + seq![standard_footer()]);
        from_chars(&join_with_str(&out, "\n"))
    }

    /// The preamble in the standard style, with ages counted from the
    /// current time.
    pub fn render_standard(&self, topic: &str, memories: &Vec<Memory>, _token_budget: u64) -> (r:
        String)
        ensures
            exists|now: int| r@ == #[trigger] standard_preamble(topic@, seq_view(memories@), now),
    {
        let now = now_unix();
        let r = self.render_standard_at(topic, memories, now);
        assert(r@ == standard_preamble(topic@, seq_view(memories@), now as int));
        r
    }

    /// Appends a section of the detailed style to `out`.
    fn push_section(out: &mut Vec<Vec<char>>, title: &str, memories: &Vec<Memory>, most: usize)
        ensures
            views(final(out)@) == views(old(out)@) + section(
                title@,
                seq_view(memories@),
                most as nat,
            ),
    {
        let ghost start = views(out@);
        let ghost ms = seq_view(memories@);
        if memories.len() == 0 {
            assert(views(out@) =~= start + section(title@, ms, most as nat));
            return ;
        }
        out.push(to_chars(title));
        let ghost item = |m: MemoryView| "- "@ + m.text;
        let mut i: usize = 0;
        assert(views(out@) =~= start + seq![title@] + ms.take(0).map_values(item));
        while i < memories.len() && i < most
            invariant
                i <= memories.len(),
                i <= most,
                ms == seq_view(memories@),
                item == (|m: MemoryView| "- "@ + m.text),
                views(out@) == start + seq![title@] + ms.take(i as int).map_values(item),
            decreases memories.len() - i,
        {
            let ghost before = views(out@);
            assert(ms[i as int] == memories@[i as int]@);
            let line = framed("- ", &to_chars(memories[i].text.as_str()), "");
            proof {
                reveal_strlit("");
            }
            out.push(line);
            proof {
                assert(views(out@) =~= before.push("- "@ + ms[i as int].text));
                assert(ms.take(i + 1).map_values(item) =~= ms.take(i as int).map_values(item).push(
                    "- "@ + ms[i as int].text,
                ));
            }
            i += 1;
        }
        proof {
            assert(ms.take(i as int) =~= at_most(ms, most as nat));
            assert(views(out@) =~= start + section(title@, ms, most as nat));
        }
    }

    /// Copies of the memories of the kind `kind`.
    fn of_kind(memories: &Vec<Memory>, kind: MemoryKind) -> (r: Vec<Memory>)
        ensures
            seq_view(r@) == seq_view(memories@).filter(of_kind(kind)),
    {
        let ghost p = of_kind(kind);
        let pick = |m: &Memory| -> (o: bool)
            ensures
                o == p(m@),
            { m.kind == kind };
        select(memories, pick, Ghost(p))
    }

    /// The preamble in the detailed style.
    pub fn render_detailed(&self, topic: &str, memories: &Vec<Memory>, _token_budget: u64) -> (r:
        String)
        ensures
            r@ == detailed_preamble(topic@, seq_view(memories@)),
    {
        let ghost ms = seq_view(memories@);
        let mut out: Vec<Vec<char>> = Vec::new();
        out.push(to_chars("# Context Summary"));
        out.push(framed("\n## Project: ", &to_chars(topic), ""));
        out.push(to_chars("\n## Recent Activities:"));
        proof {
            reveal_strlit("");
            assert(views(out@) =~= seq![
                "# Context Summary"@,
                "\n## Project: "@ + topic@,
                "\n## Recent Activities:"@,
            ]);
        }
        let decisions = Self::of_kind(memories, MemoryKind::Decision);
        let facts = Self::of_kind(memories, MemoryKind::Fact);
        let tasks = Self::of_kind(memories, MemoryKind::Task);
        let snippets = Self::of_kind(memories, MemoryKind::Snippet);
        Self::push_section(&mut out, "\n### Decisions:", &decisions, 3);
        Self::push_section(&mut out, "\n### Facts:", &facts, 5);
        Self::push_section(&mut out, "\n### Tasks:", &tasks, 3);
        let ghost head = views(out@);
        let ghost sv = seq_view(snippets@);
        if snippets.len() > 0 {
            out.push(to_chars("\n### Code Snippets:"));
            let mut i: usize = 0;
            assert(views(out@) =~= head + seq!["\n### Code Snippets:"@] + snippet_blocks(
                sv.take(0),
            ));
            while i < snippets.len() && i < 2
                invariant
                    i <= snippets.len(),
                    i <= 2,
                    sv == seq_view(snippets@),
                    views(out@) == head + seq!["\n### Code Snippets:"@] + snippet_blocks(
                        sv.take(i as int),
                    ),
                decreases snippets.len() - i,
            {
                let ghost before = views(out@);
                proof {
                    assert(sv[i as int] == snippets@[i as int]@);
                    assert(sv.take(i + 1).drop_last() =~= sv.take(i as int));
                    assert(sv.take(i + 1).last() == sv[i as int]);
                }
                match &snippets[i].snippet {
                    Some(s) => {
                        out.push(framed("\n#### ", &to_chars(s.title.as_str()), ""));
                        match &s.loc {
                            Some(l) => {
                                out.push(framed("Location: ", &to_chars(l.as_str()), ""));
                            },
                            None => {},
                        }
                        out.push(framed("```\n", &to_chars(s.text.as_str()), "\n```"));
                        proof {
                            reveal_strlit("");
                            assert(views(out@) =~= before + (seq!["\n#### "@ + s@.title] + (
                            match s@.loc {
                                Some(l) => seq!["Location: "@ + l],
                                None => Seq::empty(),
                            }) + seq!["```\n"@ + s@.text + "\n```"@]));
                        }
                    },
                    None => {
                        assert(views(out@) =~= before + Seq::<Seq<char>>::empty());
                    },
                }
                i += 1;
            }
            proof {
                assert(sv.take(i as int) =~= at_most(sv, 2));
                assert(views(out@) =~= head + snippet_section(sv));
            }
        } else {
            assert(views(out@) =~= head + snippet_section(sv));
        }
        let ghost before = views(out@);
        out.push(to_chars("\n## Instructions:"));
        out.push(
            to_chars(
                "Use this context to inform your responses. Reference specific details when relevant. If critical information is missing, ask clarifying questions before proceeding.",
            ),
        );
        assert(views(out@) =~= before + seq!["\n## Instructions:"@, detailed_footer()]);
        from_chars(&join_with_str(&out, "\n"))
    }

    /// The preamble in the given style, with ages counted from `now`, in
    /// seconds since the Unix epoch.
    pub fn render_at(
        &self,
        style: &ContextStyle,
        topic: &str,
        memories: &Vec<Memory>,
        token_budget: u64,
        now: i64,
    ) -> (r: String)
        ensures
            r@ == preamble(*style, topic@, seq_view(memories@), now as int),
    {
        match style {
            ContextStyle::Short => self.render_short(topic, memories, token_budget),
            ContextStyle::Standard => self.render_standard_at(topic, memories, now),
            ContextStyle::Detailed => self.render_detailed(topic, memories, token_budget),
        }
    }

    /// The preamble in the given style, with ages counted from the current
    /// time.
    pub fn render(
        &self,
        style: &ContextStyle,
        topic: &str,
        memories: &Vec<Memory>,
        token_budget: u64,
    ) -> (r: String)
        ensures
            exists|now: int| r@ == #[trigger] preamble(*style, topic@, seq_view(memories@), now),
    {
        let now = now_unix();
        let r = self.render_at(style, topic, memories, token_budget, now);
        assert(r@ == preamble(*style, topic@, seq_view(memories@), now as int));
        r
    }
}

} // verus!
