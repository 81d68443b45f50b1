//! Memories by the time of their creation: since a moment, within a span,
//! per day, and the topics that grew most.

use crate::clock::{rfc3339_days_ago, REACHABLE_DAYS};
use crate::dup::seq_view;
use crate::memories::{memories_of, newest_first, str_less, take_memories};
use crate::order::{less, lex_less};
use crate::query::{at_most, first_n, select, sort_rows};
use crate::schemas::{Memory, MemoryView, TopicView};
use crate::sidecar::{tally, tally_of, Tally, TallyView};
use crate::sorting::stable_sort;
use crate::store::{Database, DatabaseView, MemoryRow, MemoryRowView, StoreError};
use crate::text::{from_chars, slice, to_chars, views};
use vstd::prelude::*;

verus! {

/// Number of characters of a time stamp that name its day.
pub const DAY_CHARS: usize = 10;

/// A day with the number of memories created on it.
#[derive(Debug)]
pub struct ActivityDay {
    pub date: String,
    pub memory_count: usize,
}

/// The value of an [`ActivityDay`].
pub struct ActivityDayView {
    pub date: Seq<char>,
    pub memory_count: nat,
}

impl View for ActivityDay {
    type V = ActivityDayView;

    open spec fn view(&self) -> ActivityDayView {
        ActivityDayView { date: self.date@, memory_count: self.memory_count as nat }
    }
}

/// A topic with the number of memories filed under it within a period.
#[derive(Debug)]
pub struct TrendingTopic {
    pub topic_name: String,
    pub memory_count: usize,
    pub period_days: usize,
}

/// The value of a [`TrendingTopic`].
pub struct TrendingTopicView {
    pub topic_name: Seq<char>,
    pub memory_count: nat,
    pub period_days: nat,
}

impl View for TrendingTopic {
    type V = TrendingTopicView;

    open spec fn view(&self) -> TrendingTopicView {
        TrendingTopicView {
            topic_name: self.topic_name@,
            memory_count: self.memory_count as nat,
            period_days: self.period_days as nat,
        }
    }
}

/// The memory was created at `from` or later.
pub open spec fn since(from: Seq<char>) -> spec_fn(MemoryRowView) -> bool {
    |r: MemoryRowView| !lex_less(r.memory.created_at, from)
}

/// The memory was created at `start` or later, and at `end` or before.
pub open spec fn within(start: Seq<char>, end: Seq<char>) -> spec_fn(MemoryRowView) -> bool {
    |r: MemoryRowView|
        !lex_less(r.memory.created_at, start) && !lex_less(end, r.memory.created_at)
}

/// The memory is filed under the topic `id` and was created at `from` or
/// later.
pub open spec fn filed_since(id: Seq<char>, from: Seq<char>) -> spec_fn(MemoryRowView) -> bool {
    |r: MemoryRowView| r.memory.topic_id == Some(id) && !lex_less(r.memory.created_at, from)
}

/// The day of a time stamp: its first ten characters.
pub open spec fn day_of(stamp: Seq<char>) -> Seq<char> {
    if stamp.len() <= DAY_CHARS {
        stamp
    } else {
        stamp.take(DAY_CHARS as int)
    }
}

/// The days of the rows, one for each row.
pub open spec fn days_of(rows: Seq<MemoryRowView>) -> Seq<Seq<char>> {
    rows.map_values(|r: MemoryRowView| day_of(r.memory.created_at))
}

/// Each topic under which a memory was filed since `from`, with the number
/// of those memories, in the order of the topics.
pub open spec fn grown(topics: Seq<TopicView>, rows: Seq<MemoryRowView>, from: Seq<char>, days: nat)
    -> Seq<TrendingTopicView>
    decreases topics.len(),
{
    if topics.len() == 0 {
        Seq::empty()
    } else {
        let rest = grown(topics.drop_last(), rows, from, days);
        let n = rows.filter(filed_since(topics.last().id, from)).len();
        if n > 0 {
            rest.push(
                TrendingTopicView {
                    topic_name: topics.last().name,
                    memory_count: n,
                    period_days: days,
                },
            )
        } else {
            rest
        }
    }
}

impl DatabaseView {
    /// The memories created at `from` or later, newest first.
    pub open spec fn memories_since(self, from: Seq<char>) -> Seq<MemoryView> {
        memories_of(newest_first(self.memories.filter(since(from))))
    }

    /// The memories created from `start` to `end`, newest first.
    pub open spec fn memories_in_range(self, start: Seq<char>, end: Seq<char>) -> Seq<
        MemoryView,
    > {
        memories_of(newest_first(self.memories.filter(within(start, end))))
    }

    /// The days on which memories were created since `from`, the latest
    /// first, each with the number of its memories.
    pub open spec fn activity_since(self, from: Seq<char>) -> Seq<ActivityDayView> {
        stable_sort(
            tally(days_of(self.memories.filter(since(from)))),
            |a: TallyView, b: TallyView| lex_less(b.token, a.token),
        ).map_values(|e: TallyView| ActivityDayView { date: e.token, memory_count: e.count })
    }

    /// The `limit` topics under which the most memories were filed since
    /// `from`.
    pub open spec fn trending_since(self, from: Seq<char>, days: nat, limit: nat) -> Seq<
        TrendingTopicView,
    > {
        at_most(
            stable_sort(
                grown(self.topics, self.memories, from, days),
                |a: TrendingTopicView, b: TrendingTopicView| a.memory_count > b.memory_count,
            ),
            limit,
        )
    }
}

/// The day of a time stamp: its first ten characters.
pub fn day_of_stamp(stamp: &str) -> (r: Vec<char>)
    ensures
        r@ == day_of(stamp@),
{
    let cs = to_chars(stamp);
    if cs.len() <= DAY_CHARS {
        cs
    } else {
        slice(&cs, 0, DAY_CHARS)
    }
}

/// The time stamp of the moment `days` days before the present, `None`
/// where there is no such date. More days than a `u32` holds are never a
/// date; for fewer the clock and the calendar's range decide.
fn days_ago(days: usize) -> (r: Option<String>)
    ensures
        days <= REACHABLE_DAYS ==> r is Some,
        days > u32::MAX ==> r is None,
{
    if days > u32::MAX as usize {
        None
    } else {
        rfc3339_days_ago(days as u32)
    }
}

impl Database {
    /// The memories created at `since` or later, newest first.
    pub fn get_memories_since(&self, from: &str) -> (r: Vec<Memory>)
        ensures
            seq_view(r@) == self@.memories_since(from@),
    {
        let ghost p = since(from@);
        let pick = |r: &MemoryRow| -> (o: bool)
            ensures
                o == p(r@),
            { !str_less(r.memory.created_at.as_str(), from) };
        let rows = select(&self.memories, pick, Ghost(p));
        take_memories(Self::by_creation(rows))
    }

    /// The memories created from `start` to `end`, newest first.
    pub fn get_memories_in_range(&self, start: &str, end: &str) -> (r: Vec<Memory>)
        ensures
            seq_view(r@) == self@.memories_in_range(start@, end@),
    {
        let ghost p = within(start@, end@);
        let pick = |r: &MemoryRow| -> (o: bool)
            ensures
                o == p(r@),
            {
                !str_less(r.memory.created_at.as_str(), start) && !str_less(
                    end,
                    r.memory.created_at.as_str(),
                )
            };
        let rows = select(&self.memories, pick, Ghost(p));
        take_memories(Self::by_creation(rows))
    }

    /// The rows with the newest first.
    fn by_creation(rows: Vec<MemoryRow>) -> (r: Vec<MemoryRow>)
        ensures
            seq_view(r@) == newest_first(seq_view(rows@)),
    {
        let ghost before = |a: MemoryRowView, b: MemoryRowView| crate::memories::newer(a, b);
        let later = |a: &MemoryRow, b: &MemoryRow| -> (o: bool)
            ensures
                o == before(a@, b@),
            { str_less(b.memory.created_at.as_str(), a.memory.created_at.as_str()) };
        sort_rows(rows, later, Ghost(before))
    }

    /// The memories created within the last `days` days by the current
    /// time, newest first. Fails with `BadRequest` where that many days ago
    /// is no representable date.
    pub fn get_memories_of_last_days(&self, days: usize) -> (r: Result<Vec<Memory>, StoreError>)
        ensures
            match r {
                Ok(ms) => exists|from: Seq<char>|
                    seq_view(ms@) == #[trigger] self@.memories_since(from),
                Err(e) => e == StoreError::BadRequest,
            },
            days <= REACHABLE_DAYS ==> r is Ok,
            days > u32::MAX ==> r is Err,
    {
        match days_ago(days) {
            None => Err(StoreError::BadRequest),
            Some(from) => {
                let ms = self.get_memories_since(from.as_str());
                assert(seq_view(ms@) == self@.memories_since(from@));
                Ok(ms)
            },
        }
    }

    /// The memories of the last seven days, newest first.
    pub fn get_this_week_memories(&self) -> (r: Result<Vec<Memory>, StoreError>)
        ensures
            match r {
                Ok(ms) => exists|from: Seq<char>|
                    seq_view(ms@) == #[trigger] self@.memories_since(from),
                Err(e) => e == StoreError::BadRequest,
            },
            r is Ok,
    {
        self.get_memories_of_last_days(7)
    }

    /// The memories of the last thirty days, newest first.
    pub fn get_this_month_memories(&self) -> (r: Result<Vec<Memory>, StoreError>)
        ensures
            match r {
                Ok(ms) => exists|from: Seq<char>|
                    seq_view(ms@) == #[trigger] self@.memories_since(from),
                Err(e) => e == StoreError::BadRequest,
            },
            r is Ok,
    {
        self.get_memories_of_last_days(30)
    }

    /// The memories of the last 365 days, newest first.
    pub fn get_this_year_memories(&self) -> (r: Result<Vec<Memory>, StoreError>)
        ensures
            match r {
                Ok(ms) => exists|from: Seq<char>|
                    seq_view(ms@) == #[trigger] self@.memories_since(from),
                Err(e) => e == StoreError::BadRequest,
            },
            r is Ok,
    {
        self.get_memories_of_last_days(365)
    }

    /// The days on which memories were created since `from`, the latest
    /// first, each with the number of its memories.
    pub fn get_activity_since(&self, from: &str) -> (r: Vec<ActivityDay>)
        ensures
            seq_view(r@) == self@.activity_since(from@),
    {
        let ghost p = since(from@);
        let pick = |r: &MemoryRow| -> (o: bool)
            ensures
                o == p(r@),
            { !str_less(r.memory.created_at.as_str(), from) };
        let rows = select(&self.memories, pick, Ghost(p));
        let ghost rv = seq_view(rows@);
        let mut days: Vec<Vec<char>> = Vec::new();
        let mut i: usize = 0;
        while i < rows.len()
            invariant
                i <= rows.len(),
                rv == seq_view(rows@),
                days.len() == i,
                forall|j: int| 0 <= j < i ==> (#[trigger] days@[j])@ == day_of(rv[j].memory.created_at),
            decreases rows.len() - i,
        {
            assert(rv[i as int] == rows@[i as int]@);
            days.push(day_of_stamp(rows[i].memory.created_at.as_str()));
            i += 1;
        }
        assert(views(days@) =~= days_of(rv));
        let ghost before = |a: TallyView, b: TallyView| lex_less(b.token, a.token);
        let later = |a: &Tally, b: &Tally| -> (o: bool)
            ensures
                o == before(a@, b@),
            { less(&b.token, &a.token) };
        let sorted = sort_rows(tally_of(&days), later, Ghost(before));
        let ghost sv = seq_view(sorted@);
        let mut out: Vec<ActivityDay> = Vec::new();
        let mut k: usize = 0;
        while k < sorted.len()
            invariant
                k <= sorted.len(),
                sv == seq_view(sorted@),
                out.len() == k,
                forall|j: int|
                    0 <= j < k ==> (#[trigger] out@[j])@ == (ActivityDayView {
                        date: sv[j].token,
                        memory_count: sv[j].count,
                    }),
            decreases sorted.len() - k,
        {
            assert(sv[k as int] == sorted@[k as int]@);
            out.push(
                ActivityDay { date: from_chars(&sorted[k].token), memory_count: sorted[k].count },
            );
            k += 1;
        }
        assert(seq_view(out@) =~= sv.map_values(
            |e: TallyView| ActivityDayView { date: e.token, memory_count: e.count },
        ));
        out
    }

    /// The days of the last `days` days on which memories were created, the
    /// latest first. Fails with `BadRequest` where that many days ago is no
    /// representable date.
    pub fn get_activity_timeline(&self, days: usize) -> (r: Result<Vec<ActivityDay>, StoreError>)
        ensures
            match r {
                Ok(ds) => exists|from: Seq<char>|
                    seq_view(ds@) == #[trigger] self@.activity_since(from),
                Err(e) => e == StoreError::BadRequest,
            },
            days <= REACHABLE_DAYS ==> r is Ok,
            days > u32::MAX ==> r is Err,
    {
        match days_ago(days) {
            None => Err(StoreError::BadRequest),
            Some(from) => {
                let ds = self.get_activity_since(from.as_str());
                assert(seq_view(ds@) == self@.activity_since(from@));
                Ok(ds)
            },
        }
    }

    /// The `limit` topics under which the most memories were filed since
    /// `from`; each entry carries `days` as its period.
    pub fn get_trending_since(&self, from: &str, days: usize, limit: usize) -> (r: Vec<
        TrendingTopic,
    >)
        ensures
            seq_view(r@) == self@.trending_since(from@, days as nat, limit as nat),
    {
        let ghost topics = self@.topics;
        let ghost rows = self@.memories;
        let mut found: Vec<TrendingTopic> = Vec::new();
        let mut i: usize = 0;
        proof {
            assert(seq_view(found@) =~= grown(topics.take(0), rows, from@, days as nat));
        }
        while i < self.topics.len()
            invariant
                i <= self.topics.len(),
                topics == self@.topics,
                rows == self@.memories,
                seq_view(found@) == grown(topics.take(i as int), rows, from@, days as nat),
            decreases self.topics.len() - i,
        {
            let ghost fv = seq_view(found@);
            proof {
                assert(topics[i as int] == self.topics@[i as int]@);
                assert(topics.take(i + 1).drop_last() =~= topics.take(i as int));
                assert(topics.take(i + 1).last() == topics[i as int]);
            }
            let t = &self.topics[i];
            let ghost p = filed_since(t.id@, from@);
            let pick = |r: &MemoryRow| -> (o: bool)
                ensures
                    o == p(r@),
                {
                    (match &r.memory.topic_id {
                        Some(x) => *x == t.id,
                        None => false,
                    }) && !str_less(r.memory.created_at.as_str(), from)
                };
            let n = select(&self.memories, pick, Ghost(p)).len();
            assert(n == rows.filter(p).len());
            if n > 0 {
                let e = TrendingTopic { topic_name: t.name.clone(), memory_count: n, period_days: days };
                let ghost ev = e@;
                found.push(e);
                assert(seq_view(found@) =~= fv.push(ev));
            }
            i += 1;
        }
        proof {
            assert(topics.take(self.topics.len() as int) =~= topics);
        }
        let ghost before = |a: TrendingTopicView, b: TrendingTopicView|
            a.memory_count > b.memory_count;
        let more = |a: &TrendingTopic, b: &TrendingTopic| -> (o: bool)
            ensures
                o == before(a@, b@),
            { a.memory_count > b.memory_count };
        first_n(sort_rows(found, more, Ghost(before)), limit)
    }

    /// The `limit` topics under which the most memories were filed in the
    /// last `days` days. Fails with `BadRequest` where that many days ago is
    /// no representable date.
    pub fn get_trending_topics(&self, days: usize, limit: usize) -> (r: Result<
        Vec<TrendingTopic>,
        StoreError,
    >)
        ensures
            match r {
                Ok(ts) => exists|from: Seq<char>|
                    seq_view(ts@) == #[trigger] self@.trending_since(
                        from,
                        days as nat,
                        limit as nat,
                    ),
                Err(e) => e == StoreError::BadRequest,
            },
            days <= REACHABLE_DAYS ==> r is Ok,
            days > u32::MAX ==> r is Err,
    {
        match days_ago(days) {
            None => Err(StoreError::BadRequest),
            Some(from) => {
                let ts = self.get_trending_since(from.as_str(), days, limit);
                assert(seq_view(ts@) == self@.trending_since(from@, days as nat, limit as nat));
                Ok(ts)
            },
        }
    }
}

} // verus!
