//! Callers that ask for the same topic, in whatever order the store lets
//! them in, all get the same topic.

use crate::hierarchy::{get_or_create_topic_is_idempotent, topic_named};
use crate::schemas::TopicView;
use crate::store::DatabaseView;
use vstd::prelude::*;

verus! {

impl DatabaseView {
    /// The store after topics were looked up or created one after another.
    pub open spec fn after_topic_lookups(self, rows: Seq<TopicView>) -> DatabaseView
        decreases rows.len(),
    {
        if rows.len() == 0 {
            self
        } else {
            self.after_topic_lookups(rows.drop_last()).after_get_or_create_topic(rows.last())
        }
    }
}

/// Any number of callers ask for the topic `name` of one area, each with an
/// identifier and a time of its own. The store takes them one at a time,
/// in some order. If the first to come succeeds, every caller is returned
/// what the first was returned, the store stands as the first left it, and
/// exactly one topic carries the name.
pub proof fn topic_lookups_converge(
    db: DatabaseView,
    area: Seq<char>,
    name: Seq<char>,
    rows: Seq<TopicView>,
)
    requires
        db.wf(),
        rows.len() >= 1,
        forall|i: int| 0 <= i < rows.len() ==> (#[trigger] rows[i]).area_id == area && rows[i].name
            == name,
        db.topic_outcome(area, name, rows[0].id) is Ok,
    ensures
        db.after_topic_lookups(rows) == db.after_get_or_create_topic(rows[0]),
        forall|i: int|
            0 <= i < rows.len() ==> (#[trigger] db.after_topic_lookups(rows.take(i))).topic_outcome(
                area,
                name,
                rows[i].id,
            ) == db.topic_outcome(area, name, rows[0].id),
        db.after_topic_lookups(rows).topics.filter(topic_named(area, name)).len() == 1,
    decreases rows.len(),
{
    let once = db.after_get_or_create_topic(rows[0]);
    get_or_create_topic_is_idempotent(db, rows[0], rows[0]);
    if rows.len() == 1 {
        assert(rows.drop_last() =~= Seq::<TopicView>::empty());
        assert(db.after_topic_lookups(rows.drop_last()) == db);
        assert(rows.last() == rows[0]);
        assert forall|i: int| 0 <= i < rows.len() implies (#[trigger] db.after_topic_lookups(
            rows.take(i),
        )).topic_outcome(area, name, rows[i].id) == db.topic_outcome(area, name, rows[0].id) by {
            assert(rows.take(0) =~= Seq::<TopicView>::empty());
        }
    } else {
        let rest = rows.drop_last();
        assert(rest[0] == rows[0]);
        topic_lookups_converge(db, area, name, rest);
        get_or_create_topic_is_idempotent(db, rows[0], rows.last());
        assert(db.after_topic_lookups(rest) == once);
        assert(db.after_topic_lookups(rows) == once);
        assert forall|i: int| 0 <= i < rows.len() implies (#[trigger] db.after_topic_lookups(
            rows.take(i),
        )).topic_outcome(area, name, rows[i].id) == db.topic_outcome(area, name, rows[0].id) by {
            if i < rest.len() {
                assert(rows.take(i) =~= rest.take(i));
                assert(rest[i] == rows[i]);
            } else {
                assert(rows.take(i) =~= rest);
            }
        }
    }
}

} // verus!
