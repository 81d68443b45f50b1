use memory_layer::ids::{AreaId, MemoryId, ProjectId, TopicId, TurnId, WorkspaceId};
use memory_layer::revisions::{calculate_text_similarity, count_word_changes};
use memory_layer::schemas::{Memory, MemoryKind, MemoryStatus, ProjectStatus, Strength};
use memory_layer::store::{Database, StoreError};

fn mem(id: &str, topic: &str, text: &str, entities: &[&str], created_at: &str) -> Memory {
    Memory {
        id: MemoryId(id.to_string()),
        kind: MemoryKind::Fact,
        topic: topic.to_string(),
        text: text.to_string(),
        snippet: None,
        entities: entities.iter().map(|e| e.to_string()).collect(),
        provenance: vec![TurnId("turn_1".to_string())],
        created_at: created_at.to_string(),
        ttl: None,
        topic_id: None,
    }
}

fn under(mut m: Memory, topic: &TopicId) -> Memory {
    m.topic_id = Some(topic.clone());
    m
}

fn shelf(db: &mut Database, project: &str, area: &str, topic: &str) -> (WorkspaceId, ProjectId, AreaId, TopicId) {
    let w = db.get_or_create_workspace("desk", None).unwrap();
    let p = db
        .get_or_create_project(&w, project, Some("a project"), ProjectStatus::Active)
        .unwrap();
    let a = db.get_or_create_area(&p, area, None).unwrap();
    let t = db.get_or_create_topic(&a, topic, None, false).unwrap();
    (w, p, a, t)
}

fn ids(ms: &[Memory]) -> Vec<String> {
    ms.iter().map(|m| m.id.0.clone()).collect()
}

fn texts(v: &[&str]) -> Vec<String> {
    v.iter().map(|s| s.to_string()).collect()
}

#[test]
fn index_note_is_written_and_refreshed() {
    let mut db = Database::new();
    let (_, _, _, t) = shelf(&mut db, "svc", "Facts", "Rust");
    for n in 1..=6 {
        let m = mem(
            &format!("mem_{n}"),
            "Rust",
            "body",
            &[],
            &format!("2025-01-0{n}T00:00:00+00:00"),
        );
        db.insert_memory(&under(m, &t)).unwrap();
    }
    assert_eq!(db.count_memories_by_topic_id(&t), 6);
    db.generate_or_update_index_note_at(&t, "Rust", "Facts", 6, "2025-02-01T00:00:00+00:00")
        .unwrap();

    let note = db.get_index_note("topic", &t.0).unwrap();
    assert_eq!(note.id, format!("idx_{}", t.0));
    assert_eq!(note.scope_type, "topic");
    assert_eq!(note.scope_id, t.0);
    assert_eq!(note.name, "Rust");
    assert_eq!(
        note.content,
        "Index note for 'Rust' in area 'Facts'. Contains 6 memories."
    );
    assert_eq!(note.memory_count, 6);
    assert_eq!(
        note.key_memories,
        texts(&["mem_6", "mem_5", "mem_4", "mem_3", "mem_2"])
    );
    assert!(note.tags.is_empty());
    assert_eq!(note.created_at, note.last_updated);

    assert!(db.is_in_index(&MemoryId("mem_6".to_string())));
    assert!(!db.is_in_index(&MemoryId("mem_1".to_string())));
    assert_eq!(
        db.calculate_memory_importance(&MemoryId("mem_6".to_string())),
        Ok(8)
    );
    assert_eq!(
        db.calculate_memory_importance(&MemoryId("mem_1".to_string())),
        Ok(5)
    );

    db.generate_or_update_index_note_at(&t, "Rust", "Facts", 7, "2025-03-01T00:00:00+00:00")
        .unwrap();
    let notes = db.get_all_index_notes();
    assert_eq!(notes.len(), 1);
    assert_eq!(notes[0].created_at, "2025-02-01T00:00:00+00:00");
    assert_eq!(notes[0].last_updated, "2025-03-01T00:00:00+00:00");
    assert_eq!(
        notes[0].content,
        "Index note for 'Rust' in area 'Facts'. Contains 7 memories."
    );

    db.update_index_note_content_at(&note.id, "hand written", "2025-04-01T00:00:00+00:00");
    db.add_index_note_tags_at(&note.id, texts(&["hub", "rust"]), "2025-05-01T00:00:00+00:00");
    let note = db.get_index_note("topic", &t.0).unwrap();
    assert_eq!(note.content, "hand written");
    assert_eq!(note.tags, texts(&["hub", "rust"]));
    assert_eq!(note.last_updated, "2025-05-01T00:00:00+00:00");
    assert_eq!(note.memory_count, 7);

    assert!(db.get_index_note("topic", "topic_none").is_none());
    assert!(db.get_index_note("area", &t.0).is_none());
    db.update_index_note_content("idx_none", "x").unwrap();
    assert_eq!(db.get_all_index_notes().len(), 1);
}

#[test]
fn index_notes_come_latest_first() {
    let mut db = Database::new();
    let (_, _, a, t1) = shelf(&mut db, "svc", "Facts", "Rust");
    let t2 = db.get_or_create_topic(&a, "Go", None, false).unwrap();
    db.generate_or_update_index_note_at(&t1, "Rust", "Facts", 0, "2025-01-01T00:00:00+00:00")
        .unwrap();
    db.generate_or_update_index_note_at(&t2, "Go", "Facts", 0, "2025-01-02T00:00:00+00:00")
        .unwrap();
    let names: Vec<String> = db.get_all_index_notes().into_iter().map(|n| n.name).collect();
    assert_eq!(names, texts(&["Go", "Rust"]));
    assert_eq!(
        db.get_index_note("topic", &t2.0).unwrap().content,
        "Index note for 'Go' in area 'Facts'. Contains 0 memories."
    );
}

#[test]
fn review_lists_old_fleeting_memories() {
    let mut db = Database::new();
    db.insert_memory(&mem("mem_c", "t", "c", &[], "2025-03-01T00:00:00+00:00"))
        .unwrap();
    db.insert_memory(&mem("mem_a", "t", "a", &[], "2025-01-01T00:00:00+00:00"))
        .unwrap();
    db.insert_memory(&mem("mem_b", "t", "b", &[], "2025-01-05T00:00:00+00:00"))
        .unwrap();
    db.promote_to_permanent(&MemoryId("mem_b".to_string())).unwrap();

    let due = db.get_memories_needing_review_before("2025-02-01T00:00:00+00:00");
    assert_eq!(ids(&due), texts(&["mem_a"]));
    let due = db.get_memories_needing_review_before("2025-12-01T00:00:00+00:00");
    assert_eq!(ids(&due), texts(&["mem_a", "mem_c"]));
    let due = db.get_memories_needing_review(1).unwrap();
    assert_eq!(ids(&due), texts(&["mem_a", "mem_c"]));
}

#[test]
fn summaries_are_counted_by_layer() {
    let mut db = Database::new();
    let a = MemoryId("mem_a".to_string());
    let b = MemoryId("mem_b".to_string());
    let c = MemoryId("mem_c".to_string());
    db.insert_memory(&mem("mem_a", "t", "a", &[], "2025-01-01T00:00:00+00:00"))
        .unwrap();
    db.insert_memory(&mem("mem_b", "t", "b", &[], "2025-01-02T00:00:00+00:00"))
        .unwrap();
    db.insert_memory(&mem("mem_c", "t", "c", &[], "2025-01-03T00:00:00+00:00"))
        .unwrap();
    db.add_summary_layer(&a, 1, "a1").unwrap();
    db.add_summary_layer(&a, 3, "a3").unwrap();
    let sb = db.add_summary_layer(&b, 2, "b2").unwrap();

    assert_eq!(db.get_max_summary_layer(&a), Some(3));
    assert_eq!(db.get_max_summary_layer(&b), Some(2));
    assert_eq!(db.get_max_summary_layer(&c), None);

    let all = db.get_summarized_memories(2, None);
    let got: Vec<(String, u8)> = all.iter().map(|(m, l)| (m.id.0.clone(), *l)).collect();
    assert_eq!(got, vec![("mem_a".to_string(), 3), ("mem_b".to_string(), 2)]);
    assert_eq!(db.get_summarized_memories(3, None).len(), 1);
    assert_eq!(db.get_summarized_memories(1, Some(1)).len(), 1);
    assert!(db.get_summarized_memories(4, None).is_empty());

    let stats = db.get_summarization_stats();
    assert_eq!(stats.total_memories, 3);
    assert_eq!(stats.summarized_count, 2);
    assert_eq!(stats.layer_1_count, 2);
    assert_eq!(stats.layer_2_count, 2);
    assert_eq!(stats.layer_3_count, 1);
    assert_eq!(stats.layer_4_count, 0);

    db.update_summary_layer(&sb, "rewritten").unwrap();
    assert_eq!(db.get_summary_layers(&b)[0].content, "rewritten");
    assert_eq!(db.get_summary_layers(&a)[0].content, "a1");
}

fn dated(db: &mut Database) -> (TopicId, TopicId) {
    let (_, _, a, rust) = shelf(db, "svc", "Facts", "Rust");
    let go = db.get_or_create_topic(&a, "Go", None, false).unwrap();
    let rows = [
        ("mem_1", &rust, "2025-01-01T10:00:00+00:00", vec!["Rust", "Tokio"]),
        ("mem_2", &rust, "2025-01-01T12:00:00+00:00", vec!["Rust", "Serde"]),
        ("mem_3", &rust, "2025-01-02T09:00:00+00:00", vec!["Go"]),
        ("mem_4", &go, "2025-01-03T00:00:00+00:00", vec!["Rust", "Tokio"]),
    ];
    for (id, topic, at, entities) in rows {
        let m = mem(id, "notes", &format!("text of {id}"), &entities, at);
        db.insert_memory(&under(m, topic)).unwrap();
    }
    (rust, go)
}

#[test]
fn memories_by_time() {
    let mut db = Database::new();
    dated(&mut db);
    assert_eq!(
        ids(&db.get_memories_since("2025-01-02T00:00:00+00:00")),
        texts(&["mem_4", "mem_3"])
    );
    assert_eq!(
        ids(&db.get_memories_in_range(
            "2025-01-01T11:00:00+00:00",
            "2025-01-02T09:00:00+00:00"
        )),
        texts(&["mem_3", "mem_2"])
    );
    assert!(db
        .get_memories_in_range("2025-02-01T00:00:00+00:00", "2025-01-01T00:00:00+00:00")
        .is_empty());
    assert!(db.get_this_week_memories().unwrap().is_empty());
    assert!(db.get_this_month_memories().unwrap().is_empty());
    assert!(db.get_this_year_memories().unwrap().is_empty());
    assert_eq!(db.get_memories_of_last_days(200_000).unwrap().len(), 4);
}

#[test]
fn activity_and_trends() {
    let mut db = Database::new();
    dated(&mut db);
    let days: Vec<(String, usize)> = db
        .get_activity_since("2025-01-01T00:00:00+00:00")
        .into_iter()
        .map(|d| (d.date, d.memory_count))
        .collect();
    assert_eq!(
        days,
        vec![
            ("2025-01-03".to_string(), 1),
            ("2025-01-02".to_string(), 1),
            ("2025-01-01".to_string(), 2),
        ]
    );
    let trends: Vec<(String, usize, usize)> = db
        .get_trending_since("2025-01-01T11:00:00+00:00", 7, 10)
        .into_iter()
        .map(|t| (t.topic_name, t.memory_count, t.period_days))
        .collect();
    assert_eq!(
        trends,
        vec![("Rust".to_string(), 2, 7), ("Go".to_string(), 1, 7)]
    );
    assert_eq!(db.get_trending_since("2025-01-01T11:00:00+00:00", 7, 1).len(), 1);
    assert!(db.get_trending_topics(7, 10).unwrap().is_empty());
    assert!(db.get_activity_timeline(7).unwrap().is_empty());
    assert_eq!(
        db.get_activity_timeline(usize::MAX).err(),
        Some(StoreError::BadRequest)
    );
}

#[test]
fn memories_by_entity() {
    let mut db = Database::new();
    dated(&mut db);
    assert_eq!(
        ids(&db.get_memories_by_entity("Rust")),
        texts(&["mem_4", "mem_2", "mem_1"])
    );
    assert!(db.get_memories_by_entity("rust").is_empty());
    assert_eq!(
        db.get_entity_cooccurrence("Rust", 10),
        vec![("Tokio".to_string(), 2), ("Serde".to_string(), 1)]
    );
    assert_eq!(
        db.get_entity_cooccurrence("Rust", 1),
        vec![("Tokio".to_string(), 2)]
    );
    assert_eq!(
        db.get_all_entities(),
        texts(&["Go", "Rust", "Serde", "Tokio"])
    );

    let mentions = db.get_entity_mentions_since("Rust", "2025-01-01T11:00:00+00:00");
    assert_eq!(mentions.len(), 2);
    assert_eq!(mentions[0].memory_id.0, "mem_2");
    assert_eq!(mentions[0].entity, "Rust");
    assert_eq!(mentions[0].context, "text of mem_2");
    assert_eq!(mentions[0].mentioned_at, "2025-01-01T12:00:00+00:00");
    assert_eq!(mentions[1].memory_id.0, "mem_4");
    assert!(db.get_entity_evolution("Rust", 30).unwrap().is_empty());

    let stats = db.get_entity_stats("Rust");
    assert_eq!(stats.entity, "Rust");
    assert_eq!(stats.mention_count, 3);
    assert_eq!(
        stats.first_mention,
        Some("2025-01-01T10:00:00+00:00".to_string())
    );
    assert_eq!(
        stats.last_mention,
        Some("2025-01-03T00:00:00+00:00".to_string())
    );
    assert_eq!(stats.related_topics, texts(&["Rust", "Go"]));

    let none = db.get_entity_stats("Zig");
    assert_eq!(none.mention_count, 0);
    assert_eq!(none.first_mention, None);
    assert_eq!(none.last_mention, None);
    assert!(none.related_topics.is_empty());
}

#[test]
fn project_figures() {
    let mut db = Database::new();
    let (w, alpha, _, ta) = shelf(&mut db, "alpha", "Facts", "Rust");
    let (_, beta, _, tb) = shelf(&mut db, "beta", "Facts", "Rust");
    let tasks = db.get_or_create_area(&alpha, "Tasks", None).unwrap();
    let todo = db.get_or_create_topic(&tasks, "Todo", None, false).unwrap();

    let rows = [
        ("mem_1", &ta, "2025-01-01T00:00:00+00:00", vec!["Rust", "Tokio"]),
        ("mem_2", &todo, "2025-01-02T00:00:00+00:00", vec!["Rust"]),
        ("mem_3", &ta, "2025-01-03T00:00:00+00:00", vec![]),
        ("mem_4", &tb, "2025-01-04T00:00:00+00:00", vec!["Rust", "Go"]),
        ("mem_5", &tb, "2025-01-05T00:00:00+00:00", vec!["Tokio", "Rust"]),
        ("mem_6", &tb, "2025-01-06T00:00:00+00:00", vec!["Rust", "Go"]),
        ("mem_7", &tb, "2025-01-07T00:00:00+00:00", vec!["Zig"]),
    ];
    for (id, topic, at, entities) in rows {
        db.insert_memory(&under(mem(id, "notes", "text", &entities, at), topic))
            .unwrap();
    }
    db.insert_memory(&mem("mem_8", "loose", "text", &["Rust"], "2025-01-08T00:00:00+00:00"))
        .unwrap();

    let names: Vec<String> = db
        .get_projects_by_workspace(&w)
        .into_iter()
        .map(|(_, n)| n)
        .collect();
    assert_eq!(names, texts(&["alpha", "beta"]));
    let areas: Vec<String> = db
        .get_areas_by_project(&alpha)
        .into_iter()
        .map(|(_, n)| n)
        .collect();
    assert_eq!(areas, texts(&["Facts", "Tasks"]));

    assert_eq!(
        ids(&db.get_project_memories(&alpha, None)),
        texts(&["mem_3", "mem_2", "mem_1"])
    );
    assert_eq!(
        ids(&db.get_project_memories(&alpha, Some(2))),
        texts(&["mem_3", "mem_2"])
    );
    assert_eq!(
        ids(&db.get_project_activity_since(&alpha, "2025-01-01T00:00:00+00:00")),
        texts(&["mem_3", "mem_2"])
    );
    assert!(db.get_project_activity(&alpha, 7).unwrap().is_empty());

    let s = db.get_project_summary(&alpha).unwrap();
    assert_eq!(s.project_id, alpha);
    assert_eq!(s.project_name, "alpha");
    assert_eq!(s.project_description, Some("a project".to_string()));
    assert_eq!(s.memory_count, 3);
    assert_eq!(s.topic_count, 2);
    assert_eq!(s.area_count, 2);
    assert_eq!(s.last_activity, Some("2025-01-03T00:00:00+00:00".to_string()));
    assert_eq!(s.top_entities, texts(&["Rust", "Tokio"]));
    assert_eq!(
        db.get_project_summary(&ProjectId("proj_none".to_string())).err(),
        Some(StoreError::NotFound)
    );

    let related = db.get_related_projects(&alpha, 5).unwrap();
    assert_eq!(related, vec![(beta.clone(), "beta".to_string(), 3)]);
    assert!(db.get_related_projects(&alpha, 0).unwrap().is_empty());
    let back = db.get_related_projects(&beta, 5).unwrap();
    assert_eq!(back, vec![(alpha.clone(), "alpha".to_string(), 3)]);
}

#[test]
fn importance_figures() {
    let mut db = Database::new();
    let (_, _, _, t) = shelf(&mut db, "svc", "Facts", "Rust");
    db.insert_memory(&under(mem("mem_a", "x", "a", &[], "2025-01-01T00:00:00+00:00"), &t))
        .unwrap();
    db.insert_memory(&under(mem("mem_b", "x", "b", &[], "2025-01-02T00:00:00+00:00"), &t))
        .unwrap();
    db.insert_memory(&mem("mem_c", "y", "c", &[], "2025-01-03T00:00:00+00:00"))
        .unwrap();
    db.insert_memory(&mem("mem_d", "", "d", &[], "2025-01-04T00:00:00+00:00"))
        .unwrap();
    let a = MemoryId("mem_a".to_string());
    let b = MemoryId("mem_b".to_string());
    let c = MemoryId("mem_c".to_string());
    db.update_memory_importance(&b, 8).unwrap();
    db.update_memory_importance(&c, 200).unwrap();

    let stats = db.get_importance_stats();
    assert_eq!(stats.distribution, vec![0, 0, 0, 0, 0, 2, 0, 0, 1, 0, 1]);
    assert_eq!(stats.total_memories, 4);
    assert_eq!(stats.average_thousandths, 7000);

    assert_eq!(
        db.get_all_distinct_topics(),
        vec![("x".to_string(), 2), ("y".to_string(), 1)]
    );

    db.promote_to_permanent(&a).unwrap();
    assert_eq!(db.recalculate_topic_importance(&t), Ok(2));
    assert_eq!(db.get_memory_row(&a).unwrap().importance, 7);
    assert_eq!(db.get_memory_row(&b).unwrap().importance, 5);
    assert_eq!(db.get_memory_row(&c).unwrap().importance, 10);
    assert_eq!(db.get_memory_row(&a).unwrap().status, MemoryStatus::Permanent);
    assert_eq!(
        db.recalculate_topic_importance(&TopicId("topic_none".to_string())),
        Ok(0)
    );
    assert_eq!(Database::new().get_importance_stats().average_thousandths, 0);
}

#[test]
fn topic_search_is_by_text_and_time() {
    let mut db = Database::new();
    dated(&mut db);
    assert_eq!(
        ids(&db.search_by_topic("notes", 2)),
        texts(&["mem_4", "mem_3"])
    );
    assert!(db.search_by_topic("Notes", 2).is_empty());
}

#[test]
fn similarity_of_texts() {
    assert_eq!(
        count_word_changes("the quick brown fox", "The quick red fox jumps"),
        (2, 1)
    );
    assert_eq!(
        calculate_text_similarity("the quick brown fox", "The quick red fox jumps"),
        Strength { millionths: 400_000 }
    );
    assert_eq!(
        calculate_text_similarity("same words here", "here same words"),
        Strength { millionths: 1_000_000 }
    );
    assert_eq!(
        calculate_text_similarity("", "the and of"),
        Strength { millionths: 0 }
    );
    assert_eq!(count_word_changes("fox fox fox", "fox"), (0, 0));
}

#[test]
fn version_difference() {
    let mut db = Database::new();
    let a = MemoryId("mem_a".to_string());
    db.insert_memory(&mem("mem_a", "t", "now", &[], "2025-01-01T00:00:00+00:00"))
        .unwrap();
    db.create_memory_version(&a, "postgres database storage engine", Some("one"))
        .unwrap();
    db.create_memory_version(&a, "postgres database storage layer", Some("two"))
        .unwrap();
    let d = db.get_version_diff(&a, 1, 2).unwrap();
    assert_eq!(d.from_version, 1);
    assert_eq!(d.to_version, 2);
    assert_eq!(d.from_content, "postgres database storage engine");
    assert_eq!(d.to_content, "postgres database storage layer");
    assert_eq!(d.similarity, Strength { millionths: 600_000 });
    assert_eq!(d.words_added, 1);
    assert_eq!(d.words_removed, 1);
    assert_eq!(db.get_version_diff(&a, 1, 3).err(), Some(StoreError::NotFound));
    assert_eq!(
        db.get_version_diff(&MemoryId("mem_none".to_string()), 1, 2).err(),
        Some(StoreError::NotFound)
    );
}

#[test]
fn older_similar_memories_may_be_superseded() {
    let mut db = Database::new();
    db.insert_memory(&mem(
        "mem_old",
        "db",
        "postgres database storage engine",
        &[],
        "2025-01-01T00:00:00+00:00",
    ))
    .unwrap();
    db.insert_memory(&mem(
        "mem_twin",
        "db",
        "postgres database storage layer",
        &[],
        "2025-01-02T00:00:00+00:00",
    ))
    .unwrap();
    db.insert_memory(&mem(
        "mem_far",
        "db",
        "entirely different words",
        &[],
        "2025-01-03T00:00:00+00:00",
    ))
    .unwrap();
    db.insert_memory(&mem(
        "mem_elsewhere",
        "ui",
        "postgres database storage layer",
        &[],
        "2025-01-04T00:00:00+00:00",
    ))
    .unwrap();
    db.insert_memory(&mem(
        "mem_new",
        "db",
        "postgres database storage layer",
        &[],
        "2025-02-01T00:00:00+00:00",
    ))
    .unwrap();
    db.insert_memory(&mem(
        "mem_later",
        "db",
        "postgres database storage layer",
        &[],
        "2025-03-01T00:00:00+00:00",
    ))
    .unwrap();

    let new = MemoryId("mem_new".to_string());
    let found = db.find_potential_supersedes(&new, Strength { millionths: 500_000 });
    assert_eq!(
        found,
        vec![
            (MemoryId("mem_twin".to_string()), Strength { millionths: 1_000_000 }),
            (MemoryId("mem_old".to_string()), Strength { millionths: 600_000 }),
        ]
    );
    let found = db.find_potential_supersedes(&new, Strength { millionths: 600_001 });
    assert_eq!(found.len(), 1);
    let found = db.find_potential_supersedes(&new, Strength { millionths: 0 });
    assert_eq!(found.len(), 3);
    assert!(db
        .find_potential_supersedes(&MemoryId("mem_none".to_string()), Strength { millionths: 0 })
        .is_empty());
}

#[test]
fn days_back_within_and_beyond_the_calendar() {
    let db = Database::new();
    assert!(db.get_memories_of_last_days(90_000_000).is_ok());
    assert!(db.get_activity_timeline(0).is_ok());
    assert!(db.get_memories_needing_review(90_000_000).is_ok());
    assert_eq!(
        db.get_memories_of_last_days(usize::MAX).err(),
        Some(StoreError::BadRequest)
    );
    assert_eq!(
        db.get_trending_topics(usize::MAX, 5).err(),
        Some(StoreError::BadRequest)
    );
    assert_eq!(
        db.get_entity_evolution("Rust", usize::MAX).err(),
        Some(StoreError::BadRequest)
    );
    assert_eq!(
        db.get_project_activity(&ProjectId("proj_x".to_string()), usize::MAX).err(),
        Some(StoreError::BadRequest)
    );
}
