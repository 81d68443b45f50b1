use memory_layer::ids::{
    generate_memory_id, generate_thread_id, generate_turn_id, MemoryId, RelationId, TopicId,
    VersionId,
};
use memory_layer::schemas::{
    Memory, MemoryKind, MemoryStatus, RelationType, SourceApp, Strength, Turn, TurnSource,
};
use memory_layer::store::{Database, StoreError};

fn memory(id: &str, kind: MemoryKind, topic: &str, text: &str, created_at: &str) -> Memory {
    Memory {
        id: MemoryId(id.to_string()),
        kind,
        topic: topic.to_string(),
        text: text.to_string(),
        snippet: None,
        entities: vec![],
        provenance: vec![generate_turn_id()],
        created_at: created_at.to_string(),
        ttl: None,
        topic_id: None,
    }
}

#[test]
fn test_database_creation() {
    let db = Database::new();
    assert_eq!(db.count_turns(), 0);
    assert_eq!(db.count_memories(), 0);
}

#[test]
fn test_turn_insert_and_retrieve() {
    let mut db = Database::new();
    let turn = Turn {
        id: generate_turn_id(),
        thread_id: generate_thread_id(),
        ts_user: "2025-11-02T18:00:00Z".to_string(),
        user_text: "Hello world".to_string(),
        ts_ai: None,
        ai_text: None,
        source: TurnSource {
            app: SourceApp::Claude,
            url: None,
            path: None,
        },
    };
    db.insert_turn(&turn).unwrap();
    assert_eq!(db.count_turns(), 1);
    let retrieved = db.get_turn(&turn.id);
    assert!(retrieved.is_some());
    assert_eq!(retrieved.unwrap().user_text, "Hello world");
}

#[test]
fn turn_identifier_cannot_be_reused() {
    let mut db = Database::new();
    let turn = Turn {
        id: generate_turn_id(),
        thread_id: generate_thread_id(),
        ts_user: "2025-11-02T18:00:00Z".to_string(),
        user_text: "Hello".to_string(),
        ts_ai: None,
        ai_text: None,
        source: TurnSource {
            app: SourceApp::Other,
            url: None,
            path: None,
        },
    };
    assert_eq!(db.insert_turn(&turn), Ok(()));
    assert_eq!(db.insert_turn(&turn), Err(StoreError::Conflict));
    assert_eq!(db.count_turns(), 1);
}

#[test]
fn memory_with_missing_topic_is_refused() {
    let mut db = Database::new();
    let mut m = memory("mem_a", MemoryKind::Fact, "t", "x", "2025-01-01T00:00:00Z");
    m.topic_id = Some(TopicId("topic_missing".to_string()));
    assert_eq!(db.insert_memory(&m), Err(StoreError::ForeignKeyMissing));
    m.topic_id = None;
    assert_eq!(db.insert_memory(&m), Ok(()));
    assert_eq!(db.insert_memory(&m), Err(StoreError::Conflict));
    assert_eq!(db.count_memories(), 1);
}

#[test]
fn recent_memories_come_newest_first() {
    let mut db = Database::new();
    db.insert_memory(&memory("mem_a", MemoryKind::Fact, "onboarding", "first", "2025-01-01T00:00:00Z")).unwrap();
    db.insert_memory(&memory("mem_b", MemoryKind::Task, "onboarding", "second", "2025-01-03T00:00:00Z")).unwrap();
    db.insert_memory(&memory("mem_c", MemoryKind::Fact, "research", "third", "2025-01-02T00:00:00Z")).unwrap();
    let recent = db.get_recent_memories(10);
    let ids: Vec<String> = recent.iter().map(|m| m.id.0.clone()).collect();
    assert_eq!(ids, vec!["mem_b", "mem_c", "mem_a"]);
    let two = db.get_recent_memories(2);
    assert_eq!(two.len(), 2);
    let onboarding = db.get_memories_by_topic("onboarding", 10);
    let ids: Vec<String> = onboarding.iter().map(|m| m.id.0.clone()).collect();
    assert_eq!(ids, vec!["mem_b", "mem_a"]);
}

#[test]
fn relation_creation_is_idempotent() {
    let mut db = Database::new();
    db.insert_memory(&memory("mem_s", MemoryKind::Fact, "t", "s", "2025-01-01T00:00:00Z")).unwrap();
    db.insert_memory(&memory("mem_t", MemoryKind::Fact, "t", "t", "2025-01-02T00:00:00Z")).unwrap();
    let s = MemoryId("mem_s".to_string());
    let t = MemoryId("mem_t".to_string());
    let first = db.create_memory_relation(&s, &t, RelationType::RelatesTo, Some("why")).unwrap();
    let again = db.create_memory_relation(&s, &t, RelationType::RelatesTo, None).unwrap();
    assert_eq!(first, again);
    assert!(first.0.starts_with("rel_"));
    assert_eq!(first.0.len(), 30);
    let other = db.create_memory_relation(&s, &t, RelationType::Implements, None).unwrap();
    assert_ne!(first, other);
}

#[test]
fn relation_needs_both_memories() {
    let mut db = Database::new();
    db.insert_memory(&memory("mem_s", MemoryKind::Fact, "t", "s", "2025-01-01T00:00:00Z")).unwrap();
    let s = MemoryId("mem_s".to_string());
    let missing = MemoryId("mem_none".to_string());
    assert_eq!(
        db.create_memory_relation(&s, &missing, RelationType::RelatesTo, None),
        Err(StoreError::NotFound)
    );
    assert_eq!(
        db.create_memory_relation(&missing, &s, RelationType::RelatesTo, None),
        Err(StoreError::NotFound)
    );
}

#[test]
fn relation_identifier_conflict_is_reported() {
    let mut db = Database::new();
    db.insert_memory(&memory("mem_s", MemoryKind::Fact, "t", "s", "2025-01-01T00:00:00Z")).unwrap();
    db.insert_memory(&memory("mem_t", MemoryKind::Fact, "t", "t", "2025-01-02T00:00:00Z")).unwrap();
    let s = MemoryId("mem_s".to_string());
    let t = MemoryId("mem_t".to_string());
    let id = RelationId("rel_fixed".to_string());
    assert_eq!(
        db.create_memory_relation_with(&s, &t, RelationType::RelatesTo, None, id.clone(), "now"),
        Ok(id.clone())
    );
    assert_eq!(
        db.create_memory_relation_with(&t, &s, RelationType::RelatesTo, None, id.clone(), "now"),
        Err(StoreError::Conflict)
    );
}

#[test]
fn version_numbers_count_up_from_one() {
    let mut db = Database::new();
    db.insert_memory(&memory("mem_0", MemoryKind::Fact, "t", "A", "2025-01-01T00:00:00Z")).unwrap();
    let m0 = MemoryId("mem_0".to_string());
    for i in 0..4 {
        db.create_memory_version(&m0, &format!("content {}", i), None).unwrap();
    }
    let versions = db.get_memory_versions(&m0);
    let numbers: Vec<u32> = versions.iter().map(|v| v.version_number).collect();
    assert_eq!(numbers, vec![4, 3, 2, 1]);
    assert_eq!(db.prune_old_versions(&m0, 10), Ok(0));
    assert_eq!(db.prune_old_versions(&m0, 3), Ok(1));
    let numbers: Vec<u32> = db.get_memory_versions(&m0).iter().map(|v| v.version_number).collect();
    assert_eq!(numbers, vec![4, 3, 2]);
    assert_eq!(db.prune_old_versions(&m0, 0), Ok(3));
    assert!(db.get_memory_versions(&m0).is_empty());
    db.create_memory_version(&m0, "later", None).unwrap();
    let numbers: Vec<u32> = db.get_memory_versions(&m0).iter().map(|v| v.version_number).collect();
    assert_eq!(numbers, vec![5]);
}

#[test]
fn version_of_unknown_memory_is_not_found() {
    let mut db = Database::new();
    let missing = MemoryId("mem_none".to_string());
    assert_eq!(db.create_memory_version(&missing, "x", None), Err(StoreError::NotFound));
    assert_eq!(db.revert_memory_to_version(&missing, 1, "r"), Err(StoreError::NotFound));
    db.insert_memory(&memory("mem_0", MemoryKind::Fact, "t", "A", "2025-01-01T00:00:00Z")).unwrap();
    let m0 = MemoryId("mem_0".to_string());
    let id = VersionId("ver_fixed".to_string());
    assert_eq!(db.create_memory_version_with(&m0, "a", None, id.clone(), "now"), Ok(id.clone()));
    assert_eq!(db.create_memory_version_with(&m0, "b", None, id, "now"), Err(StoreError::Conflict));
    assert_eq!(db.revert_memory_to_version(&m0, 7, "r"), Err(StoreError::NotFound));
}

#[test]
fn version_and_revert_scenario() {
    let mut db = Database::new();
    db.insert_memory(&memory("mem_0", MemoryKind::Fact, "t", "A", "2025-01-01T00:00:00Z")).unwrap();
    let m0 = MemoryId("mem_0".to_string());
    db.create_memory_version(&m0, "A", Some("baseline")).unwrap();
    db.set_memory_text(&m0, "B").unwrap();
    db.create_memory_version(&m0, "B", Some("edit")).unwrap();
    db.set_memory_text(&m0, "C").unwrap();
    db.revert_memory_to_version(&m0, 1, "restore").unwrap();
    assert_eq!(db.get_memory_by_id(&m0).unwrap().text, "A");
    let versions = db.get_memory_versions(&m0);
    assert_eq!(versions.len(), 3);
    let latest = &versions[0];
    assert_eq!(latest.version_number, 3);
    assert_eq!(latest.content, "C");
    assert_eq!(latest.change_summary.as_deref(), Some("reverted to v1: restore"));
    assert!(latest.change_summary.as_ref().unwrap().contains("reverted to v1"));
}

#[test]
fn importance_is_clamped_and_scored() {
    let mut db = Database::new();
    db.insert_memory(&memory("mem_a", MemoryKind::Fact, "t", "a", "2025-01-01T00:00:00Z")).unwrap();
    db.insert_memory(&memory("mem_b", MemoryKind::Fact, "t", "b", "2025-01-02T00:00:00Z")).unwrap();
    let a = MemoryId("mem_a".to_string());
    let b = MemoryId("mem_b".to_string());
    assert_eq!(db.calculate_memory_importance(&a), Ok(5));
    db.create_memory_relation(&b, &a, RelationType::Implements, None).unwrap();
    db.create_memory_relation(&b, &a, RelationType::Questions, None).unwrap();
    assert_eq!(db.calculate_memory_importance(&a), Ok(7));
    assert_eq!(db.calculate_memory_importance(&b), Ok(6));
    db.promote_to_permanent(&a).unwrap();
    assert_eq!(db.calculate_memory_importance(&a), Ok(9));
    db.add_summary_layer(&a, 1, "gist").unwrap();
    db.add_summary_layer(&a, 1, "gist again").unwrap();
    db.add_summary_layer(&a, 3, "summary").unwrap();
    assert_eq!(db.calculate_memory_importance(&a), Ok(10));
    assert_eq!(db.recalculate_and_update_importance(&a), Ok(10));
    db.update_memory_importance(&b, 200).unwrap();
    let top = db.get_high_priority_memories(10);
    let ids: Vec<String> = top.iter().map(|m| m.id.0.clone()).collect();
    assert_eq!(ids, vec!["mem_b", "mem_a"]);
    assert_eq!(db.get_memories_by_importance(11, None).len(), 0);
}

#[test]
fn summary_layer_is_validated() {
    let mut db = Database::new();
    db.insert_memory(&memory("mem_a", MemoryKind::Fact, "t", "a", "2025-01-01T00:00:00Z")).unwrap();
    let a = MemoryId("mem_a".to_string());
    assert_eq!(db.add_summary_layer(&a, 0, "x"), Err(StoreError::BadRequest));
    assert_eq!(db.add_summary_layer(&a, 5, "x"), Err(StoreError::BadRequest));
    assert_eq!(
        db.add_summary_layer(&MemoryId("mem_none".to_string()), 1, "x"),
        Err(StoreError::NotFound)
    );
    let id = db.add_summary_layer(&a, 4, "x").unwrap();
    assert_eq!(id.len(), 26);
    let layers = db.get_summary_layers(&a);
    assert_eq!(layers.len(), 1);
    assert_eq!(layers[0].layer, 4);
}

#[test]
fn lifecycle_transitions() {
    let mut db = Database::new();
    db.insert_memory(&memory("mem_a", MemoryKind::Fact, "t", "a", "2025-01-01T00:00:00Z")).unwrap();
    db.insert_memory(&memory("mem_b", MemoryKind::Fact, "t", "b", "2025-06-01T00:00:00Z")).unwrap();
    let a = MemoryId("mem_a".to_string());
    let b = MemoryId("mem_b".to_string());
    assert_eq!(db.update_memory_status(&a, "nonsense"), Err(StoreError::BadRequest));
    assert_eq!(db.promote_to_permanent(&MemoryId("mem_none".to_string())), Err(StoreError::NotFound));
    assert_eq!(db.promote_to_permanent(&b), Ok(()));
    assert_eq!(db.promote_to_permanent(&b), Err(StoreError::BadRequest));
    assert_eq!(db.archive_memories_before("2025-03-01T00:00:00Z"), 1);
    assert_eq!(db.get_memories_by_status(MemoryStatus::Archived, None).len(), 1);
    assert_eq!(db.get_memories_by_status(MemoryStatus::Permanent, Some(5))[0].id, b);
    assert_eq!(db.archive_memories_before("2025-03-01T00:00:00Z"), 0);
    assert_eq!(db.update_memory_status(&a, "deprecated"), Ok(()));
    assert_eq!(db.get_memories_by_status(MemoryStatus::Deprecated, None)[0].id, a);
    let archived = db.archive_old_memories(1);
    assert_eq!(archived, Ok(0));
    assert_eq!(db.archive_old_memories(u32::MAX), Err(StoreError::BadRequest));
}

#[test]
fn strength_is_a_share_of_one() {
    let s = Strength { millionths: 800_000 };
    assert_eq!(s, Strength { millionths: 800_000 });
    let m = generate_memory_id();
    assert!(m.0.starts_with("mem_"));
}
