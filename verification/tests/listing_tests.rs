use memory_layer::ids::{
    generate_capsule_id, generate_memory_id, generate_thread_id, generate_turn_id,
};
use memory_layer::schemas::{Memory, MemoryKind, MemoryStatus};
use memory_layer::store::Database;

fn memory(kind: MemoryKind, topic: &str, text: &str, entity: &str, created_at: &str) -> Memory {
    Memory {
        id: generate_memory_id(),
        kind,
        topic: topic.to_string(),
        text: text.to_string(),
        snippet: None,
        entities: vec![entity.to_string()],
        provenance: vec![generate_turn_id()],
        created_at: created_at.to_string(),
        ttl: None,
        topic_id: None,
    }
}

#[test]
fn test_id_generation() {
    let turn_id = generate_turn_id();
    assert!(turn_id.0.starts_with("turn_"));
    assert_eq!(turn_id.0.len(), 31);

    let thread_id = generate_thread_id();
    assert!(thread_id.0.starts_with("thr_"));

    let memory_id = generate_memory_id();
    assert!(memory_id.0.starts_with("mem_"));

    let capsule_id = generate_capsule_id();
    assert!(capsule_id.0.starts_with("cap_"));
}

#[test]
fn generated_ids_differ() {
    let a = generate_memory_id();
    let b = generate_memory_id();
    assert_ne!(a, b);
    assert!(a.0[4..]
        .chars()
        .all(|c| c.is_ascii_digit() || c.is_ascii_uppercase()));
}

#[test]
fn test_recent_memories_and_topics() {
    let mut db = Database::new();
    let memory_a = memory(
        MemoryKind::Fact,
        "onboarding",
        "Initial setup complete",
        "setup",
        "2025-11-02T18:00:00+00:00",
    );
    let memory_b = memory(
        MemoryKind::Task,
        "onboarding",
        "Follow up on permissions",
        "permissions",
        "2025-11-02T18:00:01+00:00",
    );
    let memory_c = memory(
        MemoryKind::Fact,
        "research",
        "Investigating context capsule size",
        "context",
        "2025-11-02T18:00:02+00:00",
    );
    db.insert_memory(&memory_a).unwrap();
    db.insert_memory(&memory_b).unwrap();
    db.insert_memory(&memory_c).unwrap();

    let recent = db.get_recent_memories(10);
    assert_eq!(recent.len(), 3);

    let topics = db.topic_summaries(10);
    assert_eq!(topics.len(), 2);
    assert_eq!(topics[0].topic, "onboarding");
    assert_eq!(topics[0].memory_count, 2);
    assert_eq!(
        topics[0].last_memory_at,
        Some("2025-11-02T18:00:01+00:00".to_string())
    );
    assert_eq!(topics[1].topic, "research");
    assert_eq!(topics[1].memory_count, 1);

    assert_eq!(db.topic_summaries(1).len(), 1);
    assert_eq!(
        db.get_topics(),
        vec!["onboarding".to_string(), "research".to_string()]
    );
}

#[test]
fn equal_counts_rank_by_newest_memory() {
    let mut db = Database::new();
    db.insert_memory(&memory(
        MemoryKind::Fact,
        "older",
        "a",
        "x",
        "2025-01-01T00:00:00+00:00",
    ))
    .unwrap();
    db.insert_memory(&memory(
        MemoryKind::Fact,
        "newer",
        "b",
        "y",
        "2025-01-02T00:00:00+00:00",
    ))
    .unwrap();
    let topics = db.topic_summaries(10);
    assert_eq!(topics[0].topic, "newer");
    assert_eq!(topics[1].topic, "older");
}

#[test]
fn lifecycle_counts_add_up() {
    let mut db = Database::new();
    let a = memory(MemoryKind::Fact, "t", "a", "x", "2025-01-01T00:00:00+00:00");
    let b = memory(MemoryKind::Fact, "t", "b", "x", "2025-01-02T00:00:00+00:00");
    let c = memory(MemoryKind::Fact, "t", "c", "x", "2025-01-03T00:00:00+00:00");
    db.insert_memory(&a).unwrap();
    db.insert_memory(&b).unwrap();
    db.insert_memory(&c).unwrap();
    db.promote_to_permanent(&a.id).unwrap();
    db.set_memory_status(&b.id, MemoryStatus::Archived);
    let stats = db.get_lifecycle_stats();
    assert_eq!(stats.fleeting, 1);
    assert_eq!(stats.permanent, 1);
    assert_eq!(stats.archived, 1);
    assert_eq!(stats.deprecated, 0);
    assert_eq!(stats.total, 3);
}
