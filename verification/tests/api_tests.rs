use memory_layer::ids::{MemoryId, TopicId, TurnId, VersionId};
use memory_layer::schemas::{Memory, MemoryKind, ProjectStatus, RelationType};
use memory_layer::store::{Database, StoreError};
use memory_layer::templates::TemplateRenderer;

fn mem(id: &str, kind: MemoryKind, topic: &str, text: &str, created_at: &str) -> Memory {
    Memory {
        id: MemoryId(id.to_string()),
        kind,
        topic: topic.to_string(),
        text: text.to_string(),
        snippet: None,
        entities: vec![],
        provenance: vec![TurnId("turn_1".to_string())],
        created_at: created_at.to_string(),
        ttl: None,
        topic_id: None,
    }
}

fn topic(db: &mut Database, name: &str) -> TopicId {
    let w = db.get_or_create_workspace("desk", None).unwrap();
    let p = db
        .get_or_create_project(&w, "svc", None, ProjectStatus::Active)
        .unwrap();
    let a = db.get_or_create_area(&p, "Facts", None).unwrap();
    db.get_or_create_topic(&a, name, None, false).unwrap()
}

#[test]
fn memories_of_a_topic_text_are_refiled() {
    let mut db = Database::new();
    db.insert_memory(&mem("mem_1", MemoryKind::Fact, "rust", "a", "2025-01-01T00:00:00Z"))
        .unwrap();
    db.insert_memory(&mem("mem_2", MemoryKind::Fact, "rust", "b", "2025-01-02T00:00:00Z"))
        .unwrap();
    db.insert_memory(&mem("mem_3", MemoryKind::Fact, "go", "c", "2025-01-03T00:00:00Z"))
        .unwrap();
    let t = topic(&mut db, "Rust");
    assert_eq!(
        db.update_memories_topic("rust", &TopicId("topic_none".to_string())),
        Err(StoreError::NotFound)
    );
    assert_eq!(db.update_memories_topic("rust", &t), Ok(2));
    assert_eq!(db.update_memories_topic("zig", &t), Ok(0));
    assert_eq!(db.count_memories_by_topic_id(&t), 2);
    assert_eq!(
        db.get_memory_by_id(&MemoryId("mem_1".to_string())).unwrap().topic_id,
        Some(t.clone())
    );
    assert_eq!(
        db.get_memory_by_id(&MemoryId("mem_3".to_string())).unwrap().topic_id,
        None
    );
}

#[test]
fn hierarchy_lookup_is_idempotent() {
    let mut db = Database::new();
    let first = topic(&mut db, "Rust");
    for _ in 0..5 {
        assert_eq!(topic(&mut db, "Rust"), first);
    }
    assert_eq!(db.get_all_workspaces().len(), 1);
    assert_eq!(db.get_all_projects().len(), 1);
    assert_eq!(db.get_all_areas().len(), 1);
    assert_eq!(db.get_all_topics().len(), 1);
    let other = topic(&mut db, "Go");
    assert_ne!(other, first);
    assert_eq!(db.get_all_topics().len(), 2);
}

#[test]
fn the_index_note_of_a_topic_is_stamped_now() {
    let mut db = Database::new();
    let t = topic(&mut db, "Rust");
    db.generate_or_update_index_note(&t, "Rust", "Facts", 3).unwrap();
    let note = db.get_index_note("topic", &t.0).unwrap();
    assert_eq!(
        note.content,
        "Index note for 'Rust' in area 'Facts'. Contains 3 memories."
    );
    assert!(note.created_at.starts_with("20"));
    assert_eq!(note.created_at, note.last_updated);
    db.add_index_note_tags(&note.id, vec!["hub".to_string()]).unwrap();
    let note = db.get_index_note("topic", &t.0).unwrap();
    assert_eq!(note.tags, vec!["hub".to_string()]);
    assert!(note.last_updated >= note.created_at);
}

#[test]
fn versions_are_found_by_identifier() {
    let mut db = Database::new();
    let a = MemoryId("mem_a".to_string());
    db.insert_memory(&mem("mem_a", MemoryKind::Fact, "t", "now", "2025-01-01T00:00:00Z"))
        .unwrap();
    let none = db.get_version_stats(&a);
    assert_eq!(none.total_versions, 0);
    assert!(none.oldest_version.is_none());
    assert!(none.newest_version.is_none());

    let v1 = db.create_memory_version(&a, "first", Some("one")).unwrap();
    let v2 = db.create_memory_version(&a, "second", None).unwrap();
    assert_ne!(v1, v2);
    let found = db.get_version_by_id(&v2).unwrap();
    assert_eq!(found.version_number, 2);
    assert_eq!(found.content, "second");
    assert_eq!(found.change_summary, None);
    assert!(db.get_version_by_id(&VersionId("ver_none".to_string())).is_none());

    let stats = db.get_version_stats(&a);
    assert_eq!(stats.total_versions, 2);
    assert_eq!(stats.total_changes, 2);
    assert_eq!(stats.oldest_version.unwrap().version_number, 1);
    assert_eq!(stats.newest_version.unwrap().version_number, 2);
    assert_eq!(db.get_memory_row(&a).unwrap().version, 3);
}

#[test]
fn a_concept_with_its_implementations() {
    let mut db = Database::new();
    let c = mem("mem_c", MemoryKind::Decision, "db", "use an index", "2025-01-01T00:00:00Z");
    let i = mem("mem_i", MemoryKind::Snippet, "db", "create index", "2025-01-02T00:00:00Z");
    let e = mem("mem_e", MemoryKind::Fact, "db", "for example", "2025-01-03T00:00:00Z");
    let r = mem("mem_r", MemoryKind::Fact, "db", "see also", "2025-01-04T00:00:00Z");
    for m in [&c, &i, &e, &r] {
        db.insert_memory(m).unwrap();
    }
    db.create_memory_relation(&i.id, &c.id, RelationType::Implements, None)
        .unwrap();
    db.create_memory_relation(&e.id, &c.id, RelationType::Exemplifies, None)
        .unwrap();
    db.create_memory_relation(&c.id, &r.id, RelationType::RelatesTo, None)
        .unwrap();
    let t = db.get_implementation_tracking(&c.id).unwrap();
    assert_eq!(t.concept.id, c.id);
    assert_eq!(t.direct_implementations.len(), 1);
    assert_eq!(t.direct_implementations[0].id, i.id);
    assert_eq!(t.examples.len(), 1);
    assert_eq!(t.examples[0].id, e.id);
    assert_eq!(t.related_concepts.len(), 1);
    assert_eq!(t.related_concepts[0].id, r.id);
    assert_eq!(
        db.get_implementation_tracking(&MemoryId("mem_none".to_string())).err(),
        Some(StoreError::NotFound)
    );
}

#[test]
fn the_gist_of_a_memory() {
    let renderer = TemplateRenderer::new();
    let short = mem("mem_s", MemoryKind::Fact, "t", "Rust is fast.", "2025-01-01T00:00:00Z");
    assert_eq!(renderer.gist_from_memory(&short), "Rust is fast.");
    let long = mem(
        "mem_l",
        MemoryKind::Fact,
        "t",
        "This sentence is rather long and goes on and on well past fifty characters. Then more.",
        "2025-01-01T00:00:00Z",
    );
    assert_eq!(
        renderer.gist_from_memory(&long),
        "This sentence is rather long and goes on and on we..."
    );
    let text = renderer.render_standard("Topic", &vec![short], 220);
    assert!(text.starts_with(
        "Context (continue without re-explaining):\n\u{2022} Project/Topic: Topic\n\u{2022} Recent: Rust is fast. ("
    ));
    assert!(text.ends_with(
        "Instructions: Use the context to answer. Don't restate it. Ask one concise follow-up if a key detail is missing."
    ));
}
