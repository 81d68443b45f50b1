use memory_layer::ids::{AreaId, MemoryId, ProjectId, TopicId, TurnId, WorkspaceId};
use memory_layer::migration::{suggest_hierarchy_heuristic, HierarchySuggestion, MigrationStats};
use memory_layer::organizer::HierarchyIds;
use memory_layer::schemas::{Memory, MemoryKind};
use memory_layer::store::{Database, StoreError};

fn mem(id: &str, topic: &str, created_at: &str) -> Memory {
    Memory {
        id: MemoryId(id.to_string()),
        kind: MemoryKind::Fact,
        topic: topic.to_string(),
        text: "text".to_string(),
        snippet: None,
        entities: vec![],
        provenance: vec![TurnId("turn_1".to_string())],
        created_at: created_at.to_string(),
        ttl: None,
        topic_id: None,
    }
}

fn ids(tag: &str) -> HierarchyIds {
    HierarchyIds {
        workspace: WorkspaceId(format!("ws_{tag}")),
        project: ProjectId(format!("proj_{tag}")),
        area: AreaId(format!("area_{tag}")),
        topic: TopicId(format!("topic_{tag}")),
    }
}

fn place(workspace: &str, project: &str, area: &str, topic: &str) -> HierarchySuggestion {
    HierarchySuggestion {
        workspace: workspace.to_string(),
        project: project.to_string(),
        area: area.to_string(),
        topic: topic.to_string(),
        rationale: None,
    }
}

#[test]
fn a_topic_text_is_moved_into_the_hierarchy() {
    let mut db = Database::new();
    db.insert_memory(&mem("mem_1", "Work: database schema", "2025-01-01T00:00:00Z"))
        .unwrap();
    db.insert_memory(&mem("mem_2", "Work: database schema", "2025-01-02T00:00:00Z"))
        .unwrap();
    db.insert_memory(&mem("mem_3", "cooking", "2025-01-03T00:00:00Z"))
        .unwrap();

    let s = suggest_hierarchy_heuristic("Work: database schema");
    let (placed, moved) = db
        .migrate_topic_with("Work: database schema", &s, ids("a"), "2025-02-01T00:00:00Z")
        .unwrap();
    assert_eq!(moved, 2);
    assert_eq!(placed.workspace.0, "ws_a");
    assert_eq!(placed.project.0, "proj_a");
    assert_eq!(placed.area.0, "area_a");
    assert_eq!(placed.topic.0, "topic_a");

    let workspaces: Vec<String> = db.get_all_workspaces().into_iter().map(|w| w.1).collect();
    assert_eq!(workspaces, vec!["Work".to_string()]);
    assert_eq!(db.get_all_projects()[0].1, "Miscellaneous");
    assert_eq!(db.get_all_areas()[0].1, "Database");
    assert_eq!(db.get_all_topics()[0].1, "database schema");
    assert_eq!(
        db.get_topics_by_area(&placed.area),
        vec![(placed.topic.clone(), "database schema".to_string())]
    );
    assert_eq!(
        db.get_memory_by_id(&MemoryId("mem_1".to_string())).unwrap().topic_id,
        Some(placed.topic.clone())
    );
    assert_eq!(
        db.get_memory_by_id(&MemoryId("mem_3".to_string())).unwrap().topic_id,
        None
    );

    // The same place again: nothing new is created, the stored levels are found.
    let (again, moved) = db
        .migrate_topic_with("cooking", &s, ids("b"), "2025-02-02T00:00:00Z")
        .unwrap();
    assert_eq!(moved, 1);
    assert_eq!(again.topic, placed.topic);
    assert_eq!(again.workspace, placed.workspace);
    assert_eq!(db.get_all_topics().len(), 1);
    assert_eq!(db.count_memories_by_topic_id(&placed.topic), 3);
}

#[test]
fn a_taken_identifier_ends_the_placing() {
    let mut db = Database::new();
    db.insert_memory(&mem("mem_1", "a", "2025-01-01T00:00:00Z")).unwrap();
    db.migrate_topic_with("a", &place("W", "P", "A", "T"), ids("x"), "2025-02-01T00:00:00Z")
        .unwrap();
    // A new area under the stored project, but under the identifier of the stored area.
    let clash = HierarchyIds {
        area: AreaId("area_x".to_string()),
        ..ids("y")
    };
    let r = db.migrate_topic_with("a", &place("W", "P", "Other", "T"), clash, "2025-02-02T00:00:00Z");
    assert_eq!(r.err(), Some(StoreError::Conflict));
    assert_eq!(db.get_all_areas().len(), 1);
    assert_eq!(db.get_all_topics().len(), 1);
}

#[test]
fn counters_of_a_migration() {
    let mut db = Database::new();
    db.insert_memory(&mem("mem_1", "a", "2025-01-01T00:00:00Z")).unwrap();
    db.insert_memory(&mem("mem_2", "b", "2025-01-02T00:00:00Z")).unwrap();
    let topics = db.get_all_distinct_topics();
    let mut stats = MigrationStats {
        total_topics: topics.len(),
        ..MigrationStats::default()
    };
    for (topic, count) in topics {
        let s = suggest_hierarchy_heuristic(&topic);
        let (placed, moved) = db.migrate_topic(&topic, &s).unwrap();
        stats.record(count, &placed, moved);
    }
    assert_eq!(stats.total_topics, 2);
    assert_eq!(stats.total_memories, 2);
    assert_eq!(stats.memories_updated, 2);
    assert_eq!(stats.workspaces_created, 2);
    assert_eq!(stats.projects_created, 2);
    assert_eq!(stats.areas_created, 2);
    assert_eq!(stats.topics_created, 2);
    assert_eq!(db.get_all_workspaces().len(), 1);
    assert_eq!(db.get_all_topics().len(), 2);

    let mut odd = MigrationStats::default();
    let placed = memory_layer::relocation::Placed {
        workspace: WorkspaceId("custom".to_string()),
        project: ProjectId("proj_1".to_string()),
        area: AreaId("area".to_string()),
        topic: TopicId("topic_".to_string()),
    };
    odd.total_memories = usize::MAX;
    odd.record(5, &placed, 3);
    assert_eq!(odd.total_memories, usize::MAX);
    assert_eq!(odd.workspaces_created, 0);
    assert_eq!(odd.projects_created, 1);
    assert_eq!(odd.areas_created, 0);
    assert_eq!(odd.topics_created, 1);
    assert_eq!(odd.memories_updated, 3);
}

#[test]
fn index_notes_are_written_for_topics_with_memories() {
    let mut db = Database::new();
    db.insert_memory(&mem("mem_1", "a", "2025-01-01T00:00:00Z")).unwrap();
    db.insert_memory(&mem("mem_2", "a", "2025-01-02T00:00:00Z")).unwrap();
    let (full, _) = db
        .migrate_topic_with("a", &place("W", "P", "A", "Full"), ids("x"), "2025-02-01T00:00:00Z")
        .unwrap();
    let (empty, moved) = db
        .migrate_topic_with("none", &place("W", "P", "A", "Empty"), ids("y"), "2025-02-01T00:00:00Z")
        .unwrap();
    assert_eq!(moved, 0);
    assert_eq!(db.refresh_index_notes(), 1);
    let note = db.get_index_note("topic", &full.topic.0).unwrap();
    assert_eq!(
        note.content,
        "Index note for 'Full' in area 'A'. Contains 2 memories."
    );
    assert_eq!(note.key_memories, vec!["mem_2".to_string(), "mem_1".to_string()]);
    assert!(db.get_index_note("topic", &empty.topic.0).is_none());
    assert_eq!(db.refresh_index_notes(), 1);
    assert_eq!(db.get_all_index_notes().len(), 1);
}
