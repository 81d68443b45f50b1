use memory_layer::extractor::{ExtractedMemory, ExtractionStrategy, MemoryExtractor};
use memory_layer::heuristic::Confidence;
use memory_layer::graph::relink;
use memory_layer::ids::{MemoryId, ThreadId, TurnId};
use memory_layer::narrative::RelationDirection;
use memory_layer::organizer::MemoryOrganizer;
use memory_layer::schemas::{
    AgenticLink, AgenticMemory, Memory, MemoryKind, RelationType, SourceApp, Strength, Turn,
    TurnSource,
};
use memory_layer::store::{Database, StoreError};
use memory_layer::worker::{ingest_memories, process_reported_turn, process_turn};

fn turn(id: &str, text: &str, path: Option<&str>) -> Turn {
    Turn {
        id: TurnId(id.to_string()),
        thread_id: ThreadId("thr_1".to_string()),
        ts_user: "2025-11-07T10:00:00+00:00".to_string(),
        user_text: text.to_string(),
        ts_ai: None,
        ai_text: None,
        source: TurnSource {
            app: SourceApp::VSCode,
            url: None,
            path: path.map(|p| p.to_string()),
        },
    }
}

fn mem(id: &str, kind: MemoryKind, topic: &str, text: &str, created_at: &str) -> Memory {
    Memory {
        id: MemoryId(id.to_string()),
        kind,
        topic: topic.to_string(),
        text: text.to_string(),
        snippet: None,
        entities: vec![],
        provenance: vec![TurnId("turn_1".to_string())],
        created_at: created_at.to_string(),
        ttl: None,
        topic_id: None,
    }
}

fn record(id: &str, keywords: &[&str], links: Vec<AgenticLink>) -> AgenticMemory {
    AgenticMemory {
        id: MemoryId(id.to_string()),
        content: "content".to_string(),
        context: format!("context of {id}"),
        keywords: keywords.iter().map(|k| k.to_string()).collect(),
        tags: vec![],
        category: None,
        links,
        retrieval_count: 0,
        last_accessed: "2025-01-01T00:00:00Z".to_string(),
        created_at: "2025-01-01T00:00:00Z".to_string(),
        evolution_history: vec![],
    }
}

#[test]
fn one_decision_is_ingested() {
    let mut db = Database::new();
    let extractor = MemoryExtractor::new();
    let organizer = MemoryOrganizer::new();
    let t = turn(
        "turn_s1",
        "I decided to use Rust because it's fast.",
        Some("/u/me/code/svc/src/main.rs"),
    );
    assert_eq!(process_turn(&mut db, &extractor, &organizer, &t), Ok(1));
    assert_eq!(db.count_turns(), 1);
    assert_eq!(db.count_memories(), 1);

    let stored = db.get_recent_memories(10);
    assert_eq!(stored.len(), 1);
    assert_eq!(stored[0].kind, MemoryKind::Decision);
    assert_eq!(stored[0].provenance, vec![TurnId("turn_s1".to_string())]);
    let topic_id = stored[0].topic_id.clone().unwrap();

    let workspaces: Vec<String> = db.get_all_workspaces().into_iter().map(|w| w.1).collect();
    assert_eq!(workspaces, vec!["editor".to_string()]);
    let projects = db.get_all_projects();
    assert_eq!(projects.len(), 1);
    assert_eq!(projects[0].1, "svc");
    assert_eq!(projects[0].2, "editor");
    let areas = db.get_all_areas();
    assert_eq!(areas.len(), 1);
    assert_eq!(areas[0].1, "Decisions");
    assert_eq!(areas[0].2, "svc");
    let topics = db.get_all_topics();
    assert_eq!(topics.len(), 1);
    assert_eq!(topics[0].0, topic_id);
    assert_eq!(topics[0].1, "main.rs");
    assert_eq!(topics[0].2, "Decisions");

    let row = db.get_agentic_memory(&stored[0].id).unwrap();
    assert!(row.tags.iter().any(|t| t == "kind:decision"));

    assert_eq!(
        process_turn(&mut db, &extractor, &organizer, &t),
        Err(StoreError::Conflict)
    );
    assert_eq!(db.count_turns(), 1);
    assert_eq!(db.count_memories(), 1);
}

#[test]
fn a_turn_without_memories_is_still_stored() {
    let mut db = Database::new();
    let t = turn("turn_quiet", "hello there", None);
    assert_eq!(
        process_turn(&mut db, &MemoryExtractor::new(), &MemoryOrganizer::new(), &t),
        Ok(0)
    );
    assert_eq!(db.count_turns(), 1);
    assert_eq!(db.count_memories(), 0);
    assert!(db.get_all_workspaces().is_empty());
}

#[test]
fn every_memory_of_a_turn_goes_in() {
    let mut db = Database::new();
    let t = turn(
        "turn_many",
        "I decided to use PostgreSQL for the backend. TODO: Set up database schema.",
        Some("/Users/me/code/backend-api/src/db/schema.rs"),
    );
    let n = process_turn(&mut db, &MemoryExtractor::new(), &MemoryOrganizer::new(), &t).unwrap();
    assert!(n >= 2);
    assert_eq!(db.count_memories(), n);
    for m in db.get_recent_memories(10) {
        assert!(m.topic_id.is_some());
        assert!(db.get_agentic_memory(&m.id).is_some());
    }
    let areas: Vec<String> = db.get_all_areas().into_iter().map(|a| a.1).collect();
    assert!(areas.contains(&"Decisions".to_string()));
    assert!(areas.contains(&"Tasks".to_string()));
}

#[test]
fn supersession_round_trip() {
    let mut db = Database::new();
    let m1 = mem("mem_1", MemoryKind::Decision, "db", "use sqlite", "2025-01-01T00:00:00Z");
    let m2 = mem("mem_2", MemoryKind::Decision, "db", "use postgres", "2025-02-01T00:00:00Z");
    db.insert_memory(&m1).unwrap();
    db.insert_memory(&m2).unwrap();
    let rel = db
        .create_memory_relation(&m2.id, &m1.id, RelationType::Supersedes, Some("v2 chosen"))
        .unwrap();
    assert_eq!(db.get_memory_row(&m1.id).unwrap().superseded_by, Some(m2.id.clone()));
    assert_eq!(db.get_memory_row(&m2.id).unwrap().superseded_by, None);

    let trail: Vec<String> = db
        .get_evolution_trail(&m2.id)
        .into_iter()
        .map(|m| m.id.0)
        .collect();
    assert_eq!(trail, vec!["mem_1".to_string(), "mem_2".to_string()]);
    let alone: Vec<String> = db
        .get_evolution_trail(&m1.id)
        .into_iter()
        .map(|m| m.id.0)
        .collect();
    assert_eq!(alone, vec!["mem_1".to_string()]);

    db.delete_memory_relation(&rel).unwrap();
    assert_eq!(db.get_memory_row(&m1.id).unwrap().superseded_by, None);
    assert!(db.get_all_memory_relations(&m1.id).is_empty());
}

#[test]
fn a_cycle_ends_the_trail() {
    let mut db = Database::new();
    let m1 = mem("mem_1", MemoryKind::Fact, "t", "a", "2025-01-01T00:00:00Z");
    let m2 = mem("mem_2", MemoryKind::Fact, "t", "b", "2025-01-02T00:00:00Z");
    db.insert_memory(&m1).unwrap();
    db.insert_memory(&m2).unwrap();
    db.create_memory_relation(&m2.id, &m1.id, RelationType::Supersedes, None)
        .unwrap();
    db.create_memory_relation(&m1.id, &m2.id, RelationType::Supersedes, None)
        .unwrap();
    let trail = db.get_evolution_trail(&m2.id);
    assert_eq!(trail.len(), 2);
    assert_eq!(trail[1].id, m2.id);
}

#[test]
fn narrative_of_a_decision() {
    let mut db = Database::new();
    let d = mem("mem_d", MemoryKind::Decision, "db", "use postgres", "2025-01-01T00:00:00Z");
    let i = mem("mem_i", MemoryKind::Snippet, "db", "schema.sql", "2025-01-02T00:00:00Z");
    let q = mem("mem_q", MemoryKind::Fact, "db", "why not sqlite?", "2025-01-03T00:00:00Z");
    let c = mem("mem_c", MemoryKind::Fact, "db", "sqlite is enough", "2025-01-04T00:00:00Z");
    for m in [&d, &i, &q, &c] {
        db.insert_memory(m).unwrap();
    }
    db.create_memory_relation(&i.id, &d.id, RelationType::Implements, None)
        .unwrap();
    db.create_memory_relation(&q.id, &d.id, RelationType::Questions, None)
        .unwrap();
    db.create_memory_relation(&c.id, &d.id, RelationType::Contradicts, Some("size"))
        .unwrap();

    let chain = db.get_decision_chain(&d.id).unwrap();
    assert_eq!(chain.decision.id, d.id);
    assert_eq!(chain.implementations.len(), 1);
    assert_eq!(chain.implementations[0].id, i.id);
    assert_eq!(chain.questions.len(), 1);
    assert_eq!(chain.questions[0].id, q.id);
    assert_eq!(
        db.get_decision_chain(&MemoryId("mem_none".to_string())).err(),
        Some(StoreError::NotFound)
    );

    let incoming = db.get_related_memories_by_type(
        &d.id,
        RelationType::Implements,
        RelationDirection::Incoming,
    );
    assert_eq!(incoming.len(), 1);
    assert!(db
        .get_related_memories_by_type(&d.id, RelationType::Implements, RelationDirection::Outgoing)
        .is_empty());
    assert_eq!(db.get_memory_relations_to(&d.id).len(), 3);
    assert_eq!(db.get_memory_relations_from(&d.id).len(), 0);

    let found = db.find_contradictions("db");
    assert_eq!(found.len(), 1);
    assert_eq!(found[0].0.id, c.id);
    assert_eq!(found[0].1.id, d.id);
    assert_eq!(found[0].2, "size");

    let story = db.get_memory_narrative(&d.id).unwrap();
    assert_eq!(story.memory.id, d.id);
    assert_eq!(story.relations.len(), 3);
    assert_eq!(story.evolution_trail.len(), 1);

    let resolution = db.get_question_resolution(&q.id).unwrap();
    assert_eq!(resolution.question.id, q.id);
    assert_eq!(resolution.questioned_memories.len(), 1);
    assert_eq!(resolution.questioned_memories[0].id, d.id);
    assert_eq!(resolution.potential_answers.len(), 1);
    assert_eq!(resolution.potential_answers[0].id, c.id);

    assert_eq!(db.calculate_memory_importance(&d.id), Ok(8));
    assert_eq!(db.calculate_memory_importance(&i.id), Ok(5));
}

#[test]
fn records_as_a_graph() {
    let mut db = Database::new();
    let m1 = mem("mem_1", MemoryKind::Fact, "one", "  alpha beta gamma delta  ", "2025-01-01T00:00:00Z");
    let m2 = mem("mem_2", MemoryKind::Fact, "two", "alpha beta gamma epsilon", "2025-01-01T00:00:00Z");
    let m3 = mem("mem_3", MemoryKind::Fact, "three", "alpha beta gamma delta zeta", "2025-01-01T00:00:00Z");
    for m in [&m1, &m2, &m3] {
        db.insert_memory(m).unwrap();
    }
    db.upsert_agentic_memory_at(&m1, "2025-01-01T00:00:01Z").unwrap();
    db.upsert_agentic_memory_at(&m2, "2025-01-01T00:00:02Z").unwrap();
    db.upsert_agentic_memory_at(&m3, "2025-01-01T00:00:03Z").unwrap();

    let recent = db.list_recent(10);
    let order: Vec<&str> = recent.iter().map(|r| r.id.0.as_str()).collect();
    assert_eq!(order, vec!["mem_3", "mem_2", "mem_1"]);
    assert_eq!(recent[2].preview, "alpha beta gamma delta");
    assert_eq!(recent[2].context, "one");
    assert_eq!(recent[2].retrieval_count, 0);
    assert_eq!(db.list_recent(2).len(), 2);

    db.record_access_at(&m1.id, "2025-06-01T00:00:00Z");
    db.record_access_at(&MemoryId("mem_none".to_string()), "2025-06-02T00:00:00Z");
    let recent = db.list_recent(1);
    assert_eq!(recent[0].id, m1.id);
    assert_eq!(recent[0].retrieval_count, 1);
    assert_eq!(recent[0].last_accessed, "2025-06-01T00:00:00Z");
    db.record_access(&m1.id).unwrap();
    assert_eq!(db.get_agentic_memory(&m1.id).unwrap().retrieval_count, 2);

    let g = db.graph(10);
    assert_eq!(g.nodes.len(), 3);
    assert_eq!(g.nodes[0].id, m1.id);
    let edges: Vec<(String, String, u32)> = g
        .edges
        .iter()
        .map(|e| (e.source.0.clone(), e.target.0.clone(), e.strength.millionths))
        .collect();
    assert_eq!(
        edges,
        vec![
            ("mem_1".to_string(), "mem_3".to_string(), 800_000),
            ("mem_3".to_string(), "mem_1".to_string(), 800_000),
        ]
    );
    let small = db.graph(1);
    assert_eq!(small.nodes.len(), 1);
    assert!(small.edges.is_empty());

    assert_eq!(db.link_similar_memories(None), Ok(0));
    assert_eq!(db.link_similar_memories(Some(&m2.id)), Ok(0));
    assert_eq!(
        db.link_similar_memories(Some(&MemoryId("mem_none".to_string()))),
        Err(StoreError::NotFound)
    );
}

#[test]
fn resembling_records_are_linked_afterwards() {
    let a = record("mem_a", &["alpha", "beta", "gamma", "delta"], vec![]);
    let b = record("mem_b", &["alpha", "beta", "gamma", "delta", "zeta"], vec![]);
    let c = record("mem_c", &["alpha", "beta", "gamma", "epsilon"], vec![]);
    let d = record("mem_d", &[], vec![]);
    let all = vec![
        record("mem_a", &["alpha", "beta", "gamma", "delta"], vec![]),
        b,
        c,
        d,
    ];
    let (row, n) = relink(&a, &all);
    assert_eq!(n, 1);
    assert_eq!(row.links.len(), 1);
    assert_eq!(row.links[0].target.0, "mem_b");
    assert_eq!(row.links[0].strength, Strength { millionths: 800_000 });
    assert_eq!(
        row.links[0].rationale.as_deref(),
        Some("auto-linked: 80.0% keyword similarity")
    );

    let linked = record(
        "mem_a",
        &["alpha", "beta", "gamma", "delta"],
        vec![AgenticLink {
            target: MemoryId("mem_b".to_string()),
            strength: Strength { millionths: 100_000 },
            rationale: None,
        }],
    );
    let (row, n) = relink(&linked, &all);
    assert_eq!(n, 0);
    assert_eq!(row.links.len(), 1);
    assert_eq!(row.links[0].strength, Strength { millionths: 100_000 });

    let silent = record("mem_e", &[], vec![]);
    let (row, n) = relink(&silent, &all);
    assert_eq!(n, 0);
    assert!(row.links.is_empty());
}

#[test]
fn what_a_model_reported_is_ingested() {
    let mut db = Database::new();
    let extractor = MemoryExtractor::with_strategy(ExtractionStrategy::LLMWithFallback);
    let organizer = MemoryOrganizer::new();
    let t = turn("turn_r1", "hello there", Some("/u/me/code/svc/src/main.rs"));
    let reported = vec![
        ExtractedMemory {
            memory: mem("mem_sure", MemoryKind::Fact, "storage", "The store is a file.", "2025-11-07T10:00:00+00:00"),
            confidence: Confidence::new(900),
        },
        ExtractedMemory {
            memory: mem("mem_unsure", MemoryKind::Fact, "storage", "Perhaps.", "2025-11-07T10:00:00+00:00"),
            confidence: Confidence::new(400),
        },
    ];
    assert_eq!(
        process_reported_turn(&mut db, &extractor, &organizer, &t, Some(reported)),
        Ok(1)
    );
    assert_eq!(db.count_turns(), 1);
    let stored = db.get_recent_memories(10);
    assert_eq!(stored.len(), 1);
    assert_eq!(stored[0].id, MemoryId("mem_sure".to_string()));
    assert!(stored[0].topic_id.is_some());

    assert_eq!(
        process_reported_turn(&mut db, &extractor, &organizer, &t, None),
        Err(StoreError::Conflict)
    );
    assert_eq!(db.count_memories(), 1);
}

#[test]
fn without_a_report_the_patterns_decide() {
    let mut db = Database::new();
    let extractor = MemoryExtractor::with_strategy(ExtractionStrategy::LLMWithFallback);
    let t = turn("turn_r2", "I decided to use Rust because it's fast.", None);
    assert_eq!(
        process_reported_turn(&mut db, &extractor, &MemoryOrganizer::new(), &t, None),
        Ok(1)
    );
    assert_eq!(db.get_recent_memories(10)[0].kind, MemoryKind::Decision);

    let mut other = Database::new();
    let by_patterns = MemoryExtractor::new();
    let reported = vec![ExtractedMemory {
        memory: mem("mem_x", MemoryKind::Fact, "storage", "The store is a file.", "2025-11-07T10:00:00+00:00"),
        confidence: Confidence::new(900),
    }];
    let quiet = turn("turn_r3", "hello there", None);
    assert_eq!(
        process_reported_turn(&mut other, &by_patterns, &MemoryOrganizer::new(), &quiet, Some(reported)),
        Ok(0)
    );
    assert_eq!(other.count_memories(), 0);
}

#[test]
fn given_memories_are_filed_and_stored() {
    let mut db = Database::new();
    let t = turn("turn_g", "hello there", Some("/u/me/code/svc/src/main.rs"));
    let given = vec![
        mem("mem_g1", MemoryKind::Decision, "storage", "Use one file.", "2025-11-07T10:00:00+00:00"),
        mem("mem_g2", MemoryKind::Task, "storage", "Write the schema.", "2025-11-07T10:00:01+00:00"),
        mem("mem_g1", MemoryKind::Fact, "storage", "Taken already.", "2025-11-07T10:00:02+00:00"),
    ];
    assert_eq!(ingest_memories(&mut db, &MemoryOrganizer::new(), &t, &given), 2);
    assert_eq!(db.count_memories(), 2);
    assert_eq!(db.count_turns(), 0);
    for m in db.get_recent_memories(10) {
        assert!(m.topic_id.is_some());
        assert!(db.get_agentic_memory(&m.id).is_some());
    }
}

#[test]
fn a_record_is_put_beside_its_memory_only() {
    let mut db = Database::new();
    let row = record("mem_p", &["alpha", "beta"], vec![]);
    assert_eq!(db.put_agentic_memory(row), Err(StoreError::NotFound));
    assert!(db.get_agentic_memory(&MemoryId("mem_p".to_string())).is_none());

    db.insert_memory(&mem("mem_p", MemoryKind::Fact, "t", "text", "2025-01-01T00:00:00Z"))
        .unwrap();
    let mut row = record("mem_p", &["alpha", "beta"], vec![]);
    row.retrieval_count = 7;
    assert_eq!(db.put_agentic_memory(row), Ok(()));
    let got = db.get_agentic_memory(&MemoryId("mem_p".to_string())).unwrap();
    assert_eq!(got.retrieval_count, 7);
    assert_eq!(got.keywords, vec!["alpha".to_string(), "beta".to_string()]);
    assert_eq!(got.context, "context of mem_p");
}
