use memory_layer::atomicity::{judge, suggest_splits, Findings};
use memory_layer::extractor::{ExtractedMemory, ExtractionStrategy, MemoryExtractor};
use memory_layer::heuristic::Confidence;
use memory_layer::ids::{MemoryId, ThreadId, TurnId};
use memory_layer::schemas::{
    Memory, MemoryKind, RelationType, SourceApp, Turn, TurnSource,
};
use memory_layer::store::{Database, StoreError};

fn mem(id: &str, text: &str, entities: &[&str], created_at: &str) -> Memory {
    Memory {
        id: MemoryId(id.to_string()),
        kind: MemoryKind::Fact,
        topic: "t".to_string(),
        text: text.to_string(),
        snippet: None,
        entities: entities.iter().map(|e| e.to_string()).collect(),
        provenance: vec![TurnId("turn_1".to_string())],
        created_at: created_at.to_string(),
        ttl: None,
        topic_id: None,
    }
}

fn clean() -> Findings {
    Findings {
        words: 3,
        connectors: 0,
        bullets: 0,
        unlinked: false,
        vague: false,
        unnamed: false,
    }
}

#[test]
fn a_plain_memory_is_atomic() {
    let mut db = Database::new();
    db.insert_memory(&mem("mem_a", "Rust is fast", &["Rust"], "2025-01-01T00:00:00Z"))
        .unwrap();
    let c = db.check_atomicity(&MemoryId("mem_a".to_string())).unwrap();
    assert_eq!(c.memory_id.0, "mem_a");
    assert!(c.is_atomic);
    assert_eq!(c.score, 100);
    assert_eq!(c.word_count, 3);
    assert!(c.issues.is_empty());
    assert_eq!(c.recommendation, "Note follows atomic principles well.");
    assert_eq!(
        db.check_atomicity(&MemoryId("mem_none".to_string())).err(),
        Some(StoreError::NotFound)
    );
}

#[test]
fn findings_lower_the_score() {
    let mut db = Database::new();
    let a = MemoryId("mem_a".to_string());
    let b = MemoryId("mem_b".to_string());
    db.insert_memory(&mem(
        "mem_a",
        "As Mentioned before, it works",
        &[],
        "2025-01-01T00:00:00Z",
    ))
    .unwrap();
    db.insert_memory(&mem("mem_b", "other", &["X"], "2025-01-02T00:00:00Z"))
        .unwrap();

    let c = db.check_atomicity(&a).unwrap();
    assert_eq!(c.score, 70);
    assert!(c.is_atomic);
    assert_eq!(c.issues.len(), 2);

    db.promote_to_permanent(&a).unwrap();
    let c = db.check_atomicity(&a).unwrap();
    assert_eq!(c.score, 60);
    assert!(!c.is_atomic);
    assert_eq!(
        c.issues,
        vec![
            "No relationships to other notes. Atomic notes should connect to the knowledge graph."
                .to_string(),
            "Contains vague references ('see above', 'as mentioned'). Note may not be self-contained."
                .to_string(),
            "No entities identified. Atomic notes should have clear subject matter.".to_string(),
        ]
    );
    assert_eq!(
        c.recommendation,
        "Note could be improved. Consider refining to focus on a single idea."
    );

    db.create_memory_relation(&b, &a, RelationType::RelatesTo, None)
        .unwrap();
    assert_eq!(db.check_atomicity(&a).unwrap().score, 70);
}

#[test]
fn long_and_listed_texts() {
    let mut db = Database::new();
    let long = "word ".repeat(501);
    db.insert_memory(&mem("mem_long", &long, &["X"], "2025-01-01T00:00:00Z"))
        .unwrap();
    let c = db.check_atomicity(&MemoryId("mem_long".to_string())).unwrap();
    assert_eq!(c.word_count, 501);
    assert_eq!(c.score, 80);
    assert_eq!(
        c.issues,
        vec!["Note is too long (501 words). Consider splitting into multiple atomic notes.".to_string()]
    );

    let joined = "a and b and c and d and e and f also g";
    db.insert_memory(&mem("mem_and", joined, &["X"], "2025-01-01T00:00:00Z"))
        .unwrap();
    let c = db.check_atomicity(&MemoryId("mem_and".to_string())).unwrap();
    assert_eq!(c.score, 85);
    assert_eq!(
        c.issues,
        vec!["High use of compound connectors (6 instances). May contain multiple ideas.".to_string()]
    );

    let listed = "items:\n- a\n- b\n- c\n* d\n* e\n- f\n- g\n\u{2022} h";
    db.insert_memory(&mem("mem_list", listed, &["X"], "2025-01-01T00:00:00Z"))
        .unwrap();
    let c = db.check_atomicity(&MemoryId("mem_list".to_string())).unwrap();
    assert_eq!(c.score, 85);
    assert_eq!(
        c.issues,
        vec!["Contains 8 bullet points. Consider splitting into separate notes.".to_string()]
    );
}

#[test]
fn the_verdict_follows_the_findings() {
    let id = MemoryId("mem_x".to_string());
    let all = Findings {
        words: 600,
        connectors: 9,
        bullets: 9,
        unlinked: true,
        vague: true,
        unnamed: true,
    };
    let c = judge(&id, all);
    assert_eq!(c.score, 10);
    assert!(!c.is_atomic);
    assert_eq!(c.issues.len(), 6);
    assert_eq!(
        c.recommendation,
        "Note likely contains multiple ideas. Strongly consider splitting into atomic notes."
    );
    let edge = Findings { words: 500, connectors: 5, bullets: 7, ..clean() };
    assert_eq!(judge(&id, edge).score, 100);
    let half = Findings { words: 501, vague: true, unlinked: true, ..clean() };
    let c = judge(&id, half);
    assert_eq!(c.score, 50);
    assert_eq!(
        c.recommendation,
        "Note could be improved. Consider refining to focus on a single idea."
    );
    let below = Findings { unnamed: true, ..half };
    assert_eq!(judge(&id, below).score, 40);
}

#[test]
fn splits_are_suggested() {
    let text = "# One\nbody\n## Two\nmore\n1. first\n2. second\n3. third\n4. fourth\n5. a fifth item that goes on for much longer than fifty characters\n6. sixth";
    let m = mem("mem_s", text, &["A", "B", "C", "D"], "2025-01-01T00:00:00Z");
    let s = suggest_splits(&m);
    assert_eq!(s.len(), 3);
    assert_eq!(s[0].reason, "Found 2 headings - each could be a separate note");
    assert_eq!(s[0].split_points, vec!["One".to_string(), "Two".to_string()]);
    assert_eq!(
        s[1].reason,
        "Contains 4 distinct entities - may cover multiple topics"
    );
    assert_eq!(s[1].split_points.len(), 4);
    assert_eq!(
        s[2].reason,
        "Contains 6 numbered items - consider one note per item"
    );
    assert_eq!(
        s[2].split_points,
        vec![
            "first".to_string(),
            "second".to_string(),
            "third".to_string(),
            "fourth".to_string(),
            "a fifth item that goes on for much longer than fif...".to_string(),
        ]
    );

    let plain = mem("mem_p", "# Only\n1. one\n2. two", &["A"], "2025-01-01T00:00:00Z");
    assert!(suggest_splits(&plain).is_empty());

    let mut db = Database::new();
    db.insert_memory(&m).unwrap();
    assert_eq!(db.suggest_note_splits(&m.id).unwrap().len(), 3);
    assert_eq!(
        db.suggest_note_splits(&MemoryId("mem_none".to_string())).err(),
        Some(StoreError::NotFound)
    );
}

#[test]
fn permanent_memories_are_rated() {
    let mut db = Database::new();
    let rows = [
        ("mem_1", "see above for details", vec![], "2025-01-01T00:00:00Z"),
        ("mem_2", "Rust is fast", vec!["Rust"], "2025-01-02T00:00:00Z"),
        ("mem_3", "plain words", vec![], "2025-01-03T00:00:00Z"),
        ("mem_4", "left fleeting as discussed", vec![], "2025-01-04T00:00:00Z"),
    ];
    for (id, text, entities, at) in rows {
        db.insert_memory(&mem(id, text, &entities, at)).unwrap();
    }
    for id in ["mem_1", "mem_2", "mem_3"] {
        db.promote_to_permanent(&MemoryId(id.to_string())).unwrap();
    }
    // mem_1: 100 - 10 - 20 - 10 = 60; mem_2: 100 - 10 = 90; mem_3: 100 - 10 - 10 = 80
    let stats = db.get_atomicity_stats();
    assert_eq!(stats.total_checked, 3);
    assert_eq!(stats.atomic_count, 2);
    assert_eq!(stats.needs_improvement, 1);
    assert_eq!(stats.needs_splitting, 0);

    let found: Vec<(String, u8)> = db
        .get_non_atomic_memories(95, None)
        .into_iter()
        .map(|(m, c)| (m.id.0, c.score))
        .collect();
    assert_eq!(
        found,
        vec![
            ("mem_1".to_string(), 60),
            ("mem_3".to_string(), 80),
            ("mem_2".to_string(), 90),
        ]
    );
    let found: Vec<String> = db
        .get_non_atomic_memories(95, Some(2))
        .into_iter()
        .map(|(m, _)| m.id.0)
        .collect();
    assert_eq!(found, vec!["mem_3".to_string(), "mem_2".to_string()]);
    assert!(db.get_non_atomic_memories(60, None).is_empty());
    assert_eq!(db.get_non_atomic_memories(61, None).len(), 1);
}

fn turn(text: &str) -> Turn {
    Turn {
        id: TurnId("turn_1".to_string()),
        thread_id: ThreadId("thr_1".to_string()),
        ts_user: "2025-11-07T10:00:00+00:00".to_string(),
        user_text: text.to_string(),
        ts_ai: None,
        ai_text: None,
        source: TurnSource {
            app: SourceApp::Other,
            url: None,
            path: None,
        },
    }
}

fn item(id: &str, kind: MemoryKind, topic: &str, entities: &[&str], confidence: u32) -> ExtractedMemory {
    let mut m = mem(id, "text", entities, "2025-01-01T00:00:00Z");
    m.kind = kind;
    m.topic = topic.to_string();
    ExtractedMemory {
        memory: m,
        confidence: Confidence::new(confidence),
    }
}

fn ids(ms: &[Memory]) -> Vec<&str> {
    ms.iter().map(|m| m.id.0.as_str()).collect()
}

#[test]
fn the_strategy_decides_when_a_model_is_asked() {
    let simple = turn("hello");
    let complex = turn("We decided this because of that, since it must work.");
    let by_patterns = MemoryExtractor::new();
    assert_eq!(by_patterns.get_strategy(), ExtractionStrategy::HeuristicOnly);
    assert_eq!(
        MemoryExtractor::by_default(false).get_strategy(),
        ExtractionStrategy::HeuristicOnly
    );
    assert_eq!(
        MemoryExtractor::by_default(true).get_strategy(),
        ExtractionStrategy::Hybrid
    );
    assert!(!by_patterns.asks_model(&complex, true));
    let fallback = MemoryExtractor::with_strategy(ExtractionStrategy::LLMWithFallback);
    assert!(fallback.asks_model(&simple, true));
    assert!(!fallback.asks_model(&simple, false));
    let hybrid = MemoryExtractor::with_strategy(ExtractionStrategy::Hybrid);
    assert!(!hybrid.asks_model(&simple, true));
    assert!(hybrid.asks_model(&complex, true));
    assert!(!hybrid.asks_model(&complex, false));
}

#[test]
fn the_strategy_settles_what_is_kept() {
    let found = || {
        vec![
            item("mem_h1", MemoryKind::Decision, "db", &[], 750),
            item("mem_h2", MemoryKind::Task, "db", &[], 600),
        ]
    };
    let reported = || {
        vec![
            item("mem_m1", MemoryKind::Decision, "db", &[], 900),
            item("mem_m2", MemoryKind::Fact, "db", &[], 500),
            item("mem_m3", MemoryKind::Fact, "ui", &["A"], 800),
        ]
    };
    let by_patterns = MemoryExtractor::new();
    assert_eq!(ids(&by_patterns.settle(found(), Some(reported()))), vec!["mem_h1"]);

    let fallback = MemoryExtractor::with_strategy(ExtractionStrategy::LLMWithFallback);
    assert_eq!(
        ids(&fallback.settle(found(), Some(reported()))),
        vec!["mem_m1", "mem_m3"]
    );
    assert_eq!(ids(&fallback.settle(found(), None)), vec!["mem_h1"]);

    let hybrid = MemoryExtractor::with_strategy(ExtractionStrategy::Hybrid);
    assert_eq!(
        ids(&hybrid.settle(found(), Some(reported()))),
        vec!["mem_m1", "mem_m3"]
    );
    assert_eq!(ids(&hybrid.settle(found(), None)), vec!["mem_h1"]);
    let tie = vec![
        item("mem_a", MemoryKind::Fact, "t", &[], 800),
        item("mem_b", MemoryKind::Fact, "t", &["X"], 800),
        item("mem_c", MemoryKind::Fact, "t", &[], 800),
    ];
    assert_eq!(ids(&hybrid.settle(tie, None)), vec!["mem_b"]);
}
