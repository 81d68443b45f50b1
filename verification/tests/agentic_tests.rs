use memory_layer::ids::{generate_turn_id, MemoryId};
use memory_layer::links::{merge_links, propose_link};
use memory_layer::schemas::{AgenticLink, Memory, MemoryKind, Snippet, Strength};
use memory_layer::sidecar::{derive_context, derive_keywords, derive_tags};
use memory_layer::store::{Database, StoreError};

fn memory(id: &str, kind: MemoryKind, topic: &str, text: &str) -> Memory {
    Memory {
        id: MemoryId(id.to_string()),
        kind,
        topic: topic.to_string(),
        text: text.to_string(),
        snippet: None,
        entities: vec![],
        provenance: vec![generate_turn_id()],
        created_at: "2025-01-01T00:00:00Z".to_string(),
        ttl: None,
        topic_id: None,
    }
}

fn link(target: &str, millionths: u32) -> AgenticLink {
    AgenticLink {
        target: MemoryId(target.to_string()),
        strength: Strength { millionths },
        rationale: None,
    }
}

#[test]
fn test_agentic_metadata_generation() {
    let mut db = Database::new();
    let memory_a = memory(
        "mem_a",
        MemoryKind::Fact,
        "agentic",
        "Agentic memory links related context across tasks.",
    );
    let memory_b = memory(
        "mem_b",
        MemoryKind::Task,
        "agentic",
        "Review agentic memory base integration",
    );
    db.insert_memory(&memory_a).unwrap();
    let agentic_a = db.upsert_agentic_memory(&memory_a).unwrap();
    assert!(!agentic_a.keywords.is_empty());
    assert!(agentic_a.tags.iter().any(|tag| tag.starts_with("kind:")));
    db.insert_memory(&memory_b).unwrap();
    let agentic_b = db.upsert_agentic_memory(&memory_b).unwrap();
    assert!(
        agentic_b.links.iter().any(|link| link.target == memory_a.id),
        "Expected second memory to link to the first"
    );
    let stored_a = db.get_agentic_memory(&memory_a.id).unwrap();
    assert!(
        stored_a.links.iter().any(|link| link.target == memory_b.id),
        "Expected first memory to gain reverse link to second"
    );
}

#[test]
fn linking_by_keyword_share() {
    let mut db = Database::new();
    let m1 = memory("mem_1", MemoryKind::Fact, "one", "alpha beta gamma delta");
    let m2 = memory("mem_2", MemoryKind::Fact, "two", "alpha beta gamma epsilon");
    let m3 = memory("mem_3", MemoryKind::Fact, "three", "alpha beta gamma delta zeta");
    db.insert_memory(&m1).unwrap();
    db.insert_memory(&m2).unwrap();
    db.insert_memory(&m3).unwrap();
    let a1 = db.upsert_agentic_memory_at(&m1, "2025-01-01T00:00:01Z").unwrap();
    assert!(a1.links.is_empty());
    let a2 = db.upsert_agentic_memory_at(&m2, "2025-01-01T00:00:02Z").unwrap();
    assert!(a2.links.is_empty(), "three of five shared keywords make no link");
    let a3 = db.upsert_agentic_memory_at(&m3, "2025-01-01T00:00:03Z").unwrap();
    assert_eq!(a3.links.len(), 1);
    assert_eq!(a3.links[0].target, m1.id);
    assert_eq!(a3.links[0].strength, Strength { millionths: 800_000 });
    assert_eq!(a3.links[0].rationale.as_deref(), Some("keyword-similarity: 80.0%"));
    let back = db.get_agentic_memory(&m1.id).unwrap();
    assert_eq!(back.links.len(), 1);
    assert_eq!(back.links[0].target, m3.id);
    assert_eq!(back.links[0].strength, Strength { millionths: 800_000 });
    assert_eq!(back.links[0].rationale.as_deref(), Some("keyword-similarity: 80.0%"));
    assert!(db.get_agentic_memory(&m2.id).unwrap().links.is_empty());
    assert_eq!(a3.keywords, vec!["alpha", "delta", "gamma", "beta", "zeta"]);
    assert_eq!(a3.context, "three");
    assert_eq!(a3.content, "alpha beta gamma delta zeta");
    assert_eq!(a3.category.as_deref(), Some("fact"));
    assert_eq!(a3.created_at, "2025-01-01T00:00:03Z");
    assert_eq!(a3.evolution_history.len(), 1);
    assert_eq!(a3.evolution_history[0].summary, "Refreshed agentic attributes");
    assert_eq!(
        a3.evolution_history[0].changes,
        Some(vec![
            "context:three".to_string(),
            "keywords:alpha,delta,gamma,beta,zeta".to_string()
        ])
    );
}

#[test]
fn refresh_keeps_creation_time_and_caps_history() {
    let mut db = Database::new();
    let m = memory("mem_1", MemoryKind::Decision, "", "We chose tokio. It works well");
    db.insert_memory(&m).unwrap();
    for i in 0..30 {
        let now = format!("2025-01-01T00:00:{:02}Z", i);
        let row = db.upsert_agentic_memory_at(&m, &now).unwrap();
        assert_eq!(row.created_at, "2025-01-01T00:00:00Z");
        assert_eq!(row.last_accessed, now);
        assert!(row.evolution_history.len() <= 25);
    }
    let row = db.get_agentic_memory(&m.id).unwrap();
    assert_eq!(row.evolution_history.len(), 25);
    assert_eq!(row.evolution_history[0].timestamp, "2025-01-01T00:00:05Z");
    assert_eq!(row.context, "We chose tokio");
    assert!(row.tags.contains(&"kind:decision".to_string()));
    assert!(row.tags.contains(&"context:we chose tokio".to_string()));
}

#[test]
fn sidecar_of_unknown_memory_is_not_found() {
    let mut db = Database::new();
    let m = memory("mem_1", MemoryKind::Fact, "t", "text");
    assert!(matches!(db.upsert_agentic_memory(&m), Err(StoreError::NotFound)));
    assert!(db.get_agentic_memory(&m.id).is_none());
}

#[test]
fn reverse_link_is_merged() {
    let mut db = Database::new();
    let a = memory("mem_a", MemoryKind::Fact, "ta", "alpha words here");
    db.insert_memory(&a).unwrap();
    db.upsert_agentic_memory(&a).unwrap();
    let b = MemoryId("mem_b".to_string());
    db.merge_single_link(&a.id, &b, Strength { millionths: 700_000 }, "topic-match").unwrap();
    db.merge_single_link(&a.id, &b, Strength { millionths: 650_000 }, "other").unwrap();
    let row = db.get_agentic_memory(&a.id).unwrap();
    assert_eq!(row.links.len(), 1);
    assert_eq!(row.links[0].strength, Strength { millionths: 700_000 });
    assert_eq!(row.links[0].rationale.as_deref(), Some("topic-match"));
    db.merge_single_link(&a.id, &b, Strength { millionths: 900_000 }, "").unwrap();
    assert_eq!(
        db.get_agentic_memory(&a.id).unwrap().links[0].strength,
        Strength { millionths: 900_000 }
    );
    for i in 0..9 {
        let t = MemoryId(format!("mem_{}", i));
        db.merge_single_link(&a.id, &t, Strength { millionths: 950_000 }, "").unwrap();
    }
    let row = db.get_agentic_memory(&a.id).unwrap();
    assert_eq!(row.links.len(), 8);
    assert!(row.links.iter().all(|l| l.target != b), "eight stronger links crowd the ninth out");
    // a memory without record is left alone
    assert_eq!(
        db.merge_single_link(&b, &a.id, Strength { millionths: 1 }, "x"),
        Ok(())
    );
}

#[test]
fn merged_links_keep_the_greater_strength() {
    let existing = vec![link("mem_x", 500_000), link("mem_y", 900_000)];
    let mut proposed = vec![
        AgenticLink {
            target: MemoryId("mem_x".to_string()),
            strength: Strength { millionths: 700_000 },
            rationale: Some("why".to_string()),
        },
        link("mem_y", 100_000),
        link("mem_z", 700_000),
    ];
    let merged = merge_links(existing, &mut proposed);
    assert!(proposed.is_empty());
    let got: Vec<(String, u32)> = merged
        .iter()
        .map(|l| (l.target.0.clone(), l.strength.millionths))
        .collect();
    assert_eq!(
        got,
        vec![
            ("mem_y".to_string(), 900_000),
            ("mem_x".to_string(), 700_000),
            ("mem_z".to_string(), 700_000)
        ]
    );
    assert_eq!(merged[1].rationale.as_deref(), Some("why"));
}

#[test]
fn proposals_by_share_and_context() {
    let kw = |v: &[&str]| v.iter().map(|s| s.to_string()).collect::<Vec<String>>();
    let id = MemoryId("mem_c".to_string());
    let mine = kw(&["alpha", "beta", "gamma"]);
    let l = propose_link("ctx", &mine, &id, "ctx", &kw(&["alpha", "beta", "gamma"])).unwrap();
    assert_eq!(l.strength, Strength { millionths: 1_000_000 });
    assert_eq!(l.rationale.as_deref(), Some("keyword-similarity: 100.0% (same context)"));
    let l = propose_link("ctx", &mine, &id, "other", &kw(&["alpha", "beta", "delta"]));
    assert!(l.is_none());
    let l = propose_link("ctx", &mine, &id, "ctx", &kw(&["alpha", "beta", "delta"])).unwrap();
    assert_eq!(l.strength, Strength { millionths: 600_000 });
    assert_eq!(l.rationale.as_deref(), Some("same-context"));
    assert!(propose_link("ctx", &mine, &id, "ctx", &kw(&[])).is_none());
    assert!(propose_link("ctx", &kw(&[]), &id, "ctx", &mine).is_none());
    assert!(propose_link("ctx", &mine, &id, "other", &kw(&[])).is_none());
    let l = propose_link("a", &kw(&["a1", "b2", "c3"]), &id, "b", &kw(&["a1", "b2", "c3", "d4"])).unwrap();
    assert_eq!(l.strength, Strength { millionths: 750_000 });
    assert_eq!(l.rationale.as_deref(), Some("keyword-similarity: 75.0%"));
    let seven = kw(&["a", "b", "c", "d", "e", "f", "g"]);
    let six = kw(&["a", "b", "c", "d", "e", "f"]);
    let l = propose_link("a", &seven, &id, "b", &six).unwrap();
    assert_eq!(l.strength, Strength { millionths: 857_142 });
    assert_eq!(l.rationale.as_deref(), Some("keyword-similarity: 85.7%"));
}

#[test]
fn context_keywords_and_tags() {
    assert_eq!(derive_context("   "), "general");
    assert_eq!(derive_context("  First sentence! Second one.\nnext line"), "First sentence");
    assert_eq!(derive_context("...\nrest"), "...\nrest");
    let long = "x".repeat(200);
    assert_eq!(derive_context(&long).len(), 96);
    let k = derive_keywords("The parser parses; the PARSER and the lexer-stage with this _token_ tok");
    assert_eq!(k, vec!["parser", "lexer-stage", "parses", "token"]);
    let many = derive_keywords("aaaa bbbb cccc dddd eeee ffff gggg hhhh iiii jjjj");
    assert_eq!(many.len(), 8);
    assert_eq!(many[0], "aaaa");
    let mut m = memory("mem_1", MemoryKind::Snippet, " My  Topic\t", "text");
    m.snippet = Some(Snippet {
        title: "t".to_string(),
        text: "code".to_string(),
        loc: None,
        language: Some("Rust".to_string()),
    });
    let tags = derive_tags(&m, "Some\nContext", &vec!["k1".to_string(), "k2".to_string(), "k3".to_string(), "k4".to_string(), "k5".to_string()]);
    assert_eq!(
        tags,
        vec![
            "context:some context",
            "kind:snippet",
            "kw:k1",
            "kw:k2",
            "kw:k3",
            "kw:k4",
            "lang:rust",
            "topic: my topic"
        ]
    );
}
