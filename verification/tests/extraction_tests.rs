use memory_layer::extractor::{
    build_extraction_prompt, memories_from_reports, parse_memory_kind, parse_relation_type,
    ExtractedMemoryData, ExtractionStrategy, HeuristicExtractor, MemoryExtractor,
};
use memory_layer::heuristic::{
    detect_language, extract_context_around, extract_entities, infer_topic, Confidence,
};
use memory_layer::ids::{generate_thread_id, generate_turn_id};
use memory_layer::schemas::{MemoryKind, RelationType, SourceApp, Turn, TurnSource};

fn turn(text: &str, app: SourceApp, url: Option<&str>, path: Option<&str>) -> Turn {
    Turn {
        id: generate_turn_id(),
        thread_id: generate_thread_id(),
        ts_user: "2025-11-02T18:00:00Z".to_string(),
        user_text: text.to_string(),
        ts_ai: None,
        ai_text: None,
        source: TurnSource {
            app,
            url: url.map(|s| s.to_string()),
            path: path.map(|s| s.to_string()),
        },
    }
}

#[test]
fn test_decision_with_reasoning() {
    let extractor = HeuristicExtractor::new();
    let turn = turn(
        "I decided to use Rust because it's fast and safe. We'll adopt it for the new service.",
        SourceApp::Claude,
        None,
        None,
    );
    let memories = extractor.extract(&turn).unwrap();
    assert!(!memories.is_empty());
    let decision = memories
        .iter()
        .find(|m| matches!(m.memory.kind, MemoryKind::Decision));
    assert!(decision.is_some());
    assert!(decision.unwrap().confidence.is_confident());
}

#[test]
fn test_high_priority_task() {
    let extractor = HeuristicExtractor::new();
    let turn = turn(
        "URGENT: need to fix the critical bug in auth service",
        SourceApp::VSCode,
        None,
        Some("src/auth.rs"),
    );
    let memories = extractor.extract(&turn).unwrap();
    let task = memories
        .iter()
        .find(|m| matches!(m.memory.kind, MemoryKind::Task));
    assert!(task.is_some());
    let task_mem = task.unwrap();
    assert!(task_mem.confidence.is_confident());
    assert!(task_mem.memory.ttl.unwrap() < 86400 * 5);
    assert_eq!(task_mem.memory.ttl, Some(86400 * 2));
    assert_eq!(task_mem.confidence.score(), 850);
    assert_eq!(task_mem.memory.topic, "auth.rs");
}

#[test]
fn test_fact_extraction() {
    let extractor = HeuristicExtractor::new();
    let turn = turn(
        "API endpoint: /api/v1/users\nDatabase: PostgreSQL",
        SourceApp::Claude,
        None,
        None,
    );
    let memories = extractor.extract(&turn).unwrap();
    let facts: Vec<_> = memories
        .iter()
        .filter(|m| matches!(m.memory.kind, MemoryKind::Fact))
        .collect();
    assert!(!facts.is_empty());
    assert_eq!(facts[0].memory.text, "endpoint: /api/v1/users");
    assert_eq!(facts[0].confidence.score(), 800);
    assert_eq!(facts[0].memory.entities, vec!["endpoint".to_string()]);
}

#[test]
fn test_code_reference_with_lines() {
    let extractor = HeuristicExtractor::new();
    let turn = turn(
        "Check the implementation in src/main.rs:42-56",
        SourceApp::VSCode,
        None,
        None,
    );
    let memories = extractor.extract(&turn).unwrap();
    let snippet = memories
        .iter()
        .find(|m| matches!(m.memory.kind, MemoryKind::Snippet));
    assert!(snippet.is_some());
    let snippet_mem = snippet.unwrap();
    let s = snippet_mem.memory.snippet.as_ref().unwrap();
    assert!(s.loc.is_some());
    assert_eq!(s.loc.as_deref(), Some("L42-L56"));
    assert_eq!(s.title, "src/main.rs");
    assert_eq!(s.language.as_deref(), Some("rust"));
    assert_eq!(snippet_mem.memory.text, "Reference to src/main.rs");
    assert_eq!(snippet_mem.confidence.score(), 900);
}

#[test]
fn test_confidence_scoring() {
    let extractor = HeuristicExtractor::new();
    let turn1 = turn("TODO: implement authentication", SourceApp::VSCode, None, None);
    let memories1 = extractor.extract(&turn1).unwrap();
    assert!(memories1[0].confidence.score() >= 800);
    assert_eq!(memories1[0].confidence.score(), 900);
    let turn2 = turn("This is something", SourceApp::Claude, None, None);
    let memories2 = extractor.extract(&turn2).unwrap();
    assert!(memories2.len() < memories1.len());
}

#[test]
fn extraction_is_repeatable() {
    let extractor = MemoryExtractor::with_strategy(ExtractionStrategy::HeuristicOnly);
    let turn = turn(
        "I decided to use Rust because it's fast. TODO: migrate the API. See src/lib.rs:10 and `Vec<u8>`.\n```rust\nfn main() {}\n```",
        SourceApp::VSCode,
        None,
        Some("/u/me/code/svc/src/main.rs"),
    );
    let a = extractor.extract(&turn).unwrap();
    let b = extractor.extract(&turn).unwrap();
    assert_eq!(a.len(), b.len());
    assert!(a.len() >= 3);
    for (x, y) in a.iter().zip(b.iter()) {
        assert_eq!(x.kind, y.kind);
        assert_eq!(x.topic, y.topic);
        assert_eq!(x.text, y.text);
        assert_eq!(x.entities, y.entities);
        assert_eq!(x.ttl, y.ttl);
        assert_eq!(x.provenance, vec![turn.id.clone()]);
        assert_ne!(x.id, y.id);
        assert!(x.id.0.starts_with("mem_"));
        assert!(x.topic_id.is_none());
    }
}

#[test]
fn code_block_names_its_language() {
    let extractor = MemoryExtractor::new();
    let turn = turn(
        "Here's the implementation:\n```rust\nfn calculate(x: i32) -> i32 {\n    x * 2\n}\n```",
        SourceApp::VSCode,
        None,
        None,
    );
    let memories = extractor.extract(&turn).unwrap();
    let snippet = memories
        .iter()
        .find(|m| matches!(m.kind, MemoryKind::Snippet))
        .unwrap();
    let data = snippet.snippet.as_ref().unwrap();
    assert_eq!(data.language, Some("rust".to_string()));
    assert_eq!(data.text, "fn calculate(x: i32) -> i32 {\n    x * 2\n}");
    assert_eq!(data.title, "Snippet from editor");
    assert_eq!(snippet.text, "Code snippet");
}

#[test]
fn low_confidence_facts_are_dropped() {
    let extractor = MemoryExtractor::new();
    let t = turn("colour: green", SourceApp::Notes, None, None);
    let all = HeuristicExtractor::new().extract(&t).unwrap();
    assert_eq!(all.len(), 1);
    assert_eq!(all[0].confidence.score(), 600);
    assert!(extractor.extract(&t).unwrap().is_empty());
}

#[test]
fn complex_text_detection() {
    let extractor = MemoryExtractor::with_strategy(ExtractionStrategy::Hybrid);
    assert!(!extractor.is_complex_text("I decided to use Rust."));
    let complex = "I decided to use Rust because it's fast. Since we need performance, this is critical. We must migrate the API soon. Therefore, I will start working on it next week. TODO: plan migration.";
    assert!(extractor.is_complex_text(complex));
    assert!(extractor.is_complex_text("a. b. c. d. e."));
    assert!(!extractor.is_complex_text("a. b. c. d"));
}

#[test]
fn topic_inference_order() {
    assert_eq!(
        infer_topic(&turn("x", SourceApp::VSCode, Some("https://a.b/c"), Some("/u/me/code/svc/src/main.rs"))),
        "main.rs"
    );
    assert_eq!(infer_topic(&turn("x", SourceApp::VSCode, Some("https://docs.rs/regex"), None)), "docs.rs");
    assert_eq!(infer_topic(&turn("We like Python", SourceApp::Mail, None, None)), "python");
    assert_eq!(infer_topic(&turn("nothing here", SourceApp::Mail, None, None)), "mail");
    assert_eq!(infer_topic(&turn("nothing here", SourceApp::Claude, Some("no scheme"), None)), "chat-A");
}

#[test]
fn entities_are_sorted_and_unique() {
    let e = extract_entities("The Rust compiler and Tokio, Tokio! Use `Vec<u8>` and Zed.");
    assert_eq!(e, vec!["Rust", "Tokio", "Use", "Vec<u8>", "Zed"]);
    assert!(extract_entities("no names here").is_empty());
}

#[test]
fn context_is_snapped_to_sentences() {
    let text: Vec<char> = "First one. I decided to go. Last one.".chars().collect();
    let ctx: String = extract_context_around(&text, 13, 200).into_iter().collect();
    assert_eq!(ctx, "I decided to go.");
    let tail: String = extract_context_around(&text, 500, 3).into_iter().collect();
    assert_eq!(tail, "");
    let near_end: String = extract_context_around(&text, 33, 3).into_iter().collect();
    assert_eq!(near_end, "st one");
}

#[test]
fn languages_by_extension() {
    assert_eq!(detect_language("a/b.rs"), Some("rust".to_string()));
    assert_eq!(detect_language("x.tsx"), Some("typescript".to_string()));
    assert_eq!(detect_language("x.hpp"), Some("cpp".to_string()));
    assert_eq!(detect_language("Makefile"), None);
}

#[test]
fn confidence_is_clamped() {
    assert_eq!(Confidence::new(1500).score(), 1000);
    assert_eq!(Confidence::new(700).score(), 700);
    assert!(Confidence::new(700).is_confident());
    assert!(!Confidence::new(699).is_confident());
}

#[test]
fn test_extraction_prompt() {
    let t = turn(
        "I decided to use Rust for performance. TODO: migrate the API.",
        SourceApp::Claude,
        None,
        Some("src/main.rs"),
    );
    let prompt = build_extraction_prompt(&t);
    assert!(prompt.contains("DECISIONS"));
    assert!(prompt.contains("TASKS"));
    assert!(prompt.contains("FACTS"));
    assert!(prompt.contains("I decided to use Rust"));
    assert!(prompt.contains("- Path: src/main.rs\n- URL: N/A"));
}

#[test]
fn reports_become_memories() {
    let t = turn("Test", SourceApp::Claude, None, Some("a/b/notes.md"));
    let data = vec![
        ExtractedMemoryData {
            kind: "decision".to_string(),
            text: "Decided to use Rust for the project".to_string(),
            topic: Some("programming".to_string()),
            entities: vec!["Rust".to_string()],
            confidence: Confidence::new(900),
            reasoning: Some("Clear commitment to a technology choice".to_string()),
        },
        ExtractedMemoryData {
            kind: "TASK".to_string(),
            text: "Migrate API to new framework".to_string(),
            topic: None,
            entities: vec!["API".to_string()],
            confidence: Confidence::new(850),
            reasoning: None,
        },
        ExtractedMemoryData {
            kind: "riddle".to_string(),
            text: "?".to_string(),
            topic: None,
            entities: vec![],
            confidence: Confidence::new(100),
            reasoning: None,
        },
    ];
    let memories = memories_from_reports(&data, &t);
    assert_eq!(memories.len(), 3);
    assert!(matches!(memories[0].memory.kind, MemoryKind::Decision));
    assert!(matches!(memories[1].memory.kind, MemoryKind::Task));
    assert!(matches!(memories[2].memory.kind, MemoryKind::Fact));
    assert!(memories[0].confidence.is_confident());
    assert_eq!(memories[0].memory.topic, "programming");
    assert_eq!(memories[1].memory.topic, "notes.md");
    assert_eq!(memories[1].memory.ttl, Some(86400 * 7));
    assert_eq!(memories[0].memory.ttl, None);
    let kept = MemoryExtractor::new().deduplicate_and_filter(memories);
    assert_eq!(kept.len(), 2);
}

#[test]
fn names_are_parsed_whatever_their_case() {
    assert_eq!(parse_memory_kind("Snippet"), MemoryKind::Snippet);
    assert_eq!(parse_memory_kind("unknown"), MemoryKind::Fact);
    assert_eq!(parse_relation_type("SUPERSEDES"), RelationType::Supersedes);
    assert_eq!(parse_relation_type("relates_to"), RelationType::RelatesTo);
    assert_eq!(parse_relation_type("??"), RelationType::RelatesTo);
    assert_eq!(RelationType::Contradicts.as_str(), "contradicts");
}

#[test]
fn explicit_markers_are_nine_tenths_sure() {
    let extractor = HeuristicExtractor::new();
    for (marker, expected) in [
        ("TODO", 900),
        ("FIXME", 900),
        ("XXX", 900),
        ("fixme", 900),
        ("NOTE", 750),
        ("HACK", 750),
    ] {
        let t = turn(
            &format!("{marker}: tidy the parser module"),
            SourceApp::Other,
            None,
            None,
        );
        let found = extractor.extract(&t).unwrap();
        let task = found
            .iter()
            .find(|m| matches!(m.memory.kind, MemoryKind::Task))
            .unwrap();
        assert_eq!(task.confidence.score(), expected, "{marker}");
        assert_eq!(task.memory.ttl, Some(86400 * 7));
    }
}
