use memory_layer::composer::{Composer, DeltaResult};
use memory_layer::ids::{generate_memory_id, generate_turn_id, CapsuleId};
use memory_layer::schemas::{
    ContextCapsule, ContextRequest, ContextStyle, Memory, MemoryKind, MessageRole, ProvenanceType,
    Snippet,
};
use memory_layer::templates::TemplateRenderer;

fn memory(kind: MemoryKind, text: &str, created_at: &str) -> Memory {
    Memory {
        id: generate_memory_id(),
        kind,
        topic: "test".to_string(),
        text: text.to_string(),
        snippet: None,
        entities: vec![],
        provenance: vec![generate_turn_id()],
        created_at: created_at.to_string(),
        ttl: None,
        topic_id: None,
    }
}

fn request(budget: u64, topic: Option<&str>, thread: Option<&str>) -> ContextRequest {
    ContextRequest {
        topic_hint: topic.map(|s| s.to_string()),
        intent: None,
        budget_tokens: budget,
        scopes: vec![],
        thread_key: thread.map(|s| s.to_string()),
        last_capsule_id: None,
    }
}

fn capsule(text: &str) -> ContextCapsule {
    ContextCapsule {
        capsule_id: CapsuleId("cap_x".to_string()),
        preamble_text: text.to_string(),
        messages: vec![],
        provenance: vec![],
        delta_of: None,
        ttl_sec: 600,
        token_count: None,
        style: None,
    }
}

#[test]
fn test_short_template() {
    let renderer = TemplateRenderer::new();
    let memories = vec![memory(MemoryKind::Fact, "This is a test fact", "2025-01-01T00:00:00Z")];
    let result = renderer.render(&ContextStyle::Short, "TestProject", &memories, 100);
    assert!(result.contains("Context: TestProject"));
    assert!(result.len() < 200);
    assert_eq!(result, "Context: TestProject. Last: This is a test fact");
}

#[test]
fn test_standard_template() {
    let renderer = TemplateRenderer::new();
    let memories = vec![memory(MemoryKind::Decision, "Decided to use Rust", "2025-01-01T00:00:00Z")];
    let result = renderer.render(&ContextStyle::Standard, "TestProject", &memories, 220);
    assert!(result.contains("Context (continue without re-explaining)"));
    assert!(result.contains("TestProject"));
}

#[test]
fn test_detailed_template() {
    let renderer = TemplateRenderer::new();
    let mut task = memory(MemoryKind::Task, "Need to write tests", "2025-01-01T00:00:00Z");
    task.ttl = Some(86400);
    let memories = vec![
        memory(MemoryKind::Decision, "Decided to use Rust", "2025-01-01T00:00:00Z"),
        task,
    ];
    let result = renderer.render(&ContextStyle::Detailed, "TestProject", &memories, 500);
    assert!(result.contains("# Context Summary"));
    assert!(result.contains("TestProject"));
    assert!(result.contains("Decisions:"));
    assert!(result.contains("Tasks:"));
    assert_eq!(
        result,
        "# Context Summary\n\n## Project: TestProject\n\n## Recent Activities:\n\n### Decisions:\n- Decided to use Rust\n\n### Tasks:\n- Need to write tests\n\n## Instructions:\nUse this context to inform your responses. Reference specific details when relevant. If critical information is missing, ask clarifying questions before proceeding."
    );
}

#[test]
fn standard_template_at_a_fixed_time() {
    let renderer = TemplateRenderer::new();
    let mut with_snippet = memory(MemoryKind::Snippet, "Code snippet", "not a time");
    with_snippet.snippet = Some(Snippet {
        title: "src/a.rs".to_string(),
        text: "one\r\ntwo\nthree\nfour".to_string(),
        loc: Some("L1-L4".to_string()),
        language: None,
    });
    let long = "This sentence is rather long and goes on and on well past fifty characters. Then more.";
    let memories = vec![
        memory(MemoryKind::Fact, long, "2025-01-01T00:00:00Z"),
        with_snippet,
        memory(MemoryKind::Fact, "third", "2025-01-01T00:00:00Z"),
    ];
    // 2025-01-01T02:30:00Z
    let now = 1_735_689_600 + 9000;
    let result = renderer.render_standard_at("Topic", &memories, now);
    assert_eq!(
        result,
        "Context (continue without re-explaining):\n• Project/Topic: Topic\n• Recent: This sentence is rather long and goes on and on we... (2h ago); Code snippet (recently)\n• Snip: \"one\ntwo\nthree\"\n  (src/a.rs L1-L4)\nInstructions: Use the context to answer. Don't restate it. Ask one concise follow-up if a key detail is missing."
    );
}

#[test]
fn relative_times() {
    let r = TemplateRenderer::new();
    let t = "2025-01-01T00:00:00Z";
    let base = 1_735_689_600i64;
    assert_eq!(r.format_relative_time(t, base + 59), "0m ago");
    assert_eq!(r.format_relative_time(t, base + 3599), "59m ago");
    assert_eq!(r.format_relative_time(t, base + 3600), "1h ago");
    assert_eq!(r.format_relative_time(t, base + 86399), "23h ago");
    assert_eq!(r.format_relative_time(t, base + 86400), "1d ago");
    assert_eq!(r.format_relative_time(t, base + 6 * 86400), "6d ago");
    assert_eq!(r.format_relative_time(t, base + 7 * 86400), "1w ago");
    assert_eq!(r.format_relative_time(t, base - 7200), "-120m ago");
    assert_eq!(r.format_relative_time("yesterday", base), "recently");
    assert_eq!(r.format_relative_time("2025-01-01T01:00:00+01:00", base + 60), "1m ago");
}

#[test]
fn short_template_with_snippet_line() {
    let renderer = TemplateRenderer::new();
    let mut m = memory(MemoryKind::Snippet, "Code snippet", "2025-01-01T00:00:00Z");
    m.snippet = Some(Snippet {
        title: "t".to_string(),
        text: "let x = 1;\nlet y = 2;".to_string(),
        loc: None,
        language: None,
    });
    let result = renderer.render_short("T", &vec![m], 50);
    assert_eq!(result, "Context: T. Last: Code snippet. \"let x = 1;\"");
    assert_eq!(renderer.render_short("General", &vec![], 50), "Context: General");
}

#[test]
fn test_compose_short() {
    let mut composer = Composer::new();
    let capsule = composer.compose(&request(80, Some("Test"), None), &vec![]);
    assert!(capsule.token_count.unwrap() < 150);
    assert!(matches!(capsule.style, Some(ContextStyle::Short)));
}

#[test]
fn test_compose_standard() {
    let mut composer = Composer::new();
    let capsule = composer.compose(&request(220, Some("Test"), None), &vec![]);
    assert!(capsule.token_count.is_some());
    assert!(matches!(capsule.style, Some(ContextStyle::Standard)));
}

#[test]
fn test_compose_caching() {
    let mut composer = Composer::new();
    let capsule = composer.compose(&request(220, Some("Test"), Some("test_thread")), &vec![]);
    let cached = composer.get_cached("test_thread");
    assert!(cached.is_some());
    assert_eq!(cached.unwrap().capsule_id, capsule.capsule_id);
    let second = composer.compose(&request(80, Some("Other"), Some("test_thread")), &vec![]);
    assert_eq!(composer.get_cached("test_thread").unwrap().capsule_id, second.capsule_id);
    assert!(composer.get_cached("nobody").is_none());
    composer.clear_cache();
    assert!(composer.get_cached("test_thread").is_none());
}

#[test]
fn capsule_budget_scenario() {
    let mut composer = Composer::new();
    let mut req = request(80, None, None);
    req.last_capsule_id = Some(CapsuleId("cap_before".to_string()));
    let capsule = composer.compose(&req, &vec![]);
    assert_eq!(capsule.style, Some(ContextStyle::Short));
    assert!(capsule.preamble_text.starts_with("Context: General"));
    assert_eq!(capsule.token_count, Some(capsule.preamble_text.len() as u64 / 4));
    assert_eq!(capsule.token_count, Some(4));
    assert_eq!(capsule.ttl_sec, 600);
    assert_eq!(capsule.messages.len(), 1);
    assert_eq!(capsule.messages[0].role, MessageRole::System);
    assert_eq!(capsule.messages[0].content, capsule.preamble_text);
    assert_eq!(capsule.provenance[0].kind, ProvenanceType::Memory);
    assert_eq!(capsule.provenance[0].reference, "0 memories");
    assert_eq!(capsule.delta_of, Some(CapsuleId("cap_before".to_string())));
    assert!(capsule.capsule_id.0.starts_with("cap_"));
    assert_eq!(capsule.capsule_id.0.len(), 30);
}

#[test]
fn budget_picks_style_and_limit() {
    assert_eq!(Composer::select_style(99), ContextStyle::Short);
    assert_eq!(Composer::select_style(100), ContextStyle::Standard);
    assert_eq!(Composer::select_style(299), ContextStyle::Standard);
    assert_eq!(Composer::select_style(300), ContextStyle::Detailed);
    assert_eq!(Composer::memory_limit(0), 5);
    assert_eq!(Composer::memory_limit(240), 6);
    assert_eq!(Composer::memory_limit(2000), 50);
    assert_eq!(Composer::memory_limit(u64::MAX), 50);
}

#[test]
fn delta_classes() {
    let composer = Composer::new();
    assert_eq!(composer.compute_delta(&capsule("a b c"), &capsule("a b c")), DeltaResult::NoChange);
    let twenty: Vec<String> = (0..20).map(|i| format!("w{}", i)).collect();
    let mut nineteen_same = twenty.clone();
    nineteen_same[0] = "new".to_string();
    // 19 shared of 21: just more than nine in ten
    assert_eq!(
        composer.compute_delta(&capsule(&twenty.join(" ")), &capsule(&nineteen_same.join(" "))),
        DeltaResult::Small
    );
    // 18 shared of 20: nine in ten, and no more
    let nineteen: Vec<String> = (0..19).map(|i| format!("w{}", i)).collect();
    let mut one_new = nineteen.clone();
    one_new[0] = "new".to_string();
    assert_eq!(
        composer.compute_delta(&capsule(&nineteen.join(" ")), &capsule(&one_new.join(" "))),
        DeltaResult::Changed
    );
    // the same words in another order and spacing
    assert_eq!(
        composer.compute_delta(&capsule("a b  c"), &capsule("c b a")),
        DeltaResult::Small
    );
    // one word added to twenty: 20 of 21
    let mut one_more = twenty.clone();
    one_more.push("extra".to_string());
    assert_eq!(
        composer.compute_delta(&capsule(&twenty.join(" ")), &capsule(&one_more.join(" "))),
        DeltaResult::Small
    );
    // ten words, one replaced: 9 of 11
    let ten: Vec<String> = (0..10).map(|i| format!("w{}", i)).collect();
    let mut replaced = ten.clone();
    replaced[3] = "other".to_string();
    assert_eq!(
        composer.compute_delta(&capsule(&ten.join(" ")), &capsule(&replaced.join(" "))),
        DeltaResult::Changed
    );
    assert_eq!(composer.compute_delta(&capsule(" "), &capsule("  ")), DeltaResult::Small);
}
