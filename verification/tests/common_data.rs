use memory_layer::ids::{MemoryId, TurnId};
use memory_layer::schemas::{Memory, MemoryKind};

#[test]
fn memory_literal_keeps_its_fields() {
    let m = Memory {
        id: MemoryId("mem_X".to_string()),
        kind: MemoryKind::Fact,
        topic: "t".to_string(),
        text: "body".to_string(),
        snippet: None,
        entities: vec!["e".to_string()],
        provenance: vec![TurnId("turn_1".to_string())],
        created_at: "2025-01-01T00:00:00Z".to_string(),
        ttl: Some(5),
        topic_id: None,
    };
    let c = m.clone();
    assert_eq!(c.id, m.id);
    assert_eq!(c.text, "body");
    assert_eq!(c.entities, vec!["e".to_string()]);
    assert_eq!(c.provenance.len(), 1);
    assert_eq!(c.ttl, Some(5));
}
