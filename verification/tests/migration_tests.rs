use memory_layer::migration::{
    default_area, default_project, default_topic, default_workspace, suggest_hierarchy_heuristic,
};

#[test]
fn test_heuristic_work_topic() {
    let suggestion = suggest_hierarchy_heuristic("Work: Memory Layer Database Schema");
    assert_eq!(suggestion.workspace, "Work");
    assert_eq!(suggestion.project, "Memory Layer");
    assert_eq!(suggestion.area, "Database");
}

#[test]
fn test_heuristic_personal_topic() {
    let suggestion = suggest_hierarchy_heuristic("Personal: WaterBuddy Hydration Model");
    assert_eq!(suggestion.workspace, "Personal");
    assert_eq!(suggestion.project, "WaterBuddy");
}

#[test]
fn test_heuristic_learning_topic() {
    let suggestion = suggest_hierarchy_heuristic("Learning: Rust async programming");
    assert_eq!(suggestion.workspace, "Learning");
}

#[test]
fn test_heuristic_general_topic() {
    let suggestion = suggest_hierarchy_heuristic("Random notes about coffee");
    assert_eq!(suggestion.workspace, "General");
    assert_eq!(suggestion.project, "Miscellaneous");
}

#[test]
fn heuristic_topic_is_cleaned() {
    let suggestion = suggest_hierarchy_heuristic("Work: Memory Layer Database Schema");
    assert_eq!(suggestion.topic, "Memory Layer Database Schema");
    assert_eq!(
        suggestion.rationale.as_deref(),
        Some("Heuristic-based classification")
    );
    let only_prefix = suggest_hierarchy_heuristic("Work:");
    assert_eq!(only_prefix.topic, "Work:");
}

#[test]
fn suggestion_defaults() {
    assert_eq!(default_workspace(), "General");
    assert_eq!(default_project(), "Miscellaneous");
    assert_eq!(default_area(), "General");
    assert_eq!(default_topic(), "Uncategorized");
}
