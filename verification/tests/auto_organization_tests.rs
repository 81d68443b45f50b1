use memory_layer::extractor::MemoryExtractor;
use memory_layer::ids::{generate_thread_id, generate_turn_id, ThreadId, TurnId};
use memory_layer::organizer::MemoryOrganizer;
use memory_layer::schemas::{ProjectStatus, SourceApp, Turn, TurnSource};
use memory_layer::store::Database;

fn spoken(app: SourceApp, text: &str, path: Option<&str>) -> Turn {
    Turn {
        id: generate_turn_id(),
        thread_id: generate_thread_id(),
        ts_user: "2025-11-07T10:00:00+00:00".to_string(),
        user_text: text.to_string(),
        ts_ai: None,
        ai_text: None,
        source: TurnSource {
            app,
            url: None,
            path: path.map(|p| p.to_string()),
        },
    }
}

fn ingest(db: &mut Database, turn: &Turn) -> usize {
    let extractor = MemoryExtractor::new();
    let organizer = MemoryOrganizer::new();
    db.insert_turn(turn).unwrap();
    let memories = extractor.extract(turn).unwrap();
    for memory in &memories {
        let organized = organizer.organize(db, memory, turn).unwrap();
        assert!(organized.topic_id.is_some());
        db.insert_memory(&organized).unwrap();
    }
    memories.len()
}

#[test]
fn test_auto_organization_creates_hierarchy() {
    let mut db = Database::new();
    let turn = spoken(
        SourceApp::VSCode,
        "I decided to use Rust for the memory-layer project.",
        Some("/Users/me/code/memory-layer/src/main.rs"),
    );
    let n = ingest(&mut db, &turn);
    assert!(n > 0, "Should extract at least one memory");

    let workspaces = db.get_all_workspaces();
    assert!(!workspaces.is_empty());
    assert!(workspaces.iter().any(|(_, name)| name == "editor"));

    let projects = db.get_all_projects();
    assert!(!projects.is_empty());
    assert!(projects.iter().any(|(_, name, _)| name == "memory-layer"));
    assert!(projects.iter().all(|(_, _, parent)| parent == "editor"));

    let areas = db.get_all_areas();
    assert!(!areas.is_empty());
    assert!(areas.iter().any(|(_, name, _)| name == "Decisions"));
    assert!(areas.iter().all(|(_, _, parent)| parent == "memory-layer"));

    let topics = db.get_all_topics();
    assert!(!topics.is_empty());
}

#[test]
fn test_same_app_same_workspace() {
    let mut db = Database::new();
    let turn1 = spoken(
        SourceApp::Claude,
        "I decided to use neural networks for AI modeling.",
        None,
    );
    let turn2 = spoken(
        SourceApp::Claude,
        "I decided to implement gradient descent for ML optimization.",
        None,
    );
    for turn in &[turn1, turn2] {
        ingest(&mut db, turn);
    }
    let workspaces = db.get_all_workspaces();
    let same: Vec<_> = workspaces
        .iter()
        .filter(|(_, name)| name == "chat-A")
        .collect();
    assert_eq!(same.len(), 1);
}

#[test]
fn test_same_path_prefix_same_project() {
    let mut db = Database::new();
    let turn1 = spoken(
        SourceApp::VSCode,
        "I decided to use JWT tokens for authentication module.",
        Some("/Users/me/code/my-app/src/auth.rs"),
    );
    let turn2 = spoken(
        SourceApp::VSCode,
        "I decided to use PostgreSQL for the database module.",
        Some("/Users/me/code/my-app/src/db.rs"),
    );
    for turn in &[turn1, turn2] {
        ingest(&mut db, turn);
    }
    let projects = db.get_all_projects();
    let same: Vec<_> = projects
        .iter()
        .filter(|(_, name, _)| name == "my-app")
        .collect();
    assert_eq!(same.len(), 1);
}

#[test]
fn test_hierarchy_tables_populated() {
    let mut db = Database::new();
    let turn = spoken(
        SourceApp::VSCode,
        "I decided to use PostgreSQL for the backend. TODO: Set up database schema.",
        Some("/Users/me/code/backend-api/src/db/schema.rs"),
    );
    let n = ingest(&mut db, &turn);
    assert!(n >= 2, "Should extract at least decision and task");

    assert!(!db.get_all_workspaces().is_empty());
    assert!(!db.get_all_projects().is_empty());
    let areas = db.get_all_areas();
    assert!(!areas.is_empty());
    assert!(!db.get_all_topics().is_empty());

    let area_names: Vec<String> = areas.iter().map(|(_, name, _)| name.clone()).collect();
    assert!(area_names.contains(&"Decisions".to_string()));
    assert!(area_names.contains(&"Tasks".to_string()));
}

#[test]
fn test_memory_kinds_create_different_areas() {
    let mut db = Database::new();
    let turn = spoken(
        SourceApp::Claude,
        "I decided to use Rust. PostgreSQL is a relational database. TODO: Set up CI/CD. Here's the code:\n```rust\nfn main() {}\n```",
        None,
    );
    ingest(&mut db, &turn);
    let areas = db.get_all_areas();
    let area_names: Vec<String> = areas.iter().map(|(_, name, _)| name.clone()).collect();
    assert!(area_names.len() >= 3);
}

#[test]
fn hierarchy_lists_come_by_name() {
    let mut db = Database::new();
    let zeta = db.get_or_create_workspace("zeta", None).unwrap();
    let alpha = db.get_or_create_workspace("alpha", None).unwrap();
    let again = db.get_or_create_workspace("alpha", None).unwrap();
    assert_eq!(alpha, again);
    db.get_or_create_project(&zeta, "beta", None, ProjectStatus::Active).unwrap();
    let p = db.get_or_create_project(&alpha, "gamma", None, ProjectStatus::Active).unwrap();
    let a = db.get_or_create_area(&p, "Facts", None).unwrap();
    let t = db.get_or_create_topic(&a, "General", None, false).unwrap();

    let names: Vec<String> = db
        .get_all_workspaces()
        .into_iter()
        .map(|(_, n)| n)
        .collect();
    assert_eq!(names, vec!["alpha".to_string(), "zeta".to_string()]);

    let projects = db.get_all_projects();
    assert_eq!(projects.len(), 2);
    assert_eq!(projects[0].1, "beta");
    assert_eq!(projects[0].2, "zeta");
    assert_eq!(projects[1].1, "gamma");
    assert_eq!(projects[1].2, "alpha");

    assert_eq!(
        db.get_topic_info(&t).unwrap(),
        ("General".to_string(), "Facts".to_string())
    );
    assert_eq!(db.get_area_name(&a), Some("Facts".to_string()));
}

#[test]
fn turns_of_a_thread_come_newest_first() {
    let mut db = Database::new();
    let thread = ThreadId("th_A".to_string());
    let mut first = spoken(SourceApp::Other, "one", None);
    first.id = TurnId("turn_1".to_string());
    first.thread_id = thread.clone();
    let mut second = spoken(SourceApp::Other, "two", None);
    second.id = TurnId("turn_2".to_string());
    second.thread_id = thread.clone();
    let mut other = spoken(SourceApp::Other, "three", None);
    other.id = TurnId("turn_3".to_string());
    other.thread_id = ThreadId("th_B".to_string());
    db.insert_turn_at(&first, "2025-01-01T00:00:00+00:00").unwrap();
    db.insert_turn_at(&second, "2025-01-02T00:00:00+00:00").unwrap();
    db.insert_turn_at(&other, "2025-01-03T00:00:00+00:00").unwrap();

    let turns = db.get_turns_by_thread(&thread, 10);
    let ids: Vec<String> = turns.iter().map(|t| t.id.0.clone()).collect();
    assert_eq!(ids, vec!["turn_2".to_string(), "turn_1".to_string()]);
    assert_eq!(db.get_turns_by_thread(&thread, 1).len(), 1);
    assert!(db.get_turns_by_thread(&ThreadId("th_C".to_string()), 5).is_empty());
}
