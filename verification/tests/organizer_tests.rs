use memory_layer::ids::{generate_thread_id, generate_turn_id};
use memory_layer::organizer::MemoryOrganizer;
use memory_layer::schemas::{MemoryKind, SourceApp, Turn, TurnSource};

fn turn_from(app: SourceApp, url: Option<&str>, path: Option<&str>) -> Turn {
    Turn {
        id: generate_turn_id(),
        thread_id: generate_thread_id(),
        ts_user: "2025-11-07T00:00:00Z".to_string(),
        user_text: "test".to_string(),
        ts_ai: None,
        ai_text: None,
        source: TurnSource {
            app,
            url: url.map(|s| s.to_string()),
            path: path.map(|s| s.to_string()),
        },
    }
}

#[test]
fn test_workspace_inference() {
    assert_eq!(
        MemoryOrganizer::infer_workspace_name(&SourceApp::Claude),
        "chat-A"
    );
    assert_eq!(
        MemoryOrganizer::infer_workspace_name(&SourceApp::VSCode),
        "editor"
    );
    assert_eq!(
        MemoryOrganizer::infer_workspace_name(&SourceApp::ChatGPT),
        "chat-B"
    );
}

#[test]
fn test_project_inference_from_path() {
    let turn = turn_from(
        SourceApp::VSCode,
        None,
        Some("/Users/me/code/my-project/src/main.rs"),
    );
    let project = MemoryOrganizer::infer_project_name(&turn);
    assert_eq!(project, "my-project");
}

#[test]
fn test_project_inference_from_url() {
    let turn = turn_from(SourceApp::Claude, Some("https://github.com/user/repo"), None);
    let project = MemoryOrganizer::infer_project_name(&turn);
    assert_eq!(project, "user");
}

#[test]
fn test_area_inference() {
    assert_eq!(
        MemoryOrganizer::infer_area_name(&MemoryKind::Decision),
        "Decisions"
    );
    assert_eq!(MemoryOrganizer::infer_area_name(&MemoryKind::Fact), "Facts");
    assert_eq!(
        MemoryOrganizer::infer_area_name(&MemoryKind::Snippet),
        "Code"
    );
    assert_eq!(MemoryOrganizer::infer_area_name(&MemoryKind::Task), "Tasks");
}

#[test]
fn project_falls_back_to_fourth_component() {
    let turn = turn_from(SourceApp::VSCode, None, Some("/home/me/svc/src/lib.rs"));
    assert_eq!(MemoryOrganizer::infer_project_name(&turn), "svc");
}

#[test]
fn project_marker_without_follower_is_skipped() {
    let turn = turn_from(SourceApp::VSCode, None, Some("a/code"));
    assert_eq!(MemoryOrganizer::infer_project_name(&turn), "Default");
    let turn = turn_from(SourceApp::VSCode, None, Some("code//work/x"));
    assert_eq!(MemoryOrganizer::infer_project_name(&turn), "x");
}

#[test]
fn project_from_host_label_and_default() {
    let turn = turn_from(SourceApp::Claude, Some("https://docs.example.com/"), None);
    assert_eq!(MemoryOrganizer::infer_project_name(&turn), "docs");
    let turn = turn_from(SourceApp::Claude, Some("not a url"), None);
    assert_eq!(MemoryOrganizer::infer_project_name(&turn), "Default");
    let turn = turn_from(SourceApp::Claude, None, None);
    assert_eq!(MemoryOrganizer::infer_project_name(&turn), "Default");
}
