use session_history::cursor::{load_stats_messages, parse_cursor_json};
use session_history::models::{
    build_provider_message, git_info_of, GitWorktreeType, last_assistant_index, project_path_status, project_status_path, sort_projects_newest_first,
    sort_sessions_newest_first, with_project_name, ClaudeProject, ClaudeSession, ProjectPathStatus,
};

fn project(name: &str, last_modified: &str) -> ClaudeProject {
    ClaudeProject {
        name: name.to_string(),
        path: format!("p://{name}"),
        actual_path: "/tmp/x".to_string(),
        session_count: 1,
        message_count: 1,
        last_modified: last_modified.to_string(),
        git_info: None,
        provider: None,
        storage_type: None,
        custom_directory_label: None,
        entrypoint: None,
    }
}

fn session(id: &str, last_modified: &str) -> ClaudeSession {
    ClaudeSession {
        session_id: id.to_string(),
        actual_session_id: id.to_string(),
        file_path: id.to_string(),
        project_name: "p".to_string(),
        message_count: 1,
        first_message_time: last_modified.to_string(),
        last_message_time: last_modified.to_string(),
        last_modified: last_modified.to_string(),
        has_tool_use: false,
        has_errors: false,
        summary: None,
        is_renamed: false,
        provider: None,
        storage_type: None,
        entrypoint: None,
    }
}

#[test]
fn projects_are_listed_newest_first_keeping_ties_in_order() {
    let sorted = sort_projects_newest_first(vec![
        project("a", "2024-01-01"),
        project("b", "2025-06-01"),
        project("c", "2024-01-01"),
        project("d", ""),
        project("e", "2025-06-01"),
    ]);
    let names: Vec<&str> = sorted.iter().map(|p| p.name.as_str()).collect();
    assert_eq!(names, vec!["b", "e", "a", "c", "d"]);
}

#[test]
fn sessions_are_listed_newest_first() {
    let sorted = sort_sessions_newest_first(vec![session("x", "2026-01-01T00:00:00Z"), session("y", "2026-02-01T00:00:00Z")]);
    assert_eq!(sorted[0].session_id, "y");
    assert_eq!(sorted.len(), 2);
    assert!(sort_sessions_newest_first(Vec::new()).is_empty());
}

#[test]
fn missing_absolute_paths_are_unavailable() {
    assert_eq!(project_path_status("/definitely/missing", false), Some(ProjectPathStatus::Unavailable));
    assert_eq!(project_path_status("/tmp", true), None);
    assert_eq!(project_path_status("forgecode://workspace/ws-123", false), None);
    assert_eq!(project_path_status("relative/path", false), None);
    assert_eq!(project_path_status("   ", false), None);
    assert_eq!(project_status_path("  /a/b  ").as_deref(), Some("/a/b"));
}

#[test]
fn provider_messages_carry_no_usage_or_project() {
    let m = build_provider_message("grok", "u1".to_string(), "s", "t".to_string(), "user", Some("user"), None, None);
    assert_eq!(m.provider.as_deref(), Some("grok"));
    assert!(m.usage.is_none());
    assert!(m.project_name.is_none());
    let tagged = with_project_name(&m, "proj");
    assert_eq!(tagged.project_name.as_deref(), Some("proj"));
    assert_eq!(tagged.uuid, "u1");
    assert_eq!(last_assistant_index(&vec![m]), None);
}

#[test]
fn a_composer_with_a_conversation_always_has_an_assistant_stats_message() {
    let record: Result<String, String> =
        Ok(r#"{"fullConversationHeadersOnly":[{"bubbleId":"u","type":1}],"promptTokenBreakdown":{"totalUsedTokens":5}}"#.to_string());
    let stats = load_stats_messages("cursor://c", &record).unwrap();
    let k = last_assistant_index(&stats).unwrap();
    assert_eq!(stats[k].usage.as_ref().and_then(|u| u.input_tokens), Some(5));
    assert!(parse_cursor_json("[]").is_ok());
}

fn project_with_path(actual_path: &str) -> ClaudeProject {
    ClaudeProject {
        name: "test-project".to_string(),
        path: "/tmp/.sessions/projects/-tmp-test-project".to_string(),
        actual_path: actual_path.to_string(),
        session_count: 1,
        message_count: 1,
        last_modified: "2026-01-01T00:00:00Z".to_string(),
        git_info: None,
        provider: None,
        storage_type: None,
        custom_directory_label: None,
        entrypoint: None,
    }
}

fn status_of(project: &ClaudeProject) -> Option<ProjectPathStatus> {
    let is_dir = std::path::Path::new(&project.actual_path).is_dir();
    project_path_status(&project.actual_path, is_dir)
}

#[test]
fn unavailable_project_path_is_exposed_without_hiding_the_project() {
    let project = project_with_path("/definitely-missing-project-dir");
    assert_eq!(status_of(&project), Some(ProjectPathStatus::Unavailable));
    assert_eq!(project.name, "test-project");
    assert_eq!(project.session_count, 1);
}

#[test]
fn existing_and_virtual_project_paths_are_not_marked_unavailable() {
    let existing = project_with_path("/tmp");
    let virtual_path = project_with_path("forgecode://workspace/ws-123");
    assert!(status_of(&existing).is_none());
    assert!(status_of(&virtual_path).is_none());
}

#[test]
fn git_entries_give_main_linked_or_no_repository() {
    let main = git_info_of(true, false, None).unwrap();
    assert_eq!(main.worktree_type, GitWorktreeType::Main);
    assert!(main.main_project_path.is_none());
    let linked = git_info_of(false, true, Some("gitdir: /repo/main/.git/worktrees/feature\n")).unwrap();
    assert_eq!(linked.worktree_type, GitWorktreeType::Linked);
    assert_eq!(linked.main_project_path.as_deref(), Some("/repo/main"));
    let odd = git_info_of(false, true, Some("gitdir: /elsewhere/gitdir")).unwrap();
    assert_eq!(odd.worktree_type, GitWorktreeType::Linked);
    assert!(odd.main_project_path.is_none());
    assert!(git_info_of(false, true, Some("not a gitdir line")).is_none());
    assert!(git_info_of(false, true, None).is_none());
    assert_eq!(git_info_of(false, false, None).unwrap().worktree_type, GitWorktreeType::NotGit);
}
