use session_history::json::Json;
use session_history::kimi_code::{
    build_session, image_source_from_url, load_messages, load_sessions, scan_projects, search, truncate_chars, BlobStore,
    KimiStore, SessionFiles, WorkspaceFiles,
};
use session_history::models::ClaudeMessage;

const ROOT: &str = "/home/u/.kimi-code/sessions";

fn workspace_map() -> String {
    r#"{"version":1,"workspaces":{"wd_demo_abc123":{"root":"/tmp/demo-project","name":"demo-project","created_at":"2026-08-01T00:00:00.000Z","last_opened_at":"2026-08-02T00:00:00.000Z"}}}"#.to_string()
}

fn default_state() -> String {
    r#"{"id":"session_x","version":2,"cwd":"/tmp/demo-project","archived":false,"agents":{"main":{"type":"main"}},"title":"","createdAt":1786957369672,"updatedAt":1787034652121}"#.to_string()
}

fn session(workspace: &str, name: &str, state: &str, wire: &[&str]) -> SessionFiles {
    SessionFiles {
        dir: format!("{ROOT}/{workspace}/{name}"),
        name: name.to_string(),
        state_text: Some(state.to_string()),
        wire_lines: Some(wire.iter().map(|l| l.to_string()).collect()),
        wire_modified: Some("2026-08-05T00:00:00+00:00".to_string()),
    }
}

fn workspace(name: &str, sessions: Vec<SessionFiles>) -> WorkspaceFiles {
    WorkspaceFiles { dir: format!("{ROOT}/{name}"), name: name.to_string(), sessions }
}

fn full_turn_wire() -> Vec<&'static str> {
    vec![
        r#"{"type":"metadata","protocol_version":"1.5","created_at":1786959458480}"#,
        r#"{"type":"profile.bind","modelAlias":"kimi-code/k3","profileName":"agent","time":1786959458490}"#,
        r#"{"type":"turn.prompt","input":[{"type":"text","text":"Read the file"}],"origin":{"kind":"user"},"time":1786959458516}"#,
        r#"{"type":"context.append_message","message":{"role":"user","content":[{"type":"text","text":"Read the file"}],"toolCalls":[],"origin":{"kind":"user"},"id":"msg_u1"},"time":1786959458516}"#,
        r#"{"type":"context.append_loop_event","event":{"type":"step.begin","uuid":"s1","turnId":"0","step":1},"time":1786959458517}"#,
        r#"{"type":"context.append_loop_event","event":{"type":"content.part","uuid":"p1","stepUuid":"s1","part":{"type":"think","think":"user wants the file"}},"time":1786959458518}"#,
        r#"{"type":"context.append_loop_event","event":{"type":"tool.call","uuid":"t1","stepUuid":"s1","toolCallId":"tool_a","name":"Read","args":{"path":"src/main.rs"}},"time":1786959458519}"#,
        r#"{"type":"context.append_loop_event","event":{"type":"tool.result","parentUuid":"t1","toolCallId":"tool_a","result":{"output":"fn main() {}"}},"time":1786959458520}"#,
        r#"{"type":"context.append_loop_event","event":{"type":"step.end","uuid":"s1","turnId":"0","step":1,"finishReason":"tool_use"},"time":1786959458521}"#,
        r#"{"type":"context.append_loop_event","event":{"type":"step.begin","uuid":"s2","turnId":"0","step":2},"time":1786959458522}"#,
        r#"{"type":"context.append_loop_event","event":{"type":"content.part","uuid":"p2","stepUuid":"s2","part":{"type":"text","text":"Here is main.rs"}},"time":1786959458523}"#,
        r#"{"type":"context.append_loop_event","event":{"type":"step.end","uuid":"s2","turnId":"0","step":2,"finishReason":"end_turn"},"time":1786959458524}"#,
        "{ not json — torn tail is skipped",
    ]
}

fn fold(wire: &[&str]) -> Vec<ClaudeMessage> {
    load_messages(&session("wd_a", "session_x", &default_state(), wire), None)
}

fn part<'a>(m: &'a ClaudeMessage, i: usize) -> &'a Json {
    &m.content.as_ref().unwrap().as_array().unwrap()[i]
}

fn text_of(m: &ClaudeMessage, i: usize) -> &str {
    part(m, i).get_str("text").unwrap()
}

#[test]
fn scan_projects_groups_sessions_by_workspace_directory() {
    let other_state = r#"{"id":"session_y","version":2,"cwd":"/Users/jack/other","createdAt":1786957369672}"#;
    let store = KimiStore {
        workspaces_text: Some(workspace_map()),
        workspaces: vec![
            workspace("wd_demo_abc123", vec![session("wd_demo_abc123", "session_one", &default_state(), &full_turn_wire())]),
            workspace("wd_empty", vec![]),
            workspace("wd_other_zzz", vec![session("wd_other_zzz", "session_two", other_state, &full_turn_wire())]),
        ],
    };
    let mut projects = scan_projects(&store);
    projects.sort_by(|a, b| a.path.cmp(&b.path));
    assert_eq!(projects.len(), 2);
    assert_eq!(projects[0].name, "demo-project");
    assert_eq!(projects[0].path, format!("kimi-code://{ROOT}/wd_demo_abc123"));
    assert_eq!(projects[0].actual_path, "/tmp/demo-project");
    assert_eq!(projects[0].session_count, 1);
    assert_eq!(projects[0].provider.as_deref(), Some("kimi"));
    assert_eq!(projects[1].name, "other");
    assert_eq!(projects[1].actual_path, "/Users/jack/other");
}

#[test]
fn scan_projects_falls_back_to_state_cwd_without_workspace_map() {
    let state = r#"{"id":"session_x","version":2,"cwd":"/Users/jack/my-repo","createdAt":1786957369672}"#;
    let store = KimiStore {
        workspaces_text: None,
        workspaces: vec![workspace("wd_solo_123", vec![session("wd_solo_123", "session_one", state, &full_turn_wire())])],
    };
    let projects = scan_projects(&store);
    assert_eq!(projects.len(), 1);
    assert_eq!(projects[0].name, "my-repo");
    assert_eq!(projects[0].actual_path, "/Users/jack/my-repo");
}

#[test]
fn state_cwd_fallback_skips_sessions_with_an_empty_cwd() {
    let blank = r#"{"id":"session_a","version":2,"cwd":"","createdAt":1786957369672}"#;
    let named = r#"{"id":"session_b","version":2,"cwd":"/Users/jack/second-repo","createdAt":1786957369672}"#;
    let store = KimiStore {
        workspaces_text: None,
        workspaces: vec![workspace(
            "wd_solo_123",
            vec![
                session("wd_solo_123", "session_a", blank, &full_turn_wire()),
                session("wd_solo_123", "session_b", named, &full_turn_wire()),
            ],
        )],
    };
    let projects = scan_projects(&store);
    assert_eq!(projects.len(), 1);
    assert_eq!(projects[0].name, "second-repo");
    assert_eq!(projects[0].actual_path, "/Users/jack/second-repo");

    let only_blank = KimiStore {
        workspaces_text: None,
        workspaces: vec![workspace("wd_solo_123", vec![session("wd_solo_123", "session_a", blank, &full_turn_wire())])],
    };
    let projects = scan_projects(&only_blank);
    assert_eq!(projects.len(), 1);
    assert_eq!(projects[0].name, "wd_solo_123");
}

#[test]
fn load_sessions_reports_metadata_and_entrypoint() {
    let ws = workspace("wd_demo_abc123", vec![session("wd_demo_abc123", "session_one", &default_state(), &full_turn_wire())]);
    let sessions = load_sessions(&ws);
    assert_eq!(sessions.len(), 1);
    assert_eq!(sessions[0].session_id, "session_one");
    assert_eq!(sessions[0].entrypoint.as_deref(), Some("kimi-code-cli"));
    assert_eq!(sessions[0].message_count, 4, "user + assistant + tool + assistant");
    assert!(sessions[0].has_tool_use);
    assert_eq!(sessions[0].summary.as_deref(), Some("Read the file"));
    assert!(sessions[0].first_message_time.starts_with("2026-08"));
}

#[test]
fn load_sessions_marks_vscode_sessions_by_state_custom_marker() {
    let vscode_state = r#"{"id":"session_x","version":2,"cwd":"/tmp/demo","custom":{"vscode_legacy_approval":{"yolo":false,"afk":false}},"createdAt":1786957369672}"#;
    let ws = workspace(
        "wd_demo_abc123",
        vec![
            session("wd_demo_abc123", "session_cli", &default_state(), &full_turn_wire()),
            session("wd_demo_abc123", "session_vs", vscode_state, &full_turn_wire()),
        ],
    );
    let sessions = load_sessions(&ws);
    let by_id = |id: &str| sessions.iter().find(|s| s.session_id == id).unwrap();
    assert_eq!(by_id("session_vs").entrypoint.as_deref(), Some("kimi-code-vscode"));
    assert_eq!(by_id("session_cli").entrypoint.as_deref(), Some("kimi-code-cli"));
}

#[test]
fn load_sessions_prefers_state_title_over_first_user_text() {
    let state = r#"{"id":"session_x","version":2,"cwd":"/tmp/demo","title":"Custom title","createdAt":1786957369672}"#;
    let ws = workspace("wd_demo_abc123", vec![session("wd_demo_abc123", "session_one", state, &full_turn_wire())]);
    let sessions = load_sessions(&ws);
    assert_eq!(sessions[0].summary.as_deref(), Some("Custom title"));
}

#[test]
fn fold_maps_loop_events_to_viewer_messages() {
    let messages = load_messages(&session("wd_demo_abc123", "session_one", &default_state(), &full_turn_wire()), None);
    assert_eq!(messages.len(), 4);
    assert_eq!(messages[0].message_type, "user");
    assert_eq!(text_of(&messages[0], 0), "Read the file");
    assert_eq!(messages[1].message_type, "assistant");
    assert_eq!(messages[1].model.as_deref(), Some("kimi-code/k3"));
    assert_eq!(part(&messages[1], 0).get_str("type"), Some("thinking"));
    assert_eq!(part(&messages[1], 0).get_str("thinking"), Some("user wants the file"));
    assert_eq!(part(&messages[1], 1).get_str("type"), Some("tool_use"));
    assert_eq!(part(&messages[1], 1).get_str("name"), Some("Read"));
    assert_eq!(part(&messages[1], 1).get("input").unwrap().get_str("path"), Some("src/main.rs"));
    assert_eq!(messages[2].message_type, "tool");
    let result = part(&messages[2], 0);
    assert_eq!(result.get_str("type"), Some("tool_result"));
    assert_eq!(result.get_str("tool_use_id"), Some("tool_a"));
    assert_eq!(result.get_str("content"), Some("fn main() {}"));
    assert_eq!(messages[3].message_type, "assistant");
    assert_eq!(text_of(&messages[3], 0), "Here is main.rs");
}

#[test]
fn fold_drops_vacuous_assistant_step() {
    let messages = fold(&[
        r#"{"type":"context.append_message","message":{"role":"user","content":[{"type":"text","text":"hi"}],"toolCalls":[]},"time":1786959458516}"#,
        r#"{"type":"context.append_loop_event","event":{"type":"step.begin","uuid":"s1"},"time":1786959458517}"#,
        r#"{"type":"context.append_loop_event","event":{"type":"content.part","stepUuid":"s1","part":{"type":"text","text":"   "}},"time":1786959458518}"#,
        r#"{"type":"context.append_loop_event","event":{"type":"step.end","uuid":"s1"},"time":1786959458519}"#,
    ]);
    assert_eq!(messages.len(), 1, "only the user message survives");
}

#[test]
fn fold_interrupted_tool_call_settles_with_error_result() {
    let messages = fold(&[
        r#"{"type":"context.append_message","message":{"role":"user","content":[{"type":"text","text":"run it"}],"toolCalls":[]},"time":1786959458516}"#,
        r#"{"type":"context.append_loop_event","event":{"type":"step.begin","uuid":"s1"},"time":1786959458517}"#,
        r#"{"type":"context.append_loop_event","event":{"type":"tool.call","stepUuid":"s1","toolCallId":"tool_b","name":"Bash","args":{"command":"ls"}},"time":1786959458518}"#,
    ]);
    assert_eq!(messages.len(), 3);
    assert_eq!(messages[2].message_type, "tool");
    let result = part(&messages[2], 0);
    assert_eq!(result.get_bool("is_error"), Some(true));
    assert!(result.get_str("content").unwrap().contains("interrupted"));
}

#[test]
fn fold_defers_user_message_until_tool_exchange_closes() {
    let messages = fold(&[
        r#"{"type":"context.append_message","message":{"role":"user","content":[{"type":"text","text":"first"}],"toolCalls":[]},"time":1786959458516}"#,
        r#"{"type":"context.append_loop_event","event":{"type":"step.begin","uuid":"s1"},"time":1786959458517}"#,
        r#"{"type":"context.append_loop_event","event":{"type":"tool.call","stepUuid":"s1","toolCallId":"tool_c","name":"Read","args":{"path":"a"}},"time":1786959458518}"#,
        r#"{"type":"context.append_message","message":{"role":"user","content":[{"type":"text","text":"second"}],"toolCalls":[]},"time":1786959458519}"#,
        r#"{"type":"context.append_loop_event","event":{"type":"tool.result","toolCallId":"tool_c","result":{"output":"data"}},"time":1786959458520}"#,
        r#"{"type":"context.append_loop_event","event":{"type":"step.end","uuid":"s1"},"time":1786959458521}"#,
    ]);
    let roles: Vec<&str> = messages.iter().map(|m| m.message_type.as_str()).collect();
    assert_eq!(roles, vec!["user", "assistant", "tool", "user"]);
}

#[test]
fn fold_undo_cuts_the_last_user_turn_not_just_one_message() {
    let messages = fold(&[
        r#"{"type":"context.append_message","message":{"role":"user","content":[{"type":"text","text":"one"}],"toolCalls":[],"origin":{"kind":"user"},"id":"m1"},"time":1786959458516}"#,
        r#"{"type":"context.append_loop_event","event":{"type":"step.begin","uuid":"s1"},"time":1786959458517}"#,
        r#"{"type":"context.append_loop_event","event":{"type":"content.part","stepUuid":"s1","part":{"type":"text","text":"answer one"}},"time":1786959458518}"#,
        r#"{"type":"context.append_loop_event","event":{"type":"step.end","uuid":"s1"},"time":1786959458519}"#,
        r#"{"type":"context.append_message","message":{"role":"user","content":[{"type":"text","text":"two"}],"toolCalls":[],"origin":{"kind":"user"},"id":"m2"},"time":1786959458520}"#,
        r#"{"type":"context.append_loop_event","event":{"type":"step.begin","uuid":"s2"},"time":1786959458521}"#,
        r#"{"type":"context.append_loop_event","event":{"type":"content.part","stepUuid":"s2","part":{"type":"text","text":"answer two"}},"time":1786959458522}"#,
        r#"{"type":"context.append_loop_event","event":{"type":"step.end","uuid":"s2"},"time":1786959458523}"#,
        r#"{"type":"context.undo","count":1,"time":1786959458524}"#,
    ]);
    assert_eq!(messages.len(), 2);
    assert_eq!(text_of(&messages[0], 0), "one");
    assert_eq!(text_of(&messages[1], 0), "answer one");
}

#[test]
fn fold_undo_stops_at_compaction_boundary() {
    let messages = fold(&[
        r#"{"type":"context.apply_compaction","contextSummary":"summary","compactedCount":3,"time":1786959458515}"#,
        r#"{"type":"context.append_message","message":{"role":"user","content":[{"type":"text","text":"post-compaction"}],"toolCalls":[],"origin":{"kind":"user"}},"time":1786959458516}"#,
        r#"{"type":"context.undo","count":5,"time":1786959458520}"#,
    ]);
    assert_eq!(messages.len(), 2, "summary + post-compaction prompt stay");
}

#[test]
fn fold_undo_extends_over_prompt_owned_injections() {
    let messages = fold(&[
        r#"{"type":"context.append_message","message":{"role":"user","content":[{"type":"text","text":"keep"}],"toolCalls":[],"origin":{"kind":"user"},"id":"m1"},"time":1786959458516}"#,
        r#"{"type":"context.append_message","message":{"role":"user","content":[{"type":"text","text":"owned injection"}],"toolCalls":[],"origin":{"kind":"injection","ownerPromptId":"m2"},"id":"i1"},"time":1786959458517}"#,
        r#"{"type":"context.append_message","message":{"role":"user","content":[{"type":"text","text":"drop"}],"toolCalls":[],"origin":{"kind":"user"},"id":"m2"},"time":1786959458518}"#,
        r#"{"type":"context.undo","count":1,"time":1786959458519}"#,
    ]);
    assert_eq!(messages.len(), 1, "the owned injection is cut with its prompt");
    assert_eq!(text_of(&messages[0], 0), "keep");
}

#[test]
fn fold_undo_keeps_injections_owned_by_another_prompt() {
    let messages = fold(&[
        r#"{"type":"context.append_message","message":{"role":"user","content":[{"type":"text","text":"keep"}],"toolCalls":[],"origin":{"kind":"user"},"id":"m1"},"time":1786959458516}"#,
        r#"{"type":"context.append_message","message":{"role":"user","content":[{"type":"text","text":"foreign injection"}],"toolCalls":[],"origin":{"kind":"injection","ownerPromptId":"m1"},"id":"i1"},"time":1786959458517}"#,
        r#"{"type":"context.append_message","message":{"role":"user","content":[{"type":"text","text":"drop"}],"toolCalls":[],"origin":{"kind":"user"},"id":"m2"},"time":1786959458518}"#,
        r#"{"type":"context.undo","count":1,"time":1786959458519}"#,
    ]);
    assert_eq!(messages.len(), 2, "the foreign injection survives");
    assert_eq!(text_of(&messages[1], 0), "foreign injection");
}

#[test]
fn interrupted_tool_message_carries_the_current_timestamp() {
    let messages = fold(&[
        r#"{"type":"context.append_message","message":{"role":"user","content":[{"type":"text","text":"run"}],"toolCalls":[]},"time":1786959458516}"#,
        r#"{"type":"context.append_loop_event","event":{"type":"step.begin","uuid":"s1"},"time":1786959458517}"#,
        r#"{"type":"context.append_loop_event","event":{"type":"tool.call","stepUuid":"s1","toolCallId":"tool_x","name":"Bash","args":{"command":"ls"}},"time":1786959458518}"#,
    ]);
    let interrupted = messages.last().expect("interrupted tool message");
    assert!(!interrupted.timestamp.is_empty());
    assert!(interrupted.timestamp.starts_with("2026-08"));
}

#[test]
fn undo_during_open_tool_exchange_drops_pending_and_deferred() {
    let messages = fold(&[
        r#"{"type":"context.append_message","message":{"role":"user","content":[{"type":"text","text":"keep"}],"toolCalls":[],"origin":{"kind":"user"},"id":"m0"},"time":1786959458515}"#,
        r#"{"type":"context.append_message","message":{"role":"user","content":[{"type":"text","text":"first"}],"toolCalls":[],"origin":{"kind":"user"},"id":"m1"},"time":1786959458516}"#,
        r#"{"type":"context.append_loop_event","event":{"type":"step.begin","uuid":"s1"},"time":1786959458517}"#,
        r#"{"type":"context.append_loop_event","event":{"type":"tool.call","stepUuid":"s1","toolCallId":"tool_y","name":"Read","args":{"path":"a"}},"time":1786959458518}"#,
        r#"{"type":"context.append_message","message":{"role":"user","content":[{"type":"text","text":"second"}],"toolCalls":[]},"time":1786959458519}"#,
        r#"{"type":"context.undo","count":1,"time":1786959458520}"#,
    ]);
    assert_eq!(messages.len(), 1, "only the pre-anchor user prompt remains");
    assert_eq!(text_of(&messages[0], 0), "keep");
    assert!(!messages.iter().any(|m| m.message_type == "tool"));
}

#[test]
fn no_op_undo_keeps_deferred_messages_alive() {
    let messages = fold(&[
        r#"{"type":"context.apply_compaction","contextSummary":"summary","compactedCount":1,"time":1786959458515}"#,
        r#"{"type":"context.append_loop_event","event":{"type":"step.begin","uuid":"s1"},"time":1786959458516}"#,
        r#"{"type":"context.append_loop_event","event":{"type":"tool.call","stepUuid":"s1","toolCallId":"tool_z","name":"Read","args":{"path":"a"}},"time":1786959458517}"#,
        r#"{"type":"context.append_message","message":{"role":"user","content":[{"type":"text","text":"queued"}],"toolCalls":[]},"time":1786959458518}"#,
        r#"{"type":"context.undo","count":1,"time":1786959458519}"#,
        r#"{"type":"context.append_loop_event","event":{"type":"tool.result","toolCallId":"tool_z","result":{"output":"ok"}},"time":1786959458520}"#,
        r#"{"type":"context.append_loop_event","event":{"type":"step.end","uuid":"s1"},"time":1786959458521}"#,
    ]);
    let texts: Vec<&str> = messages
        .iter()
        .filter(|m| m.message_type == "user")
        .filter_map(|m| m.content.as_ref().and_then(|c| c.as_array()).and_then(|blocks| blocks[0].get_str("text")))
        .collect();
    assert!(texts.contains(&"queued"), "no-op undo must not drop the deferred message, got {texts:?}");
}

#[test]
fn fold_applies_clear_and_compaction() {
    let messages = fold(&[
        r#"{"type":"context.append_message","message":{"role":"user","content":[{"type":"text","text":"one"}],"toolCalls":[]},"time":1786959458516}"#,
        r#"{"type":"context.apply_compaction","contextSummary":"Earlier discussion about setup.","compactedCount":1,"time":1786959458519}"#,
        r#"{"type":"context.append_message","message":{"role":"user","content":[{"type":"text","text":"after compaction"}],"toolCalls":[]},"time":1786959458520}"#,
    ]);
    assert_eq!(messages.len(), 2);
    let first_text = text_of(&messages[0], 0);
    assert!(first_text.contains("Compacted context summary"));
    assert!(first_text.contains("Earlier discussion about setup."));
    assert_eq!(text_of(&messages[1], 0), "after compaction");
}

#[test]
fn context_clear_empties_the_history() {
    let messages = fold(&[
        r#"{"type":"context.append_message","message":{"role":"user","content":[{"type":"text","text":"gone"}],"toolCalls":[]},"time":1786959458516}"#,
        r#"{"type":"context.clear","time":1786959458517}"#,
        r#"{"type":"context.append_message","message":{"role":"user","content":[{"type":"text","text":"kept"}],"toolCalls":[]},"time":1786959458518}"#,
    ]);
    assert_eq!(messages.len(), 1);
    assert_eq!(text_of(&messages[0], 0), "kept");
}

#[test]
fn tool_arguments_string_form_is_parsed() {
    let messages = fold(&[
        r#"{"type":"context.append_message","message":{"role":"assistant","content":[],"toolCalls":[{"type":"function","id":"tool_s","name":"Bash","arguments":"{\"command\":\"pwd\"}"}]},"time":1786959458516}"#,
    ]);
    assert_eq!(messages.len(), 1);
    let block = part(&messages[0], 0);
    assert_eq!(block.get_str("type"), Some("tool_use"));
    assert_eq!(block.get("input").unwrap().get_str("command"), Some("pwd"));
}

#[test]
fn search_matches_folded_content_and_respects_limit() {
    let store = KimiStore {
        workspaces_text: Some(workspace_map()),
        workspaces: vec![workspace("wd_demo_abc123", vec![session("wd_demo_abc123", "session_one", &default_state(), &full_turn_wire())])],
    };
    let results = search(&store, "main.rs", 10);
    assert_eq!(results.len(), 2);
    assert!(results.iter().all(|m| m.project_name.as_deref() == Some("demo-project")));
    assert!(search(&store, "no-such-token", 10).is_empty());
    assert_eq!(search(&store, "MAIN.RS", 1).len(), 1);
    assert_eq!(search(&store, "main.rs", 0).len(), 1);
}

#[test]
fn usage_records_attach_to_the_open_assistant_step() {
    let messages = fold(&[
        r#"{"type":"context.append_message","message":{"role":"user","content":[{"type":"text","text":"hi"}],"origin":{"kind":"user"},"id":"msg_u1"},"time":1786959458516}"#,
        r#"{"type":"context.append_loop_event","event":{"type":"step.begin","uuid":"s1","turnId":"0","step":1},"time":1786959458517}"#,
        r#"{"type":"usage.record","model":"kimi-code/k3","usage":{"inputOther":4735,"output":79,"inputCacheRead":18944,"inputCacheCreation":12},"usageScope":"turn","time":1786959458518}"#,
        r#"{"type":"context.append_loop_event","event":{"type":"content.part","uuid":"p1","stepUuid":"s1","part":{"type":"text","text":"hello"}},"time":1786959458519}"#,
        r#"{"type":"context.append_loop_event","event":{"type":"step.end","uuid":"s1","turnId":"0","step":1,"finishReason":"end_turn"},"time":1786959458520}"#,
    ]);
    assert_eq!(messages.len(), 2);
    assert!(messages[0].usage.is_none(), "the user prompt carries no usage");
    let usage = messages[1].usage.as_ref().expect("assistant usage");
    assert_eq!(usage.input_tokens, Some(4735));
    assert_eq!(usage.output_tokens, Some(79));
    assert_eq!(usage.cache_read_input_tokens, Some(18944));
    assert_eq!(usage.cache_creation_input_tokens, Some(12));
}

#[test]
fn usage_records_accumulate_within_one_step() {
    let messages = fold(&[
        r#"{"type":"context.append_loop_event","event":{"type":"step.begin","uuid":"s1","turnId":"0","step":1},"time":1786959458517}"#,
        r#"{"type":"usage.record","usage":{"inputOther":10,"output":1,"inputCacheRead":100,"inputCacheCreation":0},"usageScope":"turn","time":1786959458518}"#,
        r#"{"type":"usage.record","usage":{"inputOther":20,"output":2,"inputCacheRead":200,"inputCacheCreation":0},"usageScope":"turn","time":1786959458519}"#,
        r#"{"type":"context.append_loop_event","event":{"type":"content.part","uuid":"p1","stepUuid":"s1","part":{"type":"text","text":"hello"}},"time":1786959458520}"#,
        r#"{"type":"context.append_loop_event","event":{"type":"step.end","uuid":"s1","turnId":"0","step":1,"finishReason":"end_turn"},"time":1786959458521}"#,
    ]);
    let usage = messages[0].usage.as_ref().expect("assistant usage");
    assert_eq!(usage.input_tokens, Some(30));
    assert_eq!(usage.output_tokens, Some(3));
    assert_eq!(usage.cache_read_input_tokens, Some(300));
}

#[test]
fn image_url_parts_are_converted_to_claude_image_blocks() {
    let wire = [r#"{"type":"context.append_message","message":{"role":"user","content":[{"type":"text","text":"look"},{"type":"image_url","imageUrl":{"url":"blobref:image/png;deadbeef"}},{"type":"image_url","imageUrl":{"url":"blobref:image/png;missing"}},{"type":"image_url","imageUrl":{"url":"https://example.com/a.png"}}],"origin":{"kind":"user"},"id":"msg_u1"},"time":1786959458516}"#];
    let blobs = BlobStore { blobs: vec![("deadbeef".to_string(), vec![0x89u8, 0x50, 0x4e, 0x47])] };
    let messages = load_messages(&session("wd_demo_abc123", "session_img", &default_state(), &wire), Some(&blobs));
    let p1 = part(&messages[0], 1);
    assert_eq!(p1.get_str("type"), Some("image"));
    let source = p1.get("source").unwrap();
    assert_eq!(source.get_str("type"), Some("base64"));
    assert_eq!(source.get_str("media_type"), Some("image/png"));
    assert_eq!(source.get_str("data"), Some("iVBORw=="));
    assert_eq!(part(&messages[0], 2).get_str("type"), Some("image_url"));
    let p3 = part(&messages[0], 3);
    assert_eq!(p3.get_str("type"), Some("image"));
    assert_eq!(p3.get("source").unwrap().get_str("type"), Some("url"));
    assert_eq!(p3.get("source").unwrap().get_str("url"), Some("https://example.com/a.png"));
}

#[test]
fn scan_and_search_paths_leave_blobrefs_unresolved() {
    let wire = [r#"{"type":"context.append_message","message":{"role":"user","content":[{"type":"text","text":"needle"},{"type":"image_url","imageUrl":{"url":"blobref:image/png;deadbeef"}},{"type":"image_url","imageUrl":{"url":"data:image/jpeg;base64,QUJD"}}],"origin":{"kind":"user"},"id":"msg_u1"},"time":1786959458516}"#];
    let s = session("wd_demo_abc123", "session_img_scan", &default_state(), &wire);
    let store = KimiStore { workspaces_text: None, workspaces: vec![workspace("wd_demo_abc123", vec![s])] };
    let hits = search(&store, "needle", 10);
    assert_eq!(part(&hits[0], 1).get_str("type"), Some("image_url"));
    assert_eq!(part(&hits[0], 2).get_str("type"), Some("image"));
    assert_eq!(part(&hits[0], 2).get("source").unwrap().get_str("data"), Some("QUJD"));
    let blobs = BlobStore { blobs: vec![("deadbeef".to_string(), vec![0x89u8, 0x50, 0x4e, 0x47])] };
    let messages = load_messages(&store.workspaces[0].sessions[0], Some(&blobs));
    assert_eq!(part(&messages[0], 1).get_str("type"), Some("image"));
    assert_eq!(part(&messages[0], 1).get("source").unwrap().get_str("data"), Some("iVBORw=="));
}

#[test]
fn image_url_data_urls_are_converted_to_base64_image_blocks() {
    let wire = [r#"{"type":"context.append_message","message":{"role":"user","content":[{"type":"image_url","imageUrl":{"url":"data:image/jpeg;base64,QUJD"}}],"origin":{"kind":"user"},"id":"msg_u1"},"time":1786959458516}"#];
    let messages = load_messages(&session("wd_demo_abc123", "session_data_url", &default_state(), &wire), None);
    let p0 = part(&messages[0], 0);
    assert_eq!(p0.get_str("type"), Some("image"));
    let source = p0.get("source").unwrap();
    assert_eq!(source.get_str("type"), Some("base64"));
    assert_eq!(source.get_str("media_type"), Some("image/jpeg"));
    assert_eq!(source.get_str("data"), Some("QUJD"));
}

#[test]
fn sessions_without_wire_are_skipped() {
    let mut s = session("wd_a", "session_x", &default_state(), &[]);
    s.wire_lines = None;
    assert!(build_session(&s).is_none());
    let store = KimiStore { workspaces_text: None, workspaces: vec![workspace("wd_a", vec![s])] };
    assert!(scan_projects(&store).is_empty());
}

#[test]
fn directories_without_the_prefixes_are_ignored() {
    let s = session("other", "not_a_session", &default_state(), &full_turn_wire());
    let store = KimiStore { workspaces_text: None, workspaces: vec![workspace("other", vec![s])] };
    assert!(scan_projects(&store).is_empty());
    let ws = workspace("wd_x", vec![session("wd_x", "not_a_session", &default_state(), &full_turn_wire())]);
    assert!(load_sessions(&ws).is_empty());
}

#[test]
fn truncate_chars_cuts_at_character_boundaries() {
    assert_eq!(truncate_chars("héllo", 10), "héllo");
    assert_eq!(truncate_chars("héllo", 2), "hé...");
    assert_eq!(truncate_chars("", 0), "");
}

#[test]
fn image_sources_of_urls() {
    let remote = image_source_from_url("https://x/y.png", None).unwrap();
    assert_eq!(remote.get_str("type"), Some("url"));
    assert!(image_source_from_url("blobref:image/png;abc", None).is_none());
    let inline = image_source_from_url("data:image/gif;base64,R0lG", None).unwrap();
    assert_eq!(inline.get_str("media_type"), Some("image/gif"));
}
