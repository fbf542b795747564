use session_history::cursor::parse_cursor_json;
use session_history::grok::{
    content_to_blocks, convert_chat_message, convert_tool_call, decode_cwd_dirname, detect, extract_reasoning_text,
    extract_session_info, load_messages, load_sessions, require_absolute_path, scan_projects, search,
    GrokProjectDir, GrokSessionFiles, GrokStore,
};
use session_history::json::Json;
use session_history::paths::{check_grok_project, check_grok_session, check_kimi_path, has_leading_components};

fn components(parts: &[&str]) -> Vec<String> {
    parts.iter().map(|p| p.to_string()).collect()
}

const BASE: &str = "/home/u/.grok";

fn json_doc(text: &str) -> Json {
    parse_cursor_json(text).unwrap()
}

fn fixture_session() -> GrokSessionFiles {
    let session_id = "019fa555-791c-71e2-8c92-ff2e6fa26d6e";
    let summary = r#"{
        "info": {"id": "019fa555-791c-71e2-8c92-ff2e6fa26d6e", "cwd": "/Users/test/demo"},
        "session_summary": "Demo session",
        "generated_title": "Demo Title",
        "created_at": "2026-07-27T20:47:50Z",
        "updated_at": "2026-07-27T21:11:25Z",
        "num_chat_messages": 4,
        "current_model_id": "grok-4.5"
    }"#;
    let lines = [
        r#"{"type":"system","content":"You are Grok."}"#,
        r#"{"type":"user","content":[{"type":"text","text":"Hello grok"}]}"#,
        r#"{"type":"reasoning","id":"rs_1","summary":[{"type":"summary_text","text":"Thinking about hello"}]}"#,
        r#"{"type":"assistant","content":"Hi there","tool_calls":[{"id":"call-1","name":"read_file","arguments":"{\"target_file\":\"/tmp/a.txt\"}"}],"model_id":"grok-4.5"}"#,
        r#"{"type":"tool_result","tool_call_id":"call-1","content":"file contents"}"#,
        r#"{"type":"backend_tool_call","kind":{"tool_type":"web_search","action":{"type":"search","query":"rust"}}}"#,
        r#"{"type":"assistant","content":"Final answer","model_id":"grok-4.5"}"#,
        r"not-json",
    ];
    GrokSessionFiles {
        dir: format!("{BASE}/sessions/%2FUsers%2Ftest%2Fdemo/{session_id}"),
        name: session_id.to_string(),
        summary_is_file: true,
        summary_text: Some(summary.to_string()),
        summary_modified: None,
        chat_is_file: true,
        chat_lines: Ok(lines.iter().map(|l| l.to_string()).collect()),
        chat_readable_lines: lines.iter().map(|l| l.to_string()).collect(),
        signals_text: Some(r#"{"contextTokensUsed":12345,"toolCallCount":3,"primaryModelId":"grok-4.5","modelsUsed":["grok-4.5"]}"#.to_string()),
    }
}

fn fixture_store() -> GrokStore {
    GrokStore {
        projects: vec![GrokProjectDir {
            name: "%2FUsers%2Ftest%2Fdemo".to_string(),
            path: format!("{BASE}/sessions/%2FUsers%2Ftest%2Fdemo"),
            sessions: vec![fixture_session()],
        }],
    }
}

fn has_block_type(messages: &[session_history::models::ClaudeMessage], t: &str) -> bool {
    messages.iter().any(|m| {
        m.content
            .as_ref()
            .and_then(|c| c.as_array())
            .is_some_and(|arr| arr.iter().any(|item| item.get_str("type") == Some(t)))
    })
}

#[test]
fn decode_cwd_dirname_percent_decodes_paths() {
    assert_eq!(decode_cwd_dirname("%2FUsers%2Flucashr%2FDownloads"), "/Users/lucashr/Downloads");
}

#[test]
fn decode_cwd_dirname_keeps_names_that_do_not_decode() {
    assert_eq!(decode_cwd_dirname("plain"), "plain");
    assert_eq!(decode_cwd_dirname("bad%FF"), "bad%FF");
    assert_eq!(decode_cwd_dirname("100%"), "100%");
}

#[test]
fn scan_load_and_search_fixture_session() {
    let store = fixture_store();
    let projects = scan_projects(Some(BASE), &store).unwrap();
    assert_eq!(projects.len(), 1);
    assert_eq!(projects[0].provider.as_deref(), Some("grok"));
    assert_eq!(projects[0].actual_path, "/Users/test/demo");
    assert_eq!(projects[0].name, "demo");
    assert!(projects[0].path.starts_with("grok://"));

    let project = Ok(fixture_store().projects.remove(0));
    let sessions = load_sessions(Some(BASE), &projects[0].path, &project).unwrap();
    assert_eq!(sessions.len(), 1);
    assert_eq!(sessions[0].actual_session_id, "019fa555-791c-71e2-8c92-ff2e6fa26d6e");
    assert_eq!(sessions[0].summary.as_deref(), Some("Demo Title"));
    assert!(sessions[0].has_tool_use);

    let session = Ok(fixture_session());
    let messages = load_messages(Some(BASE), &sessions[0].file_path, &session).unwrap();
    assert!(messages.len() >= 5);
    assert!(messages.iter().any(|m| m.message_type == "user"));
    assert!(has_block_type(&messages, "thinking"));
    assert!(has_block_type(&messages, "tool_use"));
    assert!(messages.iter().any(|m| m.usage.as_ref().and_then(|u| u.input_tokens).is_some_and(|t| t == 12345)));
    let usage_message = messages.iter().find(|m| m.usage.is_some()).unwrap();
    assert_eq!(usage_message.model.as_deref(), Some("grok-4.5"));

    let results = search(Some(BASE), "Hello grok", 10, &store).unwrap();
    assert!(!results.is_empty());
    assert!(results.iter().all(|m| m.project_name.as_deref() == Some("demo")));
}

#[test]
fn fixture_messages_are_dated_and_numbered() {
    let messages = load_messages(Some(BASE), &fixture_session().dir, &Ok(fixture_session())).unwrap();
    assert_eq!(messages.len(), 7);
    assert_eq!(messages[0].uuid, "019fa555-791c-71e2-8c92-ff2e6fa26d6e-1");
    assert_eq!(messages[2].uuid, "rs_1");
    assert_eq!(messages[0].timestamp, "2026-07-27T20:47:50Z");
    assert_eq!(messages[6].timestamp, "2026-07-27T21:11:25Z");
    assert!(messages[6].usage.is_some());
}

#[test]
fn grok_errors_name_the_offending_path() {
    let store = fixture_store();
    assert_eq!(scan_projects(None, &store).unwrap_err(), "Grok base path not found");
    assert_eq!(scan_projects(Some("relative"), &store).unwrap_err(), "Grok base path must be an absolute path");
    let project = Ok(fixture_store().projects.remove(0));
    assert_eq!(load_sessions(Some(BASE), "grok://relative", &project).unwrap_err(), "Grok project path must be absolute");
    let base: Result<Vec<String>, String> = Ok(components(&["/", "home", "u", ".grok"]));
    assert_eq!(
        check_grok_session(&base, false, &Err("missing".to_string()), false, true).unwrap_err(),
        "Grok session path is outside Grok base path"
    );
    let unreadable: Result<GrokSessionFiles, String> = Err("Grok session path is not a directory".to_string());
    assert_eq!(load_messages(Some(BASE), "/x", &unreadable).unwrap_err(), "Grok session path is not a directory");
    assert!(require_absolute_path("/a", "x").is_ok());
}

#[test]
fn convert_chat_message_maps_tool_result_and_backend_call() {
    let mut counter = 0u64;
    let tool_result = json_doc(r#"{"type":"tool_result","tool_call_id":"call-1","content":"ok"}"#);
    let msg = convert_chat_message(&tool_result, "sess", "2026-01-01T00:00:00Z", None, &mut counter).unwrap();
    assert_eq!(msg.message_type, "user");

    let backend = json_doc(r#"{"type":"backend_tool_call","kind":{"tool_type":"web_search","action":{"query":"x"}}}"#);
    let msg = convert_chat_message(&backend, "sess", "2026-01-01T00:00:00Z", None, &mut counter).unwrap();
    assert_eq!(msg.message_type, "assistant");
    let name = msg
        .content
        .as_ref()
        .and_then(|c| c.as_array())
        .and_then(|arr| arr.first())
        .and_then(|item| item.get_str("name"));
    assert_eq!(name, Some("web_search"));
    assert_eq!(counter, 2);
}

#[test]
fn chat_records_without_a_type_are_not_counted() {
    let mut counter = 5u64;
    assert!(convert_chat_message(&json_doc(r#"{"content":"x"}"#), "s", "t", None, &mut counter).is_none());
    assert_eq!(counter, 5);
    assert!(convert_chat_message(&json_doc(r#"{"type":"system","content":"   "}"#), "s", "t", None, &mut counter).is_none());
    assert_eq!(counter, 6);
    let m = convert_chat_message(&json_doc(r#"{"type":"user","content":42}"#), "s", "t", None, &mut counter).unwrap();
    assert_eq!(m.uuid, "s-7");
    let blocks = m.content.as_ref().unwrap().as_array().unwrap();
    assert_eq!(blocks[0].get_str("text"), Some("42"));
}

#[test]
fn reasoning_text_joins_summary_items() {
    let v = json_doc(r#"{"summary":[{"text":"a"},"b",{"other":1},{"text":"c"}]}"#);
    assert_eq!(extract_reasoning_text(&v), "a\nb\nc");
    assert_eq!(extract_reasoning_text(&json_doc(r#"{"thinking":"t"}"#)), "t");
    assert_eq!(extract_reasoning_text(&json_doc(r#"{}"#)), "");
}

#[test]
fn tool_calls_take_function_or_flat_shapes() {
    let flat = convert_tool_call(&json_doc(r#"{"id":"c1","name":"read","arguments":"not json"}"#));
    assert_eq!(flat.get_str("name"), Some("read"));
    assert_eq!(flat.get("input").unwrap().get_str("input"), Some("not json"));
    let nested = convert_tool_call(&json_doc(r#"{"function":{"name":"f","arguments":"{\"a\":1}"}}"#));
    assert_eq!(nested.get_str("name"), Some("f"));
    assert_eq!(nested.get_str("id"), Some(""));
    assert_eq!(nested.get("input").unwrap().get_u64("a"), Some(1));
    let bare = convert_tool_call(&json_doc(r#"{}"#));
    assert_eq!(bare.get_str("name"), Some("tool"));
    assert_eq!(bare.get("input"), Some(&Json::Null));
}

#[test]
fn content_blocks_of_each_shape() {
    assert!(content_to_blocks(None).is_empty());
    assert!(content_to_blocks(Some(&Json::Null)).is_empty());
    assert_eq!(content_to_blocks(Some(&json_doc(r#"[1,2]"#))).len(), 2);
    assert_eq!(content_to_blocks(Some(&json_doc(r#""hi""#)))[0].get_str("text"), Some("hi"));
}

#[test]
fn session_info_counts_history_records_when_the_summary_has_no_count() {
    let mut s = fixture_session();
    s.summary_text = Some(r#"{"created_at":"C"}"#.to_string());
    s.signals_text = None;
    let info = extract_session_info(&s).unwrap();
    assert_eq!(info.message_count, 6);
    assert!(info.has_tool_use);
    assert_eq!(info.last_message_time, "C");
    assert_eq!(info.session_id, s.name);
    s.chat_is_file = false;
    assert!(extract_session_info(&s).is_none());
}

#[test]
fn session_info_scans_the_readable_lines_when_the_summary_has_a_count() {
    let mut s = fixture_session();
    s.signals_text = None;
    s.chat_lines = Err("Failed to read JSONL file: stream did not contain valid UTF-8".to_string());
    s.chat_readable_lines = vec![
        r#"{"type":"user","content":"hi"}"#.to_string(),
        r#"{"type":"tool_result","tool_call_id":"c","content":"x"}"#.to_string(),
    ];
    let info = extract_session_info(&s).unwrap();
    assert_eq!(info.message_count, 4);
    assert!(info.has_tool_use);
    s.chat_readable_lines = vec![r#"{"type":"user","content":"hi"}"#.to_string()];
    let info = extract_session_info(&s).unwrap();
    assert!(!info.has_tool_use);
    s.chat_lines = Err("Failed to read JSONL file".to_string());
    s.summary_text = Some(r#"{"created_at":"C"}"#.to_string());
    assert!(extract_session_info(&s).is_none());
}

#[test]
fn detect_reports_the_sessions_directory() {
    let info = detect(Some(BASE), false).unwrap();
    assert_eq!(info.id, "grok");
    assert_eq!(info.display_name, "Grok CLI");
    assert!(!info.is_available);
    assert!(detect(None, true).is_none());
}

#[test]
fn path_checks_refuse_in_order_and_test_containment() {
    let base: Result<Vec<String>, String> = Ok(components(&["/", "home", "u", ".grok"]));
    let inside: Result<Vec<String>, String> = Ok(components(&["/", "home", "u", ".grok", "sessions", "p", "s"]));
    let outside: Result<Vec<String>, String> = Ok(components(&["/", "tmp", "s"]));
    assert!(has_leading_components(&components(&["/", "a", "bc"]), &components(&["/", "a"])));
    assert!(!has_leading_components(&components(&["/", "ab"]), &components(&["/", "a"])));

    // Grok sessions: base resolution first, then the relative path, containment, kind.
    let unresolved: Result<Vec<String>, String> = Err("gone".to_string());
    assert_eq!(check_grok_session(&unresolved, false, &inside, false, true).unwrap_err(), "Failed to resolve Grok base path: gone");
    assert_eq!(check_grok_session(&base, true, &unresolved, false, true).unwrap_err(), "Failed to resolve path: gone");
    assert_eq!(check_grok_session(&base, true, &outside, false, true).unwrap_err(), "Grok session path is outside Grok base path");
    assert_eq!(check_grok_session(&base, true, &inside, true, true).unwrap_err(), "Grok session path is not a directory");
    assert!(check_grok_session(&base, true, &inside, false, true).is_ok());

    // Grok projects: kind, then the sessions directory, then the base path.
    let sessions = components(&["/", "home", "u", ".grok", "sessions"]);
    assert_eq!(
        check_grok_project(false, false, &base, &sessions, &inside, &base, &inside).unwrap_err(),
        "Grok project path is not a directory"
    );
    assert_eq!(
        check_grok_project(false, true, &base, &sessions, &outside, &base, &outside).unwrap_err(),
        "Grok project path is outside Grok sessions directory"
    );
    assert_eq!(
        check_grok_project(false, true, &base, &sessions, &inside, &unresolved, &inside).unwrap_err(),
        "Failed to resolve Grok base path: gone"
    );
    assert!(check_grok_project(false, true, &base, &sessions, &inside, &base, &inside).is_ok());

    // Kimi Code: absolute, kind, root, path, containment.
    let root: Result<Vec<String>, String> = Ok(components(&["/", "k", "sessions"]));
    let ws: Result<Vec<String>, String> = Ok(components(&["/", "k", "sessions", "wd_a"]));
    assert_eq!(check_kimi_path("workspace", false, false, true, &root, &ws).unwrap_err(), "Kimi Code workspace path must be absolute");
    assert_eq!(check_kimi_path("workspace", true, true, true, &root, &ws).unwrap_err(), "Kimi Code workspace path is not a directory");
    assert_eq!(
        check_kimi_path("session", true, false, true, &unresolved, &ws).unwrap_err(),
        "Failed to resolve Kimi Code sessions root: gone"
    );
    assert_eq!(
        check_kimi_path("session", true, false, true, &root, &unresolved).unwrap_err(),
        "Failed to resolve Kimi Code session path: gone"
    );
    assert_eq!(
        check_kimi_path("workspace", true, false, true, &root, &outside).unwrap_err(),
        "Kimi Code workspace path is outside the sessions directory"
    );
    assert!(check_kimi_path("workspace", true, false, true, &root, &ws).is_ok());
}
