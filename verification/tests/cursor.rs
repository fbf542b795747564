use session_history::cursor::{
    attach_composer_token_usage, collect_global_stats_sessions, composer_id_of, composer_to_session,
    convert_cursor_bubble, detect, display_name_for_project_path, extract_bubble_timestamp, is_orphan_workspace_id,
    load_messages, load_sessions, load_stats_messages, map_cursor_tool_name, ms_to_iso, normalize_workspace_bucket_id,
    bucket_ids, folder_reads_cleanly, parse_cursor_json, percent_decode, read_workspace_folder, scan_projects, search,
    stats_folders_read_cleanly, store_folders_read_cleanly, workspace_dir_of_project_path, CursorStore, GlobalDb, StateDb, WorkspaceDir, WorkspaceListing, WorkspaceState,
};
use session_history::json::Json;
use session_history::models::ClaudeMessage;

fn doc(text: &str) -> Json {
    parse_cursor_json(text).unwrap()
}

fn block<'a>(m: &'a ClaudeMessage, i: usize) -> &'a Json {
    &m.content.as_ref().unwrap().as_array().unwrap()[i]
}

fn field<'a>(v: &'a Json, key: &str) -> &'a str {
    v.get_str(key).unwrap()
}

#[test]
fn test_percent_decode_basic() {
    assert_eq!(percent_decode("a%20b"), "a b");
    assert_eq!(percent_decode("%2F%2Fx"), "//x");
    // Incomplete / non-hex escapes pass through literally.
    assert_eq!(percent_decode("100%done"), "100%done");
    assert_eq!(percent_decode("a%2"), "a%2");
    assert_eq!(percent_decode("%zz"), "%zz");
}

#[test]
fn test_percent_decode_no_panic_on_multibyte_after_percent() {
    assert_eq!(percent_decode("/p/100%€done/x"), "/p/100%€done/x");
    assert_eq!(percent_decode("%한글"), "%한글");
    assert_eq!(percent_decode("a%🎉b"), "a%🎉b");
    // Mixed: a valid escape followed later by a bare % before multibyte.
    assert_eq!(percent_decode("%20x%€"), " x%€");
}

#[test]
fn percent_decode_keeps_text_whose_decoding_is_not_utf8() {
    assert_eq!(percent_decode("a%FFb"), "a%FFb");
    assert_eq!(percent_decode("%C3%A9t%C3%A9"), "été");
    assert_eq!(percent_decode("plain/path"), "plain/path");
}

#[test]
fn test_convert_user_bubble() {
    let bubble = doc(r#"{"type":1,"bubbleId":"user-1","createdAt":"2026-01-24T09:45:46.113Z","text":"Hello from Cursor","images":[]}"#);
    let result = convert_cursor_bubble(&bubble, 1, "session-1").unwrap();
    assert_eq!(result.message_type, "user");
    assert_eq!(result.provider, Some("cursor".to_string()));
    assert_eq!(result.timestamp, "2026-01-24T09:45:46.113Z");
}

#[test]
fn test_convert_assistant_text_bubble() {
    let bubble = doc(r#"{"type":2,"bubbleId":"asst-1","createdAt":"2026-01-24T09:46:01.000Z","text":"Here is the answer"}"#);
    let result = convert_cursor_bubble(&bubble, 2, "session-1").unwrap();
    assert_eq!(result.message_type, "assistant");
    assert_eq!(result.timestamp, "2026-01-24T09:46:01.000Z");
    assert_eq!(field(block(&result, 0), "type"), "text");
}

#[test]
fn test_convert_user_bubble_with_numeric_timestamp() {
    let bubble = doc(r#"{"type":1,"bubbleId":"user-2","createdAt":1700000000000,"text":"Hello from Cursor","images":[]}"#);
    let result = convert_cursor_bubble(&bubble, 1, "session-1").unwrap();
    assert_eq!(result.message_type, "user");
    assert_eq!(result.timestamp, ms_to_iso(1700000000000));
}

#[test]
fn test_convert_assistant_tool_bubble() {
    let bubble = doc(r#"{"type":2,"bubbleId":"asst-2","text":"file contents here","toolFormerData":{"tool":7,"toolCallId":"toolu_123","status":"completed","name":"read_file","rawArgs":"{\"target_file\": \"src/main.rs\"}"}}"#);
    let result = convert_cursor_bubble(&bubble, 2, "session-1").unwrap();
    assert_eq!(field(block(&result, 0), "type"), "tool_use");
    assert_eq!(field(block(&result, 0), "name"), "Read");
    assert_eq!(field(block(&result, 1), "type"), "tool_result");
}

#[test]
fn test_convert_thinking_bubble() {
    let bubble = doc(r#"{"type":2,"bubbleId":"asst-3","text":"Let me think about this...","isThought":true}"#);
    let result = convert_cursor_bubble(&bubble, 2, "session-1").unwrap();
    assert_eq!(field(block(&result, 0), "type"), "thinking");
}

#[test]
fn test_map_cursor_tool_names() {
    assert_eq!(map_cursor_tool_name("read_file"), "Read");
    assert_eq!(map_cursor_tool_name("execute_command"), "Bash");
    assert_eq!(map_cursor_tool_name("codebase_search"), "Grep");
    assert_eq!(map_cursor_tool_name("write_to_file"), "Write");
    assert_eq!(map_cursor_tool_name("unknown_tool"), "unknown_tool");
}

#[test]
fn map_cursor_tool_name_is_idempotent_on_examples() {
    for name in ["view_file", "list_dir", "web_fetch", "Read", "Grep", "anything"] {
        let once = map_cursor_tool_name(name);
        assert_eq!(map_cursor_tool_name(once), once);
    }
    assert_eq!(map_cursor_tool_name("fetch_url"), "WebFetch");
    assert_eq!(map_cursor_tool_name("web_search"), "WebSearch");
    assert_eq!(map_cursor_tool_name("list_directory"), "Glob");
}

#[test]
fn test_parse_cursor_json_with_control_chars() {
    let data = "{\"text\": \"hello\x01world\"}";
    let result = parse_cursor_json(data).unwrap();
    assert!(result.get_str("text").unwrap().contains("hello"));
    assert_eq!(result.get_str("text").unwrap(), "hello world");
}

#[test]
fn parse_cursor_json_reports_the_parse_error() {
    let err = parse_cursor_json("{not json").unwrap_err();
    assert!(err.starts_with("JSON parse error: "));
    assert!(err.len() > "JSON parse error: ".len());
}

#[test]
fn test_read_workspace_folder_format() {
    // Test the folder URL parsing logic
    let folder = "file:///Users/jack/project";
    let result = folder.strip_prefix("file://").unwrap();
    assert_eq!(result, "/Users/jack/project");
    assert_eq!(
        read_workspace_folder(r#"{"folder":"file:///Users/jack/project"}"#),
        Some("/Users/jack/project".to_string())
    );
}

#[test]
fn read_workspace_folder_handles_drive_letters_and_escapes() {
    assert_eq!(read_workspace_folder(r#"{"folder":"file:///C:/Users/me/proj"}"#), Some("C:/Users/me/proj".to_string()));
    assert_eq!(read_workspace_folder(r#"{"folder":"file:///Users/me/my%20proj"}"#), Some("/Users/me/my proj".to_string()));
    assert_eq!(read_workspace_folder(r#"{"folder":"vscode-remote://x/y"}"#), None);
    assert_eq!(read_workspace_folder(r#"{"other":1}"#), None);
    assert_eq!(read_workspace_folder("not json"), None);
}

#[test]
fn test_ms_to_iso() {
    let result = ms_to_iso(1700000000000);
    assert!(result.starts_with("2023-11-14T"));
}

#[test]
fn ms_to_iso_is_empty_when_the_instant_cannot_be_printed() {
    assert_eq!(ms_to_iso(u64::MAX), "");
}

#[test]
fn test_empty_bubble() {
    let bubble = doc(r#"{"type":2,"bubbleId":"empty","text":""}"#);
    assert!(convert_cursor_bubble(&bubble, 2, "session-1").is_none());
}

#[test]
fn unknown_bubble_types_give_no_message() {
    let bubble = doc(r#"{"type":3,"bubbleId":"b","text":"x"}"#);
    assert!(convert_cursor_bubble(&bubble, 3, "session-1").is_none());
}

#[test]
fn test_assistant_bubble_uses_composer_model() {
    let bubble = doc(r#"{"type":2,"bubbleId":"a1","text":"hello","createdAt":"2026-07-27T20:00:00Z"}"#);
    let msg = convert_cursor_bubble(&bubble, 2, "session-1").unwrap();
    assert_eq!(msg.model.as_deref(), Some("cursor"));
    assert_eq!(msg.provider.as_deref(), Some("cursor"));
}

#[test]
fn user_bubble_images_become_base64_blocks() {
    let bubble = doc(r#"{"type":1,"bubbleId":"u","text":"","images":["data:image/jpeg;base64,QUJD","https://x/y.png","data:image/gif,R0"]}"#);
    let msg = convert_cursor_bubble(&bubble, 1, "s").unwrap();
    let blocks = msg.content.as_ref().unwrap().as_array().unwrap();
    assert_eq!(blocks.len(), 2);
    let source = blocks[0].get("source").unwrap();
    assert_eq!(field(source, "media_type"), "image/jpeg");
    assert_eq!(field(source, "data"), "QUJD");
    assert_eq!(field(blocks[1].get("source").unwrap(), "media_type"), "image/png");
}

#[test]
fn tool_bubble_marks_errors_and_defaults_its_arguments() {
    let bubble = doc(r#"{"type":2,"bubbleId":"b9","text":"denied","toolFormerData":{"status":"rejected","rawArgs":"not json"}}"#);
    let msg = convert_cursor_bubble(&bubble, 2, "s").unwrap();
    let call = block(&msg, 0);
    assert_eq!(field(call, "name"), "unknown");
    assert_eq!(field(call, "id"), "b9");
    assert_eq!(call.get("input").unwrap(), &Json::Object(Vec::new()));
    assert_eq!(block(&msg, 1).get_bool("is_error"), Some(true));
}

#[test]
fn bubble_timestamp_prefers_strings_then_numbers() {
    assert_eq!(extract_bubble_timestamp(&doc(r#"{"createdAt":"","timestamp":"T1"}"#)), "T1");
    assert_eq!(extract_bubble_timestamp(&doc(r#"{"timestamp":1700000000000}"#)), ms_to_iso(1700000000000));
    assert_eq!(extract_bubble_timestamp(&doc(r#"{"other":1}"#)), "");
}

#[test]
fn test_attach_composer_token_usage_to_last_assistant() {
    let mut messages = vec![
        convert_cursor_bubble(&doc(r#"{"type":1,"bubbleId":"u1","text":"hi","createdAt":"2026-07-27T20:00:00Z"}"#), 1, "session-1").unwrap(),
        convert_cursor_bubble(&doc(r#"{"type":2,"bubbleId":"a1","text":"hello","createdAt":"2026-07-27T20:01:00Z"}"#), 2, "session-1").unwrap(),
    ];
    attach_composer_token_usage(&doc(r#"{"promptTokenBreakdown":{"totalUsedTokens":12345}}"#), &mut messages);
    assert!(messages[0].usage.is_none());
    assert_eq!(messages[1].usage.as_ref().and_then(|u| u.input_tokens), Some(12345));
    assert_eq!(messages[1].model.as_deref(), Some("cursor"));
}

#[test]
fn attach_composer_token_usage_caps_counts_and_stamps_the_time() {
    let mut messages = vec![
        convert_cursor_bubble(&doc(r#"{"type":2,"bubbleId":"a1","text":"one","createdAt":"A"}"#), 2, "s").unwrap(),
        convert_cursor_bubble(&doc(r#"{"type":2,"bubbleId":"a2","text":"two","createdAt":"B"}"#), 2, "s").unwrap(),
    ];
    attach_composer_token_usage(
        &doc(r#"{"lastUpdatedAt":1700000000000,"promptTokenBreakdown":{"totalUsedTokens":99999999999}}"#),
        &mut messages,
    );
    assert!(messages[0].usage.is_none());
    assert_eq!(messages[0].timestamp, "A");
    assert_eq!(messages[1].usage.as_ref().and_then(|u| u.input_tokens), Some(u32::MAX));
    assert_eq!(messages[1].timestamp, ms_to_iso(1700000000000));
}

#[test]
fn workspace_ids_fall_in_buckets() {
    assert!(is_orphan_workspace_id(""));
    assert!(is_orphan_workspace_id("empty-window"));
    assert!(!is_orphan_workspace_id("hash"));
    assert_eq!(normalize_workspace_bucket_id("empty-window"), "unassigned");
    assert_eq!(normalize_workspace_bucket_id("unassigned"), "unassigned");
    assert_eq!(normalize_workspace_bucket_id("hash"), "hash");
}

#[test]
fn composer_sessions_report_mode_times_and_names() {
    let c = doc(r#"{"composerId":"c1","createdAt":1700000000000,"lastUpdatedAt":0,"unifiedMode":"agent"}"#);
    let s = composer_to_session(&c, "proj").unwrap();
    assert_eq!(s.session_id, "cursor://c1");
    assert_eq!(s.summary.as_deref(), Some("Untitled"));
    assert!(s.has_tool_use);
    assert_eq!(s.last_modified, ms_to_iso(1700000000000));
    assert!(composer_to_session(&doc(r#"{"composerId":"c2","isArchived":true}"#), "p").is_none());
    assert!(composer_to_session(&doc(r#"{"composerId":""}"#), "p").is_none());
}

fn composer_row(id: &str, json: &str) -> (String, String) {
    (format!("composerData:{id}"), json.to_string())
}

fn migrated_dir() -> WorkspaceDir {
    WorkspaceDir {
        name: "hash-migrated".to_string(),
        path: "/u/User/workspaceStorage/hash-migrated".to_string(),
        is_dir: true,
        is_symlink: false,
        state: WorkspaceState {
            workspace_json: Some(r#"{"folder":"file:///Users/test/demo-cursor"}"#.to_string()),
            state_db: StateDb::ComposerData(r#"{"allComposers":[],"selectedComposerIds":["comp-1"],"hasMigratedComposerData":true}"#.to_string()),
        },
    }
}

fn migrated_store() -> (CursorStore, GlobalDb) {
    let composer = r#"{"composerId":"comp-1","name":"Migrated chat","createdAt":1700000000000,"lastUpdatedAt":1700000100000,"isArchived":false,"unifiedMode":"agent","workspaceIdentifier":{"id":"hash-migrated","uri":{"fsPath":"/Users/test/demo-cursor","path":"/Users/test/demo-cursor"}},"fullConversationHeadersOnly":[{"bubbleId":"b1","type":1},{"bubbleId":"b2","type":2}],"promptTokenBreakdown":{"totalUsedTokens":9001}}"#;
    let rows = vec![composer_row("comp-1", composer)];
    let store = CursorStore {
        global: GlobalDb::Rows(rows.clone()),
        workspaces: WorkspaceListing::Entries(vec![migrated_dir()]),
        bucket_dirs: vec![migrated_dir()],
    };
    (store, GlobalDb::Rows(rows))
}

#[test]
fn test_scan_projects_from_migrated_global_composers() {
    let (store, global) = migrated_store();
    let projects = scan_projects(&store).unwrap();
    assert_eq!(projects.len(), 1);
    assert_eq!(projects[0].name, "demo-cursor");
    assert!(projects[0].session_count >= 1);
    assert_eq!(projects[0].path, "cursor:///u/User/workspaceStorage/hash-migrated");

    let dir = workspace_dir_of_project_path(&projects[0].path).unwrap();
    assert_eq!(dir, "/u/User/workspaceStorage/hash-migrated");
    let files = WorkspaceState {
        workspace_json: Some(r#"{"folder":"file:///Users/test/demo-cursor"}"#.to_string()),
        state_db: StateDb::ComposerData(r#"{"allComposers":[]}"#.to_string()),
    };
    let sessions = load_sessions(&projects[0].path, &files, &global).unwrap();
    assert_eq!(sessions.len(), 1);
    assert_eq!(sessions[0].file_path, "cursor://comp-1");

    let record: Result<String, String> = match &global {
        GlobalDb::Rows(rows) => Ok(rows[0].1.clone()),
        _ => unreachable!(),
    };
    let bubbles: Result<Vec<(String, String)>, String> = Ok(vec![
        ("bubbleId:comp-1:b1".to_string(), r#"{"bubbleId":"b1","type":1,"text":"hello","createdAt":"2026-07-27T20:00:00Z"}"#.to_string()),
        ("bubbleId:comp-1:b2".to_string(), r#"{"bubbleId":"b2","type":2,"text":"hi","createdAt":"2026-07-27T20:01:00Z"}"#.to_string()),
    ]);
    let messages = load_messages(&sessions[0].file_path, &record, &Ok(()), &bubbles).unwrap();
    assert!(messages.iter().any(|m| m.model.as_deref() == Some("cursor")
        && m.usage.as_ref().and_then(|u| u.input_tokens).is_some_and(|t| t == 9001)));
    let stats = load_stats_messages(&sessions[0].file_path, &record).unwrap();
    assert!(stats.iter().any(|m| m.model.as_deref() == Some("cursor")
        && m.usage.as_ref().and_then(|u| u.input_tokens).is_some_and(|t| t == 9001)));
}

fn legacy_dir(name: &str, folder: &str, last_updated: u64, db: Option<&str>) -> WorkspaceDir {
    let data = format!(r#"{{"allComposers":[{{"composerId":"comp-1","name":"chat","createdAt":{last_updated},"lastUpdatedAt":{last_updated},"isArchived":false}}]}}"#);
    WorkspaceDir {
        name: name.to_string(),
        path: format!("/ws/{name}"),
        is_dir: true,
        is_symlink: false,
        state: WorkspaceState {
            workspace_json: Some(format!(r#"{{"folder":"file://{folder}"}}"#)),
            state_db: match db {
                Some(text) => StateDb::ComposerData(text.to_string()),
                None => StateDb::ComposerData(data),
            },
        },
    }
}

#[test]
fn test_scan_projects_in_tolerates_corrupt_workspace_db() {
    let dirs = vec![
        legacy_dir("hash-old", "/Users/me/old-proj", 1_700_000_000_000, None),
        legacy_dir("hash-new", "/Users/me/new-proj", 1_800_000_000_000, None),
        WorkspaceDir {
            name: "hash-broken".to_string(),
            path: "/ws/hash-broken".to_string(),
            is_dir: true,
            is_symlink: false,
            state: WorkspaceState {
                workspace_json: Some(r#"{"folder":"file:///Users/me/broken-proj"}"#.to_string()),
                state_db: StateDb::NoComposerData,
            },
        },
    ];
    let store = CursorStore { global: GlobalDb::Absent, workspaces: WorkspaceListing::Entries(dirs), bucket_dirs: vec![] };
    let projects = scan_projects(&store).unwrap();
    let names: Vec<&str> = projects.iter().map(|p| p.name.as_str()).collect();
    assert_eq!(names, vec!["new-proj", "old-proj"]);
}

#[test]
fn scan_projects_reports_database_and_listing_errors() {
    let failed = CursorStore { global: GlobalDb::Failed("Query failed: boom".to_string()), workspaces: WorkspaceListing::NotADirectory, bucket_dirs: vec![] };
    assert_eq!(scan_projects(&failed).unwrap_err(), "Query failed: boom");
    let unlisted = CursorStore { global: GlobalDb::Absent, workspaces: WorkspaceListing::Unreadable("denied".to_string()), bucket_dirs: vec![] };
    assert_eq!(scan_projects(&unlisted).unwrap_err(), "denied");
    let empty = CursorStore { global: GlobalDb::Absent, workspaces: WorkspaceListing::NotADirectory, bucket_dirs: vec![] };
    assert!(scan_projects(&empty).unwrap().is_empty());
}

#[test]
fn global_buckets_gather_orphans_and_count_sessions() {
    let rows = vec![
        composer_row("a", r#"{"fullConversationHeadersOnly":[{"type":1}],"lastUpdatedAt":5}"#),
        composer_row("b", r#"{"workspaceIdentifier":{"id":"empty-window"},"promptTokenBreakdown":{"totalUsedTokens":3},"lastUpdatedAt":9}"#),
        composer_row("c", r#"{"workspaceIdentifier":{"id":"w1","uri":{"path":"/p/one"}},"fullConversationHeadersOnly":[{"type":2}]}"#),
        composer_row("d", r#"{"isArchived":true,"fullConversationHeadersOnly":[{"type":1}]}"#),
        composer_row("e", r#"{"fullConversationHeadersOnly":[]}"#),
        ("bubbleId:x:y".to_string(), "{}".to_string()),
    ];
    let store = CursorStore { global: GlobalDb::Rows(rows), workspaces: WorkspaceListing::NotADirectory, bucket_dirs: vec![] };
    let projects = scan_projects(&store).unwrap();
    assert_eq!(projects.len(), 2);
    let orphan = projects.iter().find(|p| p.name == "Cursor").unwrap();
    assert_eq!(orphan.session_count, 2);
    assert_eq!(orphan.path, "cursor://workspace/unassigned");
    assert_eq!(orphan.last_modified, ms_to_iso(9));
    let one = projects.iter().find(|p| p.name == "one").unwrap();
    assert_eq!(one.path, "cursor://workspace/w1");
    assert_eq!(one.actual_path, "/p/one");
    assert_eq!(one.session_count, 1);
}

#[test]
fn display_names_of_project_paths() {
    assert_eq!(display_name_for_project_path("cursor://workspace/unassigned", None).as_deref(), Some("Cursor"));
    assert_eq!(display_name_for_project_path("cursor://workspace/w1/extra", None).as_deref(), Some("w1"));
    assert_eq!(
        display_name_for_project_path("cursor:///ws/h", Some(r#"{"folder":"file:///a/b/demo"}"#)).as_deref(),
        Some("demo")
    );
    assert_eq!(display_name_for_project_path("cursor:///ws/h", None), None);
    assert_eq!(workspace_dir_of_project_path("cursor://workspace/w1"), None);
}

#[test]
fn load_sessions_of_a_workspace_bucket_reads_the_global_records() {
    let rows = vec![
        composer_row("c1", r#"{"workspaceIdentifier":{"id":"w1"},"fullConversationHeadersOnly":[{"type":1}],"lastUpdatedAt":1700000000000}"#),
        composer_row("c2", r#"{"composerId":"named","workspaceIdentifier":{"id":"w1"},"fullConversationHeadersOnly":[{"type":1}],"lastUpdatedAt":1800000000000}"#),
        composer_row("c3", r#"{"workspaceIdentifier":{"id":"w2"},"fullConversationHeadersOnly":[{"type":1}]}"#),
    ];
    let none = WorkspaceState { workspace_json: None, state_db: StateDb::Absent };
    let sessions = load_sessions("cursor://workspace/w1", &none, &GlobalDb::Rows(rows)).unwrap();
    let ids: Vec<&str> = sessions.iter().map(|s| s.actual_session_id.as_str()).collect();
    assert_eq!(ids, vec!["named", "c1"]);
    assert!(sessions.iter().all(|s| s.project_name == "w1"));
    assert_eq!(
        load_sessions("cursor://relative/path", &none, &GlobalDb::Absent).unwrap_err(),
        "Cursor workspace path must be absolute"
    );
    let broken = WorkspaceState { workspace_json: None, state_db: StateDb::OpenFailed("locked".to_string()) };
    assert_eq!(load_sessions("cursor:///ws/h", &broken, &GlobalDb::Absent).unwrap_err(), "Failed to open workspace DB: locked");
}

#[test]
fn load_messages_needs_headers_and_adds_a_placeholder() {
    let record: Result<String, String> = Ok(r#"{"promptTokenBreakdown":{"totalUsedTokens":7},"fullConversationHeadersOnly":[{"bubbleId":"u","type":1}]}"#.to_string());
    let bubbles: Result<Vec<(String, String)>, String> = Ok(vec![
        ("bubbleId:c9:u".to_string(), r#"{"text":"old"}"#.to_string()),
        ("bubbleId:c9:u".to_string(), r#"{"text":"new"}"#.to_string()),
    ]);
    let messages = load_messages("cursor://c9", &record, &Ok(()), &bubbles).unwrap();
    assert_eq!(messages.len(), 2);
    assert_eq!(field(block(&messages[0], 0), "text"), "new");
    assert_eq!(messages[1].uuid, "c9-usage");
    assert_eq!(messages[1].usage.as_ref().and_then(|u| u.input_tokens), Some(7));
    let no_headers: Result<String, String> = Ok("{}".to_string());
    assert_eq!(load_messages("cursor://c9", &no_headers, &Ok(()), &bubbles).unwrap_err(), "No conversation headers found");
    let missing: Result<String, String> = Err("Composer not found: none".to_string());
    assert_eq!(load_messages("cursor://c9", &missing, &Ok(()), &bubbles).unwrap_err(), "Composer not found: none");
    assert_eq!(composer_id_of("cursor://c9"), "c9");
    // Reopening the database fails before the header list is looked at; a failed
    // bubble query comes after it.
    let reopen: Result<(), String> = Err("Failed to open Cursor DB: locked".to_string());
    assert_eq!(load_messages("cursor://c9", &no_headers, &reopen, &bubbles).unwrap_err(), "Failed to open Cursor DB: locked");
    assert_eq!(load_messages("cursor://c9", &missing, &reopen, &bubbles).unwrap_err(), "Composer not found: none");
    let query: Result<Vec<(String, String)>, String> = Err("Query failed: boom".to_string());
    assert_eq!(load_messages("cursor://c9", &no_headers, &Ok(()), &query).unwrap_err(), "No conversation headers found");
    assert_eq!(load_messages("cursor://c9", &record, &Ok(()), &query).unwrap_err(), "Query failed: boom");
}

#[test]
fn stats_messages_follow_the_headers() {
    let record: Result<String, String> = Ok(r#"{"fullConversationHeadersOnly":[{"bubbleId":"x","type":1},{"type":2},{"bubbleId":"z","type":7}]}"#.to_string());
    let stats = load_stats_messages("c5", &record).unwrap();
    let ids: Vec<&str> = stats.iter().map(|m| m.uuid.as_str()).collect();
    assert_eq!(ids, vec!["c5-x-0", "c5-stats-1"]);
    assert_eq!(stats[1].message_type, "assistant");
}

#[test]
fn search_finds_bubbles_case_insensitively_and_respects_limit() {
    let rows = vec![
        ("bubbleId:c1:b1".to_string(), r#"{"type":1,"text":"Find the NEEDLE"}"#.to_string()),
        ("bubbleId:c1:b2".to_string(), r#"{"type":2,"text":"no match here"}"#.to_string()),
        ("bubbleId:c2:b3".to_string(), r#"{"type":2,"text":"another needle"}"#.to_string()),
    ];
    let hits = search("needle", 10, &rows);
    assert_eq!(hits.len(), 2);
    assert!(hits.iter().all(|m| m.project_name.as_deref() == Some("Cursor")));
    assert_eq!(hits[0].session_id, "c1");
    assert_eq!(search("needle", 1, &rows).len(), 1);
    assert!(search("needle", 0, &rows).is_empty());
    assert!(search("", 5, &rows).is_empty());
}

#[test]
fn global_stats_sessions_are_named_after_their_workspace() {
    let rows = vec![composer_row("c1", r#"{"workspaceIdentifier":{"id":"w1","uri":{"fsPath":"/a/b/proj"}},"fullConversationHeadersOnly":[{"type":1}]}"#)];
    let sessions = collect_global_stats_sessions(&GlobalDb::Rows(rows), &vec![]).unwrap();
    assert_eq!(sessions.len(), 1);
    assert_eq!(sessions[0].0, "proj [cursor]");
    assert_eq!(sessions[0].1.len(), 2);
}

#[test]
fn detect_reports_the_global_database() {
    let info = detect(Some("/home/u/.config/Cursor/User"), true).unwrap();
    assert_eq!(info.id, "cursor");
    assert_eq!(info.display_name, "Cursor");
    assert!(info.is_available);
    assert!(detect(None, true).is_none());
}

#[test]
fn folders_that_would_be_cut_inside_a_character_are_detected() {
    assert!(folder_reads_cleanly(r#"{"folder":"file:///C:/Users/me/proj"}"#));
    assert!(folder_reads_cleanly(r#"{"folder":"file:///Users/me/proj"}"#));
    assert!(folder_reads_cleanly(r#"{"folder":"vscode-remote://é:/x"}"#));
    assert!(folder_reads_cleanly("not json"));
    assert!(!folder_reads_cleanly(r#"{"folder":"file://é:/x"}"#));
    assert!(folder_reads_cleanly(r#"{"folder":"file://€:/x"}"#));

    let (mut store, global) = migrated_store();
    assert!(store_folders_read_cleanly(&store));
    assert!(stats_folders_read_cleanly(&global, &store.bucket_dirs));
    if let WorkspaceListing::Entries(dirs) = &mut store.workspaces {
        dirs[0].state.workspace_json = Some(r#"{"folder":"file://é:/x"}"#.to_string());
    }
    // The global scan reads only the buckets' directories.
    assert!(store_folders_read_cleanly(&store));
    store.bucket_dirs[0].state.workspace_json = Some(r#"{"folder":"file://é:/x"}"#.to_string());
    assert!(!store_folders_read_cleanly(&store));
    assert!(!stats_folders_read_cleanly(&global, &store.bucket_dirs));
    // Without global buckets the workspace scan reads every directory's folder.
    store.global = GlobalDb::Absent;
    assert!(!store_folders_read_cleanly(&store));
    assert!(stats_folders_read_cleanly(&GlobalDb::Absent, &store.bucket_dirs));
}

#[test]
fn display_names_are_never_empty() {
    assert_eq!(display_name_for_project_path("cursor://workspace/", None).as_deref(), Some("Cursor"));
    assert_eq!(display_name_for_project_path("cursor:///ws/h", Some(r#"{"folder":"file:///"}"#)), None);
    assert_eq!(display_name_for_project_path("/ws/h", Some(r#"{"folder":"file:///a/b"}"#)).as_deref(), Some("b"));
}

#[test]
fn stats_messages_have_an_assistant_exactly_with_a_conversation() {
    let none: Result<String, String> = Ok(r#"{"composerId":"c1","fullConversationHeadersOnly":[]}"#.to_string());
    let stats = load_stats_messages("cursor://c1", &none).unwrap();
    assert!(stats.iter().all(|m| m.message_type != "assistant"));

    let tokens_only: Result<String, String> =
        Ok(r#"{"composerId":"c2","fullConversationHeadersOnly":[],"promptTokenBreakdown":{"totalUsedTokens":7}}"#.to_string());
    let stats = load_stats_messages("cursor://c2", &tokens_only).unwrap();
    assert_eq!(stats.len(), 1);
    assert_eq!(stats[0].message_type, "assistant");
    assert_eq!(stats[0].uuid, "c2-usage");
    assert_eq!(stats[0].session_id, "c2");
    assert_eq!(stats[0].usage.as_ref().unwrap().input_tokens, Some(7));
}

#[test]
fn bucket_directories_are_reached_by_joining_the_id() {
    let rows = vec![composer_row(
        "c1",
        r#"{"workspaceIdentifier":{"id":"../elsewhere","uri":{"path":"/p/recorded"}},"fullConversationHeadersOnly":[{"type":1}],"lastUpdatedAt":5}"#,
    )];
    assert_eq!(bucket_ids(&rows), vec!["../elsewhere".to_string()]);
    let reached = WorkspaceDir {
        name: "../elsewhere".to_string(),
        path: "/u/User/workspaceStorage/../elsewhere".to_string(),
        is_dir: true,
        is_symlink: false,
        state: WorkspaceState { workspace_json: Some(r#"{"folder":"file:///p/actual"}"#.to_string()), state_db: StateDb::Absent },
    };
    let store = CursorStore { global: GlobalDb::Rows(rows), workspaces: WorkspaceListing::NotADirectory, bucket_dirs: vec![reached] };
    let projects = scan_projects(&store).unwrap();
    assert_eq!(projects.len(), 1);
    assert_eq!(projects[0].name, "actual");
    assert_eq!(projects[0].path, "cursor:///u/User/workspaceStorage/../elsewhere");
    assert_eq!(projects[0].actual_path, "/p/actual");
}
