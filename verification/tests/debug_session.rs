use session_inspector::debug_session::arguments_json_source;
use session_inspector::debug_session::result_json_source;
use session_inspector::debug_session::ResultJson;
use session_inspector::debug_session::first_session_path;
use session_inspector::debug_session::format_arguments;
use session_inspector::debug_session::format_result_body;
use session_inspector::debug_session::format_tool_name;
use session_inspector::debug_session::emphasize;
use session_inspector::debug_session::header;
use session_inspector::debug_session::inspector_error_message;
use session_inspector::debug_session::label;
use session_inspector::debug_session::list_header_line;
use session_inspector::debug_session::list_limit_note;
use session_inspector::debug_session::list_page_size;
use session_inspector::debug_session::list_row;
use session_inspector::debug_session::list_truncated_note;
use session_inspector::debug_session::missing_session_file;
use session_inspector::debug_session::no_sessions_line;
use session_inspector::debug_session::no_tool_calls_line;
use session_inspector::debug_session::orphan_outputs_note;
use session_inspector::debug_session::plan_session_lookup;
use session_inspector::debug_session::resolve_thread_path;
use session_inspector::debug_session::select_tool_call;
use session_inspector::debug_session::show_lines;
use session_inspector::debug_session::summarize_records;
use session_inspector::debug_session::tool_call_lines;
use session_inspector::debug_session::tools_header_line;
use session_inspector::debug_session::tools_row;
use session_inspector::debug_session::truncate_middle;
use session_inspector::debug_session::DebugSessionError;
use session_inspector::debug_session::RecordSummary;
use session_inspector::debug_session::SessionLookup;
use session_inspector::debug_session::SessionMeta;
use session_inspector::collect_tool_records;
use session_inspector::JsonNumber;
use session_inspector::JsonValue;
use session_inspector::SessionInspectorError;
use session_inspector::SessionToolRecords;
use session_inspector::ToolResultBody;

fn to_json(value: &serde_json::Value) -> JsonValue {
    match value {
        serde_json::Value::Null => JsonValue::Null,
        serde_json::Value::Bool(b) => JsonValue::Bool(*b),
        serde_json::Value::Number(n) => JsonValue::Number(JsonNumber {
            as_u64: n.as_u64(),
            text: n.to_string(),
        }),
        serde_json::Value::String(s) => JsonValue::String(s.clone()),
        serde_json::Value::Array(items) => JsonValue::Array(items.iter().map(to_json).collect()),
        serde_json::Value::Object(map) => JsonValue::Object(
            map.iter()
                .map(|(key, value)| (key.clone(), to_json(value)))
                .collect(),
        ),
    }
}

fn records(lines: &[&str]) -> SessionToolRecords {
    collect_tool_records(
        "/tmp/demo.jsonl".to_string(),
        lines
            .iter()
            .map(|line| Ok(to_json(&serde_json::from_str(line).unwrap())))
            .collect(),
    )
    .unwrap()
}

const TURN_1: &str = r#"{"timestamp":"t","type":"event_msg","payload":{"type":"turn_started","turn_id":"turn-1","trace_id":null,"started_at":1,"model_context_window":1000,"collaboration_mode_kind":"default"}}"#;
const TURN_2: &str = r#"{"timestamp":"t","type":"event_msg","payload":{"type":"turn_started","turn_id":"turn-2","trace_id":null,"started_at":1,"model_context_window":1000,"collaboration_mode_kind":"default"}}"#;
const CALL_1: &str = r#"{"timestamp":"t","type":"response_item","payload":{"type":"function_call","name":"shell","namespace":"functions","arguments":"{\"cmd\":\"echo hi\"}","call_id":"call-1"}}"#;
const OUT_1: &str = r#"{"timestamp":"t","type":"response_item","payload":{"type":"function_call_output","call_id":"call-1","output":"hi…5 tokens truncated…"}}"#;
const CALL_2: &str = r#"{"timestamp":"t","type":"response_item","payload":{"type":"custom_tool_call","name":"apply_patch","input":"*** Begin Patch\n*** End Patch","call_id":"call-2"}}"#;
const OUT_2: &str = r#"{"timestamp":"t","type":"response_item","payload":{"type":"custom_tool_call_output","call_id":"call-2","output":"{\"ok\":true}"}}"#;
const ORPHAN: &str = r#"{"timestamp":"t","type":"response_item","payload":{"type":"function_call_output","call_id":"gone","output":"x"}}"#;
const UNKNOWN: &str = r#"{"timestamp":"t","type":"future_record","payload":{}}"#;

#[test]
fn exit_codes_and_messages() {
    assert_eq!(DebugSessionError::MissingSession("a".to_string()).exit_code(), 2);
    assert_eq!(DebugSessionError::MissingCall("b".to_string()).exit_code(), 3);
    assert_eq!(DebugSessionError::Parse("c".to_string()).exit_code(), 4);
    assert_eq!(DebugSessionError::Other("d".to_string()).exit_code(), 1);
    assert_eq!(DebugSessionError::Parse("c".to_string()).message(), "c");
}

#[test]
fn reading_errors_become_parse_errors() {
    let err = SessionInspectorError::InvalidJson {
        path: "/x/broken.jsonl".to_string(),
        line: 1,
        message: "key must be a string at line 1 column 2".to_string(),
    };
    assert_eq!(
        inspector_error_message(&err),
        "invalid JSON in rollout /x/broken.jsonl at line 1: key must be a string at line 1 column 2"
    );
    let mapped = DebugSessionError::from_inspector_error(&err);
    assert_eq!(mapped.exit_code(), 4);
    assert!(mapped.message().contains("invalid JSON"));
    let read = SessionInspectorError::Read {
        path: "/x/missing".to_string(),
        message: "No such file".to_string(),
    };
    assert_eq!(
        inspector_error_message(&read),
        "failed to read rollout /x/missing: No such file"
    );
}

#[test]
fn session_lookup_takes_exactly_one_source() {
    assert_eq!(
        plan_session_lookup(None, false, Some("/f".to_string())),
        Ok(SessionLookup::File("/f".to_string()))
    );
    assert_eq!(plan_session_lookup(None, true, None), Ok(SessionLookup::Last));
    assert_eq!(
        plan_session_lookup(Some("id".to_string()), false, None),
        Ok(SessionLookup::ThreadId("id".to_string()))
    );
    assert_eq!(
        plan_session_lookup(None, true, Some("/f".to_string())),
        Err(DebugSessionError::Other(
            "--file cannot be combined with --last or THREAD_ID".to_string()
        ))
    );
    assert_eq!(
        plan_session_lookup(Some("id".to_string()), true, None),
        Err(DebugSessionError::Other(
            "pass either --last or THREAD_ID, not both".to_string()
        ))
    );
    assert_eq!(
        plan_session_lookup(None, false, None),
        Err(DebugSessionError::Other(
            "provide THREAD_ID, --last, or --file".to_string()
        ))
    );
}

#[test]
fn missing_sessions_exit_with_two() {
    let err = missing_session_file("/nope.jsonl");
    assert_eq!(err.exit_code(), 2);
    assert_eq!(err.message(), "session file not found: /nope.jsonl");

    let err = first_session_path(Vec::new(), "/home/.codex").unwrap_err();
    assert_eq!(err.message(), "no sessions found under /home/.codex");
    assert_eq!(
        first_session_path(vec!["a".to_string(), "b".to_string()], "/h"),
        Ok("a".to_string())
    );

    let id = "00000000-0000-0000-0000-0000000000ff";
    let err = resolve_thread_path(None, None, false, id, "/h").unwrap_err();
    assert_eq!(err.exit_code(), 2);
    assert!(err.message().contains("not found"));
    assert_eq!(
        err.message(),
        "session `00000000-0000-0000-0000-0000000000ff` not found under /h"
    );
    assert_eq!(
        resolve_thread_path(None, Some("arch".to_string()), false, id, "/h"),
        Ok("arch".to_string())
    );
    assert!(resolve_thread_path(None, Some("arch".to_string()), true, id, "/h").is_err());
    assert_eq!(
        resolve_thread_path(Some("act".to_string()), None, false, id, "/h"),
        Ok("act".to_string())
    );
}

#[test]
fn list_limit_is_clamped_with_a_note() {
    assert_eq!(list_page_size(0), 1);
    assert_eq!(list_page_size(50), 50);
    assert_eq!(list_page_size(5000), 1000);
    assert_eq!(list_limit_note(1000), None);
    assert_eq!(
        list_limit_note(1001),
        Some("note: --limit 1001 exceeds max 1000; clamping.".to_string())
    );
    assert_eq!(
        list_truncated_note(50),
        "note: listing truncated to 50 entries; raise --limit to see more (pagination tokens come in a later PR)."
    );
}

#[test]
fn selecting_calls_by_id() {
    let records = records(&[TURN_1, CALL_1, OUT_1, TURN_2, CALL_1]);
    let err = select_tool_call(&records.calls, "missing-call", "/tmp/demo.jsonl").unwrap_err();
    assert_eq!(err.exit_code(), 3);
    assert_eq!(
        err.message(),
        "tool call `missing-call` not found in /tmp/demo.jsonl"
    );
    let err = select_tool_call(&records.calls, "call-1", "/tmp/demo.jsonl").unwrap_err();
    assert_eq!(err.exit_code(), 3);
    assert_eq!(
        err.message(),
        "tool call `call-1` matches 2 turns (turn-1, turn-2); disambiguation by --turn is not in this PR — pick a unique call_id or inspect `tools` output"
    );

    let records = self::records(&[TURN_1, CALL_1, OUT_1, CALL_2, OUT_2]);
    assert_eq!(select_tool_call(&records.calls, "call-2", "p"), Ok(1));
}

#[test]
fn summary_counts_truncated_open_orphan_and_unknown() {
    let records = records(&[TURN_1, CALL_1, OUT_1, CALL_2, ORPHAN, UNKNOWN]);
    assert_eq!(
        summarize_records(&records),
        RecordSummary {
            calls: 2,
            truncated: 1,
            open: 1,
            orphans: 1,
            unknown: 1,
        }
    );
}

#[test]
fn truncate_middle_keeps_head_and_tail() {
    assert_eq!(truncate_middle("short", 12), "short");
    assert_eq!(truncate_middle("abcdefghijklmnop", 12), "abcde…klmnop");
    assert_eq!(truncate_middle("abcdefghijklmnop", 3), "abc");
    assert_eq!(truncate_middle("λλλλλλ", 4), "λ…λλ");
    assert_eq!(truncate_middle("abcdef", 0), "");
}

#[test]
fn styling_wraps_text_in_escape_sequences_only_with_color() {
    assert_eq!(header("THREAD", false), "THREAD");
    assert_eq!(header("THREAD", true), "\x1b[1mTHREAD\x1b[0m");
    assert_eq!(label("path", false), "path:");
    assert_eq!(label("path", true), "\x1b[2mpath\x1b[0m:");
    assert_eq!(emphasize("WARNING", false), "WARNING");
    assert_eq!(emphasize("WARNING", true), "\x1b[33mWARNING\x1b[39m");
}

#[test]
fn listing_rows_are_aligned() {
    assert_eq!(
        list_header_line(false),
        format!(
            "{:<36}  {:<20}  {:<24}  {:>10}  {}",
            "THREAD", "UPDATED", "CWD", "SIZE", "PATH"
        )
    );
    assert_eq!(
        list_row(
            &Some("00000000-0000-0000-0000-0000000000aa".to_string()),
            &None,
            &Some("2024-01-02T03:04:05Z".to_string()),
            &Some("/very/long/path/to/some/project/dir".to_string()),
            &Some("1.5KiB".to_string()),
            "/h/sessions/rollout.jsonl",
        ),
        format!(
            "{:<36}  {:<20}  {:<24}  {:>10}  {}",
            "00000000-0000-0000-0000-0000000000aa",
            "2024-01-02T03:04:05Z",
            "/very/long/…/project/dir",
            "1.5KiB",
            "/h/sessions/rollout.jsonl"
        )
    );
    assert_eq!(
        list_row(&None, &None, &None, &None, &None, "p"),
        format!("{:<36}  {:<20}  {:<24}  {:>10}  {}", "-", "-", "-", "-", "p")
    );
    assert_eq!(no_sessions_line("/h"), "No sessions found under /h.");
}

#[test]
fn tools_table_rows() {
    let records = records(&[TURN_1, CALL_1, OUT_1, CALL_2, OUT_2]);
    assert_eq!(
        tools_header_line(false),
        format!(
            "{:<36}  {:<10}  {:<8}  {:<12}  {}",
            "CALL_ID", "KIND", "STATUS", "TURN", "NAME"
        )
    );
    assert_eq!(
        tools_row(&records.calls[0]),
        format!(
            "{:<36}  {:<10}  {:<8}  {:<12}  {}",
            "call-1", "function", "truncated", "turn-1", "functions/shell"
        )
    );
    assert_eq!(format_tool_name(&records.calls[1]), "apply_patch");
    assert_eq!(no_tool_calls_line("p"), "No tool calls in p.");
    assert_eq!(orphan_outputs_note(0), None);
    assert_eq!(
        orphan_outputs_note(2),
        Some("note: 2 orphan tool output(s) without a matching call.".to_string())
    );
}

#[test]
fn show_prints_metadata_and_counts() {
    let summary = RecordSummary {
        calls: 2,
        truncated: 1,
        open: 0,
        orphans: 0,
        unknown: 3,
    };
    let meta = SessionMeta {
        thread_id: Some("t".to_string()),
        created_at: None,
        updated_at: Some("u".to_string()),
        cwd: Some("/tmp/demo".to_string()),
        git_branch: None,
        model_provider: Some("openai".to_string()),
        source: None,
        preview: Some("demo session".to_string()),
    };
    assert_eq!(
        show_lines("/p", &Some(meta), summary, false),
        vec![
            "path: /p",
            "thread: t",
            "updated: u",
            "cwd: /tmp/demo",
            "provider: openai",
            "preview: demo session",
            "tool_calls: 2",
            "truncated: 1",
            "open: 0",
            "orphan_outputs: 0",
            "unknown_records: 3",
        ]
    );
    assert_eq!(show_lines("/p", &None, summary, false).len(), 6);
}

#[test]
fn tool_details_show_markers_arguments_and_result() {
    let records = records(&[TURN_1, CALL_1, OUT_1, CALL_2, OUT_2]);
    let lines = tool_call_lines(&records.calls[0], false, false, "");
    assert_eq!(
        lines,
        vec![
            "call_id: call-1".to_string(),
            "turn_id: turn-1".to_string(),
            "tool: functions/shell".to_string(),
            "kind: function".to_string(),
            "completeness: truncated".to_string(),
            "WARNING: persisted result contains upstream truncation marker(s).".to_string(),
            "  - TokensTruncated @ byte 2 (…5 tokens truncated…)".to_string(),
            "arguments:".to_string(),
            "{\"cmd\":\"echo hi\"}".to_string(),
            "result:".to_string(),
            "hi…5 tokens truncated…".to_string(),
        ]
    );
    assert_eq!(
        format_arguments(&records.calls[0], true),
        "{\n  \"cmd\": \"echo hi\"\n}"
    );
    assert_eq!(format_arguments(&records.calls[1], true), "*** Begin Patch\n*** End Patch");
    let body = &records.calls[1].result.as_ref().unwrap().body;
    assert_eq!(format_result_body(body, true, ""), "{\n  \"ok\": true\n}");
    assert_eq!(format_result_body(body, false, ""), "{\"ok\":true}");
    assert_eq!(
        format_result_body(&ToolResultBody::ContentItems(Vec::new()), false, "[]"),
        "[]"
    );
    let open = self::records(&[CALL_2]);
    let lines = tool_call_lines(&open.calls[0], false, false, "");
    assert_eq!(lines.last().unwrap(), "(no persisted result)");
    assert_eq!(lines[3], "completeness: unknown");
}

#[test]
fn json_output_sources_follow_pretty() {
    let records = records(&[TURN_1, CALL_1, OUT_1, CALL_2, OUT_2]);
    let parsed: serde_json::Value = serde_json::from_str(r#"{"cmd":"echo hi"}"#).unwrap();
    assert_eq!(arguments_json_source(&records.calls[0], true), Some(&parsed));
    assert_eq!(arguments_json_source(&records.calls[0], false), None);
    assert_eq!(arguments_json_source(&records.calls[1], true), None);
    let body = &records.calls[1].result.as_ref().unwrap().body;
    assert_eq!(
        result_json_source(body, true),
        ResultJson::Document(serde_json::from_str(r#"{"ok":true}"#).unwrap())
    );
    assert_eq!(
        result_json_source(body, false),
        ResultJson::Text("{\"ok\":true}".to_string())
    );
    let text = &records.calls[0].result.as_ref().unwrap().body;
    assert_eq!(
        result_json_source(text, true),
        ResultJson::Text("hi…5 tokens truncated…".to_string())
    );
    assert_eq!(
        result_json_source(&ToolResultBody::ContentItems(Vec::new()), true),
        ResultJson::Items
    );
}
