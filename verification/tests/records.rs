use session_inspector::debug_session::inspector_error_message;
use session_inspector::JsonNumber;
use session_inspector::JsonValue;
use session_inspector::collect_tool_records;
use session_inspector::read_rollout_lines;
use session_inspector::records::decode_rollout_line;
use session_inspector::Completeness;
use session_inspector::SessionInspectorError;
use session_inspector::SessionToolRecords;
use session_inspector::ToolKind;
use session_inspector::ToolResultBody;
use session_inspector::TruncationMarkerKind;

fn to_json(value: &serde_json::Value) -> JsonValue {
    match value {
        serde_json::Value::Null => JsonValue::Null,
        serde_json::Value::Bool(b) => JsonValue::Bool(*b),
        serde_json::Value::Number(n) => JsonValue::Number(JsonNumber {
            as_u64: n.as_u64(),
            text: n.to_string(),
        }),
        serde_json::Value::String(s) => JsonValue::String(s.clone()),
        serde_json::Value::Array(items) => JsonValue::Array(items.iter().map(to_json).collect()),
        serde_json::Value::Object(map) => JsonValue::Object(
            map.iter()
                .map(|(key, value)| (key.clone(), to_json(value)))
                .collect(),
        ),
    }
}

fn decode(text: &str) -> Result<JsonValue, String> {
    serde_json::from_str::<serde_json::Value>(text)
        .map(|value| to_json(&value))
        .map_err(|err| err.to_string())
}

fn read(lines: &[String]) -> Result<SessionToolRecords, SessionInspectorError> {
    read_rollout_lines("rollout.jsonl".to_string(), lines.to_vec())
}

fn line(item: &str) -> String {
    let mut value: serde_json::Value = serde_json::from_str(item).unwrap();
    let object = value.as_object_mut().unwrap();
    object.insert(
        "timestamp".to_string(),
        serde_json::Value::String("2026-07-25T12:00:00Z".to_string()),
    );
    object.insert("ordinal".to_string(), serde_json::Value::from(7u64));
    serde_json::to_string(&value).unwrap()
}

fn response(payload: &str) -> String {
    line(&format!(r#"{{"type":"response_item","payload":{payload}}}"#))
}

fn quoted(text: &str) -> String {
    serde_json::to_string(text).unwrap()
}

fn turn_started(turn_id: &str) -> String {
    line(&format!(
        r#"{{"type":"event_msg","payload":{{"type":"turn_started","turn_id":{},"trace_id":null,"started_at":1,"model_context_window":1000,"collaboration_mode_kind":"default"}}}}"#,
        quoted(turn_id)
    ))
}

fn turn_complete(turn_id: &str) -> String {
    line(&format!(
        r#"{{"type":"event_msg","payload":{{"type":"turn_complete","turn_id":{},"last_agent_message":null}}}}"#,
        quoted(turn_id)
    ))
}

fn turn_aborted() -> String {
    line(r#"{"type":"event_msg","payload":{"type":"turn_aborted","turn_id":null,"reason":"interrupted"}}"#)
}

fn function_call(call_id: &str, arguments: &str) -> String {
    response(&format!(
        r#"{{"type":"function_call","name":"tool","arguments":{},"call_id":{}}}"#,
        quoted(arguments),
        quoted(call_id)
    ))
}

fn function_output(call_id: &str, output: &str) -> String {
    response(&format!(
        r#"{{"type":"function_call_output","call_id":{},"output":{}}}"#,
        quoted(call_id),
        quoted(output)
    ))
}

fn response_with_turn(payload: &str, turn_id: &str) -> String {
    let mut value: serde_json::Value = serde_json::from_str(payload).unwrap();
    let mut meta = serde_json::Map::new();
    meta.insert(
        "turn_id".to_string(),
        serde_json::Value::String(turn_id.to_string()),
    );
    value.as_object_mut().unwrap().insert(
        "internal_chat_message_metadata_passthrough".to_string(),
        serde_json::Value::Object(meta),
    );
    response(&serde_json::to_string(&value).unwrap())
}

#[test]
fn normalizes_calls_without_losing_raw_or_structured_payloads() {
    let records = read(&[
        turn_started("turn-1"),
        response(
            r#"{"type":"function_call","name":"exec","namespace":"functions","arguments":"{\"cmd\":\"printf 'λ'\"}","call_id":"call-1"}"#,
        ),
        response(r#"{"type":"function_call_output","call_id":"call-1","output":"first\nsecond"}"#),
        response(
            r#"{"type":"custom_tool_call","status":"completed","name":"apply_patch","input":"*** Begin Patch\nλ\n*** End Patch","call_id":"call-2"}"#,
        ),
        response(
            r#"{"type":"custom_tool_call_output","call_id":"call-2","output":[{"type":"input_text","text":"Done!"}]}"#,
        ),
    ])
    .unwrap();

    assert_eq!(records.calls.len(), 2);
    assert_eq!(records.orphan_outputs, Vec::new());
    assert_eq!(records.unknown_records, Vec::new());
    assert_eq!(records.calls[0].turn_id.as_deref(), Some("turn-1"));
    assert_eq!(records.calls[0].tool.kind, ToolKind::Function);
    assert_eq!(
        records.calls[0].arguments.parsed_json,
        Some(serde_json::from_str::<serde_json::Value>(r#"{"cmd": "printf 'λ'"}"#).unwrap())
    );
    assert_eq!(
        records.calls[0].result.as_ref().map(|result| &result.body),
        Some(&ToolResultBody::Text("first\nsecond".to_string()))
    );
    assert_eq!(
        records.calls[0].result.as_ref().map(|result| &result.raw),
        Some(&JsonValue::String("first\nsecond".to_string()))
    );
    assert_eq!(records.calls[0].call_source.line, 2);
    assert_eq!(
        records.calls[0]
            .result_source
            .as_ref()
            .map(|source| source.line),
        Some(3)
    );
    assert_eq!(records.calls[0].completeness, Completeness::Complete);
    assert_eq!(records.calls[1].tool.kind, ToolKind::Custom);
    assert_eq!(records.calls[1].completeness, Completeness::Complete);
    assert_eq!(records.calls[1].arguments.parsed_json, None);
    let ToolResultBody::ContentItems(items) = &records.calls[1].result.as_ref().unwrap().body
    else {
        panic!("expected structured content items");
    };
    assert_eq!(items.len(), 1);
}

#[test]
fn scopes_repeated_call_ids_to_their_turn() {
    let records = read(&[
        turn_started("turn-1"),
        function_call("same", "first"),
        function_output("same", "one"),
        turn_complete("turn-1"),
        turn_started("turn-2"),
        function_call("same", "second"),
        function_output("same", "two"),
    ])
    .unwrap();

    assert_eq!(
        records
            .calls
            .iter()
            .map(|call| {
                (
                    &call.turn_id,
                    call.result.as_ref().map(|result| &result.body),
                )
            })
            .collect::<Vec<_>>(),
        vec![
            (
                &Some("turn-1".to_string()),
                Some(&ToolResultBody::Text("one".to_string()))
            ),
            (
                &Some("turn-2".to_string()),
                Some(&ToolResultBody::Text("two".to_string()))
            ),
        ]
    );
}

#[test]
fn uses_persisted_turn_ids_without_turn_lifecycle_events() {
    let records = read(&[
        response_with_turn(
            r#"{"type":"function_call","name":"tool","arguments":"first","call_id":"same"}"#,
            "turn-1",
        ),
        response_with_turn(
            r#"{"type":"function_call_output","call_id":"same","output":"one"}"#,
            "turn-1",
        ),
        response_with_turn(
            r#"{"type":"function_call","name":"tool","arguments":"second","call_id":"same"}"#,
            "turn-2",
        ),
        response_with_turn(
            r#"{"type":"function_call_output","call_id":"same","output":"two"}"#,
            "turn-2",
        ),
    ])
    .unwrap();

    assert_eq!(
        records
            .calls
            .iter()
            .map(|call| (
                call.turn_id.as_deref(),
                call.result.as_ref().map(|result| &result.body),
            ))
            .collect::<Vec<_>>(),
        vec![
            (
                Some("turn-1"),
                Some(&ToolResultBody::Text("one".to_string()))
            ),
            (
                Some("turn-2"),
                Some(&ToolResultBody::Text("two".to_string()))
            ),
        ]
    );
}

#[test]
fn clears_lifecycle_turn_after_an_abort_without_a_turn_id() {
    let records = read(&[
        turn_started("turn-1"),
        turn_aborted(),
        function_call("call-1", "after abort"),
        function_output("call-1", "ok"),
    ])
    .unwrap();

    assert_eq!(records.calls[0].turn_id, None);
    assert_eq!(
        records.calls[0].result.as_ref().map(|result| &result.body),
        Some(&ToolResultBody::Text("ok".to_string()))
    );
}

#[test]
fn retains_unmatched_outputs() {
    let records = read(&[turn_started("turn-1"), function_output("missing", "orphan")]).unwrap();

    assert_eq!(records.calls, Vec::new());
    assert_eq!(records.orphan_outputs.len(), 1);
    assert_eq!(records.orphan_outputs[0].call_id, "missing");
    assert_eq!(records.orphan_outputs[0].source.line, 2);
    assert_eq!(
        records.orphan_outputs[0].completeness,
        Completeness::Complete
    );
}

#[test]
fn marks_truncated_results_and_leaves_open_calls_unknown() {
    let truncated =
        "Warning: truncated output (original token count: 99)\n\nhead…5 tokens truncated…tail";
    let records = read(&[
        turn_started("turn-1"),
        function_call("call-1", "args"),
        function_output("call-1", truncated),
        function_call("call-2", "still running"),
    ])
    .unwrap();

    assert!(records.calls[0].completeness.is_truncated());
    let Completeness::Truncated { markers } = &records.calls[0].completeness else {
        panic!("expected truncated completeness");
    };
    assert_eq!(
        markers.iter().map(|marker| marker.kind).collect::<Vec<_>>(),
        vec![
            TruncationMarkerKind::WarningTruncatedOutput,
            TruncationMarkerKind::TokensTruncated,
        ]
    );
    assert_eq!(records.calls[1].result, None);
    assert_eq!(records.calls[1].completeness, Completeness::Unknown);
}

#[test]
fn preserves_unknown_records_as_raw_json() {
    let unknown_outer = line(r#"{"type":"future_record","payload":{"text":"λ"}}"#);
    let unknown_nested = line(
        r#"{"type":"event_msg","payload":{"type":"future_event","text":"still inspect later records"}}"#,
    );
    let records = read(&[
        unknown_outer.clone(),
        unknown_nested.clone(),
        turn_started("turn-1"),
        function_call("call-1", "after unknown"),
        function_output("call-1", "ok"),
    ])
    .unwrap();

    assert_eq!(
        records
            .unknown_records
            .iter()
            .map(|record| &record.raw)
            .collect::<Vec<_>>(),
        vec![
            &decode(&unknown_outer).unwrap(),
            &decode(&unknown_nested).unwrap()
        ]
    );
    assert_eq!(records.unknown_records[0].source.line, 1);
    assert_eq!(records.unknown_records[1].source.line, 2);
    assert_eq!(records.calls.len(), 1);
    assert_eq!(
        records.calls[0].result.as_ref().map(|result| &result.body),
        Some(&ToolResultBody::Text("ok".to_string()))
    );
}

#[test]
fn reports_the_line_containing_malformed_json() {
    let error = read(&[turn_started("turn-1"), "{not json}".to_string()]).unwrap_err();

    assert!(matches!(
        error,
        SessionInspectorError::InvalidJson { line: 2, .. }
    ));
    assert!(inspector_error_message(&error).contains("at line 2"));
}

#[test]
fn every_call_line_is_kept_even_without_outputs() {
    let records = read(&[
        function_call("a", "1"),
        function_call("b", "2"),
        function_call("a", "3"),
    ])
    .unwrap();
    assert_eq!(records.calls.len(), 3);
    assert!(records.calls.iter().all(|call| call.result.is_none()));
    assert!(records
        .calls
        .iter()
        .all(|call| call.completeness == Completeness::Unknown));
    assert_eq!(records.calls[2].call_source.ordinal, Some(7));
    assert_eq!(records.calls[2].call_source.timestamp, "2026-07-25T12:00:00Z");
}

#[test]
fn calls_keep_line_order_and_decoded_arguments() {
    let records = read(&[
        function_call("a", "{\"x\": [1, 2]}"),
        turn_started("turn-1"),
        function_call("b", "not json"),
        function_output("a", "late"),
        function_call("c", "7"),
    ])
    .unwrap();
    let lines: Vec<u64> = records.calls.iter().map(|c| c.call_source.line).collect();
    assert_eq!(lines, vec![1, 3, 5]);
    assert_eq!(
        records.calls[0].arguments.parsed_json,
        Some(serde_json::from_str::<serde_json::Value>("{\"x\":[1,2]}").unwrap())
    );
    assert_eq!(records.calls[1].arguments.parsed_json, None);
    assert_eq!(
        records.calls[2].arguments.parsed_json,
        Some(serde_json::Value::from(7u64))
    );
    assert_eq!(records.calls[2].arguments.raw, "7");
}

#[test]
fn raw_lines_decode_like_the_collector_reads_them() {
    let lines = vec![
        turn_started("turn-1"),
        function_call("call-1", "{\"a\":1}"),
        function_output("call-1", "done"),
    ];
    let decoded: Vec<Result<JsonValue, String>> = lines.iter().map(|l| decode(l)).collect();
    assert_eq!(
        read(&lines).unwrap(),
        collect_tool_records("rollout.jsonl".to_string(), decoded).unwrap()
    );
    assert_eq!(decode_rollout_line("[1, \"x\", null, true]"), decode("[1, \"x\", null, true]"));
    assert_eq!(decode_rollout_line("-2.5"), decode("-2.5"));
    let err = decode_rollout_line("{not json}").unwrap_err();
    assert!(err.contains("line 1"));
    let error = read(&[turn_started("turn-1"), "{not json}".to_string(), "also bad".to_string()])
        .unwrap_err();
    assert!(matches!(
        error,
        SessionInspectorError::InvalidJson { line: 2, ref message, .. } if message == &err
    ));
}
