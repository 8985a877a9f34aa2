use session_inspector::dynamic_tool::compact_rows;
use session_inspector::dynamic_tool::content_item_is_upstream_truncated;
use session_inspector::dynamic_tool::raw_compact_lines;
use session_inspector::dynamic_tool::TOOL_CALL_MAX_LINES;
use session_inspector::dynamic_tool::encoded_payload_len;
use session_inspector::dynamic_tool::format_dynamic_tool_invocation_text;
use session_inspector::dynamic_tool::push_content_item;
use session_inspector::dynamic_tool::render;
use session_inspector::dynamic_tool::render_transcript;
use session_inspector::dynamic_tool::saved_output_is_truncated;
use session_inspector::dynamic_tool::DynamicToolCallCell;
use session_inspector::dynamic_tool::DynamicToolCallOutputContentItem;
use session_inspector::dynamic_tool::DynamicToolCallStatus;
use session_inspector::transcript_builder::TranscriptBuilder;
use session_inspector::wrap::RowStyle;
use session_inspector::wrap::TranscriptRow;

fn plain(lines: &[TranscriptRow]) -> Vec<String> {
    lines.iter().map(|line| line.text.clone()).collect()
}

fn json(text: &str) -> serde_json::Value {
    serde_json::from_str(text).unwrap()
}

fn text_item(text: &str) -> DynamicToolCallOutputContentItem {
    DynamicToolCallOutputContentItem::InputText {
        text: text.to_string(),
    }
}

fn cell() -> DynamicToolCallCell {
    DynamicToolCallCell::new(
        "call-1".to_string(),
        Some("functions".to_string()),
        "exec".to_string(),
        json(r#"{"cmd":"ls"}"#),
        false,
    )
}

#[test]
fn new_cell_is_in_progress() {
    let cell = cell();
    assert_eq!(cell.call_id(), "call-1");
    assert_eq!(cell.qualified_name(), "functions/exec");
    assert_eq!(cell.success(), None);
    assert_eq!(cell.duration_nanos(), None);
    assert!(cell.content_items().is_none());
    assert_eq!(cell.arguments(), &json(r#"{"cmd":"ls"}"#));
}

#[test]
fn qualified_name_without_namespace_is_the_tool() {
    let cell = DynamicToolCallCell::new(
        "c".to_string(),
        None,
        "apply_patch".to_string(),
        json("null"),
        true,
    );
    assert_eq!(cell.qualified_name(), "apply_patch");
}

#[test]
fn completing_an_in_progress_status_counts_as_completed() {
    let mut cell = cell();
    cell.complete(Some(5), DynamicToolCallStatus::InProgress, None, None);
    assert_eq!(cell.success(), Some(true));
    assert_eq!(cell.duration_nanos(), Some(5));

    let mut failed = self::cell();
    failed.complete(None, DynamicToolCallStatus::Failed, None, None);
    assert_eq!(failed.success(), Some(false));

    let mut overridden = self::cell();
    overridden.complete(None, DynamicToolCallStatus::Completed, None, Some(false));
    assert_eq!(overridden.success(), Some(false));
}

#[test]
fn mark_failed_records_interrupted_output_only_when_none_was_kept() {
    let mut cell = cell();
    cell.mark_failed(42);
    assert_eq!(cell.success(), Some(false));
    assert_eq!(cell.duration_nanos(), Some(42));
    assert_eq!(
        cell.content_items().unwrap(),
        &vec![text_item("interrupted")]
    );

    let mut kept = self::cell();
    kept.complete(
        None,
        DynamicToolCallStatus::Completed,
        Some(vec![text_item("partial")]),
        None,
    );
    kept.mark_failed(7);
    assert_eq!(kept.content_items().unwrap(), &vec![text_item("partial")]);
    assert_eq!(kept.success(), Some(false));
}

#[test]
fn invocation_text_uses_compact_json() {
    let args = json(r#"{"a": 1, "b": [true, null]}"#);
    assert_eq!(
        format_dynamic_tool_invocation_text(Some("ns"), "tool", &args),
        r#"ns/tool({"a":1,"b":[true,null]})"#
    );
    assert_eq!(
        format_dynamic_tool_invocation_text(None, "tool", &json("\"x\"")),
        r#"tool("x")"#
    );
}

#[test]
fn payload_length_counts_bytes_after_the_last_comma() {
    assert_eq!(encoded_payload_len("data:image/png;base64,abcd"), 4);
    assert_eq!(encoded_payload_len("a,b,cde"), 3);
    assert_eq!(encoded_payload_len("https://example.com/x.png"), 25);
    assert_eq!(encoded_payload_len("trailing,"), 0);
    assert_eq!(encoded_payload_len("λλ"), 4);
}

#[test]
fn upstream_truncation_is_read_from_text_items_only() {
    assert!(saved_output_is_truncated("a…3 tokens truncated…b"));
    assert!(!saved_output_is_truncated("complete"));
    assert!(content_item_is_upstream_truncated(&text_item("x…1 tokens truncated…")));
    assert!(!content_item_is_upstream_truncated(
        &DynamicToolCallOutputContentItem::InputImage {
            image_url: "…1 tokens truncated…".to_string(),
        }
    ));
}

#[test]
fn transcript_of_a_completed_call() {
    let mut cell = cell();
    cell.complete(
        Some(1_500_000_000),
        DynamicToolCallStatus::Completed,
        Some(vec![
            text_item("first\nsecond\n"),
            DynamicToolCallOutputContentItem::InputImage {
                image_url: "data:image/png;base64,abcd".to_string(),
            },
            DynamicToolCallOutputContentItem::InputAudio {
                audio_url: "xyz".to_string(),
            },
        ]),
        None,
    );
    let rows = render(&cell, 80);
    assert_eq!(
        plain(&rows),
        vec![
            "• Tool call",
            "  Tool: functions/exec",
            "  Call ID: call-1",
            "  Status: succeeded",
            "  Duration: 1.50s",
            "Arguments:",
            "  {",
            "    \"cmd\": \"ls\"",
            "  }",
            "Result:",
            "  first",
            "  second",
            "  <image content: 4 encoded bytes>",
            "  <audio content: 3 encoded bytes>",
        ]
    );
    assert_eq!(rows[0].style, RowStyle::Bold);
    assert_eq!(rows[5].style, RowStyle::Bold);
    assert_eq!(rows[1].style, RowStyle::Plain);
}

#[test]
fn transcript_result_placeholders() {
    let running = cell();
    let rows = plain(&render(&running, 80));
    assert_eq!(rows[3], "  Status: in progress");
    assert_eq!(rows.last().unwrap(), "  }");

    let mut done = cell();
    done.complete(None, DynamicToolCallStatus::Completed, None, None);
    let rows = plain(&render(&done, 80));
    assert_eq!(&rows[rows.len() - 2..], &["Result:", "  <none>"]);
    assert!(!rows.iter().any(|row| row.starts_with("  Duration")));

    let mut empty = cell();
    empty.complete(None, DynamicToolCallStatus::Failed, Some(Vec::new()), None);
    let rows = plain(&render(&empty, 80));
    assert_eq!(rows[3], "  Status: failed");
    assert_eq!(&rows[rows.len() - 2..], &["Result:", "  <empty>"]);
}

#[test]
fn transcript_warns_about_upstream_truncation() {
    let mut cell = cell();
    cell.complete(
        None,
        DynamicToolCallStatus::Completed,
        Some(vec![text_item("head…5 tokens truncated…tail")]),
        None,
    );
    let rows = render_transcript(&cell, 120, "{}", "");
    let texts = plain(&rows);
    let warning = texts
        .iter()
        .position(|row| row.starts_with("⚠ Saved output is already truncated upstream"))
        .expect("warning row");
    assert_eq!(rows[warning].style, RowStyle::BoldRed);
    assert_eq!(texts[warning + 1], "Result:");
    assert_eq!(texts[4], "Arguments:");
    assert_eq!(texts[5], "  {}");
}

#[test]
fn pushing_a_content_item_wraps_it_under_the_indent() {
    let mut builder = TranscriptBuilder::new(8);
    push_content_item(&mut builder, &text_item("abcdefghij\n\nk"));
    assert_eq!(
        plain(&builder.finish()),
        vec!["  abcdef", "  ghij", "", "  k"]
    );
}

#[test]
fn compact_view_keeps_the_invocation_inline_when_it_fits() {
    let mut cell = cell();
    cell.complete(
        None,
        DynamicToolCallStatus::Completed,
        Some(vec![
            text_item("first\nsecond"),
            DynamicToolCallOutputContentItem::InputImage {
                image_url: "data:,x".to_string(),
            },
        ]),
        None,
    );
    let rows = compact_rows(&cell, 80, "•");
    assert_eq!(
        plain(&rows),
        vec![
            "• Called functions/exec({\"cmd\":\"ls\"})",
            "  └ first",
            "    second",
            "    <image content>",
        ]
    );
    assert_eq!(rows[0].style, RowStyle::Plain);
    assert_eq!(rows[1].style, RowStyle::Dim);
    assert_eq!(
        raw_compact_lines(&cell),
        vec![
            "Called functions/exec({\"cmd\":\"ls\"})",
            "first",
            "second",
            "<image content>",
        ]
    );
}

#[test]
fn compact_view_wraps_a_long_invocation_below_the_header() {
    let mut cell = cell();
    cell.complete(
        None,
        DynamicToolCallStatus::Completed,
        Some(vec![text_item("ok")]),
        None,
    );
    assert_eq!(
        plain(&compact_rows(&cell, 20, "•")),
        vec![
            "• Called",
            "  └ functions/exec({",
            "        \"cmd\":\"ls\"})",
            "    ok",
        ]
    );
    let running = self::cell();
    assert_eq!(
        plain(&compact_rows(&running, 80, "◦")),
        vec!["◦ Calling functions/exec({\"cmd\":\"ls\"})"]
    );
    assert_eq!(
        raw_compact_lines(&running),
        vec!["Calling functions/exec({\"cmd\":\"ls\"})"]
    );
}

#[test]
fn compact_view_caps_the_preview() {
    let long = (0..20).map(|i| format!("line {i}")).collect::<Vec<_>>().join("\n");
    let mut cell = cell();
    cell.complete(
        None,
        DynamicToolCallStatus::Completed,
        Some(vec![text_item(&long), text_item("never shown")]),
        None,
    );
    let rows = plain(&compact_rows(&cell, 80, "•"));
    assert_eq!(rows.len(), 1 + TOOL_CALL_MAX_LINES);
    assert_eq!(rows[5], "    line 4");
    let raw = raw_compact_lines(&cell);
    assert_eq!(raw.len(), 1 + TOOL_CALL_MAX_LINES);
    assert_eq!(raw[5], "line 4");
}
