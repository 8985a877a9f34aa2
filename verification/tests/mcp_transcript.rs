use session_inspector::mcp_transcript::build;
use session_inspector::mcp_transcript::content_block_text;
use session_inspector::mcp_transcript::join_lines;
use session_inspector::mcp_transcript::render;
use session_inspector::mcp_transcript::render_content_block;
use session_inspector::mcp_transcript::McpCallToolResult;
use session_inspector::mcp_transcript::McpContent;
use session_inspector::mcp_transcript::McpInvocation;
use session_inspector::mcp_transcript::McpToolCallCell;
use session_inspector::wrap::RowStyle;
use session_inspector::wrap::TranscriptRow;

fn plain(lines: &[TranscriptRow]) -> Vec<String> {
    lines.iter().map(|line| line.text.clone()).collect()
}

fn json(text: &str) -> serde_json::Value {
    serde_json::from_str(text).unwrap()
}

fn cell(result: Option<Result<McpCallToolResult, String>>) -> McpToolCallCell {
    McpToolCallCell {
        call_id: "call-9".to_string(),
        invocation: McpInvocation {
            server: "docs".to_string(),
            tool: "search".to_string(),
            arguments: Some(json(r#"{"q":"x"}"#)),
        },
        duration_nanos: Some(2_000_000),
        result,
    }
}

#[test]
fn content_blocks_render_by_kind() {
    assert_eq!(
        render_content_block(&json(r#"{"type":"text","text":"hello"}"#)),
        "hello"
    );
    assert_eq!(
        render_content_block(&json(
            r#"{"type":"image","data":"aGVsbG8=","mimeType":"image/png"}"#
        )),
        "<image content: image/png, 8 encoded bytes>"
    );
    assert_eq!(
        render_content_block(&json(
            r#"{"type":"audio","data":"AAA","mimeType":"audio/wav"}"#
        )),
        "<audio content: audio/wav, 3 encoded bytes>"
    );
    assert_eq!(
        render_content_block(&json(
            r#"{"type":"resource","resource":{"uri":"file:///a","text":"body"}}"#
        )),
        "embedded resource: file:///a\nbody"
    );
    assert_eq!(
        render_content_block(&json(
            r#"{"type":"resource","resource":{"uri":"file:///b","blob":"AAAA"}}"#
        )),
        "<embedded binary resource: file:///b, unknown MIME type, 4 encoded bytes>"
    );
    assert_eq!(
        render_content_block(&json(
            r#"{"type":"resource_link","uri":"file:///c","name":"c"}"#
        )),
        "link: file:///c"
    );
    assert_eq!(
        render_content_block(&json(r#"{"foo":1}"#)),
        "{\n  \"foo\": 1\n}"
    );
}

#[test]
fn decoded_content_text() {
    assert_eq!(
        content_block_text(&McpContent::BlobResource(
            "u".to_string(),
            Some("application/pdf".to_string()),
            "λ".to_string()
        )),
        "<embedded binary resource: u, application/pdf, 2 encoded bytes>"
    );
    assert_eq!(content_block_text(&McpContent::Link("l".to_string())), "link: l");
}

#[test]
fn join_lines_separates_with_line_breaks() {
    assert_eq!(join_lines(&Vec::new()), "");
    assert_eq!(join_lines(&vec!["a".to_string()]), "a");
    assert_eq!(
        join_lines(&vec!["a".to_string(), "".to_string(), "b".to_string()]),
        "a\n\nb"
    );
}

#[test]
fn transcript_of_a_successful_call() {
    let cell = cell(Some(Ok(McpCallToolResult {
        content: vec![
            json(r#"{"type":"text","text":"one\ntwo"}"#),
            json(r#"{"type":"resource_link","uri":"file:///c","name":"c"}"#),
        ],
        structured_content: Some(json(r#"{"n":1}"#)),
        is_error: None,
    })));
    assert_eq!(cell.success(), Some(true));
    assert_eq!(
        plain(&render(&cell, 80)),
        vec![
            "• MCP tool call",
            "  Tool: docs.search",
            "  Call ID: call-9",
            "  Status: succeeded",
            "  Duration: 2.00ms",
            "Arguments:",
            "  {",
            "    \"q\": \"x\"",
            "  }",
            "Result:",
            "  one",
            "  two",
            "  link: file:///c",
            "Structured content:",
            "  {",
            "    \"n\": 1",
            "  }",
        ]
    );
}

#[test]
fn transcript_of_an_error_flags_upstream_truncation() {
    let cell = cell(Some(Err("boom…3 chars truncated…".to_string())));
    assert_eq!(cell.success(), Some(false));
    let rows = render(&cell, 120);
    let texts = plain(&rows);
    assert_eq!(texts[3], "  Status: failed");
    assert_eq!(
        &texts[texts.len() - 3..],
        &[
            "⚠ Saved output is already truncated upstream; missing content cannot be recovered.",
            "Result:",
            "  Error: boom…3 chars truncated…",
        ]
    );
    assert_eq!(rows[rows.len() - 3].style, RowStyle::BoldRed);
}

#[test]
fn result_flagged_as_error_fails_and_missing_result_is_in_progress() {
    let flagged = cell(Some(Ok(McpCallToolResult {
        content: Vec::new(),
        structured_content: None,
        is_error: Some(true),
    })));
    assert_eq!(flagged.success(), Some(false));
    let texts = plain(&render(&flagged, 80));
    assert_eq!(texts.last().unwrap(), "Result:");

    let mut running = cell(None);
    running.invocation.arguments = None;
    running.duration_nanos = None;
    assert_eq!(running.success(), None);
    assert_eq!(
        plain(&render(&running, 80)),
        vec![
            "• MCP tool call",
            "  Tool: docs.search",
            "  Call ID: call-9",
            "  Status: in progress",
            "Arguments:",
            "  <none>",
        ]
    );
}

#[test]
fn structured_content_truncation_is_detected() {
    let cell = cell(Some(Ok(McpCallToolResult {
        content: Vec::new(),
        structured_content: Some(json(r#"{"log":"a…1 tokens truncated…"}"#)),
        is_error: None,
    })));
    let texts = plain(&render(&cell, 120));
    assert!(texts
        .iter()
        .any(|row| row.starts_with("⚠ Saved output is already truncated upstream")));
}

#[test]
fn lazy_build_windows_match_the_full_render() {
    let body = (0..300).map(|i| format!("row {i}")).collect::<Vec<_>>().join("\n");
    let cell = cell(Some(Ok(McpCallToolResult {
        content: vec![serde_json::Value::Object({
            let mut map = serde_json::Map::new();
            map.insert("type".to_string(), serde_json::Value::String("text".to_string()));
            map.insert("text".to_string(), serde_json::Value::String(body));
            map
        })],
        structured_content: None,
        is_error: None,
    })));
    let doc = build(&cell, 60);
    let full = render(&cell, 60);
    assert_eq!(doc.row_count(60), full.len());
    assert_eq!(doc.lines_window(60, 100, 7), full[100..107].to_vec());
}
