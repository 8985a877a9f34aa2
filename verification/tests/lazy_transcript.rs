use session_inspector::lazy_transcript::LazyTranscript;
use session_inspector::lazy_transcript::TRANSCRIPT_CONTENT_MAX_ROWS;
use session_inspector::lazy_transcript::TRANSCRIPT_MAX_ROWS;
use session_inspector::transcript_builder::TranscriptBuilder;
use session_inspector::wrap::RowStyle;
use session_inspector::wrap::TranscriptRow;

fn plain(lines: &[TranscriptRow]) -> Vec<String> {
    lines.iter().map(|line| line.text.clone()).collect()
}

#[test]
fn window_matches_materialized_slice() {
    let mut doc = LazyTranscript::new();
    doc.push_wrapped_line("Header", RowStyle::Plain, 40, "", "");
    doc.push_text_block("Result:", "alpha\nbeta\ngamma\ndelta\nepsilon", 40);

    let full = plain(&doc.materialize(/*width*/ 40));
    let window = plain(&doc.lines_window(/*width*/ 40, /*start_row*/ 2, /*max_rows*/ 3));
    assert_eq!(window, full[2..5]);
    assert_eq!(doc.row_count(/*width*/ 40), full.len());
}

#[test]
fn large_body_window_stays_bounded() {
    let body = (0..5_000)
        .map(|i| format!("line-{i}"))
        .collect::<Vec<_>>()
        .join("\n");
    let mut doc = LazyTranscript::new();
    doc.push_wrapped_line("• Tool call", RowStyle::Bold, 80, "", "");
    doc.push_text_block("Result:", &body, 80);

    let window = doc.lines_window(
        /*width*/ 80, /*start_row*/ 1_000, /*max_rows*/ 40,
    );
    assert_eq!(window.len(), 40);
    let rendered = plain(&window);
    assert!(rendered[0].contains("line-"));
    // Header is one row; result label one row; then body starts.
    // start_row 1000 should land well inside body.
    assert!(!rendered.iter().any(|line| line.contains("Tool call")));
}

#[test]
fn row_limit_marker_appears_for_huge_output() {
    let body = std::iter::repeat("x")
        .take(TRANSCRIPT_CONTENT_MAX_ROWS + 50)
        .collect::<Vec<_>>()
        .join("\n");
    let mut doc = LazyTranscript::new();
    doc.push_text_block("Result:", &body, 20);

    let count = doc.row_count(/*width*/ 20);
    assert!(count <= TRANSCRIPT_MAX_ROWS);
    assert!(
        count > TRANSCRIPT_CONTENT_MAX_ROWS,
        "expected marker rows beyond the content budget, got {count}"
    );

    let tail = plain(&doc.lines_window(
        /*width*/ 20,
        count.saturating_sub(8),
        /*max_rows*/ 8,
    ));
    let joined = tail.join(" ");
    assert!(
        joined.contains("Transcript row") && joined.contains("limit reached"),
        "missing row-limit marker in tail {tail:?}"
    );
}

#[test]
fn single_huge_source_line_window_stays_bounded() {
    let body = "A".repeat(200_000);
    let mut doc = LazyTranscript::new();
    doc.push_text_block("Result:", &body, 40);

    let mid = plain(&doc.lines_window(
        /*width*/ 40, /*start_row*/ 500, /*max_rows*/ 20,
    ));
    assert_eq!(mid.len(), 20);
    assert!(
        mid.iter().all(|line| {
            let trimmed = line.trim();
            !trimmed.is_empty() && trimmed.chars().all(|ch| ch == 'A')
        }),
        "scrolled window into a newline-free body must stay on wrapped body rows, got {mid:?}"
    );

    let head = plain(&doc.lines_window(/*width*/ 40, /*start_row*/ 0, /*max_rows*/ 5));
    assert!(
        head.iter().any(|line| line.contains("Result")),
        "head window should still include the label, got {head:?}"
    );
}

#[test]
fn wraps_between_words_and_breaks_long_words() {
    let mut doc = LazyTranscript::new();
    doc.push_wrapped_line(
        "⚠ Transcript row limit reached; more output is hidden.",
        RowStyle::BoldRed,
        20,
        "",
        "",
    );
    doc.push_wrapped_line("abcdefghij", RowStyle::Plain, 6, "  ", "  ");
    doc.push_wrapped_line("", RowStyle::Plain, 6, "  ", "  ");
    let rows = doc.materialize(20);
    assert_eq!(
        plain(&rows),
        vec![
            "⚠ Transcript row",
            "limit reached; more",
            "output is hidden.",
            "  abcd",
            "  efgh",
            "  ij",
            "",
        ]
    );
    assert_eq!(rows[0].style, RowStyle::BoldRed);
    assert_eq!(rows[3].style, RowStyle::Plain);
}

#[test]
fn narrow_widths_drop_indents_and_zero_width_counts_as_one() {
    let mut doc = LazyTranscript::new();
    doc.push_text_block("Hi", "abc", 2);
    assert_eq!(plain(&doc.materialize(2)), vec!["Hi", "ab", "c"]);
    assert_eq!(doc.row_count(0), doc.row_count(1));
    assert_eq!(plain(&doc.materialize(0)), plain(&doc.materialize(1)));
}

#[test]
fn text_block_strips_one_trailing_newline_and_skips_empty_bodies() {
    let mut doc = LazyTranscript::new();
    doc.push_text_block("A:", "one\n\ntwo\n", 40);
    doc.push_text_block("B:", "\n", 40);
    doc.push_text_block("C:", "", 40);
    assert_eq!(
        plain(&doc.materialize(40)),
        vec!["A:", "  one", "", "  two", "B:", "C:"]
    );
}

#[test]
fn window_past_the_end_is_empty_and_zero_rows_is_empty() {
    let mut doc = LazyTranscript::new();
    doc.push_text_block("Result:", "a\nb", 40);
    assert_eq!(doc.row_count(40), 3);
    assert!(doc.lines_window(40, 3, 10).is_empty());
    assert!(doc.lines_window(40, 0, 0).is_empty());
    assert_eq!(plain(&doc.lines_window(40, 1, usize::MAX)), vec!["  a", "  b"]);
}

#[test]
fn eager_builder_shows_what_the_lazy_document_shows() {
    let body = std::iter::repeat("y")
        .take(TRANSCRIPT_CONTENT_MAX_ROWS + 3)
        .collect::<Vec<_>>()
        .join("\n");
    let mut doc = LazyTranscript::new();
    doc.push_text_block("Result:", &body, 30);
    let lazy = doc.materialize(30);

    let mut builder = TranscriptBuilder::new(30);
    builder.push_block("Result:", &body);
    assert!(builder.is_truncated());
    assert_eq!(builder.remaining_content_rows(), 0);
    let eager = builder.finish();
    assert_eq!(eager, lazy);
    assert_eq!(eager.len(), TRANSCRIPT_CONTENT_MAX_ROWS + 3);
    assert_eq!(eager.last().unwrap().style, RowStyle::BoldRed);
}

#[test]
fn builder_keeps_rows_within_the_budget() {
    let mut builder = TranscriptBuilder::new(10);
    assert_eq!(builder.remaining_content_rows(), TRANSCRIPT_CONTENT_MAX_ROWS);
    builder.push_wrapped_line("hello world again", RowStyle::Bold, "", "");
    builder.push_indented_source_line("abcdefghijkl");
    builder.push_source_lines("x\ny\n");
    builder.push(TranscriptRow {
        text: "raw".to_string(),
        style: RowStyle::Dim,
    });
    assert!(!builder.is_truncated());
    assert_eq!(
        plain(&builder.finish()),
        vec!["hello", "world", "again", "  abcdefgh", "  ijkl", "  x", "  y", "raw"]
    );
}

#[test]
fn rows_never_exceed_the_width() {
    let text = "a long sentence with some rather extraordinarily-long-hyphenated words in it";
    for width in 1..=30usize {
        let mut doc = LazyTranscript::new();
        doc.push_wrapped_line(text, RowStyle::Plain, width, "  ", "  ");
        doc.push_text_block("Label", text, width);
        let rows = doc.materialize(width as u16);
        assert!(
            rows.iter().all(|row| row.text.chars().count() <= width),
            "width {width}: {:?}",
            plain(&rows)
        );
    }
}
