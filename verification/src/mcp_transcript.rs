//! Full transcripts of persisted MCP tool calls, as lazy documents.

use vstd::prelude::*;
use vstd::string::StringSliceAdditionalSpecFns;
use vstd::utf8::encode_utf8;

use crate::completeness::spec_detect;
use crate::dynamic_tool::duration_debug_text;
use crate::dynamic_tool::duration_text;
use crate::dynamic_tool::saved_output_is_truncated;
use crate::dynamic_tool::status_text;
use crate::dynamic_tool::UPSTREAM_TRUNCATION_WARNING;
use crate::json::compact_json_text;
use crate::json::json_compact_text;
use crate::json::json_pretty_text;
use crate::json::pretty_json_text;
use crate::lazy_transcript::all_rows;
use crate::lazy_transcript::capped;
use crate::lazy_transcript::effective_width;
use crate::lazy_transcript::strip_trailing_newline;
use crate::lazy_transcript::LazyTranscript;
use crate::records::text_markers;
use crate::text::concat;
use crate::text::decimal;
use crate::text::push_decimal;
use crate::wrap::body_rows;
use crate::wrap::rows_view;
use crate::wrap::wrap_rows;
use crate::wrap::RowModel;
use crate::wrap::RowStyle;
use crate::wrap::TranscriptRow;

use rmcp::model::ContentBlock as Block;
use rmcp::model::ResourceContents as Res;

verus! {

broadcast use vstd::string::group_string_axioms;

/// One decoded MCP content block.
#[derive(Debug, Clone, PartialEq, Eq)]
pub enum McpContent {
    /// Text.
    Text(String),
    /// MIME type and base64 data of an image.
    Image(String, String),
    /// MIME type and base64 data of audio.
    Audio(String, String),
    /// URI and text of an embedded text resource.
    TextResource(String, String),
    /// URI, MIME type and base64 blob of an embedded binary resource.
    BlobResource(String, Option<String>, String),
    /// URI of a resource link.
    Link(String),
}

pub enum McpContentModel {
    Text(Seq<char>),
    Image(Seq<char>, Seq<char>),
    Audio(Seq<char>, Seq<char>),
    TextResource(Seq<char>, Seq<char>),
    BlobResource(Seq<char>, Option<Seq<char>>, Seq<char>),
    Link(Seq<char>),
}

impl View for McpContent {
    type V = McpContentModel;

    open spec fn view(&self) -> McpContentModel {
        match self {
            McpContent::Text(t) => McpContentModel::Text(t@),
            McpContent::Image(m, d) => McpContentModel::Image(m@, d@),
            McpContent::Audio(m, d) => McpContentModel::Audio(m@, d@),
            McpContent::TextResource(u, t) => McpContentModel::TextResource(u@, t@),
            McpContent::BlobResource(u, m, b) => McpContentModel::BlobResource(
                u@,
                match m {
                    Some(x) => Some(x@),
                    None => None,
                },
                b@,
            ),
            McpContent::Link(u) => McpContentModel::Link(u@),
        }
    }
}

/// The content block a JSON document decodes to as an MCP `ContentBlock`,
/// or `None` when it is not one.
pub uninterp spec fn decoded_mcp_content(block: serde_json::Value) -> Option<McpContentModel>;

/// Wraps `serde_json::from_value::<rmcp::model::ContentBlock>` and moves the
/// fields that rendering reads out of the decoded block; a document that is
/// not a content block, or a kind of block this library does not know, gives
/// `None`.
#[verifier::external_body]
fn decode_mcp_content(block: &serde_json::Value) -> (r: Option<McpContent>)
    ensures
        match r {
            Some(c) => decoded_mcp_content(*block) == Some(c@),
            None => decoded_mcp_content(*block) is None,
        },
{
    let Ok(decoded) = serde_json::from_value::<Block>(block.clone()) else { return None };
    Some(match decoded {
        Block::Text(t) => McpContent::Text(t.text),
        Block::Image(i) => McpContent::Image(i.mime_type, i.data),
        Block::Audio(a) => McpContent::Audio(a.mime_type, a.data),
        Block::Resource(r) => match r.resource {
            Res::TextResourceContents { uri, text, .. } => McpContent::TextResource(uri, text),
            Res::BlobResourceContents { uri, mime_type, blob, .. } => McpContent::BlobResource(uri, mime_type, blob),
            _ => return None,
        },
        Block::ResourceLink(l) => McpContent::Link(l.uri),
        _ => return None,
    })
}

/// Byte length of the UTF-8 encoding of `s`, as a decimal numeral.
pub open spec fn byte_count(s: Seq<char>) -> Seq<char> {
    decimal(encode_utf8(s).len())
}

/// The text shown for a decoded content block.
pub open spec fn content_text(c: McpContentModel) -> Seq<char> {
    match c {
        McpContentModel::Text(t) => t,
        McpContentModel::Image(m, d) => "<image content: "@ + m + ", "@ + byte_count(d) + " encoded bytes>"@,
        McpContentModel::Audio(m, d) => "<audio content: "@ + m + ", "@ + byte_count(d) + " encoded bytes>"@,
        McpContentModel::TextResource(u, t) => "embedded resource: "@ + u + "\n"@ + t,
        McpContentModel::BlobResource(u, m, b) => "<embedded binary resource: "@ + u + ", "@ + match m {
            Some(x) => x,
            None => "unknown MIME type"@,
        } + ", "@ + byte_count(b) + " encoded bytes>"@,
        McpContentModel::Link(u) => "link: "@ + u,
    }
}

/// The text shown for a raw content block: its decoded text, or the block
/// pretty-printed when it does not decode.
pub open spec fn block_text(block: serde_json::Value) -> Seq<char> {
    match decoded_mcp_content(block) {
        Some(c) => content_text(c),
        None => json_pretty_text(block),
    }
}

fn push_byte_count(s: &mut String, data: &String)
    ensures
        final(s)@ == old(s)@ + byte_count(data@),
{
    let n = data.as_str().as_bytes().len();
    push_decimal(s, n as u64);
}

/// The text shown for a decoded content block.
pub fn content_block_text(c: &McpContent) -> (r: String)
    ensures
        r@ == content_text(c@),
{
    match c {
        McpContent::Text(t) => t.clone(),
        McpContent::Image(m, d) => {
            let mut s = concat("<image content: ", m.as_str());
            s.append(", ");
            push_byte_count(&mut s, d);
            s.append(" encoded bytes>");
            s
        },
        McpContent::Audio(m, d) => {
            let mut s = concat("<audio content: ", m.as_str());
            s.append(", ");
            push_byte_count(&mut s, d);
            s.append(" encoded bytes>");
            s
        },
        McpContent::TextResource(u, t) => {
            let mut s = concat("embedded resource: ", u.as_str());
            s.append("\n");
            s.append(t.as_str());
            s
        },
        McpContent::BlobResource(u, m, b) => {
            let mut s = concat("<embedded binary resource: ", u.as_str());
            s.append(", ");
            match m {
                Some(x) => s.append(x.as_str()),
                None => s.append("unknown MIME type"),
            }
            s.append(", ");
            push_byte_count(&mut s, b);
            s.append(" encoded bytes>");
            s
        },
        McpContent::Link(u) => concat("link: ", u.as_str()),
    }
}

/// The text shown for a raw content block.
pub fn render_content_block(block: &serde_json::Value) -> (r: String)
    ensures
        r@ == block_text(*block),
{
    match decode_mcp_content(block) {
        Some(c) => content_block_text(&c),
        None => pretty_json_text(block),
    }
}

// ---------------------------------------------------------------------------
// The call and its transcript
// ---------------------------------------------------------------------------

/// The server, tool and arguments of an MCP call.
pub struct McpInvocation {
    pub server: String,
    pub tool: String,
    pub arguments: Option<serde_json::Value>,
}

/// A persisted MCP tool result.
pub struct McpCallToolResult {
    pub content: Vec<serde_json::Value>,
    pub structured_content: Option<serde_json::Value>,
    pub is_error: Option<bool>,
}

/// A persisted MCP tool call: its invocation, how long it ran and its
/// result, or the error it ended with.
pub struct McpToolCallCell {
    pub call_id: String,
    pub invocation: McpInvocation,
    pub duration_nanos: Option<u64>,
    pub result: Option<Result<McpCallToolResult, String>>,
}

/// Whether the call succeeded: unknown without a result, `false` for an
/// error or a result flagged as an error.
pub open spec fn mcp_success(c: McpToolCallCell) -> Option<bool> {
    match c.result {
        Some(Ok(r)) => Some(r.is_error != Some(true)),
        Some(Err(_)) => Some(false),
        None => None,
    }
}

impl McpToolCallCell {
    /// Whether the call succeeded; `None` while no result is known.
    pub fn success(&self) -> (r: Option<bool>)
        ensures
            r == mcp_success(*self),
    {
        match &self.result {
            Some(Ok(r)) => Some(
                match r.is_error {
                    Some(b) => !b,
                    None => true,
                },
            ),
            Some(Err(_)) => Some(false),
            None => None,
        }
    }
}

/// Rows of a labelled lazy block: the bold label wrapped at `bw`, then the
/// body (without one trailing line break, when it is not empty) wrapped at
/// `w` under a two-column indent.
pub open spec fn text_block_rows(label: Seq<char>, content: Seq<char>, bw: int, w: int) -> Seq<RowModel> {
    wrap_rows(label, RowStyle::Bold, bw, Seq::empty(), Seq::empty()) + if strip_trailing_newline(
        content,
    ).len() == 0 {
        Seq::<RowModel>::empty()
    } else {
        body_rows(strip_trailing_newline(content), "  "@, w)
    }
}

/// Rows of one metadata line under the two-column indent.
pub open spec fn meta_rows(text: Seq<char>, bw: int) -> Seq<RowModel> {
    wrap_rows(text, RowStyle::Plain, bw, "  "@, "  "@)
}

/// `parts` joined by line breaks.
pub open spec fn joined(parts: Seq<Seq<char>>) -> Seq<char>
    decreases parts.len(),
{
    if parts.len() == 0 {
        Seq::empty()
    } else if parts.len() == 1 {
        parts[0]
    } else {
        joined(parts.drop_last()) + "\n"@ + parts.last()
    }
}

/// The shown text of every content block.
pub open spec fn block_texts(content: Seq<serde_json::Value>) -> Seq<Seq<char>> {
    content.map_values(|v: serde_json::Value| block_text(v))
}

pub open spec fn arguments_text(c: McpToolCallCell) -> Seq<char> {
    match c.invocation.arguments {
        Some(a) => json_pretty_text(a),
        None => "<none>"@,
    }
}

pub open spec fn warn_rows(bw: int) -> Seq<RowModel> {
    wrap_rows(UPSTREAM_TRUNCATION_WARNING@, RowStyle::BoldRed, bw, Seq::empty(), Seq::empty())
}

/// `true` when a result's content blocks or structured content carry an
/// upstream truncation marker.
pub open spec fn result_is_truncated(r: McpCallToolResult) -> bool {
    let texts = block_texts(r.content@);
    ||| exists|i: int| 0 <= i < texts.len() && text_markers(#[trigger] texts[i]).len() > 0
    ||| match r.structured_content {
        Some(sc) => text_markers(json_compact_text(sc)).len() > 0,
        None => false,
    }
}

/// Rows of the result section.
pub open spec fn mcp_result_rows(c: McpToolCallCell, bw: int, w: int) -> Seq<RowModel> {
    match c.result {
        Some(Ok(r)) => (if result_is_truncated(r) {
            warn_rows(bw)
        } else {
            Seq::<RowModel>::empty()
        }) + text_block_rows("Result:"@, joined(block_texts(r.content@)), bw, w) + match r.structured_content {
            Some(sc) => text_block_rows("Structured content:"@, json_pretty_text(sc), bw, w),
            None => Seq::<RowModel>::empty(),
        },
        Some(Err(e)) => (if text_markers(e@).len() > 0 {
            warn_rows(bw)
        } else {
            Seq::<RowModel>::empty()
        }) + text_block_rows("Result:"@, "Error: "@ + e@, bw, w),
        None => Seq::empty(),
    }
}

/// Rows above the result: title, tool, call id, status, duration and arguments.
pub open spec fn mcp_header_rows(c: McpToolCallCell, bw: int, w: int) -> Seq<RowModel> {
    wrap_rows("• MCP tool call"@, RowStyle::Bold, bw, Seq::empty(), Seq::empty())
        + meta_rows("Tool: "@ + c.invocation.server@ + "."@ + c.invocation.tool@, bw)
        + meta_rows("Call ID: "@ + c.call_id@, bw)
        + meta_rows("Status: "@ + status_text(mcp_success(c)), bw)
        + match c.duration_nanos {
            Some(n) => meta_rows("Duration: "@ + duration_debug_text(n), bw),
            None => Seq::<RowModel>::empty(),
        }
        + text_block_rows("Arguments:"@, arguments_text(c), bw, w)
}

/// Every content row of the transcript of `c`: metadata wrapped at `bw`,
/// bodies wrapped at `w`.
pub open spec fn mcp_rows(c: McpToolCallCell, bw: int, w: int) -> Seq<RowModel> {
    mcp_header_rows(c, bw, w) + mcp_result_rows(c, bw, w)
}

#[verifier::spinoff_prover]
#[verifier::rlimit(40)]
fn build_header(doc: &mut LazyTranscript, cell: &McpToolCallCell, width: usize)
    requires
        width >= 1,
    ensures
        forall|w: int|
            #[trigger] all_rows(final(doc).parts(), w) == all_rows(old(doc).parts(), w)
                + mcp_header_rows(*cell, width as int, w),
{
    let ghost bw = width as int;
    proof {
        reveal_strlit("");
        assert(""@ =~= Seq::<char>::empty());
    }
    let ghost p0 = doc.parts();
    doc.push_wrapped_line("• MCP tool call", RowStyle::Bold, width, "", "");
    let ghost p1 = doc.parts();
    let mut line = concat("Tool: ", cell.invocation.server.as_str());
    line.append(".");
    line.append(cell.invocation.tool.as_str());
    doc.push_wrapped_line(line.as_str(), RowStyle::Plain, width, "  ", "  ");
    let ghost p2 = doc.parts();
    let line = concat("Call ID: ", cell.call_id.as_str());
    doc.push_wrapped_line(line.as_str(), RowStyle::Plain, width, "  ", "  ");
    let ghost p3 = doc.parts();
    let status = match cell.success() {
        Some(true) => "succeeded",
        Some(false) => "failed",
        None => "in progress",
    };
    let line = concat("Status: ", status);
    doc.push_wrapped_line(line.as_str(), RowStyle::Plain, width, "  ", "  ");
    let ghost p4 = doc.parts();
    let ghost d = match cell.duration_nanos {
        Some(n) => meta_rows("Duration: "@ + duration_debug_text(n), bw),
        None => Seq::<RowModel>::empty(),
    };
    if let Some(n) = cell.duration_nanos {
        let text = duration_text(n);
        let line = concat("Duration: ", text.as_str());
        doc.push_wrapped_line(line.as_str(), RowStyle::Plain, width, "  ", "  ");
    }
    let ghost p5 = doc.parts();
    let arguments = match &cell.invocation.arguments {
        Some(a) => pretty_json_text(a),
        None => "<none>".to_string(),
    };
    doc.push_text_block("Arguments:", arguments.as_str(), width);
    assert forall|w: int| #[trigger] all_rows(doc.parts(), w) == all_rows(p0, w)
        + mcp_header_rows(*cell, bw, w) by {
        assert(all_rows(p1, w) == all_rows(p0, w) + wrap_rows(
            "• MCP tool call"@,
            RowStyle::Bold,
            bw,
            ""@,
            ""@,
        ));
        assert(all_rows(p2, w) == all_rows(p1, w) + meta_rows(
            "Tool: "@ + cell.invocation.server@ + "."@ + cell.invocation.tool@,
            bw,
        ));
        assert(all_rows(p3, w) == all_rows(p2, w) + meta_rows("Call ID: "@ + cell.call_id@, bw));
        assert(all_rows(p4, w) == all_rows(p3, w) + meta_rows(
            "Status: "@ + status_text(mcp_success(*cell)),
            bw,
        ));
        if cell.duration_nanos is Some {
            assert(all_rows(p5, w) == all_rows(p4, w) + d);
        } else {
            assert(all_rows(p5, w) =~= all_rows(p4, w) + d);
        }
        assert(all_rows(doc.parts(), w) == all_rows(p5, w) + text_block_rows(
            "Arguments:"@,
            arguments_text(*cell),
            bw,
            w,
        ));
        assert(all_rows(doc.parts(), w) =~= all_rows(p0, w) + mcp_header_rows(*cell, bw, w));
    }
}

pub open spec fn strings_view(v: Seq<String>) -> Seq<Seq<char>> {
    v.map_values(|s: String| s@)
}

fn render_blocks(content: &Vec<serde_json::Value>) -> (r: Vec<String>)
    ensures
        strings_view(r@) == block_texts(content@),
{
    let mut out: Vec<String> = Vec::new();
    let mut i: usize = 0;
    while i < content.len()
        invariant
            i <= content@.len(),
            strings_view(out@) == block_texts(content@).take(i as int),
        decreases content@.len() - i,
    {
        let t = render_content_block(&content[i]);
        let ghost before = out@;
        out.push(t);
        assert(strings_view(out@) =~= strings_view(before).push(t@));
        assert(block_texts(content@).take(i + 1) =~= block_texts(content@).take(i as int).push(
            block_text(content@[i as int]),
        ));
        i = i + 1;
    }
    assert(block_texts(content@).take(i as int) =~= block_texts(content@));
    out
}

/// `parts` joined by line breaks.
pub fn join_lines(parts: &Vec<String>) -> (r: String)
    ensures
        r@ == joined(strings_view(parts@)),
{
    let ghost sv = strings_view(parts@);
    let mut out = String::new();
    let mut i: usize = 0;
    assert(sv.take(0) =~= Seq::<Seq<char>>::empty());
    while i < parts.len()
        invariant
            i <= parts@.len(),
            sv == strings_view(parts@),
            out@ == joined(sv.take(i as int)),
        decreases parts@.len() - i,
    {
        let ghost before = out@;
        if i > 0 {
            out.append("\n");
        }
        out.append(parts[i].as_str());
        proof {
            let t = sv.take(i + 1);
            assert(t.drop_last() =~= sv.take(i as int));
            assert(t.last() == parts@[i as int]@);
            if i == 0 {
                assert(t.len() == 1);
                assert(out@ =~= t[0]);
            } else {
                assert(out@ =~= before + "\n"@ + parts@[i as int]@);
            }
        }
        i = i + 1;
    }
    assert(sv.take(i as int) =~= sv);
    out
}

fn any_text_truncated(texts: &Vec<String>) -> (r: bool)
    ensures
        r == exists|i: int|
            0 <= i < texts@.len() && text_markers(#[trigger] strings_view(texts@)[i]).len() > 0,
{
    let ghost sv = strings_view(texts@);
    let mut i: usize = 0;
    while i < texts.len()
        invariant
            i <= texts@.len(),
            sv == strings_view(texts@),
            forall|j: int| 0 <= j < i ==> !(text_markers(#[trigger] sv[j]).len() > 0),
        decreases texts@.len() - i,
    {
        if saved_output_is_truncated(texts[i].as_str()) {
            assert(text_markers(sv[i as int]).len() > 0);
            return true;
        }
        i = i + 1;
    }
    false
}

#[verifier::spinoff_prover]
#[verifier::rlimit(40)]
fn build_result(doc: &mut LazyTranscript, cell: &McpToolCallCell, width: usize)
    requires
        width >= 1,
    ensures
        forall|w: int|
            #[trigger] all_rows(final(doc).parts(), w) == all_rows(old(doc).parts(), w)
                + mcp_result_rows(*cell, width as int, w),
{
    let ghost bw = width as int;
    let ghost p0 = doc.parts();
    proof {
        reveal_strlit("");
        assert(""@ =~= Seq::<char>::empty());
    }
    match &cell.result {
        Some(Ok(r)) => {
            let texts = render_blocks(&r.content);
            let mut truncated = any_text_truncated(&texts);
            if !truncated {
                if let Some(sc) = &r.structured_content {
                    let compact = compact_json_text(sc);
                    truncated = saved_output_is_truncated(compact.as_str());
                }
            }
            assert(truncated == result_is_truncated(*r));
            let ghost warn = if truncated {
                warn_rows(bw)
            } else {
                Seq::<RowModel>::empty()
            };
            if truncated {
                doc.push_wrapped_line(UPSTREAM_TRUNCATION_WARNING, RowStyle::BoldRed, width, "", "");
            }
            let ghost p1 = doc.parts();
            let body = join_lines(&texts);
            doc.push_text_block("Result:", body.as_str(), width);
            let ghost p2 = doc.parts();
            if let Some(sc) = &r.structured_content {
                let pretty = pretty_json_text(sc);
                doc.push_text_block("Structured content:", pretty.as_str(), width);
            }
            assert forall|w: int| #[trigger] all_rows(doc.parts(), w) == all_rows(p0, w)
                + mcp_result_rows(*cell, bw, w) by {
                if truncated {
                    assert(all_rows(p1, w) == all_rows(p0, w) + warn);
                } else {
                    assert(all_rows(p1, w) =~= all_rows(p0, w) + warn);
                }
                assert(all_rows(p2, w) == all_rows(p1, w) + text_block_rows(
                    "Result:"@,
                    joined(block_texts(r.content@)),
                    bw,
                    w,
                ));
                let sr = match r.structured_content {
                    Some(sc) => text_block_rows("Structured content:"@, json_pretty_text(sc), bw, w),
                    None => Seq::<RowModel>::empty(),
                };
                if r.structured_content is Some {
                    assert(all_rows(doc.parts(), w) == all_rows(p2, w) + sr);
                } else {
                    assert(all_rows(doc.parts(), w) =~= all_rows(p2, w) + sr);
                }
                assert(all_rows(doc.parts(), w) =~= all_rows(p0, w) + mcp_result_rows(*cell, bw, w));
            }
        },
        Some(Err(e)) => {
            let truncated = saved_output_is_truncated(e.as_str());
            if truncated {
                doc.push_wrapped_line(UPSTREAM_TRUNCATION_WARNING, RowStyle::BoldRed, width, "", "");
            }
            let ghost p1 = doc.parts();
            let body = concat("Error: ", e.as_str());
            doc.push_text_block("Result:", body.as_str(), width);
            assert forall|w: int| #[trigger] all_rows(doc.parts(), w) == all_rows(p0, w)
                + mcp_result_rows(*cell, bw, w) by {
                let warn = if truncated {
                    warn_rows(bw)
                } else {
                    Seq::<RowModel>::empty()
                };
                if truncated {
                    assert(all_rows(p1, w) == all_rows(p0, w) + warn);
                } else {
                    assert(all_rows(p1, w) =~= all_rows(p0, w) + warn);
                }
                assert(all_rows(doc.parts(), w) =~= all_rows(p0, w) + mcp_result_rows(*cell, bw, w));
            }
        },
        None => {
            assert forall|w: int| #[trigger] all_rows(doc.parts(), w) == all_rows(p0, w)
                + mcp_result_rows(*cell, bw, w) by {
                assert(all_rows(p0, w) + Seq::<RowModel>::empty() =~= all_rows(p0, w));
            }
        },
    }
}

/// The lazy transcript of `cell` built at `width` columns: metadata rows are
/// wrapped at that width, bodies at whatever width the document is shown.
pub fn build(cell: &McpToolCallCell, width: u16) -> (r: LazyTranscript)
    ensures
        forall|w: int|
            #[trigger] all_rows(r.parts(), w) == mcp_rows(*cell, effective_width(width), w),
{
    let width: usize = if width == 0 {
        1
    } else {
        width as usize
    };
    let mut doc = LazyTranscript::new();
    let ghost p0 = doc.parts();
    build_header(&mut doc, cell, width);
    let ghost p1 = doc.parts();
    build_result(&mut doc, cell, width);
    assert forall|w: int| #[trigger] all_rows(doc.parts(), w) == mcp_rows(
        *cell,
        width as int,
        w,
    ) by {
        assert(all_rows(p0, w) =~= Seq::<RowModel>::empty());
        assert(all_rows(p1, w) == all_rows(p0, w) + mcp_header_rows(*cell, width as int, w));
        assert(all_rows(doc.parts(), w) == all_rows(p1, w) + mcp_result_rows(*cell, width as int, w));
        assert(all_rows(doc.parts(), w) =~= mcp_rows(*cell, width as int, w));
    }
    doc
}

/// The full transcript of `cell` at `width` columns: its content rows,
/// capped at the content budget.
pub fn render(cell: &McpToolCallCell, width: u16) -> (r: Vec<TranscriptRow>)
    ensures
        rows_view(r@) == capped(
            mcp_rows(*cell, effective_width(width), effective_width(width)),
            effective_width(width),
        ),
{
    let doc = build(cell, width);
    doc.materialize(width)
}

/// `rows` holds `part` as a run of consecutive rows.
pub open spec fn holds_rows(rows: Seq<RowModel>, part: Seq<RowModel>) -> bool {
    exists|k: int| 0 <= k && k + part.len() <= rows.len() && #[trigger] rows.subrange(k, k + part.len()) == part
}

/// A transcript warns about upstream truncation whenever what it shows was
/// already cut upstream: when a content block's shown text, the structured
/// content or the error message carries a truncation marker, the rows of the
/// upstream-truncation warning appear in the transcript, right before the
/// `Result:` label.
pub proof fn lemma_truncated_results_warn(c: McpToolCallCell, bw: int, w: int)
    requires
        c.result is Some,
        match c.result->0 {
            Ok(r) => (exists|i: int|
                0 <= i < r.content@.len() && spec_detect(
                    encode_utf8(#[trigger] block_text(r.content@[i])),
                ).len() > 0) || (r.structured_content is Some && spec_detect(
                encode_utf8(json_compact_text(r.structured_content->0)),
            ).len() > 0),
            Err(e) => spec_detect(encode_utf8(e@)).len() > 0,
        },
    ensures
        holds_rows(
            mcp_rows(c, bw, w),
            wrap_rows(UPSTREAM_TRUNCATION_WARNING@, RowStyle::BoldRed, bw, Seq::empty(), Seq::empty())
                + wrap_rows("Result:"@, RowStyle::Bold, bw, Seq::empty(), Seq::empty()),
        ),
{
    let head = mcp_header_rows(c, bw, w);
    let warn = wrap_rows(UPSTREAM_TRUNCATION_WARNING@, RowStyle::BoldRed, bw, Seq::empty(), Seq::empty());
    let label = wrap_rows("Result:"@, RowStyle::Bold, bw, Seq::empty(), Seq::empty());
    let part = warn + label;
    let rest = mcp_result_rows(c, bw, w);
    match c.result->0 {
        Ok(r) => {
            let texts = block_texts(r.content@);
            if exists|i: int|
                0 <= i < r.content@.len() && spec_detect(
                    encode_utf8(#[trigger] block_text(r.content@[i])),
                ).len() > 0 {
                let i = choose|i: int|
                    0 <= i < r.content@.len() && spec_detect(
                        encode_utf8(#[trigger] block_text(r.content@[i])),
                    ).len() > 0;
                assert(texts[i] == block_text(r.content@[i]));
                assert(text_markers(texts[i]).len() > 0);
            }
            assert(result_is_truncated(r));
            let after = text_block_rows("Result:"@, joined(block_texts(r.content@)), bw, w);
            let tail = match r.structured_content {
                Some(sc) => text_block_rows("Structured content:"@, json_pretty_text(sc), bw, w),
                None => Seq::<RowModel>::empty(),
            };
            assert(rest == warn + after + tail);
            assert(mcp_rows(c, bw, w).subrange(head.len() as int, (head.len() + part.len()) as int) =~= part);
        },
        Err(e) => {
            assert(text_markers(e@).len() > 0);
            assert(rest == warn + text_block_rows("Result:"@, "Error: "@ + e@, bw, w));
            assert(mcp_rows(c, bw, w).subrange(head.len() as int, (head.len() + part.len()) as int) =~= part);
        },
    }
}

} // verus!
