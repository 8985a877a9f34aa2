//! Dynamic (function or custom) tool calls: the state of one call as it
//! runs, its one-line invocation text, and its full transcript.

use vstd::prelude::*;
use vstd::string::StringSliceAdditionalSpecFns;

use crate::completeness::text_contains_truncation_marker;
use crate::json::compact_json_text;
use crate::json::json_compact_text;
use crate::json::json_pretty_text;
use crate::json::pretty_json_text;
use crate::lazy_transcript::strip_trailing_newline;
use crate::records::text_markers;
use crate::text::concat;
use crate::text::decimal;
use crate::text::push_decimal;
use crate::transcript_builder::appended;
use crate::transcript_builder::block_rows;
use crate::transcript_builder::builder_wf;
use crate::transcript_builder::finished;
use crate::transcript_builder::fresh;
use crate::transcript_builder::lemma_appended_assoc;
use crate::transcript_builder::source_line_rows;
use crate::transcript_builder::BuilderModel;
use crate::transcript_builder::TranscriptBuilder;
use crate::wrap::body_rows;
use crate::wrap::chars_of;
use crate::wrap::find_line_end;
use crate::wrap::lemma_line_end;
use crate::wrap::line_end;
use crate::wrap::make_row;
use crate::wrap::segment_rows_from;
use crate::wrap::segment_rows_prefix;
use crate::wrap::str_char_len;
use crate::wrap::wrap_source_rows;
use crate::wrap::prefix;
use crate::wrap::rows_view;
use crate::wrap::wrap_rows;
use crate::wrap::RowModel;
use crate::wrap::RowStyle;
use crate::wrap::TranscriptRow;

verus! {

broadcast use vstd::string::group_string_axioms;

/// One item of a dynamic tool's output.
#[derive(Debug, Clone, PartialEq, Eq)]
pub enum DynamicToolCallOutputContentItem {
    InputText { text: String },
    InputImage { image_url: String },
    InputAudio { audio_url: String },
}

#[derive(Debug, Clone, Copy, PartialEq, Eq, Structural)]
pub enum DynamicToolCallStatus {
    InProgress,
    Completed,
    Failed,
}

pub enum ContentModel {
    Text(Seq<char>),
    Image(Seq<char>),
    Audio(Seq<char>),
}

impl View for DynamicToolCallOutputContentItem {
    type V = ContentModel;

    open spec fn view(&self) -> ContentModel {
        match self {
            DynamicToolCallOutputContentItem::InputText { text } => ContentModel::Text(text@),
            DynamicToolCallOutputContentItem::InputImage { image_url } => ContentModel::Image(
                image_url@,
            ),
            DynamicToolCallOutputContentItem::InputAudio { audio_url } => ContentModel::Audio(
                audio_url@,
            ),
        }
    }
}

pub open spec fn contents_view(v: Seq<DynamicToolCallOutputContentItem>) -> Seq<ContentModel> {
    v.map_values(|i: DynamicToolCallOutputContentItem| i@)
}

/// A dynamic tool call as it is shown in history.
pub struct DynamicToolCallCell {
    call_id: String,
    namespace: Option<String>,
    tool: String,
    arguments: serde_json::Value,
    duration_nanos: Option<u64>,
    status: DynamicToolCallStatus,
    content_items: Option<Vec<DynamicToolCallOutputContentItem>>,
    success: Option<bool>,
    animations_enabled: bool,
}

pub struct DynamicCellModel {
    pub call_id: Seq<char>,
    pub namespace: Option<Seq<char>>,
    pub tool: Seq<char>,
    pub arguments: serde_json::Value,
    pub duration_nanos: Option<u64>,
    pub status: DynamicToolCallStatus,
    pub content_items: Option<Seq<ContentModel>>,
    pub success: Option<bool>,
    pub animations_enabled: bool,
}

pub open spec fn opt_chars(o: Option<String>) -> Option<Seq<char>> {
    match o {
        Some(s) => Some(s@),
        None => None,
    }
}

impl View for DynamicToolCallCell {
    type V = DynamicCellModel;

    closed spec fn view(&self) -> DynamicCellModel {
        DynamicCellModel {
            call_id: self.call_id@,
            namespace: opt_chars(self.namespace),
            tool: self.tool@,
            arguments: self.arguments,
            duration_nanos: self.duration_nanos,
            status: self.status,
            content_items: match self.content_items {
                Some(v) => Some(contents_view(v@)),
                None => None,
            },
            success: self.success,
            animations_enabled: self.animations_enabled,
        }
    }
}

/// `namespace/tool`, or `tool` without a namespace.
pub open spec fn qualified(namespace: Option<Seq<char>>, tool: Seq<char>) -> Seq<char> {
    match namespace {
        Some(ns) => ns + "/"@ + tool,
        None => tool,
    }
}

/// Whether the call succeeded: unknown while it runs; once it ended, the
/// recorded outcome, or whether it completed when none was recorded.
pub open spec fn cell_success(c: DynamicCellModel) -> Option<bool> {
    match c.status {
        DynamicToolCallStatus::InProgress => None,
        _ => Some(
            match c.success {
                Some(b) => b,
                None => c.status == DynamicToolCallStatus::Completed,
            },
        ),
    }
}

/// The text of a duration of `nanos` nanoseconds in its debug form with two
/// decimals (such as `1.50s`).
pub uninterp spec fn duration_debug_text(nanos: u64) -> Seq<char>;

/// Wraps the debug formatting of `std::time::Duration::from_nanos(nanos)`
/// with a precision of two.
#[verifier::external_body]
pub(crate) fn duration_text(nanos: u64) -> (r: String)
    ensures
        r@ == duration_debug_text(nanos),
{
    format!("{:.2?}", std::time::Duration::from_nanos(nanos))
}

impl DynamicToolCallCell {
    /// A call that has just started.
    pub fn new(
        call_id: String,
        namespace: Option<String>,
        tool: String,
        arguments: serde_json::Value,
        animations_enabled: bool,
    ) -> (r: Self)
        ensures
            r@ == (DynamicCellModel {
                call_id: call_id@,
                namespace: opt_chars(namespace),
                tool: tool@,
                arguments,
                duration_nanos: None,
                status: DynamicToolCallStatus::InProgress,
                content_items: None,
                success: None,
                animations_enabled,
            }),
    {
        DynamicToolCallCell {
            call_id,
            namespace,
            tool,
            arguments,
            duration_nanos: None,
            status: DynamicToolCallStatus::InProgress,
            content_items: None,
            success: None,
            animations_enabled,
        }
    }

    pub fn call_id(&self) -> (r: &str)
        ensures
            r@ == self@.call_id,
    {
        self.call_id.as_str()
    }

    /// `namespace/tool`, or `tool` without a namespace.
    pub fn qualified_name(&self) -> (r: String)
        ensures
            r@ == qualified(self@.namespace, self@.tool),
    {
        match &self.namespace {
            Some(namespace) => {
                let s = concat(namespace.as_str(), "/");
                concat(s.as_str(), self.tool.as_str())
            },
            None => self.tool.clone(),
        }
    }

    pub fn arguments(&self) -> (r: &serde_json::Value)
        ensures
            *r == self@.arguments,
    {
        &self.arguments
    }

    /// How long the call ran, in nanoseconds, once it ended.
    pub fn duration_nanos(&self) -> (r: Option<u64>)
        ensures
            r == self@.duration_nanos,
    {
        self.duration_nanos
    }

    pub fn content_items(&self) -> (r: Option<&Vec<DynamicToolCallOutputContentItem>>)
        ensures
            match r {
                Some(v) => self@.content_items == Some(contents_view(v@)),
                None => self@.content_items is None,
            },
    {
        match &self.content_items {
            Some(v) => Some(v),
            None => None,
        }
    }

    /// Whether the call succeeded; `None` while it runs.
    pub fn success(&self) -> (r: Option<bool>)
        ensures
            r == cell_success(self@),
    {
        match self.status {
            DynamicToolCallStatus::InProgress => None,
            _ => Some(
                match self.success {
                    Some(b) => b,
                    None => self.status == DynamicToolCallStatus::Completed,
                },
            ),
        }
    }

    /// Records the end of the call. A status still `InProgress` counts as
    /// `Completed`; without a recorded outcome, success is whether it completed.
    pub fn complete(
        &mut self,
        duration_nanos: Option<u64>,
        status: DynamicToolCallStatus,
        content_items: Option<Vec<DynamicToolCallOutputContentItem>>,
        success: Option<bool>,
    )
        ensures
            final(self)@ == (DynamicCellModel {
                duration_nanos,
                status: if status == DynamicToolCallStatus::InProgress {
                    DynamicToolCallStatus::Completed
                } else {
                    status
                },
                content_items: match content_items {
                    Some(v) => Some(contents_view(v@)),
                    None => None,
                },
                success: Some(
                    match success {
                        Some(b) => b,
                        None => status != DynamicToolCallStatus::Failed,
                    },
                ),
                ..old(self)@
            }),
            cell_success(final(self)@) == Some(
                match success {
                    Some(b) => b,
                    None => status != DynamicToolCallStatus::Failed,
                },
            ),
    {
        self.duration_nanos = duration_nanos;
        self.status = match status {
            DynamicToolCallStatus::InProgress => DynamicToolCallStatus::Completed,
            other => other,
        };
        self.content_items = content_items;
        self.success = match success {
            Some(b) => Some(b),
            None => Some(self.status == DynamicToolCallStatus::Completed),
        };
    }

    /// Records that the call failed after `elapsed_nanos`; a call that had no
    /// output shows `interrupted`.
    pub fn mark_failed(&mut self, elapsed_nanos: u64)
        ensures
            final(self)@ == (DynamicCellModel {
                duration_nanos: Some(elapsed_nanos),
                status: DynamicToolCallStatus::Failed,
                success: Some(false),
                content_items: match old(self)@.content_items {
                    Some(v) => Some(v),
                    None => Some(seq![ContentModel::Text("interrupted"@)]),
                },
                ..old(self)@
            }),
            cell_success(final(self)@) == Some(false),
    {
        self.duration_nanos = Some(elapsed_nanos);
        self.status = DynamicToolCallStatus::Failed;
        self.success = Some(false);
        if self.content_items.is_none() {
            let item = DynamicToolCallOutputContentItem::InputText { text: "interrupted".to_string() };
            let v = vec![item];
            assert(contents_view(v@) =~= seq![ContentModel::Text("interrupted"@)]);
            self.content_items = Some(v);
        }
    }
}

/// `namespace/tool(arguments)`, or `tool(arguments)` without a namespace,
/// with the arguments as compact JSON.
pub open spec fn invocation_text(namespace: Option<Seq<char>>, tool: Seq<char>, args: Seq<char>) -> Seq<char> {
    qualified(namespace, tool) + "("@ + args + ")"@
}

/// The one-line invocation of a dynamic tool: `namespace/tool(arguments)`.
pub fn format_dynamic_tool_invocation_text(
    namespace: Option<&str>,
    tool: &str,
    arguments: &serde_json::Value,
) -> (r: String)
    ensures
        r@ == invocation_text(
            match namespace {
                Some(ns) => Some(ns@),
                None => None,
            },
            tool@,
            json_compact_text(*arguments),
        ),
{
    let args = compact_json_text(arguments);
    let head = match namespace {
        Some(ns) => {
            let s = concat(ns, "/");
            concat(s.as_str(), tool)
        },
        None => tool.to_string(),
    };
    let s = concat(head.as_str(), "(");
    let s = concat(s.as_str(), args.as_str());
    concat(s.as_str(), ")")
}

// ---------------------------------------------------------------------------
// Transcript
// ---------------------------------------------------------------------------

/// Bytes of the payload of a URL or data URL: those after its last comma,
/// or all of them when it has none.
pub open spec fn payload_len(b: Seq<u8>) -> nat
    decreases b.len(),
{
    if b.len() == 0 {
        0
    } else if b.last() == 44u8 {
        0
    } else {
        payload_len(b.drop_last()) + 1
    }
}

/// Length in bytes of the encoded payload of `url_or_data`.
pub fn encoded_payload_len(url_or_data: &str) -> (r: usize)
    ensures
        r == payload_len(url_or_data.spec_bytes()),
{
    let b = url_or_data.as_bytes();
    let n = b.len();
    let mut k: usize = n;
    assert(b@.take(n as int) =~= b@);
    while k > 0 && b[k - 1] != 44u8
        invariant
            k <= n == b@.len(),
            payload_len(b@) == payload_len(b@.take(k as int)) + (n - k),
        decreases k,
    {
        assert(b@.take(k as int).drop_last() =~= b@.take(k - 1));
        k = k - 1;
    }
    if k > 0 {
        assert(b@.take(k as int).last() == 44u8);
    }
    n - k
}

/// `true` when `text` carries an upstream truncation marker.
pub fn saved_output_is_truncated(text: &str) -> (r: bool)
    ensures
        r == (text_markers(text@).len() > 0),
{
    text_contains_truncation_marker(text)
}

pub open spec fn content_is_truncated(c: ContentModel) -> bool {
    match c {
        ContentModel::Text(t) => text_markers(t).len() > 0,
        _ => false,
    }
}

/// `true` for a text item that carries an upstream truncation marker; media
/// items never do.
pub fn content_item_is_upstream_truncated(item: &DynamicToolCallOutputContentItem) -> (r: bool)
    ensures
        r == content_is_truncated(item@),
{
    match item {
        DynamicToolCallOutputContentItem::InputText { text } => saved_output_is_truncated(
            text.as_str(),
        ),
        _ => false,
    }
}

/// The placeholder line of a media item.
pub open spec fn media_line(kind: Seq<char>, url: Seq<char>) -> Seq<char> {
    "<"@ + kind + " content: "@ + decimal(payload_len(vstd::utf8::encode_utf8(url))) + " encoded bytes>"@
}

/// Transcript rows of one output item at width `w`.
pub open spec fn content_rows(c: ContentModel, w: int) -> Seq<RowModel> {
    match c {
        ContentModel::Text(t) => body_rows(strip_trailing_newline(t), "  "@, w),
        ContentModel::Image(u) => source_line_rows(media_line("image"@, u), w),
        ContentModel::Audio(u) => source_line_rows(media_line("audio"@, u), w),
    }
}

/// Transcript rows of output items, in order.
pub open spec fn contents_rows(items: Seq<ContentModel>, w: int) -> Seq<RowModel>
    decreases items.len(),
{
    if items.len() == 0 {
        Seq::empty()
    } else {
        contents_rows(items.drop_last(), w) + content_rows(items.last(), w)
    }
}

pub const UPSTREAM_TRUNCATION_WARNING: &'static str =
    "⚠ Saved output is already truncated upstream; missing content cannot be recovered.";

pub open spec fn status_text(success: Option<bool>) -> Seq<char> {
    match success {
        Some(true) => "succeeded"@,
        Some(false) => "failed"@,
        None => "in progress"@,
    }
}

/// Rows of the result section.
pub open spec fn result_rows(c: DynamicCellModel, w: int) -> Seq<RowModel> {
    match c.content_items {
        Some(items) => (if exists|i: int| 0 <= i < items.len() && content_is_truncated(#[trigger] items[i]) {
            wrap_rows(UPSTREAM_TRUNCATION_WARNING@, RowStyle::BoldRed, w, Seq::empty(), Seq::empty())
        } else {
            Seq::<RowModel>::empty()
        }) + if items.len() == 0 {
            block_rows("Result:"@, "<empty>"@, w)
        } else {
            wrap_rows("Result:"@, RowStyle::Bold, w, Seq::empty(), Seq::empty()) + contents_rows(items, w)
        },
        None => if cell_success(c) is Some {
            block_rows("Result:"@, "<none>"@, w)
        } else {
            Seq::<RowModel>::empty()
        },
    }
}

/// The rows above the result: title, tool, call id, status, duration
/// (when the call has one) and arguments.
pub open spec fn header_rows(c: DynamicCellModel, w: int, args: Seq<char>, duration: Seq<char>) -> Seq<RowModel> {
    wrap_rows("• Tool call"@, RowStyle::Bold, w, Seq::empty(), Seq::empty())
        + source_line_rows("Tool: "@ + qualified(c.namespace, c.tool), w)
        + source_line_rows("Call ID: "@ + c.call_id, w)
        + source_line_rows("Status: "@ + status_text(cell_success(c)), w)
        + (if c.duration_nanos is Some {
            source_line_rows("Duration: "@ + duration, w)
        } else {
            Seq::<RowModel>::empty()
        })
        + block_rows("Arguments:"@, args, w)
}

/// Every row the transcript of a call asks for at width `w`, before the
/// row budget: title, tool, call id, status, duration, arguments, result.
pub open spec fn transcript_rows(c: DynamicCellModel, w: int, args: Seq<char>, duration: Seq<char>) -> Seq<RowModel> {
    header_rows(c, w, args, duration) + result_rows(c, w)
}

proof fn lemma_contents_rows_split(items: Seq<ContentModel>, i: int, w: int)
    requires
        0 <= i <= items.len(),
    ensures
        contents_rows(items, w) == contents_rows(items.take(i), w) + contents_rows(items.skip(i), w),
    decreases items.len(),
{
    if i == items.len() {
        assert(items.take(i) =~= items);
        assert(items.skip(i) =~= Seq::<ContentModel>::empty());
        assert(contents_rows(items, w) + Seq::<RowModel>::empty() =~= contents_rows(items, w));
    } else {
        let d = items.drop_last();
        lemma_contents_rows_split(d, i, w);
        assert(d.take(i) =~= items.take(i));
        assert(items.skip(i).drop_last() =~= d.skip(i));
        assert(items.skip(i).last() == items.last());
    }
}

proof fn lemma_content_rows_nonempty(c: ContentModel, w: int)
    ensures
        content_rows(c, w).len() >= 1,
{
    match c {
        ContentModel::Text(t) => {
            let s = strip_trailing_newline(t);
            crate::wrap::lemma_line_end(s, 0);
            crate::wrap::lemma_wrap_rows_len(
                s.subrange(0, crate::wrap::line_end(s, 0)),
                RowStyle::Plain,
                w,
                "  "@,
                "  "@,
            );
        },
        ContentModel::Image(u) => {
            crate::wrap::lemma_wrap_rows_len(media_line("image"@, u), RowStyle::Plain, w, "  "@, "  "@);
        },
        ContentModel::Audio(u) => {
            crate::wrap::lemma_wrap_rows_len(media_line("audio"@, u), RowStyle::Plain, w, "  "@, "  "@);
        },
    }
}

proof fn lemma_contents_rows_nonempty(items: Seq<ContentModel>, w: int)
    requires
        items.len() > 0,
    ensures
        contents_rows(items, w).len() >= 1,
{
    lemma_content_rows_nonempty(items.last(), w);
}

fn media_placeholder(kind: &str, url: &str) -> (r: String)
    ensures
        r@ == media_line(kind@, url@),
{
    let n = encoded_payload_len(url);
    let mut s = concat("<", kind);
    s.append(" content: ");
    push_decimal(&mut s, n as u64);
    s.append(" encoded bytes>");
    s
}

/// Appends the transcript rows of one output item.
pub fn push_content_item(builder: &mut TranscriptBuilder, item: &DynamicToolCallOutputContentItem)
    requires
        builder_wf(old(builder)@),
    ensures
        final(builder)@ == appended(old(builder)@, content_rows(item@, old(builder)@.width)),
        builder_wf(final(builder)@),
{
    match item {
        DynamicToolCallOutputContentItem::InputText { text } => {
            builder.push_source_lines(text.as_str());
        },
        DynamicToolCallOutputContentItem::InputImage { image_url } => {
            let line = media_placeholder("image", image_url.as_str());
            builder.push_indented_source_line(line.as_str());
        },
        DynamicToolCallOutputContentItem::InputAudio { audio_url } => {
            let line = media_placeholder("audio", audio_url.as_str());
            builder.push_indented_source_line(line.as_str());
        },
    }
}


fn status_str(success: Option<bool>) -> (r: &'static str)
    ensures
        r@ == status_text(success),
{
    match success {
        Some(true) => "succeeded",
        Some(false) => "failed",
        None => "in progress",
    }
}

/// `true` when some item carries an upstream truncation marker.
fn any_item_truncated(items: &Vec<DynamicToolCallOutputContentItem>) -> (r: bool)
    ensures
        r == exists|i: int|
            0 <= i < items@.len() && content_is_truncated(#[trigger] contents_view(items@)[i]),
{
    let ghost iv = contents_view(items@);
    let mut i: usize = 0;
    while i < items.len()
        invariant
            i <= items@.len(),
            iv == contents_view(items@),
            forall|j: int| 0 <= j < i ==> !content_is_truncated(#[trigger] iv[j]),
        decreases items@.len() - i,
    {
        if content_item_is_upstream_truncated(&items[i]) {
            assert(content_is_truncated(iv[i as int]));
            return true;
        }
        i = i + 1;
    }
    false
}

fn push_header_rows(
    b: &mut TranscriptBuilder,
    c: &DynamicToolCallCell,
    arguments_text: &str,
    duration_text: &str,
)
    requires
        builder_wf(old(b)@),
    ensures
        final(b)@ == appended(old(b)@, header_rows(c@, old(b)@.width, arguments_text@, duration_text@)),
        builder_wf(final(b)@),
{
    let ghost f = b@;
    let ghost w = b@.width;
    let ghost mut acc: Seq<RowModel> = Seq::empty();
    proof {
        reveal_strlit("");
        assert(""@ =~= Seq::<char>::empty());
        assert(f.rows + acc =~= f.rows);
        assert(prefix(f.rows, crate::lazy_transcript::TRANSCRIPT_CONTENT_MAX_ROWS as int) == f.rows);
        assert(b@ == appended(f, acc));
    }
    let ghost s1 = wrap_rows("• Tool call"@, RowStyle::Bold, w, Seq::empty(), Seq::empty());
    b.push_wrapped_line("• Tool call", RowStyle::Bold, "", "");
    proof {
        lemma_appended_assoc(f, acc, s1);
        acc = acc + s1;
    }
    let qn = c.qualified_name();
    let line = concat("Tool: ", qn.as_str());
    let ghost s2 = source_line_rows(line@, w);
    b.push_indented_source_line(line.as_str());
    proof {
        lemma_appended_assoc(f, acc, s2);
        acc = acc + s2;
    }
    let line = concat("Call ID: ", c.call_id.as_str());
    let ghost s3 = source_line_rows(line@, w);
    b.push_indented_source_line(line.as_str());
    proof {
        lemma_appended_assoc(f, acc, s3);
        acc = acc + s3;
    }
    let status = status_str(c.success());
    let line = concat("Status: ", status);
    let ghost s4 = source_line_rows(line@, w);
    b.push_indented_source_line(line.as_str());
    proof {
        lemma_appended_assoc(f, acc, s4);
        acc = acc + s4;
    }
    let ghost s5 = if c@.duration_nanos is Some {
        source_line_rows("Duration: "@ + duration_text@, w)
    } else {
        Seq::<RowModel>::empty()
    };
    if c.duration_nanos.is_some() {
        let line = concat("Duration: ", duration_text);
        b.push_indented_source_line(line.as_str());
    } else {
        assert(b@.rows + s5 =~= b@.rows);
    }
    proof {
        lemma_appended_assoc(f, acc, s5);
        acc = acc + s5;
    }
    let ghost s6 = block_rows("Arguments:"@, arguments_text@, w);
    b.push_block("Arguments:", arguments_text);
    proof {
        lemma_appended_assoc(f, acc, s6);
        acc = acc + s6;
        assert(acc =~= header_rows(c@, w, arguments_text@, duration_text@));
    }
}

/// Appends the rows of every item, stopping once the budget is full.
fn push_items(b: &mut TranscriptBuilder, items: &Vec<DynamicToolCallOutputContentItem>)
    requires
        builder_wf(old(b)@),
    ensures
        final(b)@ == appended(old(b)@, contents_rows(contents_view(items@), old(b)@.width)),
        builder_wf(final(b)@),
{
    let ghost f = b@;
    let ghost w = b@.width;
    let ghost iv = contents_view(items@);
    proof {
        assert(iv.take(0) =~= Seq::<ContentModel>::empty());
        assert(f.rows + contents_rows(iv.take(0), w) =~= f.rows);
        assert(prefix(f.rows, crate::lazy_transcript::TRANSCRIPT_CONTENT_MAX_ROWS as int) == f.rows);
    }
    let mut i: usize = 0;
    let mut stopped = false;
    while i < items.len() && !stopped
        invariant
            i <= items@.len(),
            iv == contents_view(items@),
            builder_wf(f),
            builder_wf(b@),
            b@.width == w,
            f.width == w,
            stopped ==> b@ == appended(f, contents_rows(iv, w)),
            !stopped ==> b@ == appended(f, contents_rows(iv.take(i as int), w)),
        decreases items@.len() - i + if stopped {
            0int
        } else {
            1int
        },
    {
        let ghost pre = b@;
        if b.remaining_content_rows() == 0 {
            b.mark_truncated();
            proof {
                let rest = contents_rows(iv.skip(i as int), w);
                lemma_contents_rows_split(iv, i as int, w);
                lemma_contents_rows_nonempty(iv.skip(i as int), w);
                assert(b@ == appended(pre, rest));
                lemma_appended_assoc(f, contents_rows(iv.take(i as int), w), rest);
            }
            stopped = true;
        } else {
            push_content_item(b, &items[i]);
            proof {
                let one = content_rows(iv[i as int], w);
                assert(iv.take(i + 1).drop_last() =~= iv.take(i as int));
                assert(iv.take(i + 1).last() == iv[i as int]);
                lemma_appended_assoc(f, contents_rows(iv.take(i as int), w), one);
            }
            i = i + 1;
        }
    }
    proof {
        if !stopped {
            assert(iv.take(i as int) =~= iv);
        }
    }
}

fn push_result_rows(b: &mut TranscriptBuilder, c: &DynamicToolCallCell)
    requires
        builder_wf(old(b)@),
    ensures
        final(b)@ == appended(old(b)@, result_rows(c@, old(b)@.width)),
        builder_wf(final(b)@),
{
    let ghost f = b@;
    let ghost w = b@.width;
    proof {
        reveal_strlit("");
        assert(""@ =~= Seq::<char>::empty());
    }
    match &c.content_items {
        Some(items) => {
            let ghost iv = contents_view(items@);
            let ghost warn = if exists|i: int| 0 <= i < iv.len() && content_is_truncated(#[trigger] iv[i]) {
                wrap_rows(UPSTREAM_TRUNCATION_WARNING@, RowStyle::BoldRed, w, Seq::empty(), Seq::empty())
            } else {
                Seq::<RowModel>::empty()
            };
            if any_item_truncated(items) {
                b.push_wrapped_line(UPSTREAM_TRUNCATION_WARNING, RowStyle::BoldRed, "", "");
            } else {
                assert(f.rows + warn =~= f.rows);
                assert(prefix(f.rows, crate::lazy_transcript::TRANSCRIPT_CONTENT_MAX_ROWS as int) == f.rows);
            }
            let ghost mid = b@;
            if items.len() == 0 {
                b.push_block("Result:", "<empty>");
                proof {
                    lemma_appended_assoc(f, warn, block_rows("Result:"@, "<empty>"@, w));
                }
            } else {
                let ghost s7 = wrap_rows("Result:"@, RowStyle::Bold, w, Seq::empty(), Seq::empty());
                b.push_wrapped_line("Result:", RowStyle::Bold, "", "");
                proof {
                    lemma_appended_assoc(f, warn, s7);
                }
                push_items(b, items);
                proof {
                    lemma_appended_assoc(f, warn + s7, contents_rows(iv, w));
                    assert(warn + s7 + contents_rows(iv, w) =~= warn + (s7 + contents_rows(iv, w)));
                }
            }
        },
        None => {
            if c.success().is_some() {
                b.push_block("Result:", "<none>");
            } else {
                assert(f.rows + Seq::<RowModel>::empty() =~= f.rows);
                assert(prefix(f.rows, crate::lazy_transcript::TRANSCRIPT_CONTENT_MAX_ROWS as int) == f.rows);
            }
        },
    }
}

/// The transcript of `cell` at `width` columns, given the pretty-printed
/// arguments and the text of the call's duration (read only when the call
/// has one): the rows of [`transcript_rows`], cut at the content budget and
/// followed by the row-limit notice when they overflow it.
pub fn render_transcript(
    cell: &DynamicToolCallCell,
    width: u16,
    arguments_text: &str,
    duration_text: &str,
) -> (r: Vec<TranscriptRow>)
    ensures
        rows_view(r@) == finished(
            appended(
                fresh(crate::lazy_transcript::effective_width(width)),
                transcript_rows(
                    cell@,
                    crate::lazy_transcript::effective_width(width),
                    arguments_text@,
                    duration_text@,
                ),
            ),
        ),
{
    let mut b = TranscriptBuilder::new(width);
    let ghost w = b@.width;
    push_header_rows(&mut b, cell, arguments_text, duration_text);
    push_result_rows(&mut b, cell);
    proof {
        lemma_appended_assoc(
            fresh(w),
            header_rows(cell@, w, arguments_text@, duration_text@),
            result_rows(cell@, w),
        );
    }
    b.finish()
}

/// The transcript of a call at `width` columns: [`transcript_rows`] with the
/// arguments pretty-printed as JSON and the duration in its debug form, cut
/// at the content budget and followed by the row-limit notice when they
/// overflow it.
pub open spec fn cell_transcript(c: DynamicCellModel, width: u16) -> Seq<RowModel> {
    finished(
        appended(
            fresh(crate::lazy_transcript::effective_width(width)),
            transcript_rows(
                c,
                crate::lazy_transcript::effective_width(width),
                json_pretty_text(c.arguments),
                match c.duration_nanos {
                    Some(n) => duration_debug_text(n),
                    None => Seq::empty(),
                },
            ),
        ),
    )
}

/// The full transcript of `cell` at `width` columns.
pub fn render(cell: &DynamicToolCallCell, width: u16) -> (r: Vec<TranscriptRow>)
    ensures
        rows_view(r@) == cell_transcript(cell@, width),
{
    let arguments = pretty_json_text(&cell.arguments);
    let duration = match cell.duration_nanos {
        Some(n) => duration_text(n),
        None => String::new(),
    };
    render_transcript(cell, width, arguments.as_str(), duration.as_str())
}

/// A dynamic tool call that has just started.
pub fn new_active_dynamic_tool_call(
    call_id: String,
    namespace: Option<String>,
    tool: String,
    arguments: serde_json::Value,
    animations_enabled: bool,
) -> (r: DynamicToolCallCell)
    ensures
        r@ == (DynamicCellModel {
            call_id: call_id@,
            namespace: opt_chars(namespace),
            tool: tool@,
            arguments,
            duration_nanos: None,
            status: DynamicToolCallStatus::InProgress,
            content_items: None,
            success: None,
            animations_enabled,
        }),
{
    DynamicToolCallCell::new(call_id, namespace, tool, arguments, animations_enabled)
}

impl DynamicToolCallCell {
    /// Every transcript row at `width` columns.
    pub fn transcript_lines(&self, width: u16) -> (r: Vec<TranscriptRow>)
        ensures
            rows_view(r@) == cell_transcript(self@, width),
    {
        render(self, width)
    }

    /// Number of transcript rows at `width` columns.
    pub fn transcript_row_count(&self, width: u16) -> (r: usize)
        ensures
            r == cell_transcript(self@, width).len(),
    {
        let rows = render(self, width);
        rows.len()
    }

    /// Transcript rows `start_row .. start_row + max_rows`, clamped to the
    /// rows that exist.
    pub fn transcript_lines_window(&self, width: u16, start_row: usize, max_rows: usize) -> (r:
        Vec<TranscriptRow>)
        ensures
            rows_view(r@) == cell_transcript(self@, width).subrange(
                crate::wrap::min(start_row as int, cell_transcript(self@, width).len() as int),
                crate::wrap::min(
                    start_row + max_rows,
                    cell_transcript(self@, width).len() as int,
                ),
            ),
    {
        let rows = render(self, width);
        let n = rows.len();
        let s = if start_row < n {
            start_row
        } else {
            n
        };
        let e = if max_rows < n - s {
            s + max_rows
        } else {
            n
        };
        let mut out: Vec<TranscriptRow> = Vec::new();
        let mut k = s;
        while k < e
            invariant
                s <= k <= e <= n == rows@.len(),
                rows_view(out@) == rows_view(rows@).subrange(s as int, k as int),
            decreases e - k,
        {
            let ghost before = rows_view(out@);
            out.push(rows[k].duplicate());
            assert(rows_view(out@) =~= before.push(rows@[k as int]@));
            assert(rows_view(rows@).subrange(s as int, k + 1) =~= rows_view(rows@).subrange(
                s as int,
                k as int,
            ).push(rows@[k as int]@));
            k = k + 1;
        }
        out
    }

    /// Height the transcript asks for: its row count, at most `u16::MAX`.
    pub fn desired_transcript_height(&self, width: u16) -> (r: u16)
        ensures
            r as int == crate::wrap::min(cell_transcript(self@, width).len() as int, 65535),
    {
        let count = self.transcript_row_count(width);
        if count > 65535 {
            65535
        } else {
            count as u16
        }
    }

    /// A dynamic call's transcript does not animate.
    pub fn transcript_animation_tick(&self) -> (r: Option<u64>)
        ensures
            r is None,
    {
        None
    }
}

// ---------------------------------------------------------------------------
// Compact history view
// ---------------------------------------------------------------------------

/// Detail rows shown under a call in the compact history view, at most.
pub const TOOL_CALL_MAX_LINES: usize = 5;

/// The preview of one output item: its text, or a placeholder for media.
pub open spec fn preview_text(c: ContentModel) -> Seq<char> {
    match c {
        ContentModel::Text(t) => t,
        ContentModel::Image(_) => "<image content>"@,
        ContentModel::Audio(_) => "<audio content>"@,
    }
}

fn preview_str(item: &DynamicToolCallOutputContentItem) -> (r: &str)
    ensures
        r@ == preview_text(item@),
{
    match item {
        DynamicToolCallOutputContentItem::InputText { text } => text.as_str(),
        DynamicToolCallOutputContentItem::InputImage { .. } => "<image content>",
        DynamicToolCallOutputContentItem::InputAudio { .. } => "<audio content>",
    }
}

/// Dimmed rows of every item's preview: each piece between line breaks
/// wrapped at `w`, later rows of a piece under a four-column indent.
pub open spec fn preview_rows(items: Seq<ContentModel>, w: int) -> Seq<RowModel>
    decreases items.len(),
{
    if items.len() == 0 {
        Seq::empty()
    } else {
        preview_rows(items.drop_last(), w) + segment_rows_from(
            preview_text(items.last()),
            0,
            RowStyle::Dim,
            Seq::empty(),
            "    "@,
            w,
        )
    }
}

/// `rows` with `first` put before the first row's text and `rest` before
/// every later row's text.
pub open spec fn prefixed(rows: Seq<RowModel>, first: Seq<char>, rest: Seq<char>) -> Seq<RowModel> {
    Seq::new(
        rows.len(),
        |i: int|
            RowModel {
                text: (if i == 0 {
                    first
                } else {
                    rest
                }) + rows[i].text,
                style: rows[i].style,
            },
    )
}

/// Width the details wrap at: four columns less than the row, at least one.
pub open spec fn detail_width(width: u16) -> int {
    if width >= 5 {
        width - 4
    } else {
        1
    }
}

/// `Called` once the call ended, `Calling` while it runs.
pub open spec fn call_header(c: DynamicCellModel) -> Seq<char> {
    if cell_success(c) is Some {
        "Called"@
    } else {
        "Calling"@
    }
}

/// `namespace/tool(arguments)` with the arguments as compact JSON.
pub open spec fn compact_invocation(c: DynamicCellModel) -> Seq<char> {
    invocation_text(c.namespace, c.tool, json_compact_text(c.arguments))
}

/// The invocation fits on the header row after `bullet`, the header word
/// and their spaces.
pub open spec fn shows_inline(c: DynamicCellModel, width: u16, bullet: Seq<char>) -> bool {
    let reserved = bullet.len() + 1 + call_header(c).len() + 1;
    compact_invocation(c).len() <= if width >= reserved {
        width - reserved
    } else {
        0
    }
}

/// The header rows: `bullet Called invocation` on one row when it fits,
/// else `bullet Called` and the invocation wrapped below it under `  └ `.
pub open spec fn compact_head(c: DynamicCellModel, width: u16, bullet: Seq<char>) -> Seq<RowModel> {
    let lead = bullet + " "@ + call_header(c);
    if shows_inline(c, width, bullet) {
        seq![RowModel { text: lead + " "@ + compact_invocation(c), style: RowStyle::Plain }]
    } else {
        seq![RowModel { text: lead, style: RowStyle::Plain }] + prefixed(
            wrap_rows(
                compact_invocation(c),
                RowStyle::Plain,
                detail_width(width),
                Seq::empty(),
                "    "@,
            ),
            "  └ "@,
            "    "@,
        )
    }
}

/// The compact history rows of a call: its header rows, then at most
/// [`TOOL_CALL_MAX_LINES`] rows of output preview, the first under `  └ `
/// when the invocation is inline and every other under four spaces.
pub open spec fn compact_rows_model(c: DynamicCellModel, width: u16, bullet: Seq<char>) -> Seq<RowModel> {
    compact_head(c, width, bullet) + prefixed(
        match c.content_items {
            Some(items) => prefix(preview_rows(items, detail_width(width)), TOOL_CALL_MAX_LINES as int),
            None => Seq::empty(),
        },
        if shows_inline(c, width, bullet) {
            "  └ "@
        } else {
            "    "@
        },
        "    "@,
    )
}

fn prefix_rows(rows: Vec<TranscriptRow>, first: &str, rest: &str) -> (r: Vec<TranscriptRow>)
    ensures
        rows_view(r@) == prefixed(rows_view(rows@), first@, rest@),
{
    let mut out: Vec<TranscriptRow> = Vec::new();
    let mut i: usize = 0;
    while i < rows.len()
        invariant
            i <= rows@.len(),
            rows_view(out@) == prefixed(rows_view(rows@), first@, rest@).take(i as int),
        decreases rows@.len() - i,
    {
        let lead = if i == 0 {
            first
        } else {
            rest
        };
        let text = concat(lead, rows[i].text.as_str());
        let ghost before = rows_view(out@);
        out.push(TranscriptRow { text, style: rows[i].style });
        assert(rows_view(out@) =~= before.push(out@[i as int]@));
        assert(prefixed(rows_view(rows@), first@, rest@).take(i + 1) =~= prefixed(
            rows_view(rows@),
            first@,
            rest@,
        ).take(i as int).push(out@[i as int]@));
        i = i + 1;
    }
    assert(prefixed(rows_view(rows@), first@, rest@).take(i as int) =~= prefixed(
        rows_view(rows@),
        first@,
        rest@,
    ));
    out
}

fn detail_rows(items: &Vec<DynamicToolCallOutputContentItem>, w: usize) -> (r: Vec<TranscriptRow>)
    requires
        w >= 1,
    ensures
        rows_view(r@) == prefix(
            preview_rows(contents_view(items@), w as int),
            TOOL_CALL_MAX_LINES as int,
        ),
{
    let ghost iv = contents_view(items@);
    let mut out: Vec<TranscriptRow> = Vec::new();
    let mut i: usize = 0;
    assert(iv.take(0) =~= Seq::<ContentModel>::empty());
    assert(rows_view(out@) =~= prefix(preview_rows(iv.take(0), w as int), 5));
    while i < items.len()
        invariant
            i <= items@.len(),
            w >= 1,
            iv == contents_view(items@),
            out@.len() <= TOOL_CALL_MAX_LINES,
            rows_view(out@) == prefix(preview_rows(iv.take(i as int), w as int), 5),
        decreases items@.len() - i,
    {
        let ghost a = preview_rows(iv.take(i as int), w as int);
        let ghost seg = segment_rows_from(
            preview_text(iv[i as int]),
            0,
            RowStyle::Dim,
            Seq::empty(),
            "    "@,
            w as int,
        );
        assert(iv.take(i + 1).drop_last() =~= iv.take(i as int));
        assert(iv.take(i + 1).last() == iv[i as int]);
        assert(preview_rows(iv.take(i + 1), w as int) == a + seg);
        let room = TOOL_CALL_MAX_LINES - out.len();
        let chars = chars_of(preview_str(&items[i]));
        proof {
            reveal_strlit("");
            assert(""@ =~= Seq::<char>::empty());
        }
        let mut rows = segment_rows_prefix(&chars, RowStyle::Dim, "", "    ", w, room);
        let ghost before = rows_view(out@);
        out.append(&mut rows);
        proof {
            assert(rows_view(out@) =~= before + prefix(seg, room as int));
            if a.len() >= 5 {
                assert(before =~= a.take(5));
                assert(prefix(seg, 0) =~= Seq::<RowModel>::empty());
                assert(prefix(a + seg, 5) =~= a.take(5));
            } else {
                assert(before == a);
                crate::wrap::lemma_prefix_concat(a, seg, 5);
            }
        }
        i = i + 1;
    }
    assert(iv.take(i as int) =~= iv);
    out
}

/// The compact history rows of `cell` at `width` columns; `bullet` is the
/// status mark drawn before the header word.
pub fn compact_rows(cell: &DynamicToolCallCell, width: u16, bullet: &str) -> (r: Vec<TranscriptRow>)
    ensures
        rows_view(r@) == compact_rows_model(cell@, width, bullet@),
        r@.len() <= compact_head(cell@, width, bullet@).len() + TOOL_CALL_MAX_LINES,
{
    let header = if cell.success().is_some() {
        "Called"
    } else {
        "Calling"
    };
    let invocation = match &cell.namespace {
        Some(ns) => format_dynamic_tool_invocation_text(Some(ns.as_str()), cell.tool.as_str(), &cell.arguments),
        None => format_dynamic_tool_invocation_text(None, cell.tool.as_str(), &cell.arguments),
    };
    let mut lead = concat(bullet, " ");
    lead.append(header);
    let lead_len = str_char_len(lead.as_str());
    let inv_len = str_char_len(invocation.as_str());
    let w = width as usize;
    let avail: usize = if w > lead_len {
        w - lead_len - 1
    } else {
        0
    };
    let inline = inv_len <= avail;
    let dw: usize = if w >= 5 {
        w - 4
    } else {
        1
    };
    assert(invocation@ == compact_invocation(cell@));
    assert(lead@ == bullet@ + " "@ + call_header(cell@));
    proof {
        reveal_strlit(" ");
    }
    assert(lead@.len() == bullet@.len() + 1 + call_header(cell@).len());
    assert(inline == shows_inline(cell@, width, bullet@));
    let mut out: Vec<TranscriptRow> = Vec::new();
    if inline {
        let mut text = lead;
        text.append(" ");
        text.append(invocation.as_str());
        out.push(TranscriptRow { text, style: RowStyle::Plain });
    } else {
        out.push(TranscriptRow { text: lead, style: RowStyle::Plain });
        let chars = chars_of(invocation.as_str());
        proof {
            reveal_strlit("");
            assert(""@ =~= Seq::<char>::empty());
            assert(chars@.subrange(0, chars@.len() as int) =~= chars@);
            crate::wrap::lemma_wrap_rows_len(chars@, RowStyle::Plain, dw as int, Seq::empty(), "    "@);
        }
        let wrapped = wrap_source_rows(&chars, 0, chars.len(), RowStyle::Plain, dw, "", "    ", usize::MAX);
        let mut body = prefix_rows(wrapped, "  └ ", "    ");
        out.append(&mut body);
    }
    let ghost head = rows_view(out@);
    assert(head =~= compact_head(cell@, width, bullet@));
    let details = match &cell.content_items {
        Some(items) => detail_rows(items, dw),
        None => Vec::new(),
    };
    let mut details = prefix_rows(details, if inline { "  └ " } else { "    " }, "    ");
    out.append(&mut details);
    assert(rows_view(out@) =~= compact_rows_model(cell@, width, bullet@));
    out
}

/// The pieces of `t` between line breaks, from `pos` on.
pub open spec fn pieces_from(t: Seq<char>, pos: int) -> Seq<Seq<char>>
    decreases t.len() - pos,
{
    if pos < 0 || pos > t.len() {
        Seq::empty()
    } else {
        let e = line_end(t, pos);
        if e >= t.len() {
            seq![t.subrange(pos, e)]
        } else {
            proof {
                lemma_line_end(t, pos);
            }
            seq![t.subrange(pos, e)] + pieces_from(t, e + 1)
        }
    }
}

/// The preview lines of every item, in order.
pub open spec fn preview_lines(items: Seq<ContentModel>) -> Seq<Seq<char>>
    decreases items.len(),
{
    if items.len() == 0 {
        Seq::empty()
    } else {
        preview_lines(items.drop_last()) + pieces_from(preview_text(items.last()), 0)
    }
}

pub open spec fn texts_view(v: Seq<String>) -> Seq<Seq<char>> {
    v.map_values(|s: String| s@)
}

/// The plain-text compact view of a call: `Called invocation` (or
/// `Calling ...`), then at most [`TOOL_CALL_MAX_LINES`] preview lines.
pub open spec fn raw_compact_model(c: DynamicCellModel) -> Seq<Seq<char>> {
    seq![call_header(c) + " "@ + compact_invocation(c)] + match c.content_items {
        Some(items) => prefix(preview_lines(items), TOOL_CALL_MAX_LINES as int),
        None => Seq::empty(),
    }
}

fn push_pieces(out: &mut Vec<String>, text: &str, limit: usize)
    ensures
        texts_view(final(out)@) == texts_view(old(out)@) + prefix(pieces_from(text@, 0), limit as int),
{
    let chars = chars_of(text);
    let ghost t = chars@;
    let ghost start = texts_view(out@);
    let ghost total = pieces_from(t, 0);
    let mut taken: usize = 0;
    let mut pos: usize = 0;
    let mut done = false;
    assert(start + total =~= start + total);
    assert(Seq::<Seq<char>>::empty() + total =~= total);
    while !done && taken < limit
        invariant
            t == chars@,
            t == text@,
            pos <= t.len(),
            taken <= limit,
            texts_view(out@).len() == start.len() + taken,
            total == pieces_from(t, 0),
            prefix(total, limit as int) == prefix(
                texts_view(out@).skip(start.len() as int) + if done {
                    Seq::<Seq<char>>::empty()
                } else {
                    pieces_from(t, pos as int)
                },
                limit as int,
            ),
            texts_view(out@).take(start.len() as int) == start,
        decreases t.len() - pos + if done {
            0int
        } else {
            1int
        },
    {
        let e = find_line_end(&chars, pos);
        proof {
            lemma_line_end(t, pos as int);
        }
        let row = make_row("", &chars, pos, e, RowStyle::Plain);
        let piece = row.text;
        proof {
            reveal_strlit("");
            assert(""@ + t.subrange(pos as int, e as int) =~= t.subrange(pos as int, e as int));
        }
        let ghost before = texts_view(out@);
        let ghost tail = if e >= t.len() {
            Seq::<Seq<char>>::empty()
        } else {
            pieces_from(t, e + 1)
        };
        assert(pieces_from(t, pos as int) =~= seq![t.subrange(pos as int, e as int)] + tail);
        out.push(piece);
        proof {
            assert(texts_view(out@) =~= before.push(piece@));
            assert(texts_view(out@).take(start.len() as int) =~= before.take(start.len() as int));
            assert(texts_view(out@).skip(start.len() as int) =~= before.skip(start.len() as int).push(
                piece@,
            ));
            assert(before.skip(start.len() as int) + (seq![piece@] + tail) =~= before.skip(
                start.len() as int,
            ).push(piece@) + tail);
        }
        taken = taken + 1;
        if e >= chars.len() {
            done = true;
            assert(texts_view(out@).skip(start.len() as int) + Seq::<Seq<char>>::empty()
                =~= texts_view(out@).skip(start.len() as int));
        } else {
            pos = e + 1;
        }
    }
    proof {
        let got = texts_view(out@).skip(start.len() as int);
        let rem = if done {
            Seq::<Seq<char>>::empty()
        } else {
            pieces_from(t, pos as int)
        };
        if taken >= limit {
            crate::wrap::lemma_prefix_full(got, rem);
        } else {
            assert(got + rem =~= got);
        }
        assert(texts_view(out@) =~= texts_view(out@).take(start.len() as int) + got);
    }
}

/// The plain-text compact view of `cell`.
pub fn raw_compact_lines(cell: &DynamicToolCallCell) -> (r: Vec<String>)
    ensures
        texts_view(r@) == raw_compact_model(cell@),
        r@.len() <= 1 + TOOL_CALL_MAX_LINES,
{
    let header = if cell.success().is_some() {
        "Called"
    } else {
        "Calling"
    };
    let invocation = match &cell.namespace {
        Some(ns) => format_dynamic_tool_invocation_text(Some(ns.as_str()), cell.tool.as_str(), &cell.arguments),
        None => format_dynamic_tool_invocation_text(None, cell.tool.as_str(), &cell.arguments),
    };
    let mut first = concat(header, " ");
    first.append(invocation.as_str());
    let mut out: Vec<String> = Vec::new();
    out.push(first);
    let ghost head = texts_view(out@);
    assert(head =~= seq![call_header(cell@) + " "@ + compact_invocation(cell@)]);
    if let Some(items) = &cell.content_items {
        let ghost iv = contents_view(items@);
        let mut i: usize = 0;
        assert(iv.take(0) =~= Seq::<ContentModel>::empty());
        assert(texts_view(out@) =~= head + prefix(preview_lines(iv.take(0)), 5));
        while i < items.len()
            invariant
                i <= items@.len(),
                iv == contents_view(items@),
                head.len() == 1,
                out@.len() <= TOOL_CALL_MAX_LINES + 1,
                texts_view(out@) == head + prefix(preview_lines(iv.take(i as int)), 5),
            decreases items@.len() - i,
        {
            let ghost a = preview_lines(iv.take(i as int));
            let ghost seg = pieces_from(preview_text(iv[i as int]), 0);
            assert(iv.take(i + 1).drop_last() =~= iv.take(i as int));
            assert(iv.take(i + 1).last() == iv[i as int]);
            assert(preview_lines(iv.take(i + 1)) == a + seg);
            let room = TOOL_CALL_MAX_LINES + 1 - out.len();
            let ghost before = texts_view(out@);
            push_pieces(&mut out, preview_str(&items[i]), room);
            proof {
                if a.len() >= 5 {
                    assert(prefix(seg, 0) =~= Seq::<Seq<char>>::empty());
                    assert(prefix(a + seg, 5) =~= a.take(5));
                    assert(texts_view(out@) =~= before);
                } else {
                    crate::wrap::lemma_prefix_concat(a, seg, 5);
                    assert(texts_view(out@) =~= head + prefix(a + seg, 5));
                }
            }
            i = i + 1;
        }
        assert(iv.take(i as int) =~= iv);
    }
    out
}

} // verus!
