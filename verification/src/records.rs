//! Normalization of function and custom tool calls persisted in a rollout.
//!
//! A rollout is a sequence of JSON lines. Calls are paired with their outputs
//! by `(turn id, call id)`; outputs without a matching call are kept as
//! orphans and lines that are not rollout records, or response items of an
//! unknown type, are kept verbatim as unknown records.

use vstd::prelude::*;
use vstd::string::StringSliceAdditionalSpecFns;
use vstd::utf8::encode_utf8;

use crate::completeness::assess_text;
use crate::completeness::detect_truncation_markers;
use crate::completeness::markers_view;
use crate::completeness::spec_detect;
use crate::completeness::Completeness;
use crate::completeness::MarkerModel;
use crate::completeness::TruncationMarker;
use crate::json::get_member;
use crate::json::get_optional_str;
use crate::json::get_str;
use crate::json::member;
use crate::json::member_str;
use crate::json::optional_str;
use crate::json::take_member;
use crate::json::JsonNumber;
use crate::json::JsonValue;
use crate::text::str_eq;

verus! {

broadcast use vstd::string::group_string_axioms;

#[derive(Debug, Clone, Copy, PartialEq, Eq, Structural)]
pub enum ToolKind {
    Function,
    Custom,
}

#[derive(Debug, Clone, PartialEq, Eq)]
pub struct ToolIdentity {
    pub kind: ToolKind,
    pub namespace: Option<String>,
    pub name: String,
}

/// The exact argument text of a call, and its JSON decoding when it is JSON.
#[derive(Debug, PartialEq)]
pub struct RawPayload {
    pub raw: String,
    pub parsed_json: Option<serde_json::Value>,
}

/// One item of a structured tool output.
#[derive(Debug, Clone, PartialEq, Eq)]
pub enum FunctionCallOutputContentItem {
    InputText { text: String },
    InputImage { image_url: String, detail: Option<String> },
}

#[derive(Debug, PartialEq, Eq)]
pub enum ToolResultBody {
    Text(String),
    ContentItems(Vec<FunctionCallOutputContentItem>),
}

/// A persisted tool result: the raw JSON of the output field and its decoding.
#[derive(Debug, PartialEq, Eq)]
pub struct ToolResult {
    pub raw: JsonValue,
    pub body: ToolResultBody,
}

/// Where a record came from: file, 1-based line, ordinal and timestamp.
#[derive(Debug, Clone, PartialEq, Eq)]
pub struct RecordSource {
    pub path: String,
    pub line: u64,
    pub ordinal: Option<u64>,
    pub timestamp: String,
}

#[derive(Debug, PartialEq)]
pub struct ToolCallRecord {
    pub turn_id: Option<String>,
    pub call_id: String,
    pub tool: ToolIdentity,
    pub arguments: RawPayload,
    pub result: Option<ToolResult>,
    pub completeness: Completeness,
    pub call_source: RecordSource,
    pub result_source: Option<RecordSource>,
}

#[derive(Debug, PartialEq, Eq)]
pub struct OrphanToolOutput {
    pub turn_id: Option<String>,
    pub call_id: String,
    pub kind: ToolKind,
    pub result: ToolResult,
    pub completeness: Completeness,
    pub source: RecordSource,
}

#[derive(Debug, PartialEq, Eq)]
pub struct UnknownRolloutRecord {
    pub raw: JsonValue,
    pub source: RecordSource,
}

#[derive(Debug, PartialEq)]
pub struct SessionToolRecords {
    pub calls: Vec<ToolCallRecord>,
    pub orphan_outputs: Vec<OrphanToolOutput>,
    pub unknown_records: Vec<UnknownRolloutRecord>,
}

#[derive(Debug, PartialEq, Eq)]
pub enum SessionInspectorError {
    /// The rollout could not be read.
    Read { path: String, message: String },
    /// A line of the rollout is not JSON.
    InvalidJson { path: String, line: u64, message: String },
}

// ---------------------------------------------------------------------------
// Mathematical models
// ---------------------------------------------------------------------------

pub open spec fn opt_view(o: Option<String>) -> Option<Seq<char>> {
    match o {
        Some(s) => Some(s@),
        None => None,
    }
}

pub enum ItemModel {
    InputText(Seq<char>),
    InputImage(Seq<char>, Option<Seq<char>>),
}

pub enum BodyModel {
    Text(Seq<char>),
    Items(Seq<ItemModel>),
}

pub enum CompletenessModel {
    Complete,
    Truncated(Seq<MarkerModel>),
    Unknown,
}

pub struct SourceModel {
    pub path: Seq<char>,
    pub line: u64,
    pub ordinal: Option<u64>,
    pub timestamp: Seq<char>,
}

pub struct ResultModel {
    pub raw: JsonValue,
    pub body: BodyModel,
}

pub struct CallModel {
    pub turn_id: Option<Seq<char>>,
    pub call_id: Seq<char>,
    pub kind: ToolKind,
    pub namespace: Option<Seq<char>>,
    pub name: Seq<char>,
    pub arguments: Seq<char>,
    /// The arguments as the JSON decoder read them, when they are JSON.
    pub parsed_arguments: Option<serde_json::Value>,
    pub result: Option<ResultModel>,
    pub completeness: CompletenessModel,
    pub call_source: SourceModel,
    pub result_source: Option<SourceModel>,
}

pub struct OrphanModel {
    pub turn_id: Option<Seq<char>>,
    pub call_id: Seq<char>,
    pub kind: ToolKind,
    pub result: ResultModel,
    pub completeness: CompletenessModel,
    pub source: SourceModel,
}

pub struct UnknownModel {
    pub raw: JsonValue,
    pub source: SourceModel,
}

pub struct RecordsModel {
    pub calls: Seq<CallModel>,
    pub orphans: Seq<OrphanModel>,
    pub unknown: Seq<UnknownModel>,
}

impl View for FunctionCallOutputContentItem {
    type V = ItemModel;

    open spec fn view(&self) -> ItemModel {
        match self {
            FunctionCallOutputContentItem::InputText { text } => ItemModel::InputText(text@),
            FunctionCallOutputContentItem::InputImage { image_url, detail } => ItemModel::InputImage(
                image_url@,
                opt_view(*detail),
            ),
        }
    }
}

pub open spec fn items_view(v: Seq<FunctionCallOutputContentItem>) -> Seq<ItemModel> {
    v.map_values(|i: FunctionCallOutputContentItem| i@)
}

impl View for ToolResultBody {
    type V = BodyModel;

    open spec fn view(&self) -> BodyModel {
        match self {
            ToolResultBody::Text(t) => BodyModel::Text(t@),
            ToolResultBody::ContentItems(items) => BodyModel::Items(items_view(items@)),
        }
    }
}

impl View for Completeness {
    type V = CompletenessModel;

    open spec fn view(&self) -> CompletenessModel {
        match self {
            Completeness::Complete => CompletenessModel::Complete,
            Completeness::Truncated { markers } => CompletenessModel::Truncated(
                markers_view(markers@),
            ),
            Completeness::Unknown => CompletenessModel::Unknown,
        }
    }
}

impl View for RecordSource {
    type V = SourceModel;

    open spec fn view(&self) -> SourceModel {
        SourceModel {
            path: self.path@,
            line: self.line,
            ordinal: self.ordinal,
            timestamp: self.timestamp@,
        }
    }
}

impl View for ToolResult {
    type V = ResultModel;

    open spec fn view(&self) -> ResultModel {
        ResultModel { raw: self.raw, body: self.body@ }
    }
}

pub open spec fn opt_result_view(r: Option<ToolResult>) -> Option<ResultModel> {
    match r {
        Some(x) => Some(x@),
        None => None,
    }
}

pub open spec fn opt_source_view(r: Option<RecordSource>) -> Option<SourceModel> {
    match r {
        Some(x) => Some(x@),
        None => None,
    }
}

impl View for ToolCallRecord {
    type V = CallModel;

    open spec fn view(&self) -> CallModel {
        CallModel {
            turn_id: opt_view(self.turn_id),
            call_id: self.call_id@,
            kind: self.tool.kind,
            namespace: opt_view(self.tool.namespace),
            name: self.tool.name@,
            arguments: self.arguments.raw@,
            parsed_arguments: self.arguments.parsed_json,
            result: opt_result_view(self.result),
            completeness: self.completeness@,
            call_source: self.call_source@,
            result_source: opt_source_view(self.result_source),
        }
    }
}

impl View for OrphanToolOutput {
    type V = OrphanModel;

    open spec fn view(&self) -> OrphanModel {
        OrphanModel {
            turn_id: opt_view(self.turn_id),
            call_id: self.call_id@,
            kind: self.kind,
            result: self.result@,
            completeness: self.completeness@,
            source: self.source@,
        }
    }
}

impl View for UnknownRolloutRecord {
    type V = UnknownModel;

    open spec fn view(&self) -> UnknownModel {
        UnknownModel { raw: self.raw, source: self.source@ }
    }
}

impl View for SessionToolRecords {
    type V = RecordsModel;

    open spec fn view(&self) -> RecordsModel {
        RecordsModel {
            calls: self.calls@.map_values(|c: ToolCallRecord| c@),
            orphans: self.orphan_outputs@.map_values(|o: OrphanToolOutput| o@),
            unknown: self.unknown_records@.map_values(|u: UnknownRolloutRecord| u@),
        }
    }
}

// ---------------------------------------------------------------------------
// Completeness of a result body
// ---------------------------------------------------------------------------

pub open spec fn text_markers(t: Seq<char>) -> Seq<MarkerModel> {
    spec_detect(encode_utf8(t))
}

pub open spec fn item_markers(i: ItemModel) -> Seq<MarkerModel> {
    match i {
        ItemModel::InputText(t) => text_markers(t),
        ItemModel::InputImage(_, _) => Seq::empty(),
    }
}

/// Markers of every text item, item by item, each item's markers in offset order.
pub open spec fn items_markers(items: Seq<ItemModel>) -> Seq<MarkerModel>
    decreases items.len(),
{
    if items.len() == 0 {
        Seq::empty()
    } else {
        items_markers(items.drop_last()) + item_markers(items.last())
    }
}

pub open spec fn completeness_of(markers: Seq<MarkerModel>) -> CompletenessModel {
    if markers.len() == 0 {
        CompletenessModel::Complete
    } else {
        CompletenessModel::Truncated(markers)
    }
}

/// Completeness of a persisted result body: text items are scanned for
/// markers, media items never carry one.
pub open spec fn assess_body(b: BodyModel) -> CompletenessModel {
    match b {
        BodyModel::Text(t) => completeness_of(text_markers(t)),
        BodyModel::Items(items) => completeness_of(items_markers(items)),
    }
}

fn assess_content_items(items: &Vec<FunctionCallOutputContentItem>) -> (r: Completeness)
    ensures
        r@ == completeness_of(items_markers(items_view(items@))),
{
    let mut markers: Vec<TruncationMarker> = Vec::new();
    let mut i: usize = 0;
    assert(items_view(items@).take(0) =~= Seq::<ItemModel>::empty());
    while i < items.len()
        invariant
            i <= items@.len(),
            markers_view(markers@) == items_markers(items_view(items@).take(i as int)),
        decreases items@.len() - i,
    {
        let ghost before = markers@;
        let ghost iv = items_view(items@);
        assert(iv.take(i + 1).drop_last() =~= iv.take(i as int));
        assert(iv.take(i + 1).last() == items@[i as int]@);
        match &items[i] {
            FunctionCallOutputContentItem::InputText { text } => {
                let found = detect_truncation_markers(text.as_str());
                let mut found = found;
                let ghost fv = markers_view(found@);
                markers.append(&mut found);
                assert(markers_view(markers@) =~= markers_view(before) + fv);
            },
            FunctionCallOutputContentItem::InputImage { .. } => {
                assert(markers_view(markers@) =~= markers_view(before) + Seq::<MarkerModel>::empty());
            },
        }
        i = i + 1;
    }
    assert(items_view(items@).take(i as int) =~= items_view(items@));
    if markers.len() == 0 {
        Completeness::Complete
    } else {
        Completeness::Truncated { markers }
    }
}

/// Assess completeness for a normalized tool result body.
pub fn assess_tool_result(result: &ToolResult) -> (r: Completeness)
    ensures
        r@ == assess_body(result.body@),
        !(r is Unknown),
        result.body@ matches BodyModel::Items(items) ==> ((exists|i: int|
            0 <= i < items.len() && (#[trigger] text_item_markers(items[i])).len() > 0)
            <==> r is Truncated),
{
    proof {
        if let BodyModel::Items(items) = result.body@ {
            lemma_content_items_assessment(items);
        }
    }
    match &result.body {
        ToolResultBody::Text(text) => {
            let r = assess_text(text.as_str());
            proof {
                if r is Complete {
                } else {
                    assert(r is Truncated);
                }
            }
            r
        },
        ToolResultBody::ContentItems(items) => assess_content_items(items),
    }
}


// ---------------------------------------------------------------------------
// Reading one rollout line
// ---------------------------------------------------------------------------

/// `true` when `text` is one well-formed JSON document, as decided by the
/// JSON decoder.
pub uninterp spec fn json_text_is_valid(text: Seq<char>) -> bool;

/// The document the JSON decoder reads from `text`, when it is JSON.
pub uninterp spec fn parsed_json_document(text: Seq<char>) -> serde_json::Value;

/// The message the JSON decoder gives for `text` when it is not JSON.
pub uninterp spec fn json_error_text(text: Seq<char>) -> Seq<char>;

/// Wraps `serde_json::from_str::<serde_json::Value>`: the decoded document
/// when `text` is JSON, else the decoder's error message.
#[verifier::external_body]
pub(crate) fn parse_json_text(text: &str) -> (r: Result<serde_json::Value, String>)
    ensures
        r is Ok == json_text_is_valid(text@),
        r matches Ok(v) ==> v == parsed_json_document(text@),
        r matches Err(m) ==> m@ == json_error_text(text@),
{
    match serde_json::from_str::<serde_json::Value>(text) {
        Ok(value) => Ok(value),
        Err(err) => Err(err.to_string()),
    }
}

/// The library's picture of a decoded JSON document: the same tree, with
/// object members in the order the document holds them and each number as
/// its `u64` value (when it is one) and its text.
pub uninterp spec fn document_json_value(value: serde_json::Value) -> JsonValue;

/// Converts a `serde_json::Value` into a [`JsonValue`], variant for variant,
/// reading each number with `as_u64` and its `Display` text.
#[verifier::external_body]
fn json_value_of(value: &serde_json::Value) -> (r: JsonValue)
    ensures
        r == document_json_value(*value),
{
    match value {
        serde_json::Value::Null => JsonValue::Null,
        serde_json::Value::Bool(b) => JsonValue::Bool(*b),
        serde_json::Value::Number(n) => JsonValue::Number(JsonNumber { as_u64: n.as_u64(), text: n.to_string() }),
        serde_json::Value::String(s) => JsonValue::String(s.clone()),
        serde_json::Value::Array(items) => JsonValue::Array(items.iter().map(json_value_of).collect()),
        serde_json::Value::Object(map) => JsonValue::Object(map.iter().map(|(k, v)| (k.clone(), json_value_of(v))).collect()),
    }
}

/// How one raw rollout line decodes: its JSON value, or the decoder's message.
pub open spec fn decoded_line(text: Seq<char>) -> Result<JsonValue, Seq<char>> {
    if json_text_is_valid(text) {
        Ok(document_json_value(parsed_json_document(text)))
    } else {
        Err(json_error_text(text))
    }
}

/// Decodes one raw rollout line.
pub fn decode_rollout_line(text: &str) -> (r: Result<JsonValue, String>)
    ensures
        match r {
            Ok(v) => decoded_line(text@) == Ok::<JsonValue, Seq<char>>(v),
            Err(m) => decoded_line(text@) == Err::<JsonValue, Seq<char>>(m@),
        },
{
    match parse_json_text(text) {
        Ok(value) => Ok(json_value_of(&value)),
        Err(message) => Err(message),
    }
}

/// Classification of one decoded rollout line.
pub enum LineItemModel {
    TurnStarted(Seq<char>),
    TurnComplete(Seq<char>),
    TurnAborted(Option<Seq<char>>),
    UnknownResponse,
    Call {
        kind: ToolKind,
        namespace: Option<Seq<char>>,
        name: Seq<char>,
        payload: Seq<char>,
        call_id: Seq<char>,
        turn_id: Option<Seq<char>>,
    },
    Output { kind: ToolKind, call_id: Seq<char>, body: BodyModel, turn_id: Option<Seq<char>> },
    Other,
}

pub enum LineModel {
    /// The line is JSON but not a rollout record.
    NotRollout,
    Rollout { timestamp: Seq<char>, ordinal: Option<u64>, item: LineItemModel },
}

/// Event message types a rollout record may carry besides the turn lifecycle.
pub open spec fn is_known_event(t: Seq<char>) -> bool {
    ||| t == "error"@
    ||| t == "warning"@
    ||| t == "task_started"@
    ||| t == "task_complete"@
    ||| t == "token_count"@
    ||| t == "agent_message"@
    ||| t == "user_message"@
    ||| t == "agent_message_delta"@
    ||| t == "agent_reasoning"@
    ||| t == "agent_reasoning_delta"@
    ||| t == "agent_reasoning_raw_content"@
    ||| t == "agent_reasoning_section_break"@
    ||| t == "session_configured"@
    ||| t == "mcp_tool_call_begin"@
    ||| t == "mcp_tool_call_end"@
    ||| t == "web_search_begin"@
    ||| t == "web_search_end"@
    ||| t == "exec_command_begin"@
    ||| t == "exec_command_output_delta"@
    ||| t == "exec_command_end"@
    ||| t == "view_image_tool_call"@
    ||| t == "exec_approval_request"@
    ||| t == "apply_patch_approval_request"@
    ||| t == "background_event"@
    ||| t == "stream_error"@
    ||| t == "patch_apply_begin"@
    ||| t == "patch_apply_end"@
    ||| t == "turn_diff"@
    ||| t == "plan_update"@
    ||| t == "shutdown_complete"@
    ||| t == "entered_review_mode"@
    ||| t == "exited_review_mode"@
    ||| t == "context_compacted"@
    ||| t == "item_started"@
    ||| t == "item_completed"@
    ||| t == "deprecation_notice"@
    ||| t == "undo_started"@
    ||| t == "undo_completed"@
}

/// Response item types that carry no tool call or tool output.
pub open spec fn is_known_response(t: Seq<char>) -> bool {
    ||| t == "message"@
    ||| t == "reasoning"@
    ||| t == "local_shell_call"@
    ||| t == "web_search_call"@
    ||| t == "image_generation_call"@
    ||| t == "ghost_snapshot"@
    ||| t == "compaction"@
    ||| t == "tool_search_call"@
    ||| t == "tool_search_output"@
}

/// Rollout record types other than response items and event messages.
pub open spec fn is_other_rollout_type(t: Seq<char>) -> bool {
    ||| t == "session_meta"@
    ||| t == "compacted"@
    ||| t == "turn_context"@
    ||| t == "inter_agent_communication"@
    ||| t == "inter_agent_communication_metadata"@
    ||| t == "world_state"@
}

/// `ordinal`: absent or `null` is `Some(None)`, an integer that fits `u64` is
/// `Some(Some(n))`, anything else makes the record malformed (`None`).
pub open spec fn ordinal_field(v: JsonValue) -> Option<Option<u64>> {
    match member(v, "ordinal"@) {
        None => Some(None),
        Some(JsonValue::Null) => Some(None),
        Some(JsonValue::Number(n)) => match n.as_u64 {
            Some(x) => Some(Some(x)),
            None => None,
        },
        _ => None,
    }
}

/// Best-effort ordinal of a line that is not a rollout record.
pub open spec fn loose_ordinal(v: JsonValue) -> Option<u64> {
    match member(v, "ordinal"@) {
        Some(JsonValue::Number(n)) => n.as_u64,
        _ => None,
    }
}

/// Best-effort timestamp of a line that is not a rollout record.
pub open spec fn loose_timestamp(v: JsonValue) -> Seq<char> {
    match member_str(v, "timestamp"@) {
        Some(s) => s,
        None => Seq::empty(),
    }
}

pub open spec fn item_model(v: JsonValue) -> Option<ItemModel> {
    match member_str(v, "type"@) {
        Some(t) => if t == "input_text"@ {
            match member_str(v, "text"@) {
                Some(text) => Some(ItemModel::InputText(text)),
                None => None,
            }
        } else if t == "input_image"@ {
            match (member_str(v, "image_url"@), optional_str(v, "detail"@)) {
                (Some(url), Some(detail)) => Some(ItemModel::InputImage(url, detail)),
                _ => None,
            }
        } else {
            None
        },
        None => None,
    }
}

pub open spec fn items_model(items: Seq<JsonValue>) -> Option<Seq<ItemModel>>
    decreases items.len(),
{
    if items.len() == 0 {
        Some(Seq::empty())
    } else {
        match (items_model(items.drop_last()), item_model(items.last())) {
            (Some(a), Some(b)) => Some(a.push(b)),
            _ => None,
        }
    }
}

/// The `output` field of a tool output: a string, or an array of content items.
pub open spec fn output_body(p: JsonValue) -> Option<BodyModel> {
    match member(p, "output"@) {
        Some(JsonValue::String(s)) => Some(BodyModel::Text(s@)),
        Some(JsonValue::Array(a)) => match items_model(a@) {
            Some(items) => Some(BodyModel::Items(items)),
            None => None,
        },
        _ => None,
    }
}

/// Turn id persisted on a response item itself, if any.
pub open spec fn response_turn_id(p: JsonValue) -> Option<Seq<char>> {
    match member(p, "internal_chat_message_metadata_passthrough"@) {
        Some(meta) => member_str(meta, "turn_id"@),
        None => None,
    }
}

pub open spec fn classify_call(p: JsonValue, kind: ToolKind, payload_key: Seq<char>) -> Option<
    LineItemModel,
> {
    match (
        member_str(p, "name"@),
        member_str(p, payload_key),
        member_str(p, "call_id"@),
        optional_str(p, "namespace"@),
    ) {
        (Some(name), Some(payload), Some(call_id), Some(namespace)) => Some(
            LineItemModel::Call {
                kind,
                namespace,
                name,
                payload,
                call_id,
                turn_id: response_turn_id(p),
            },
        ),
        _ => None,
    }
}

pub open spec fn classify_output(p: JsonValue, kind: ToolKind) -> Option<LineItemModel> {
    match (member_str(p, "call_id"@), output_body(p)) {
        (Some(call_id), Some(body)) => Some(
            LineItemModel::Output { kind, call_id, body, turn_id: response_turn_id(p) },
        ),
        _ => None,
    }
}

pub open spec fn classify_response(p: JsonValue) -> Option<LineItemModel> {
    match member_str(p, "type"@) {
        None => None,
        Some(t) => if t == "function_call"@ {
            classify_call(p, ToolKind::Function, "arguments"@)
        } else if t == "custom_tool_call"@ {
            classify_call(p, ToolKind::Custom, "input"@)
        } else if t == "function_call_output"@ {
            classify_output(p, ToolKind::Function)
        } else if t == "custom_tool_call_output"@ {
            classify_output(p, ToolKind::Custom)
        } else if is_known_response(t) {
            Some(LineItemModel::Other)
        } else {
            Some(LineItemModel::UnknownResponse)
        },
    }
}

pub open spec fn classify_event(p: JsonValue) -> Option<LineItemModel> {
    match member_str(p, "type"@) {
        None => None,
        Some(t) => if t == "turn_started"@ {
            match member_str(p, "turn_id"@) {
                Some(id) => Some(LineItemModel::TurnStarted(id)),
                None => None,
            }
        } else if t == "turn_complete"@ {
            match member_str(p, "turn_id"@) {
                Some(id) => Some(LineItemModel::TurnComplete(id)),
                None => None,
            }
        } else if t == "turn_aborted"@ {
            match optional_str(p, "turn_id"@) {
                Some(id) => Some(LineItemModel::TurnAborted(id)),
                None => None,
            }
        } else if is_known_event(t) {
            Some(LineItemModel::Other)
        } else {
            None
        },
    }
}

pub open spec fn classify_item(ty: Seq<char>, p: JsonValue) -> Option<LineItemModel> {
    if ty == "event_msg"@ {
        classify_event(p)
    } else if ty == "response_item"@ {
        classify_response(p)
    } else if is_other_rollout_type(ty) {
        Some(LineItemModel::Other)
    } else {
        None
    }
}

/// How a decoded line reads as a rollout record.
#[verifier::opaque]
pub open spec fn classify_line(v: JsonValue) -> LineModel {
    match (
        member_str(v, "timestamp"@),
        ordinal_field(v),
        member_str(v, "type"@),
        member(v, "payload"@),
    ) {
        (Some(timestamp), Some(ordinal), Some(ty), Some(p)) => match classify_item(ty, p) {
            Some(item) => LineModel::Rollout { timestamp, ordinal, item },
            None => LineModel::NotRollout,
        },
        _ => LineModel::NotRollout,
    }
}

/// The raw JSON of the `output` field of a tool-output line.
pub open spec fn output_raw(v: JsonValue) -> JsonValue {
    match member(v, "payload"@) {
        Some(p) => match member(p, "output"@) {
            Some(o) => o,
            None => JsonValue::Null,
        },
        None => JsonValue::Null,
    }
}

// ---------------------------------------------------------------------------
// Pairing calls and outputs
// ---------------------------------------------------------------------------

pub struct CollectState {
    pub turn: Option<Seq<char>>,
    pub records: RecordsModel,
}

pub open spec fn or_else(a: Option<Seq<char>>, b: Option<Seq<char>>) -> Option<Seq<char>> {
    match a {
        Some(x) => Some(x),
        None => b,
    }
}

/// Index of the latest call recorded under `(turn_id, call_id)`.
pub open spec fn last_call_index(
    calls: Seq<CallModel>,
    turn_id: Option<Seq<char>>,
    call_id: Seq<char>,
) -> Option<int>
    decreases calls.len(),
{
    if calls.len() == 0 {
        None
    } else if calls.last().turn_id == turn_id && calls.last().call_id == call_id {
        Some(calls.len() - 1)
    } else {
        last_call_index(calls.drop_last(), turn_id, call_id)
    }
}

pub proof fn lemma_last_call_index_bounds(
    calls: Seq<CallModel>,
    turn_id: Option<Seq<char>>,
    call_id: Seq<char>,
)
    ensures
        last_call_index(calls, turn_id, call_id) matches Some(k) ==> 0 <= k < calls.len()
            && calls[k].turn_id == turn_id && calls[k].call_id == call_id,
    decreases calls.len(),
{
    if calls.len() > 0 {
        lemma_last_call_index_bounds(calls.drop_last(), turn_id, call_id);
    }
}

pub open spec fn empty_records() -> RecordsModel {
    RecordsModel { calls: Seq::empty(), orphans: Seq::empty(), unknown: Seq::empty() }
}

/// Effect of one decoded line, read at 1-based `line` of `path`.
#[verifier::opaque]
pub open spec fn step(st: CollectState, path: Seq<char>, line: u64, v: JsonValue) -> CollectState {
    let recs = st.records;
    match classify_line(v) {
        LineModel::NotRollout => CollectState {
            turn: st.turn,
            records: RecordsModel {
                unknown: recs.unknown.push(
                    UnknownModel {
                        raw: v,
                        source: SourceModel {
                            path,
                            line,
                            ordinal: loose_ordinal(v),
                            timestamp: loose_timestamp(v),
                        },
                    },
                ),
                ..recs
            },
        },
        LineModel::Rollout { timestamp, ordinal, item } => {
            let source = SourceModel { path, line, ordinal, timestamp };
            match item {
                LineItemModel::TurnStarted(id) => CollectState { turn: Some(id), records: recs },
                LineItemModel::TurnComplete(id) => CollectState {
                    turn: if st.turn == Some(id) {
                        None
                    } else {
                        st.turn
                    },
                    records: recs,
                },
                LineItemModel::TurnAborted(id) => CollectState {
                    turn: if id is None || st.turn == id {
                        None
                    } else {
                        st.turn
                    },
                    records: recs,
                },
                LineItemModel::UnknownResponse => CollectState {
                    turn: st.turn,
                    records: RecordsModel {
                        unknown: recs.unknown.push(UnknownModel { raw: v, source }),
                        ..recs
                    },
                },
                LineItemModel::Call { kind, namespace, name, payload, call_id, turn_id } => {
                    CollectState {
                        turn: st.turn,
                        records: RecordsModel {
                            calls: recs.calls.push(
                                CallModel {
                                    turn_id: or_else(turn_id, st.turn),
                                    call_id,
                                    kind,
                                    namespace,
                                    name,
                                    arguments: payload,
                                    parsed_arguments: if json_text_is_valid(payload) {
                                        Some(parsed_json_document(payload))
                                    } else {
                                        None
                                    },
                                    result: None,
                                    completeness: CompletenessModel::Unknown,
                                    call_source: source,
                                    result_source: None,
                                },
                            ),
                            ..recs
                        },
                    }
                },
                LineItemModel::Output { kind, call_id, body, turn_id } => {
                    let turn_id = or_else(turn_id, st.turn);
                    let result = ResultModel { raw: output_raw(v), body };
                    let completeness = assess_body(body);
                    match last_call_index(recs.calls, turn_id, call_id) {
                        Some(i) if recs.calls[i].kind == kind => CollectState {
                            turn: st.turn,
                            records: RecordsModel {
                                calls: recs.calls.update(
                                    i,
                                    CallModel {
                                        result: Some(result),
                                        completeness,
                                        result_source: Some(source),
                                        ..recs.calls[i]
                                    },
                                ),
                                ..recs
                            },
                        },
                        _ => CollectState {
                            turn: st.turn,
                            records: RecordsModel {
                                orphans: recs.orphans.push(
                                    OrphanModel {
                                        turn_id,
                                        call_id,
                                        kind,
                                        result,
                                        completeness,
                                        source,
                                    },
                                ),
                                ..recs
                            },
                        },
                    }
                },
                LineItemModel::Other => st,
            }
        },
    }
}

/// State after reading `lines` of the rollout at `path`, all of which decoded.
pub open spec fn state_after(path: Seq<char>, lines: Seq<JsonValue>) -> CollectState
    decreases lines.len(),
{
    if lines.len() == 0 {
        CollectState { turn: None, records: empty_records() }
    } else {
        step(state_after(path, lines.drop_last()), path, lines.len() as u64, lines.last())
    }
}

/// Index of the first line that did not decode, if any.
pub open spec fn first_undecoded(lines: Seq<Result<JsonValue, String>>) -> Option<int>
    decreases lines.len(),
{
    if lines.len() == 0 {
        None
    } else {
        match first_undecoded(lines.drop_last()) {
            Some(i) => Some(i),
            None => if lines.last() is Err {
                Some(lines.len() - 1)
            } else {
                None
            },
        }
    }
}

pub open spec fn decoded_values(lines: Seq<Result<JsonValue, String>>) -> Seq<JsonValue> {
    lines.map_values(|l: Result<JsonValue, String>| l->Ok_0)
}

// ---------------------------------------------------------------------------
// Executable reading of one line
// ---------------------------------------------------------------------------

enum LineItem {
    TurnStarted(String),
    TurnComplete(String),
    TurnAborted(Option<String>),
    UnknownResponse,
    Call {
        kind: ToolKind,
        namespace: Option<String>,
        name: String,
        payload: String,
        call_id: String,
        turn_id: Option<String>,
    },
    Output { kind: ToolKind, call_id: String, body: ToolResultBody, turn_id: Option<String> },
    Other,
}

impl View for LineItem {
    type V = LineItemModel;

    closed spec fn view(&self) -> LineItemModel {
        match self {
            LineItem::TurnStarted(id) => LineItemModel::TurnStarted(id@),
            LineItem::TurnComplete(id) => LineItemModel::TurnComplete(id@),
            LineItem::TurnAborted(id) => LineItemModel::TurnAborted(opt_view(*id)),
            LineItem::UnknownResponse => LineItemModel::UnknownResponse,
            LineItem::Call { kind, namespace, name, payload, call_id, turn_id } => LineItemModel::Call {
                kind: *kind,
                namespace: opt_view(*namespace),
                name: name@,
                payload: payload@,
                call_id: call_id@,
                turn_id: opt_view(*turn_id),
            },
            LineItem::Output { kind, call_id, body, turn_id } => LineItemModel::Output {
                kind: *kind,
                call_id: call_id@,
                body: body@,
                turn_id: opt_view(*turn_id),
            },
            LineItem::Other => LineItemModel::Other,
        }
    }
}

spec fn opt_line_item_view(o: Option<LineItem>) -> Option<LineItemModel> {
    match o {
        Some(x) => Some(x@),
        None => None,
    }
}

fn is_known_event_name(t: &str) -> (r: bool)
    ensures
        r == is_known_event(t@),
{
    str_eq(t, "error")
        || str_eq(t, "warning")
        || str_eq(t, "task_started")
        || str_eq(t, "task_complete")
        || str_eq(t, "token_count")
        || str_eq(t, "agent_message")
        || str_eq(t, "user_message")
        || str_eq(t, "agent_message_delta")
        || str_eq(t, "agent_reasoning")
        || str_eq(t, "agent_reasoning_delta")
        || str_eq(t, "agent_reasoning_raw_content")
        || str_eq(t, "agent_reasoning_section_break")
        || str_eq(t, "session_configured")
        || str_eq(t, "mcp_tool_call_begin")
        || str_eq(t, "mcp_tool_call_end")
        || str_eq(t, "web_search_begin")
        || str_eq(t, "web_search_end")
        || str_eq(t, "exec_command_begin")
        || str_eq(t, "exec_command_output_delta")
        || str_eq(t, "exec_command_end")
        || str_eq(t, "view_image_tool_call")
        || str_eq(t, "exec_approval_request")
        || str_eq(t, "apply_patch_approval_request")
        || str_eq(t, "background_event")
        || str_eq(t, "stream_error")
        || str_eq(t, "patch_apply_begin")
        || str_eq(t, "patch_apply_end")
        || str_eq(t, "turn_diff")
        || str_eq(t, "plan_update")
        || str_eq(t, "shutdown_complete")
        || str_eq(t, "entered_review_mode")
        || str_eq(t, "exited_review_mode")
        || str_eq(t, "context_compacted")
        || str_eq(t, "item_started")
        || str_eq(t, "item_completed")
        || str_eq(t, "deprecation_notice")
        || str_eq(t, "undo_started")
        || str_eq(t, "undo_completed")
}

fn is_known_response_name(t: &str) -> (r: bool)
    ensures
        r == is_known_response(t@),
{
    str_eq(t, "message")
        || str_eq(t, "reasoning")
        || str_eq(t, "local_shell_call")
        || str_eq(t, "web_search_call")
        || str_eq(t, "image_generation_call")
        || str_eq(t, "ghost_snapshot")
        || str_eq(t, "compaction")
        || str_eq(t, "tool_search_call")
        || str_eq(t, "tool_search_output")
}

fn is_other_rollout_name(t: &str) -> (r: bool)
    ensures
        r == is_other_rollout_type(t@),
{
    str_eq(t, "session_meta")
        || str_eq(t, "compacted")
        || str_eq(t, "turn_context")
        || str_eq(t, "inter_agent_communication")
        || str_eq(t, "inter_agent_communication_metadata")
        || str_eq(t, "world_state")
}

fn opt_clone(o: Option<&String>) -> (r: Option<String>)
    ensures
        match o {
            Some(s) => r == Some(*s),
            None => r is None,
        },
{
    match o {
        Some(s) => Some(s.clone()),
        None => None,
    }
}

fn read_item(v: &JsonValue) -> (r: Option<FunctionCallOutputContentItem>)
    ensures
        match r {
            Some(i) => item_model(*v) == Some(i@),
            None => item_model(*v) is None,
        },
{
    let t = get_str(v, "type");
    match t {
        Some(t) => {
            if str_eq(t.as_str(), "input_text") {
                match get_str(v, "text") {
                    Some(text) => Some(FunctionCallOutputContentItem::InputText { text: text.clone() }),
                    None => None,
                }
            } else if str_eq(t.as_str(), "input_image") {
                let url = get_str(v, "image_url");
                let detail = get_optional_str(v, "detail");
                match (url, detail) {
                    (Some(url), Some(detail)) => Some(
                        FunctionCallOutputContentItem::InputImage { image_url: url.clone(), detail },
                    ),
                    _ => None,
                }
            } else {
                None
            }
        },
        None => None,
    }
}

fn read_items(a: &Vec<JsonValue>) -> (r: Option<Vec<FunctionCallOutputContentItem>>)
    ensures
        match r {
            Some(items) => items_model(a@) == Some(items_view(items@)),
            None => items_model(a@) is None,
        },
{
    let mut out: Vec<FunctionCallOutputContentItem> = Vec::new();
    let mut i: usize = 0;
    assert(a@.take(0) =~= Seq::<JsonValue>::empty());
    while i < a.len()
        invariant
            i <= a@.len(),
            items_model(a@.take(i as int)) == Some(items_view(out@)),
        decreases a@.len() - i,
    {
        assert(a@.take(i + 1).drop_last() =~= a@.take(i as int));
        assert(a@.take(i + 1).last() == a@[i as int]);
        match read_item(&a[i]) {
            Some(item) => {
                let ghost before = out@;
                out.push(item);
                assert(items_view(out@) =~= items_view(before).push(item@));
            },
            None => {
                proof {
                    lemma_items_model_none_extends(a@, i as int + 1);
                }
                return None;
            },
        }
        i = i + 1;
    }
    assert(a@.take(i as int) =~= a@);
    Some(out)
}

proof fn lemma_items_model_none_extends(a: Seq<JsonValue>, k: int)
    requires
        0 <= k <= a.len(),
        items_model(a.take(k)) is None,
    ensures
        items_model(a) is None,
    decreases a.len() - k,
{
    if k < a.len() {
        assert(a.take(k + 1).drop_last() =~= a.take(k));
        lemma_items_model_none_extends(a, k + 1);
    } else {
        assert(a.take(k) =~= a);
    }
}

fn read_output_body(p: &JsonValue) -> (r: Option<ToolResultBody>)
    ensures
        match r {
            Some(b) => output_body(*p) == Some(b@),
            None => output_body(*p) is None,
        },
{
    match get_member(p, "output") {
        Some(JsonValue::String(s)) => Some(ToolResultBody::Text(s.clone())),
        Some(JsonValue::Array(a)) => match read_items(a) {
            Some(items) => Some(ToolResultBody::ContentItems(items)),
            None => None,
        },
        _ => None,
    }
}

fn read_response_turn_id(p: &JsonValue) -> (r: Option<String>)
    ensures
        opt_view(r) == response_turn_id(*p),
{
    match get_member(p, "internal_chat_message_metadata_passthrough") {
        Some(meta) => opt_clone(get_str(meta, "turn_id")),
        None => None,
    }
}

fn read_call(p: &JsonValue, kind: ToolKind, payload_key: &str) -> (r: Option<LineItem>)
    ensures
        opt_line_item_view(r) == classify_call(*p, kind, payload_key@),
{
    let name = get_str(p, "name");
    let payload = get_str(p, payload_key);
    let call_id = get_str(p, "call_id");
    let namespace = get_optional_str(p, "namespace");
    match (name, payload, call_id, namespace) {
        (Some(name), Some(payload), Some(call_id), Some(namespace)) => Some(
            LineItem::Call {
                kind,
                namespace,
                name: name.clone(),
                payload: payload.clone(),
                call_id: call_id.clone(),
                turn_id: read_response_turn_id(p),
            },
        ),
        _ => None,
    }
}

fn read_output(p: &JsonValue, kind: ToolKind) -> (r: Option<LineItem>)
    ensures
        opt_line_item_view(r) == classify_output(*p, kind),
{
    let call_id = get_str(p, "call_id");
    let body = read_output_body(p);
    match (call_id, body) {
        (Some(call_id), Some(body)) => Some(
            LineItem::Output {
                kind,
                call_id: call_id.clone(),
                body,
                turn_id: read_response_turn_id(p),
            },
        ),
        _ => None,
    }
}

fn read_response(p: &JsonValue) -> (r: Option<LineItem>)
    ensures
        opt_line_item_view(r) == classify_response(*p),
{
    match get_str(p, "type") {
        None => None,
        Some(t) => {
            let t = t.as_str();
            if str_eq(t, "function_call") {
                read_call(p, ToolKind::Function, "arguments")
            } else if str_eq(t, "custom_tool_call") {
                read_call(p, ToolKind::Custom, "input")
            } else if str_eq(t, "function_call_output") {
                read_output(p, ToolKind::Function)
            } else if str_eq(t, "custom_tool_call_output") {
                read_output(p, ToolKind::Custom)
            } else if is_known_response_name(t) {
                Some(LineItem::Other)
            } else {
                Some(LineItem::UnknownResponse)
            }
        },
    }
}

fn read_event(p: &JsonValue) -> (r: Option<LineItem>)
    ensures
        opt_line_item_view(r) == classify_event(*p),
{
    match get_str(p, "type") {
        None => None,
        Some(t) => {
            let t = t.as_str();
            if str_eq(t, "turn_started") {
                match get_str(p, "turn_id") {
                    Some(id) => Some(LineItem::TurnStarted(id.clone())),
                    None => None,
                }
            } else if str_eq(t, "turn_complete") {
                match get_str(p, "turn_id") {
                    Some(id) => Some(LineItem::TurnComplete(id.clone())),
                    None => None,
                }
            } else if str_eq(t, "turn_aborted") {
                match get_optional_str(p, "turn_id") {
                    Some(id) => Some(LineItem::TurnAborted(id)),
                    None => None,
                }
            } else if is_known_event_name(t) {
                Some(LineItem::Other)
            } else {
                None
            }
        },
    }
}

fn read_item_of_type(ty: &str, p: &JsonValue) -> (r: Option<LineItem>)
    ensures
        opt_line_item_view(r) == classify_item(ty@, *p),
{
    if str_eq(ty, "event_msg") {
        read_event(p)
    } else if str_eq(ty, "response_item") {
        read_response(p)
    } else if is_other_rollout_name(ty) {
        Some(LineItem::Other)
    } else {
        None
    }
}

fn read_ordinal_field(v: &JsonValue) -> (r: Option<Option<u64>>)
    ensures
        r == ordinal_field(*v),
{
    match get_member(v, "ordinal") {
        None => Some(None),
        Some(JsonValue::Null) => Some(None),
        Some(JsonValue::Number(n)) => match n.as_u64 {
            Some(x) => Some(Some(x)),
            None => None,
        },
        _ => None,
    }
}

fn read_loose_ordinal(v: &JsonValue) -> (r: Option<u64>)
    ensures
        r == loose_ordinal(*v),
{
    match get_member(v, "ordinal") {
        Some(JsonValue::Number(n)) => n.as_u64,
        _ => None,
    }
}

fn read_loose_timestamp(v: &JsonValue) -> (r: String)
    ensures
        r@ == loose_timestamp(*v),
{
    match get_str(v, "timestamp") {
        Some(s) => s.clone(),
        None => String::new(),
    }
}

enum LineRead {
    NotRollout,
    Rollout { timestamp: String, ordinal: Option<u64>, item: LineItem },
}

spec fn line_read_matches(r: LineRead, m: LineModel) -> bool {
    match (r, m) {
        (LineRead::NotRollout, LineModel::NotRollout) => true,
        (
            LineRead::Rollout { timestamp, ordinal, item },
            LineModel::Rollout { timestamp: t, ordinal: o, item: i },
        ) => timestamp@ == t && ordinal == o && item@ == i,
        _ => false,
    }
}

fn read_line(v: &JsonValue) -> (r: LineRead)
    ensures
        line_read_matches(r, classify_line(*v)),
{
    reveal(classify_line);
    let timestamp = get_str(v, "timestamp");
    let ordinal = read_ordinal_field(v);
    let ty = get_str(v, "type");
    let payload = get_member(v, "payload");
    match (timestamp, ordinal, ty, payload) {
        (Some(timestamp), Some(ordinal), Some(ty), Some(p)) => match read_item_of_type(
            ty.as_str(),
            p,
        ) {
            Some(item) => LineRead::Rollout { timestamp: timestamp.clone(), ordinal, item },
            None => LineRead::NotRollout,
        },
        _ => LineRead::NotRollout,
    }
}

// ---------------------------------------------------------------------------
// Executable pairing
// ---------------------------------------------------------------------------

fn clone_opt(o: &Option<String>) -> (r: Option<String>)
    ensures
        r == *o,
{
    match o {
        Some(s) => Some(s.clone()),
        None => None,
    }
}

fn opt_str_eq(a: &Option<String>, b: &Option<String>) -> (r: bool)
    ensures
        r == (opt_view(*a) == opt_view(*b)),
{
    match (a, b) {
        (None, None) => true,
        (Some(x), Some(y)) => str_eq(x.as_str(), y.as_str()),
        _ => false,
    }
}

spec fn calls_view(calls: Seq<ToolCallRecord>) -> Seq<CallModel> {
    calls.map_values(|c: ToolCallRecord| c@)
}

proof fn lemma_last_call_index_skip(
    calls: Seq<CallModel>,
    turn_id: Option<Seq<char>>,
    call_id: Seq<char>,
    k: int,
)
    requires
        0 < k <= calls.len(),
        !(calls[k - 1].turn_id == turn_id && calls[k - 1].call_id == call_id),
    ensures
        last_call_index(calls.take(k), turn_id, call_id) == last_call_index(
            calls.take(k - 1),
            turn_id,
            call_id,
        ),
{
    assert(calls.take(k).drop_last() =~= calls.take(k - 1));
}

fn find_last_call(calls: &Vec<ToolCallRecord>, turn_id: &Option<String>, call_id: &String) -> (r:
    Option<usize>)
    ensures
        match r {
            Some(i) => last_call_index(calls_view(calls@), opt_view(*turn_id), call_id@) == Some(
                i as int,
            ) && i < calls@.len(),
            None => last_call_index(calls_view(calls@), opt_view(*turn_id), call_id@) is None,
        },
{
    let ghost cv = calls_view(calls@);
    let mut k = calls.len();
    assert(cv.take(k as int) =~= cv);
    while k > 0
        invariant
            k <= calls@.len(),
            cv == calls_view(calls@),
            last_call_index(cv, opt_view(*turn_id), call_id@) == last_call_index(
                cv.take(k as int),
                opt_view(*turn_id),
                call_id@,
            ),
        decreases k,
    {
        let c = &calls[k - 1];
        assert(cv[k - 1] == c@);
        if opt_str_eq(&c.turn_id, turn_id) && str_eq(c.call_id.as_str(), call_id.as_str()) {
            assert(cv.take(k as int).last() == cv[k - 1]);
            return Some(k - 1);
        }
        proof {
            lemma_last_call_index_skip(cv, opt_view(*turn_id), call_id@, k as int);
        }
        k = k - 1;
    }
    None
}

fn take_output(v: JsonValue) -> (r: JsonValue)
    ensures
        r == output_raw(v),
{
    match take_member(v, "payload") {
        Some(p) => match take_member(p, "output") {
            Some(o) => o,
            None => JsonValue::Null,
        },
        None => JsonValue::Null,
    }
}

struct Collector {
    records: SessionToolRecords,
    current_turn_id: Option<String>,
}

impl View for Collector {
    type V = CollectState;

    closed spec fn view(&self) -> CollectState {
        CollectState { turn: opt_view(self.current_turn_id), records: self.records@ }
    }
}

impl Collector {
    fn ingest(&mut self, path: &String, line: u64, v: JsonValue)
        ensures
            final(self)@ == step(old(self)@, path@, line, v),
    {
        reveal(step);
        let ghost st = self@;
        let read = read_line(&v);
        match read {
            LineRead::NotRollout => {
                let source = RecordSource {
                    path: path.clone(),
                    line,
                    ordinal: read_loose_ordinal(&v),
                    timestamp: read_loose_timestamp(&v),
                };
                let record = UnknownRolloutRecord { raw: v, source };
                let ghost before = self.records.unknown_records@;
                self.records.unknown_records.push(record);
                proof {
                    assert(self.records.unknown_records@.map_values(|u: UnknownRolloutRecord| u@)
                        =~= before.map_values(|u: UnknownRolloutRecord| u@).push(record@));
                    assert(self.records@ == RecordsModel {
                        unknown: st.records.unknown.push(record@),
                        ..st.records
                    });
                }
            },
            LineRead::Rollout { timestamp, ordinal, item } => {
                let source = RecordSource { path: path.clone(), line, ordinal, timestamp };
                match item {
                    LineItem::TurnStarted(id) => {
                        self.current_turn_id = Some(id);
                    },
                    LineItem::TurnComplete(id) => {
                        let id = Some(id);
                        if opt_str_eq(&self.current_turn_id, &id) {
                            self.current_turn_id = None;
                        }
                    },
                    LineItem::TurnAborted(id) => {
                        if id.is_none() || opt_str_eq(&self.current_turn_id, &id) {
                            self.current_turn_id = None;
                        }
                    },
                    LineItem::UnknownResponse => {
                        let record = UnknownRolloutRecord { raw: v, source };
                        let ghost before = self.records.unknown_records@;
                        self.records.unknown_records.push(record);
                        proof {
                            assert(self.records.unknown_records@.map_values(
                                |u: UnknownRolloutRecord| u@,
                            ) =~= before.map_values(|u: UnknownRolloutRecord| u@).push(record@));
                            assert(self.records@ == RecordsModel {
                                unknown: st.records.unknown.push(record@),
                                ..st.records
                            });
                        }
                    },
                    LineItem::Call { kind, namespace, name, payload, call_id, turn_id } => {
                        let turn_id = match turn_id {
                            Some(t) => Some(t),
                            None => clone_opt(&self.current_turn_id),
                        };
                        let parsed_json = match parse_json_text(payload.as_str()) {
                            Ok(value) => Some(value),
                            Err(_) => None,
                        };
                        let record = ToolCallRecord {
                            turn_id,
                            call_id,
                            tool: ToolIdentity { kind, namespace, name },
                            arguments: RawPayload { raw: payload, parsed_json },
                            result: None,
                            completeness: Completeness::Unknown,
                            call_source: source,
                            result_source: None,
                        };
                        let ghost before = self.records.calls@;
                        self.records.calls.push(record);
                        proof {
                            assert(calls_view(self.records.calls@) =~= calls_view(before).push(
                                record@,
                            ));
                            assert(self.records@ == RecordsModel {
                                calls: st.records.calls.push(record@),
                                ..st.records
                            });
                        }
                    },
                    LineItem::Output { kind, call_id, body, turn_id } => {
                        let turn_id = match turn_id {
                            Some(t) => Some(t),
                            None => clone_opt(&self.current_turn_id),
                        };
                        let raw = take_output(v);
                        let result = ToolResult { raw, body };
                        let completeness = assess_tool_result(&result);
                        let found = find_last_call(&self.records.calls, &turn_id, &call_id);
                        let matched = match found {
                            Some(i) => self.records.calls[i].tool.kind == kind,
                            None => false,
                        };
                        if matched {
                            let i = found.unwrap();
                            let ghost before = self.records.calls@;
                            let mut call = self.records.calls.remove(i);
                            call.result = Some(result);
                            call.completeness = completeness;
                            call.result_source = Some(source);
                            self.records.calls.insert(i, call);
                            proof {
                                assert(self.records.calls@ =~= before.update(i as int, call));
                                assert(calls_view(self.records.calls@) =~= calls_view(
                                    before,
                                ).update(i as int, call@));
                                assert(self.records@ == RecordsModel {
                                    calls: st.records.calls.update(i as int, call@),
                                    ..st.records
                                });
                            }
                        } else {
                            let orphan = OrphanToolOutput {
                                turn_id,
                                call_id,
                                kind,
                                result,
                                completeness,
                                source,
                            };
                            let ghost before = self.records.orphan_outputs@;
                            self.records.orphan_outputs.push(orphan);
                            proof {
                                assert(self.records.orphan_outputs@.map_values(
                                    |o: OrphanToolOutput| o@,
                                ) =~= before.map_values(|o: OrphanToolOutput| o@).push(orphan@));
                                assert(self.records@ == RecordsModel {
                                    orphans: st.records.orphans.push(orphan@),
                                    ..st.records
                                });
                            }
                        }
                    },
                    LineItem::Other => {},
                }
            },
        }
    }
}

proof fn lemma_first_undecoded_extends(lines: Seq<Result<JsonValue, String>>, k: int, i: int)
    requires
        0 <= k <= lines.len(),
        first_undecoded(lines.take(k)) == Some(i),
    ensures
        first_undecoded(lines) == Some(i),
    decreases lines.len() - k,
{
    if k < lines.len() {
        assert(lines.take(k + 1).drop_last() =~= lines.take(k));
        lemma_first_undecoded_extends(lines, k + 1, i);
    } else {
        assert(lines.take(k) =~= lines);
    }
}

/// Reads function and custom tool records from the decoded lines of a rollout.
///
/// `lines[i]` is line `i + 1` of the file at `path`: its decoded JSON, or the
/// decoder's message when it is not JSON. The first line that is not JSON
/// stops the reading with `InvalidJson` naming that line.
pub fn collect_tool_records(path: String, lines: Vec<Result<JsonValue, String>>) -> (r: Result<
    SessionToolRecords,
    SessionInspectorError,
>)
    requires
        lines@.len() < u64::MAX,
    ensures
        match first_undecoded(lines@) {
            Some(i) => match r {
                Err(SessionInspectorError::InvalidJson { path: p, line, message }) => p@ == path@
                    && line == i + 1 && message == lines@[i]->Err_0,
                _ => false,
            },
            None => match r {
                Ok(records) => records@ == state_after(path@, decoded_values(lines@)).records,
                Err(_) => false,
            },
        },
{
    let ghost orig = lines@;
    let n = lines.len();
    let mut remaining = lines;
    let mut rev: Vec<Result<JsonValue, String>> = Vec::new();
    while remaining.len() > 0
        invariant
            n == orig.len(),
            orig == lines@,
            remaining@ == orig.take(n - rev@.len()),
            rev@.len() <= n,
            forall|k: int| 0 <= k < rev@.len() ==> #[trigger] rev@[k] == orig[n - 1 - k],
        decreases remaining@.len(),
    {
        let x = remaining.pop().unwrap();
        rev.push(x);
        assert(remaining@ =~= orig.take(n - rev@.len()));
    }
    let mut collector = Collector {
        records: SessionToolRecords {
            calls: Vec::new(),
            orphan_outputs: Vec::new(),
            unknown_records: Vec::new(),
        },
        current_turn_id: None,
    };
    proof {
        assert(orig.take(0) =~= Seq::<Result<JsonValue, String>>::empty());
        assert(decoded_values(orig.take(0)) =~= Seq::<JsonValue>::empty());
        assert(collector@.records.calls =~= Seq::<CallModel>::empty());
        assert(collector@.records.orphans =~= Seq::<OrphanModel>::empty());
        assert(collector@.records.unknown =~= Seq::<UnknownModel>::empty());
    }
    let mut line_number: u64 = 0;
    while rev.len() > 0
        invariant
            n == orig.len(),
            orig == lines@,
            n < u64::MAX,
            line_number as int + rev@.len() == n,
            forall|k: int| 0 <= k < rev@.len() ==> #[trigger] rev@[k] == orig[n - 1 - k],
            first_undecoded(orig.take(line_number as int)) is None,
            collector@ == state_after(path@, decoded_values(orig.take(line_number as int))),
        decreases rev@.len(),
    {
        let i = line_number;
        let x = rev.pop().unwrap();
        assert(x == orig[i as int]);
        line_number = line_number + 1;
        let ghost pre = orig.take(i as int);
        let ghost now = orig.take(line_number as int);
        assert(now.drop_last() =~= pre);
        assert(now.last() == x);
        match x {
            Err(message) => {
                proof {
                    assert(first_undecoded(now) == Some(i as int));
                    lemma_first_undecoded_extends(orig, line_number as int, i as int);
                }
                return Err(SessionInspectorError::InvalidJson { path, line: line_number, message });
            },
            Ok(v) => {
                proof {
                    assert(decoded_values(now).drop_last() =~= decoded_values(pre));
                    assert(decoded_values(now).last() == v);
                }
                collector.ingest(&path, line_number, v);
            },
        }
    }
    assert(orig.take(n as int) =~= orig);
    Ok(collector.records)
}

/// Index of the first raw line that is not JSON, if any.
pub open spec fn first_invalid_line(raw: Seq<String>) -> Option<int>
    decreases raw.len(),
{
    if raw.len() == 0 {
        None
    } else {
        match first_invalid_line(raw.drop_last()) {
            Some(i) => Some(i),
            None => if !json_text_is_valid(raw.last()@) {
                Some(raw.len() - 1)
            } else {
                None
            },
        }
    }
}

/// The decoded documents of raw lines that are all JSON.
pub open spec fn decoded_documents(raw: Seq<String>) -> Seq<JsonValue> {
    raw.map_values(|t: String| document_json_value(parsed_json_document(t@)))
}

proof fn lemma_first_invalid_extends(raw: Seq<String>, k: int, i: int)
    requires
        0 <= k <= raw.len(),
        first_invalid_line(raw.take(k)) == Some(i),
    ensures
        first_invalid_line(raw) == Some(i),
    decreases raw.len() - k,
{
    if k < raw.len() {
        assert(raw.take(k + 1).drop_last() =~= raw.take(k));
        lemma_first_invalid_extends(raw, k + 1, i);
    } else {
        assert(raw.take(k) =~= raw);
    }
}

proof fn lemma_all_decoded(lines: Seq<Result<JsonValue, String>>)
    requires
        forall|k: int| 0 <= k < lines.len() ==> (#[trigger] lines[k]) is Ok,
    ensures
        first_undecoded(lines) is None,
    decreases lines.len(),
{
    if lines.len() > 0 {
        lemma_all_decoded(lines.drop_last());
    }
}

/// Reads function and custom tool records from the raw lines of a rollout.
///
/// `raw_lines[i]` is line `i + 1` of the file at `path`. Each line is decoded
/// as JSON; the first line that is not JSON stops the reading with
/// `InvalidJson` naming that line and carrying the decoder's message.
pub fn read_rollout_lines(path: String, raw_lines: Vec<String>) -> (r: Result<
    SessionToolRecords,
    SessionInspectorError,
>)
    requires
        raw_lines@.len() < u64::MAX,
    ensures
        match first_invalid_line(raw_lines@) {
            Some(i) => match r {
                Err(SessionInspectorError::InvalidJson { path: p, line, message }) => p@ == path@
                    && line == i + 1 && message@ == json_error_text(raw_lines@[i]@),
                _ => false,
            },
            None => match r {
                Ok(records) => records@ == state_after(path@, decoded_documents(raw_lines@)).records,
                Err(_) => false,
            },
        },
{
    let ghost raw = raw_lines@;
    let n = raw_lines.len();
    let mut lines: Vec<Result<JsonValue, String>> = Vec::new();
    let mut i: usize = 0;
    assert(raw.take(0) =~= Seq::<String>::empty());
    while i < n
        invariant
            n == raw.len(),
            raw == raw_lines@,
            n < u64::MAX,
            i <= n,
            lines@.len() == i,
            first_invalid_line(raw.take(i as int)) is None,
            forall|k: int|
                0 <= k < i ==> #[trigger] lines@[k] == Ok::<JsonValue, String>(
                    document_json_value(parsed_json_document(raw[k]@)),
                ),
        decreases n - i,
    {
        let ghost t = raw.take(i + 1);
        assert(t.drop_last() =~= raw.take(i as int));
        assert(t.last() == raw[i as int]);
        match decode_rollout_line(raw_lines[i].as_str()) {
            Ok(v) => {
                lines.push(Ok(v));
            },
            Err(message) => {
                proof {
                    assert(first_invalid_line(t) == Some(i as int));
                    lemma_first_invalid_extends(raw, i + 1, i as int);
                }
                return Err(
                    SessionInspectorError::InvalidJson { path, line: (i + 1) as u64, message },
                );
            },
        }
        i = i + 1;
    }
    proof {
        assert(raw.take(n as int) =~= raw);
        lemma_all_decoded(lines@);
        assert(decoded_values(lines@) =~= decoded_documents(raw));
    }
    collect_tool_records(path, lines)
}

// ---------------------------------------------------------------------------
// Laws of the pairing
// ---------------------------------------------------------------------------

/// Completeness agrees with what was persisted: a call without a result is
/// `Unknown`, a call or orphan with a result carries the assessment of that
/// result's body.
pub open spec fn completeness_consistent(r: RecordsModel) -> bool {
    &&& forall|i: int|
        0 <= i < r.calls.len() ==> match (#[trigger] r.calls[i]).result {
            None => r.calls[i].completeness == CompletenessModel::Unknown
                && r.calls[i].result_source is None,
            Some(res) => r.calls[i].completeness == assess_body(res.body)
                && r.calls[i].result_source is Some,
        }
    &&& forall|i: int|
        0 <= i < r.orphans.len() ==> (#[trigger] r.orphans[i]).completeness == assess_body(
            r.orphans[i].result.body,
        )
}

/// `true` when the line is read as a tool call.
pub open spec fn is_call_line(v: JsonValue) -> bool {
    classify_line(v) matches LineModel::Rollout { item: LineItemModel::Call { .. }, .. }
}

/// `true` when the line is kept verbatim as an unknown record.
pub open spec fn is_unknown_line(v: JsonValue) -> bool {
    ||| classify_line(v) is NotRollout
    ||| classify_line(v) matches LineModel::Rollout { item: LineItemModel::UnknownResponse, .. }
}

pub open spec fn count_calls(lines: Seq<JsonValue>) -> nat
    decreases lines.len(),
{
    if lines.len() == 0 {
        0
    } else {
        count_calls(lines.drop_last()) + if is_call_line(lines.last()) {
            1nat
        } else {
            0nat
        }
    }
}

pub open spec fn unknown_lines(lines: Seq<JsonValue>) -> Seq<JsonValue>
    decreases lines.len(),
{
    if lines.len() == 0 {
        Seq::empty()
    } else if is_unknown_line(lines.last()) {
        unknown_lines(lines.drop_last()).push(lines.last())
    } else {
        unknown_lines(lines.drop_last())
    }
}

proof fn lemma_step_consistent(st: CollectState, path: Seq<char>, line: u64, v: JsonValue)
    requires
        completeness_consistent(st.records),
    ensures
        completeness_consistent(step(st, path, line, v).records),
{
    reveal(step);
    let r0 = st.records;
    let r = step(st, path, line, v).records;
    match classify_line(v) {
        LineModel::NotRollout => {
            assert(r.calls == r0.calls && r.orphans == r0.orphans);
        },
        LineModel::Rollout { timestamp, ordinal, item } => {
            match item {
                LineItemModel::Call { .. } => {
                    assert(r.orphans == r0.orphans);
                    assert forall|i: int| 0 <= i < r.calls.len() implies match (
                    #[trigger] r.calls[i]).result {
                        None => r.calls[i].completeness == CompletenessModel::Unknown
                            && r.calls[i].result_source is None,
                        Some(res) => r.calls[i].completeness == assess_body(res.body)
                            && r.calls[i].result_source is Some,
                    } by {
                        if i < r0.calls.len() {
                            assert(r.calls[i] == r0.calls[i]);
                        }
                    }
                },
                LineItemModel::Output { kind, call_id, body, turn_id } => {
                    let t = or_else(turn_id, st.turn);
                    lemma_last_call_index_bounds(r0.calls, t, call_id);
                    match last_call_index(r0.calls, t, call_id) {
                        Some(k) if r0.calls[k].kind == kind => {
                            assert(r.orphans == r0.orphans);
                            assert forall|i: int| 0 <= i < r.calls.len() implies match (
                            #[trigger] r.calls[i]).result {
                                None => r.calls[i].completeness == CompletenessModel::Unknown
                                    && r.calls[i].result_source is None,
                                Some(res) => r.calls[i].completeness == assess_body(res.body)
                                    && r.calls[i].result_source is Some,
                            } by {
                                if i != k {
                                    assert(r.calls[i] == r0.calls[i]);
                                }
                            }
                        },
                        _ => {
                            assert(r.calls == r0.calls);
                            assert forall|i: int| 0 <= i < r.orphans.len() implies (
                            #[trigger] r.orphans[i]).completeness == assess_body(
                                r.orphans[i].result.body,
                            ) by {
                                if i < r0.orphans.len() {
                                    assert(r.orphans[i] == r0.orphans[i]);
                                }
                            }
                        },
                    }
                },
                _ => {
                    assert(r.calls == r0.calls && r.orphans == r0.orphans);
                },
            }
        },
    }
}

/// Every line read, whatever it is, keeps the records consistent (see
/// [`completeness_consistent`]): open calls stay `Unknown`, and every
/// persisted result carries its own assessment.
pub proof fn lemma_completeness_consistent(path: Seq<char>, lines: Seq<JsonValue>)
    ensures
        completeness_consistent(state_after(path, lines).records),
    decreases lines.len(),
{
    if lines.len() > 0 {
        lemma_completeness_consistent(path, lines.drop_last());
        lemma_step_consistent(
            state_after(path, lines.drop_last()),
            path,
            lines.len() as u64,
            lines.last(),
        );
    }
}

proof fn lemma_step_retained(st: CollectState, path: Seq<char>, line: u64, v: JsonValue)
    ensures
        step(st, path, line, v).records.calls.len() == st.records.calls.len() + if is_call_line(v) {
            1int
        } else {
            0int
        },
        is_unknown_line(v) ==> step(st, path, line, v).records.unknown.map_values(
            |u: UnknownModel| u.raw,
        ) == st.records.unknown.map_values(|u: UnknownModel| u.raw).push(v),
        !is_unknown_line(v) ==> step(st, path, line, v).records.unknown == st.records.unknown,
{
    reveal(step);
    let r0 = st.records;
    let r = step(st, path, line, v).records;
    match classify_line(v) {
        LineModel::NotRollout => {},
        LineModel::Rollout { timestamp, ordinal, item } => {
            match item {
                LineItemModel::Output { kind, call_id, body, turn_id } => {
                    let t = or_else(turn_id, st.turn);
                    lemma_last_call_index_bounds(r0.calls, t, call_id);
                    match last_call_index(r0.calls, t, call_id) {
                        Some(k) if r0.calls[k].kind == kind => {
                            assert(r.calls.len() == r0.calls.len());
                        },
                        _ => {
                            assert(r.calls == r0.calls);
                        },
                    }
                },
                LineItemModel::Call { .. } => {
                    assert(r.calls.len() == r0.calls.len() + 1);
                },
                _ => {
                    assert(r.calls == r0.calls);
                },
            }
        },
    }
    if is_unknown_line(v) {
        assert(r.unknown.map_values(|u: UnknownModel| u.raw) =~= r0.unknown.map_values(
            |u: UnknownModel| u.raw,
        ).push(v));
    }
}

/// Nothing is dropped: one call record per call line, in order of reading,
/// and every line that is not a recognizable record, or is a response item of
/// an unknown type, is kept verbatim, in order.
pub proof fn lemma_records_retained(path: Seq<char>, lines: Seq<JsonValue>)
    ensures
        state_after(path, lines).records.calls.len() == count_calls(lines),
        state_after(path, lines).records.unknown.map_values(|u: UnknownModel| u.raw)
            == unknown_lines(lines),
    decreases lines.len(),
{
    if lines.len() == 0 {
        assert(state_after(path, lines).records.unknown.map_values(|u: UnknownModel| u.raw)
            =~= Seq::<JsonValue>::empty());
    } else {
        lemma_records_retained(path, lines.drop_last());
        lemma_step_retained(
            state_after(path, lines.drop_last()),
            path,
            lines.len() as u64,
            lines.last(),
        );
    }
}

/// Every call was read at a line no later than `n`, and a result, when a
/// call has one, was read at a later line than the call, and no later than `n`.
pub open spec fn results_follow_calls(r: RecordsModel, n: int) -> bool {
    forall|i: int|
        0 <= i < r.calls.len() ==> {
            let c = #[trigger] r.calls[i];
            &&& 1 <= c.call_source.line <= n
            &&& match c.result_source {
                Some(rs) => c.call_source.line < rs.line <= n,
                None => true,
            }
        }
}

proof fn lemma_step_follows(st: CollectState, path: Seq<char>, line: u64, v: JsonValue)
    requires
        line >= 1,
        results_follow_calls(st.records, line - 1),
    ensures
        results_follow_calls(step(st, path, line, v).records, line as int),
{
    reveal(step);
    let r0 = st.records;
    let r = step(st, path, line, v).records;
    match classify_line(v) {
        LineModel::NotRollout => {},
        LineModel::Rollout { timestamp, ordinal, item } => {
            match item {
                LineItemModel::Output { kind, call_id, body, turn_id } => {
                    let t = or_else(turn_id, st.turn);
                    lemma_last_call_index_bounds(r0.calls, t, call_id);
                    match last_call_index(r0.calls, t, call_id) {
                        Some(k) if r0.calls[k].kind == kind => {
                            assert forall|i: int| 0 <= i < r.calls.len() implies {
                                let c = #[trigger] r.calls[i];
                                &&& 1 <= c.call_source.line <= line
                                &&& match c.result_source {
                                    Some(rs) => c.call_source.line < rs.line <= line,
                                    None => true,
                                }
                            } by {
                                if i != k {
                                    assert(r.calls[i] == r0.calls[i]);
                                }
                            }
                        },
                        _ => {
                            assert(r.calls == r0.calls);
                        },
                    }
                },
                LineItemModel::Call { .. } => {
                    assert forall|i: int| 0 <= i < r.calls.len() implies {
                        let c = #[trigger] r.calls[i];
                        &&& 1 <= c.call_source.line <= line
                        &&& match c.result_source {
                            Some(rs) => c.call_source.line < rs.line <= line,
                            None => true,
                        }
                    } by {
                        if i < r0.calls.len() {
                            assert(r.calls[i] == r0.calls[i]);
                        }
                    }
                },
                _ => {
                    assert(r.calls == r0.calls);
                },
            }
        },
    }
}

/// Outputs pair only with calls read before them: each call's source line
/// lies within the rollout, and a call's result comes from a later line.
pub proof fn lemma_results_follow_calls(path: Seq<char>, lines: Seq<JsonValue>)
    requires
        lines.len() < u64::MAX,
    ensures
        results_follow_calls(state_after(path, lines).records, lines.len() as int),
    decreases lines.len(),
{
    if lines.len() > 0 {
        lemma_results_follow_calls(path, lines.drop_last());
        lemma_step_follows(
            state_after(path, lines.drop_last()),
            path,
            lines.len() as u64,
            lines.last(),
        );
    }
}

/// The kind and call id of a tool-output line.
pub open spec fn output_identity(v: JsonValue) -> Option<(ToolKind, Seq<char>)> {
    match classify_line(v) {
        LineModel::Rollout { item: LineItemModel::Output { kind, call_id, .. }, .. } => Some(
            (kind, call_id),
        ),
        _ => None,
    }
}

/// Every result a call holds was read from an output line of the call's own
/// kind and call id.
pub open spec fn results_match_calls(r: RecordsModel, lines: Seq<JsonValue>) -> bool {
    forall|i: int|
        0 <= i < r.calls.len() ==> match (#[trigger] r.calls[i]).result_source {
            Some(rs) => 1 <= rs.line <= lines.len() && output_identity(lines[rs.line - 1]) == Some(
                (r.calls[i].kind, r.calls[i].call_id),
            ),
            None => true,
        }
}

proof fn lemma_step_matches(st: CollectState, path: Seq<char>, lines: Seq<JsonValue>)
    requires
        1 <= lines.len() < u64::MAX,
        results_match_calls(st.records, lines.drop_last()),
    ensures
        results_match_calls(
            step(st, path, lines.len() as u64, lines.last()).records,
            lines,
        ),
{
    reveal(step);
    let v = lines.last();
    let line = lines.len() as u64;
    let prev = lines.drop_last();
    let r0 = st.records;
    let r = step(st, path, line, v).records;
    assert forall|i: int|
        0 <= i < r0.calls.len() && r0.calls[i].result_source is Some implies lines[(
        #[trigger] r0.calls[i]).result_source->0.line - 1] == prev[r0.calls[i].result_source->0.line
        - 1] by {}
    match classify_line(v) {
        LineModel::NotRollout => {},
        LineModel::Rollout { timestamp, ordinal, item } => {
            match item {
                LineItemModel::Output { kind, call_id, body, turn_id } => {
                    let t = or_else(turn_id, st.turn);
                    lemma_last_call_index_bounds(r0.calls, t, call_id);
                    match last_call_index(r0.calls, t, call_id) {
                        Some(k) if r0.calls[k].kind == kind => {
                            assert(output_identity(v) == Some((kind, call_id)));
                            assert forall|i: int| 0 <= i < r.calls.len() implies match (
                            #[trigger] r.calls[i]).result_source {
                                Some(rs) => 1 <= rs.line <= lines.len() && output_identity(
                                    lines[rs.line - 1],
                                ) == Some((r.calls[i].kind, r.calls[i].call_id)),
                                None => true,
                            } by {
                                if i != k {
                                    assert(r.calls[i] == r0.calls[i]);
                                }
                            }
                        },
                        _ => {
                            assert(r.calls == r0.calls);
                        },
                    }
                },
                LineItemModel::Call { .. } => {
                    assert forall|i: int| 0 <= i < r.calls.len() implies match (
                    #[trigger] r.calls[i]).result_source {
                        Some(rs) => 1 <= rs.line <= lines.len() && output_identity(
                            lines[rs.line - 1],
                        ) == Some((r.calls[i].kind, r.calls[i].call_id)),
                        None => true,
                    } by {
                        if i < r0.calls.len() {
                            assert(r.calls[i] == r0.calls[i]);
                        }
                    }
                },
                _ => {
                    assert(r.calls == r0.calls);
                },
            }
        },
    }
}

/// Outputs pair with calls of their own kind and call id: whenever a call
/// holds a result, the line it was read from is an output of that kind for
/// that call id.
pub proof fn lemma_results_match_calls(path: Seq<char>, lines: Seq<JsonValue>)
    requires
        lines.len() < u64::MAX,
    ensures
        results_match_calls(state_after(path, lines).records, lines),
    decreases lines.len(),
{
    if lines.len() > 0 {
        lemma_results_match_calls(path, lines.drop_last());
        lemma_step_matches(state_after(path, lines.drop_last()), path, lines);
    }
}

/// Calls are kept in the order of the lines they were read from.
pub open spec fn calls_in_line_order(r: RecordsModel) -> bool {
    forall|i: int, j: int|
        0 <= i < j < r.calls.len() ==> (#[trigger] r.calls[i]).call_source.line
            < (#[trigger] r.calls[j]).call_source.line
}

proof fn lemma_step_order(st: CollectState, path: Seq<char>, line: u64, v: JsonValue)
    requires
        line >= 1,
        results_follow_calls(st.records, line - 1),
        calls_in_line_order(st.records),
    ensures
        calls_in_line_order(step(st, path, line, v).records),
{
    reveal(step);
    let r0 = st.records;
    let r = step(st, path, line, v).records;
    match classify_line(v) {
        LineModel::NotRollout => {},
        LineModel::Rollout { timestamp, ordinal, item } => {
            match item {
                LineItemModel::Output { kind, call_id, body, turn_id } => {
                    let t = or_else(turn_id, st.turn);
                    lemma_last_call_index_bounds(r0.calls, t, call_id);
                    match last_call_index(r0.calls, t, call_id) {
                        Some(k) if r0.calls[k].kind == kind => {
                            assert forall|i: int, j: int|
                                0 <= i < j < r.calls.len() implies (#[trigger] r.calls[i]).call_source.line
                                < (#[trigger] r.calls[j]).call_source.line by {
                                assert(r.calls[i].call_source == r0.calls[i].call_source);
                                assert(r.calls[j].call_source == r0.calls[j].call_source);
                            }
                        },
                        _ => {
                            assert(r.calls == r0.calls);
                        },
                    }
                },
                LineItemModel::Call { .. } => {
                    assert forall|i: int, j: int|
                        0 <= i < j < r.calls.len() implies (#[trigger] r.calls[i]).call_source.line
                        < (#[trigger] r.calls[j]).call_source.line by {
                        assert(r.calls[i] == r0.calls[i]);
                        if j < r0.calls.len() {
                            assert(r.calls[j] == r0.calls[j]);
                        } else {
                            assert(r.calls[j].call_source.line == line);
                            assert(r0.calls[i].call_source.line <= line - 1);
                        }
                    }
                },
                _ => {
                    assert(r.calls == r0.calls);
                },
            }
        },
    }
}

/// Calls come out in the order they were read: their source lines strictly
/// increase.
pub proof fn lemma_calls_in_line_order(path: Seq<char>, lines: Seq<JsonValue>)
    requires
        lines.len() < u64::MAX,
    ensures
        calls_in_line_order(state_after(path, lines).records),
    decreases lines.len(),
{
    if lines.len() > 0 {
        lemma_calls_in_line_order(path, lines.drop_last());
        lemma_results_follow_calls(path, lines.drop_last());
        lemma_step_order(
            state_after(path, lines.drop_last()),
            path,
            lines.len() as u64,
            lines.last(),
        );
    }
}

/// What every read rollout satisfies: a call has no result exactly when it
/// has no result line and its completeness is then `Unknown`; otherwise its
/// completeness is the assessment of its result, read at a later line than
/// the call; every orphan's completeness is the assessment of its result;
/// and calls come out in strictly increasing line order.
pub proof fn lemma_rollout_records_invariants(path: Seq<char>, lines: Seq<JsonValue>)
    requires
        lines.len() < u64::MAX,
    ensures
        completeness_consistent(state_after(path, lines).records),
        results_follow_calls(state_after(path, lines).records, lines.len() as int),
        calls_in_line_order(state_after(path, lines).records),
{
    lemma_completeness_consistent(path, lines);
    lemma_results_follow_calls(path, lines);
    lemma_calls_in_line_order(path, lines);
}

/// The response-item types the rollout protocol defines besides tool calls
/// and outputs.
pub open spec fn protocol_response_types() -> Seq<Seq<char>> {
    seq![
        "message"@,
        "reasoning"@,
        "local_shell_call"@,
        "web_search_call"@,
        "image_generation_call"@,
        "ghost_snapshot"@,
        "compaction"@,
        "tool_search_call"@,
        "tool_search_output"@,
    ]
}

/// A rollout line that carries a response item of one of the protocol's
/// other types (a message, reasoning, ...) is neither a tool record nor an
/// unknown record: reading it leaves everything as it was.
pub proof fn lemma_protocol_response_items_are_skipped(
    st: CollectState,
    path: Seq<char>,
    line: u64,
    v: JsonValue,
    p: JsonValue,
    t: Seq<char>,
)
    requires
        member_str(v, "timestamp"@) is Some,
        ordinal_field(v) is Some,
        member_str(v, "type"@) == Some("response_item"@),
        member(v, "payload"@) == Some(p),
        member_str(p, "type"@) == Some(t),
        protocol_response_types().contains(t),
    ensures
        step(st, path, line, v) == st,
        step(st, path, line, v).records.unknown == st.records.unknown,
        !is_unknown_line(v),
{
    reveal(step);
    reveal(classify_line);
    let ts = protocol_response_types();
    let k = choose|k: int| 0 <= k < ts.len() && ts[k] == t;
    reveal_strlit("function_call");
    reveal_strlit("custom_tool_call");
    reveal_strlit("function_call_output");
    reveal_strlit("custom_tool_call_output");
    reveal_strlit("message");
    reveal_strlit("reasoning");
    reveal_strlit("local_shell_call");
    reveal_strlit("web_search_call");
    reveal_strlit("image_generation_call");
    reveal_strlit("ghost_snapshot");
    reveal_strlit("compaction");
    reveal_strlit("tool_search_call");
    reveal_strlit("tool_search_output");
    reveal_strlit("event_msg");
    reveal_strlit("response_item");
    assert(t.len() != 13 && t.len() != 20 && t.len() != 23 && (t.len() == 16 ==> t[0] != 'c'))
        by {
        assert(ts[k] == t);
        if k == 0 {
        } else if k == 1 {
        } else if k == 2 {
        } else if k == 3 {
        } else if k == 4 {
        } else if k == 5 {
        } else if k == 6 {
        } else if k == 7 {
        } else {
        }
    }
    assert(t != "function_call"@);
    assert("custom_tool_call"@[0] == 'c');
    assert(t != "custom_tool_call"@);
    assert(t != "function_call_output"@);
    assert(t != "custom_tool_call_output"@);
    assert(is_known_response(t));
    assert(classify_response(p) == Some(LineItemModel::Other));
    assert("response_item"@.len() != "event_msg"@.len());
    assert("response_item"@ != "event_msg"@);
    assert(classify_item("response_item"@, p) == Some(LineItemModel::Other));
}

/// The markers of `t` when `i` is a text item; none for media.
pub open spec fn text_item_markers(i: ItemModel) -> Seq<MarkerModel> {
    match i {
        ItemModel::InputText(t) => spec_detect(encode_utf8(t)),
        _ => Seq::empty(),
    }
}

proof fn lemma_items_markers_cover(items: Seq<ItemModel>)
    ensures
        forall|i: int, k: int|
            0 <= i < items.len() && 0 <= k < text_item_markers(items[i]).len()
                ==> items_markers(items).contains(#[trigger] text_item_markers(items[i])[k]),
        forall|j: int|
            0 <= j < items_markers(items).len() ==> exists|i: int|
                0 <= i < items.len() && text_item_markers(items[i]).contains(
                    #[trigger] items_markers(items)[j],
                ),
    decreases items.len(),
{
    if items.len() > 0 {
        let d = items.drop_last();
        lemma_items_markers_cover(d);
        let a = items_markers(d);
        let b = item_markers(items.last());
        assert(items_markers(items) == a + b);
        assert(b == text_item_markers(items.last()));
        assert forall|i: int, k: int|
            0 <= i < items.len() && 0 <= k < text_item_markers(items[i]).len()
                implies items_markers(items).contains(#[trigger] text_item_markers(items[i])[k]) by {
            if i < d.len() {
                assert(items[i] == d[i]);
                let x = text_item_markers(d[i])[k];
                let j = choose|j: int| 0 <= j < a.len() && a[j] == x;
                assert((a + b)[j] == x);
            } else {
                assert((a + b)[a.len() + k] == b[k]);
            }
        }
        assert forall|j: int| 0 <= j < items_markers(items).len() implies exists|i: int|
            0 <= i < items.len() && text_item_markers(items[i]).contains(
                #[trigger] items_markers(items)[j],
            ) by {
            if j < a.len() {
                assert((a + b)[j] == a[j]);
                let i = choose|i: int| 0 <= i < d.len() && text_item_markers(d[i]).contains(a[j]);
                assert(items[i] == d[i]);
            } else {
                assert((a + b)[j] == b[j - a.len()]);
                assert(items[items.len() - 1] == items.last());
                assert(text_item_markers(items[items.len() - 1]).contains(b[j - a.len()]));
            }
        }
    }
}

/// A result made of content items is truncated exactly when one of its text
/// items carries a marker; every marker of every text item is among the
/// result's markers, and every marker of the result comes from a text item.
pub proof fn lemma_content_items_assessment(items: Seq<ItemModel>)
    ensures
        (exists|i: int| 0 <= i < items.len() && (#[trigger] text_item_markers(items[i])).len() > 0)
            <==> assess_body(BodyModel::Items(items)) is Truncated,
        forall|i: int, k: int|
            0 <= i < items.len() && 0 <= k < text_item_markers(items[i]).len() ==> (
            assess_body(BodyModel::Items(items)) matches CompletenessModel::Truncated(ms)
                && ms.contains(#[trigger] text_item_markers(items[i])[k])),
        assess_body(BodyModel::Items(items)) matches CompletenessModel::Truncated(ms) ==> forall|
            j: int,
        |
            0 <= j < ms.len() ==> exists|i: int|
                0 <= i < items.len() && text_item_markers(items[i]).contains(#[trigger] ms[j]),
        !(assess_body(BodyModel::Items(items)) is Unknown),
{
    lemma_items_markers_cover(items);
    let ms = items_markers(items);
    if exists|i: int| 0 <= i < items.len() && (#[trigger] text_item_markers(items[i])).len() > 0 {
        let i = choose|i: int| 0 <= i < items.len() && (#[trigger] text_item_markers(items[i])).len() > 0;
        assert(ms.contains(text_item_markers(items[i])[0]));
    }
    if ms.len() > 0 {
        assert(exists|i: int| 0 <= i < items.len() && text_item_markers(items[i]).contains(ms[0]));
    }
}

} // verus!
