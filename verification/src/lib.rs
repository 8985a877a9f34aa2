//! Read-only inspection of tool calls persisted in session rollouts: the
//! truncation-marker detector behind the completeness signal, the pairing of
//! calls with their outputs, the width-aware transcripts that render full
//! tool payloads (dynamic and MCP calls), and the decisions and text of the
//! `debug session` console commands.

pub mod completeness;
pub mod debug_session;
pub mod dynamic_tool;
pub mod json;
pub mod lazy_transcript;
pub mod mcp_transcript;
pub mod records;
pub mod text;
pub mod transcript_builder;
pub mod wrap;

pub use completeness::assess_text;
pub use completeness::detect_truncation_markers;
pub use completeness::text_contains_truncation_marker;
pub use completeness::Completeness;
pub use completeness::TruncationMarker;
pub use completeness::TruncationMarkerKind;
pub use json::JsonNumber;
pub use json::JsonValue;
pub use records::assess_tool_result;
pub use records::collect_tool_records;
pub use records::read_rollout_lines;
pub use records::FunctionCallOutputContentItem;
pub use records::OrphanToolOutput;
pub use records::RawPayload;
pub use records::RecordSource;
pub use records::SessionInspectorError;
pub use records::SessionToolRecords;
pub use records::ToolCallRecord;
pub use records::ToolIdentity;
pub use records::ToolKind;
pub use records::ToolResult;
pub use records::ToolResultBody;
pub use records::UnknownRolloutRecord;
pub use debug_session::DebugSessionCommand;
pub use debug_session::DebugSessionSubcommand;
pub use debug_session::ListArgs;
pub use debug_session::ShowArgs;
pub use debug_session::ToolArgs;
pub use debug_session::ToolsArgs;
