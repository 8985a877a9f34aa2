//! The `debug session` console surface: command arguments, the decisions it
//! takes (which session, which call, what is counted) and the text it prints.
//!
//! Discovering sessions on disk, reading files and printing stay with the
//! caller; everything between those edges is here.

use vstd::prelude::*;
use vstd::utf8::encode_utf8;

use owo_colors::OwoColorize;

use crate::completeness::Completeness;
use crate::completeness::TruncationMarkerKind;
use crate::json::json_pretty_text;
use crate::json::pretty_json_text;
use crate::records::json_text_is_valid;
use crate::records::parse_json_text;
use crate::records::parsed_json_document;
use crate::records::SessionInspectorError;
use crate::records::ToolResultBody;
use crate::completeness::TruncationMarker;
use crate::records::SessionToolRecords;
use crate::records::ToolCallRecord;
use crate::records::ToolKind;
use crate::text::concat;
use crate::text::decimal;
use crate::text::push_char;
use crate::text::push_decimal;
use crate::text::str_eq;

verus! {

broadcast use vstd::string::group_string_axioms;

pub const EXIT_MISSING_SESSION: u8 = 2;
pub const EXIT_MISSING_CALL: u8 = 3;
pub const EXIT_PARSE: u8 = 4;

pub const DEFAULT_LIST_LIMIT: usize = 50;
/// Hard cap on `--limit`.
pub const MAX_LIST_LIMIT: usize = 1000;

// ---------------------------------------------------------------------------
// Arguments
// ---------------------------------------------------------------------------

/// Inspect session rollouts.
pub struct DebugSessionCommand {
    pub subcommand: DebugSessionSubcommand,
}

pub enum DebugSessionSubcommand {
    /// List recent session rollouts under $CODEX_HOME.
    List(ListArgs),
    /// Show session metadata and tool-call summary counts.
    Show(ShowArgs),
    /// List tool calls in a session without dumping full outputs.
    Tools(ToolsArgs),
    /// Show one tool call's arguments and persisted result.
    Tool(ToolArgs),
}

pub struct ListArgs {
    /// Maximum number of sessions to print (clamped to 1000).
    pub limit: usize,
    /// Include archived sessions instead of active ones.
    pub archived: bool,
    /// Emit JSON instead of a human table.
    pub json: bool,
}

pub struct ShowArgs {
    /// Thread id (UUID). Omit with `--last` or `--file`.
    pub thread_id: Option<String>,
    /// Use the most recent recorded session.
    pub last: bool,
    /// Read a rollout file path directly (bypasses session discovery).
    pub file: Option<String>,
    /// Search archived sessions when resolving a thread id / `--last`.
    pub archived: bool,
    /// Emit JSON instead of human text.
    pub json: bool,
}

pub struct ToolsArgs {
    /// Thread id (UUID). Omit with `--last` or `--file`.
    pub thread_id: Option<String>,
    /// Use the most recent recorded session.
    pub last: bool,
    /// Read a rollout file path directly (bypasses session discovery).
    pub file: Option<String>,
    /// Search archived sessions when resolving a thread id / `--last`.
    pub archived: bool,
    /// Emit JSON instead of a human table.
    pub json: bool,
}

pub struct ToolArgs {
    /// Thread id (UUID). Omit with `--last` or `--file`.
    pub thread_id: Option<String>,
    /// Tool call id within the session.
    pub call_id: String,
    /// Use the most recent recorded session.
    pub last: bool,
    /// Read a rollout file path directly (bypasses session discovery).
    pub file: Option<String>,
    /// Search archived sessions when resolving a thread id / `--last`.
    pub archived: bool,
    /// Prefer pretty-printed JSON for arguments/result when parseable.
    pub pretty: bool,
    /// Emit a JSON object for the matched call.
    pub json: bool,
}

// ---------------------------------------------------------------------------
// Errors
// ---------------------------------------------------------------------------

/// Failures of a `debug session` command; each maps to a process exit code.
#[derive(Debug, PartialEq, Eq)]
pub enum DebugSessionError {
    MissingSession(String),
    MissingCall(String),
    Parse(String),
    Other(String),
}

impl DebugSessionError {
    /// `2` for a missing session, `3` for a missing call, `4` for a rollout
    /// that does not parse, `1` otherwise.
    pub fn exit_code(&self) -> (r: i32)
        ensures
            r == match self {
                DebugSessionError::MissingSession(_) => EXIT_MISSING_SESSION as i32,
                DebugSessionError::MissingCall(_) => EXIT_MISSING_CALL as i32,
                DebugSessionError::Parse(_) => EXIT_PARSE as i32,
                DebugSessionError::Other(_) => 1i32,
            },
    {
        match self {
            DebugSessionError::MissingSession(_) => EXIT_MISSING_SESSION as i32,
            DebugSessionError::MissingCall(_) => EXIT_MISSING_CALL as i32,
            DebugSessionError::Parse(_) => EXIT_PARSE as i32,
            DebugSessionError::Other(_) => 1,
        }
    }

    /// The text printed for this error.
    pub fn message(&self) -> (r: String)
        ensures
            r@ == match self {
                DebugSessionError::MissingSession(m) => m@,
                DebugSessionError::MissingCall(m) => m@,
                DebugSessionError::Parse(m) => m@,
                DebugSessionError::Other(m) => m@,
            },
    {
        match self {
            DebugSessionError::MissingSession(m) => m.clone(),
            DebugSessionError::MissingCall(m) => m.clone(),
            DebugSessionError::Parse(m) => m.clone(),
            DebugSessionError::Other(m) => m.clone(),
        }
    }

    /// A rollout that could not be read or parsed is a parse failure.
    pub fn from_inspector_error(err: &SessionInspectorError) -> (r: Self)
        ensures
            r matches DebugSessionError::Parse(m) && m@ == inspector_error_text(*err),
    {
        DebugSessionError::Parse(inspector_error_message(err))
    }
}

/// The text of a reading error.
pub open spec fn inspector_error_text(err: SessionInspectorError) -> Seq<char> {
    match err {
        SessionInspectorError::Read { path, message } => "failed to read rollout "@ + path@ + ": "@
            + message@,
        SessionInspectorError::InvalidJson { path, line, message } => "invalid JSON in rollout "@
            + path@ + " at line "@ + decimal(line as nat) + ": "@ + message@,
    }
}

/// The text of a reading error: which rollout, which line, and why.
pub fn inspector_error_message(err: &SessionInspectorError) -> (r: String)
    ensures
        r@ == inspector_error_text(*err),
{
    match err {
        SessionInspectorError::Read { path, message } => {
            let mut s = concat("failed to read rollout ", path.as_str());
            s.append(": ");
            s.append(message.as_str());
            s
        },
        SessionInspectorError::InvalidJson { path, line, message } => {
            let mut s = concat("invalid JSON in rollout ", path.as_str());
            s.append(" at line ");
            push_decimal(&mut s, *line);
            s.append(": ");
            s.append(message.as_str());
            s
        },
    }
}

// ---------------------------------------------------------------------------
// Which session
// ---------------------------------------------------------------------------

/// How the session of a command is found.
#[derive(Debug, PartialEq, Eq)]
pub enum SessionLookup {
    /// Read this rollout file.
    File(String),
    /// The most recently updated session.
    Last,
    /// The session with this thread id.
    ThreadId(String),
}

/// Decides how to find the session from `THREAD_ID`, `--last` and `--file`:
/// exactly one of them must be given.
pub fn plan_session_lookup(thread_id: Option<String>, last: bool, file: Option<String>) -> (r:
    Result<SessionLookup, DebugSessionError>)
    ensures
        match (file, last, thread_id) {
            (Some(path), false, None) => r == Ok::<SessionLookup, DebugSessionError>(
                SessionLookup::File(path),
            ),
            (Some(_), _, _) => r matches Err(DebugSessionError::Other(m)) && m@
                == "--file cannot be combined with --last or THREAD_ID"@,
            (None, true, None) => r == Ok::<SessionLookup, DebugSessionError>(SessionLookup::Last),
            (None, false, Some(id)) => r == Ok::<SessionLookup, DebugSessionError>(
                SessionLookup::ThreadId(id),
            ),
            (None, true, Some(_)) => r matches Err(DebugSessionError::Other(m)) && m@
                == "pass either --last or THREAD_ID, not both"@,
            (None, false, None) => r matches Err(DebugSessionError::Other(m)) && m@
                == "provide THREAD_ID, --last, or --file"@,
        },
{
    match (file, last, thread_id) {
        (Some(path), false, None) => Ok(SessionLookup::File(path)),
        (Some(_), _, _) => Err(
            DebugSessionError::Other("--file cannot be combined with --last or THREAD_ID".to_string()),
        ),
        (None, true, None) => Ok(SessionLookup::Last),
        (None, false, Some(id)) => Ok(SessionLookup::ThreadId(id)),
        (None, true, Some(_)) => Err(
            DebugSessionError::Other("pass either --last or THREAD_ID, not both".to_string()),
        ),
        (None, false, None) => Err(
            DebugSessionError::Other("provide THREAD_ID, --last, or --file".to_string()),
        ),
    }
}

/// `session file not found: {path}`.
pub fn missing_session_file(path: &str) -> (r: DebugSessionError)
    ensures
        r matches DebugSessionError::MissingSession(m) && m@ == "session file not found: "@ + path@,
{
    DebugSessionError::MissingSession(concat("session file not found: ", path))
}

/// The newest session, given the sessions newest first, or
/// `no sessions found under {home}`.
pub fn first_session_path(paths: Vec<String>, codex_home: &str) -> (r: Result<String, DebugSessionError>)
    ensures
        paths@.len() > 0 ==> r == Ok::<String, DebugSessionError>(paths@[0]),
        paths@.len() == 0 ==> (r matches Err(DebugSessionError::MissingSession(m)) && m@
            == "no sessions found under "@ + codex_home@),
{
    let mut paths = paths;
    if paths.len() > 0 {
        Ok(paths.swap_remove(0))
    } else {
        Err(DebugSessionError::MissingSession(concat("no sessions found under ", codex_home)))
    }
}

/// The rollout of thread `id`: the one found where the lookup searched first
/// (archived sessions with `--archived`, active ones otherwise), else the one
/// found among archived sessions when they were not searched first, else
/// `session `{id}` not found under {home}`.
pub fn resolve_thread_path(
    found: Option<String>,
    archived_fallback: Option<String>,
    archived: bool,
    id: &str,
    codex_home: &str,
) -> (r: Result<String, DebugSessionError>)
    ensures
        found is Some ==> r == Ok::<String, DebugSessionError>(found->0),
        found is None && !archived && archived_fallback is Some ==> r == Ok::<
            String,
            DebugSessionError,
        >(archived_fallback->0),
        found is None && (archived || archived_fallback is None) ==> (r matches Err(
            DebugSessionError::MissingSession(m),
        ) && m@ == "session `"@ + id@ + "` not found under "@ + codex_home@),
{
    if let Some(path) = found {
        return Ok(path);
    }
    if !archived {
        if let Some(path) = archived_fallback {
            return Ok(path);
        }
    }
    let mut s = concat("session `", id);
    s.append("` not found under ");
    s.append(codex_home);
    Err(DebugSessionError::MissingSession(s))
}

// ---------------------------------------------------------------------------
// Listing limits
// ---------------------------------------------------------------------------

/// `--limit` clamped to `1..=1000`.
pub fn list_page_size(limit: usize) -> (r: usize)
    ensures
        r == if limit < 1 {
            1
        } else if limit > MAX_LIST_LIMIT {
            MAX_LIST_LIMIT
        } else {
            limit
        },
{
    if limit < 1 {
        1
    } else if limit > MAX_LIST_LIMIT {
        MAX_LIST_LIMIT
    } else {
        limit
    }
}

/// The note printed when `--limit` is above the cap.
pub fn list_limit_note(limit: usize) -> (r: Option<String>)
    ensures
        limit <= MAX_LIST_LIMIT ==> r is None,
        limit > MAX_LIST_LIMIT ==> (r matches Some(m) && m@ == "note: --limit "@ + decimal(
            limit as nat,
        ) + " exceeds max 1000; clamping."@),
{
    if limit > MAX_LIST_LIMIT {
        let mut s = "note: --limit ".to_string();
        push_decimal(&mut s, limit as u64);
        s.append(" exceeds max 1000; clamping.");
        Some(s)
    } else {
        None
    }
}

/// The note printed when more sessions exist than were listed.
pub fn list_truncated_note(page_size: usize) -> (r: String)
    ensures
        r@ == "note: listing truncated to "@ + decimal(page_size as nat)
            + " entries; raise --limit to see more (pagination tokens come in a later PR)."@,
{
    let mut s = "note: listing truncated to ".to_string();
    push_decimal(&mut s, page_size as u64);
    s.append(" entries; raise --limit to see more (pagination tokens come in a later PR).");
    s
}

// ---------------------------------------------------------------------------
// Which call
// ---------------------------------------------------------------------------

/// The calls of `calls` whose id is `id`, in order.
pub open spec fn matching_calls(calls: Seq<ToolCallRecord>, id: Seq<char>) -> Seq<ToolCallRecord>
    decreases calls.len(),
{
    if calls.len() == 0 {
        Seq::empty()
    } else if calls.last().call_id@ == id {
        matching_calls(calls.drop_last(), id).push(calls.last())
    } else {
        matching_calls(calls.drop_last(), id)
    }
}

/// The turn of a call, or `<none>`.
pub open spec fn turn_label(c: ToolCallRecord) -> Seq<char> {
    match c.turn_id {
        Some(t) => t@,
        None => "<none>"@,
    }
}

/// `parts` joined by `sep`.
pub open spec fn joined_by(parts: Seq<Seq<char>>, sep: Seq<char>) -> Seq<char>
    decreases parts.len(),
{
    if parts.len() == 0 {
        Seq::empty()
    } else if parts.len() == 1 {
        parts[0]
    } else {
        joined_by(parts.drop_last(), sep) + sep + parts.last()
    }
}

pub open spec fn ambiguous_call_text(id: Seq<char>, matches: Seq<ToolCallRecord>) -> Seq<char> {
    "tool call `"@ + id + "` matches "@ + decimal(matches.len()) + " turns ("@ + joined_by(
        matches.map_values(|c: ToolCallRecord| turn_label(c)),
        ", "@,
    )
        + "); disambiguation by --turn is not in this PR — pick a unique call_id or inspect `tools` output"@
}

/// The index of the one call with id `call_id`. No such call, or one per
/// several turns, is `MissingCall` with the text the command prints.
pub fn select_tool_call(calls: &Vec<ToolCallRecord>, call_id: &str, path: &str) -> (r: Result<
    usize,
    DebugSessionError,
>)
    ensures
        matching_calls(calls@, call_id@).len() == 0 ==> (r matches Err(
            DebugSessionError::MissingCall(m),
        ) && m@ == "tool call `"@ + call_id@ + "` not found in "@ + path@),
        matching_calls(calls@, call_id@).len() == 1 ==> (r matches Ok(i) && i < calls@.len()
            && calls@[i as int].call_id@ == call_id@ && forall|j: int|
            0 <= j < calls@.len() && j != i ==> calls@[j].call_id@ != call_id@),
        matching_calls(calls@, call_id@).len() > 1 ==> (r matches Err(
            DebugSessionError::MissingCall(m),
        ) && m@ == ambiguous_call_text(call_id@, matching_calls(calls@, call_id@))),
{
    let ghost id = call_id@;
    let mut found: Vec<usize> = Vec::new();
    let mut turns: Vec<String> = Vec::new();
    let mut i: usize = 0;
    assert(calls@.take(0) =~= Seq::<ToolCallRecord>::empty());
    while i < calls.len()
        invariant
            i <= calls@.len(),
            id == call_id@,
            found@.len() == matching_calls(calls@.take(i as int), id).len(),
            turns@.len() == found@.len(),
            forall|k: int| 0 <= k < found@.len() ==> found@[k] < i,
            forall|k: int|
                0 <= k < found@.len() ==> #[trigger] calls@[found@[k] as int] == matching_calls(
                    calls@.take(i as int),
                    id,
                )[k],
            forall|k: int| 0 <= k < turns@.len() ==> #[trigger] turns@[k]@ == turn_label(
                matching_calls(calls@.take(i as int), id)[k],
            ),
            forall|j: int|
                0 <= j < i && calls@[j].call_id@ == id ==> exists|k: int|
                    0 <= k < found@.len() && found@[k] == j,
        decreases calls@.len() - i,
    {
        let ghost t = calls@.take(i + 1);
        let ghost f0 = found@;
        let ghost prev = matching_calls(calls@.take(i as int), id);
        assert(t.drop_last() =~= calls@.take(i as int));
        assert(t.last() == calls@[i as int]);
        let is_match = str_eq(calls[i].call_id.as_str(), call_id);
        assert(is_match == (calls@[i as int].call_id@ == id));
        assert(t.len() > 0);
        assert(matching_calls(t, id) == if t.last().call_id@ == id {
            matching_calls(t.drop_last(), id).push(t.last())
        } else {
            matching_calls(t.drop_last(), id)
        });
        if is_match {
            found.push(i);
            let label = match &calls[i].turn_id {
                Some(turn) => turn.clone(),
                None => "<none>".to_string(),
            };
            turns.push(label);
            assert(matching_calls(t, id) == prev.push(calls@[i as int]));
            assert(found@[found@.len() - 1] == i);
        } else {
            assert(matching_calls(t, id) == prev);
        }
        proof {
            assert forall|j: int|
                0 <= j < i + 1 && calls@[j].call_id@ == id implies exists|k: int|
                0 <= k < found@.len() && found@[k] == j by {
                if j == i {
                    assert(found@[found@.len() - 1] == j);
                } else {
                    let k = choose|k: int| 0 <= k < f0.len() && f0[k] == j;
                    assert(found@[k] == f0[k]);
                }
            }
        }
        i = i + 1;
    }
    assert(calls@.take(i as int) =~= calls@);
    let ghost ms = matching_calls(calls@, id);
    if found.len() == 0 {
        let mut s = concat("tool call `", call_id);
        s.append("` not found in ");
        s.append(path);
        return Err(DebugSessionError::MissingCall(s));
    }
    if found.len() == 1 {
        let k = found[0];
        proof {
            lemma_matching_calls(calls@, id);
            assert(calls@[k as int] == ms[0]);
        }
        assert forall|j: int| 0 <= j < calls@.len() && j != k implies calls@[j].call_id@ != id by {
            if calls@[j].call_id@ == id {
                let w = choose|w: int| 0 <= w < found@.len() && found@[w] == j;
                assert(w == 0);
            }
        }
        return Ok(k);
    }
    let mut s = concat("tool call `", call_id);
    s.append("` matches ");
    push_decimal(&mut s, found.len() as u64);
    s.append(" turns (");
    let joined = join_with(&turns, ", ");
    s.append(joined.as_str());
    s.append("); disambiguation by --turn is not in this PR — pick a unique call_id or inspect `tools` output");
    proof {
        let labels = ms.map_values(|c: ToolCallRecord| turn_label(c));
        assert(strings_of(turns@) =~= labels);
    }
    Err(DebugSessionError::MissingCall(s))
}

proof fn lemma_matching_calls(calls: Seq<ToolCallRecord>, id: Seq<char>)
    ensures
        forall|k: int|
            0 <= k < matching_calls(calls, id).len() ==> (#[trigger] matching_calls(calls, id)[k]).call_id@
                == id,
    decreases calls.len(),
{
    if calls.len() > 0 {
        lemma_matching_calls(calls.drop_last(), id);
    }
}

pub open spec fn strings_of(v: Seq<String>) -> Seq<Seq<char>> {
    v.map_values(|s: String| s@)
}

/// `parts` joined by `sep`.
pub fn join_with(parts: &Vec<String>, sep: &str) -> (r: String)
    ensures
        r@ == joined_by(strings_of(parts@), sep@),
{
    let ghost sv = strings_of(parts@);
    let mut out = String::new();
    let mut i: usize = 0;
    assert(sv.take(0) =~= Seq::<Seq<char>>::empty());
    while i < parts.len()
        invariant
            i <= parts@.len(),
            sv == strings_of(parts@),
            out@ == joined_by(sv.take(i as int), sep@),
        decreases parts@.len() - i,
    {
        let ghost before = out@;
        if i > 0 {
            out.append(sep);
        }
        out.append(parts[i].as_str());
        proof {
            let t = sv.take(i + 1);
            assert(t.drop_last() =~= sv.take(i as int));
            assert(t.last() == parts@[i as int]@);
            if i == 0 {
                assert(out@ =~= t[0]);
            } else {
                assert(out@ =~= before + sep@ + parts@[i as int]@);
            }
        }
        i = i + 1;
    }
    assert(sv.take(i as int) =~= sv);
    out
}

// ---------------------------------------------------------------------------
// Summary
// ---------------------------------------------------------------------------

/// Counts of what a rollout holds.
#[derive(Debug, Clone, Copy, PartialEq, Eq, Structural)]
pub struct RecordSummary {
    pub calls: usize,
    pub truncated: usize,
    pub open: usize,
    pub orphans: usize,
    pub unknown: usize,
}

/// Number of calls whose result carries a truncation marker.
pub open spec fn count_truncated(calls: Seq<ToolCallRecord>) -> nat
    decreases calls.len(),
{
    if calls.len() == 0 {
        0
    } else {
        count_truncated(calls.drop_last()) + if calls.last().completeness is Truncated {
            1nat
        } else {
            0nat
        }
    }
}

/// Number of calls without a persisted result.
pub open spec fn count_open(calls: Seq<ToolCallRecord>) -> nat
    decreases calls.len(),
{
    if calls.len() == 0 {
        0
    } else {
        count_open(calls.drop_last()) + if calls.last().result is None {
            1nat
        } else {
            0nat
        }
    }
}

proof fn lemma_count_bounds(calls: Seq<ToolCallRecord>)
    ensures
        count_truncated(calls) <= calls.len(),
        count_open(calls) <= calls.len(),
    decreases calls.len(),
{
    if calls.len() > 0 {
        lemma_count_bounds(calls.drop_last());
    }
}

/// Calls, truncated calls, open calls, orphan outputs and unknown records.
pub fn summarize_records(records: &SessionToolRecords) -> (r: RecordSummary)
    ensures
        r.calls == records.calls@.len(),
        r.truncated == count_truncated(records.calls@),
        r.open == count_open(records.calls@),
        r.truncated == records.calls@.filter(|c: ToolCallRecord| c.completeness is Truncated).len(),
        r.open == records.calls@.filter(|c: ToolCallRecord| c.result is None).len(),
        r.orphans == records.orphan_outputs@.len(),
        r.unknown == records.unknown_records@.len(),
{
    let calls = &records.calls;
    let mut truncated: usize = 0;
    let mut open: usize = 0;
    let mut i: usize = 0;
    assert(calls@.take(0) =~= Seq::<ToolCallRecord>::empty());
    while i < calls.len()
        invariant
            i <= calls@.len(),
            truncated == count_truncated(calls@.take(i as int)),
            open == count_open(calls@.take(i as int)),
        decreases calls@.len() - i,
    {
        let ghost t = calls@.take(i + 1);
        assert(t.drop_last() =~= calls@.take(i as int));
        proof {
            lemma_count_bounds(calls@.take(i as int));
        }
        if calls[i].completeness.is_truncated() {
            truncated = truncated + 1;
        }
        if calls[i].result.is_none() {
            open = open + 1;
        }
        i = i + 1;
    }
    assert(calls@.take(i as int) =~= calls@);
    proof {
        lemma_summary_counts(calls@);
    }
    RecordSummary {
        calls: calls.len(),
        truncated,
        open,
        orphans: records.orphan_outputs.len(),
        unknown: records.unknown_records.len(),
    }
}

// ---------------------------------------------------------------------------
// Text helpers
// ---------------------------------------------------------------------------

/// At most `max` characters of `input`; a longer input keeps its head and
/// tail around `…` (or just its first `max` characters when `max <= 3`).
pub open spec fn middle_truncated(input: Seq<char>, max: nat) -> Seq<char> {
    if input.len() <= max {
        input
    } else if max <= 3 {
        input.take(max as int)
    } else {
        let keep = max - 1;
        let head = keep / 2;
        let tail = keep - head;
        input.take(head) + seq!['…'] + input.skip(input.len() - tail)
    }
}

/// `input` shortened to `max_chars` characters in the middle.
pub fn truncate_middle(input: &str, max_chars: usize) -> (r: String)
    ensures
        r@ == middle_truncated(input@, max_chars as nat),
        r@.len() <= max_chars || r@ == input@,
{
    let chars = crate::wrap::chars_of(input);
    let n = chars.len();
    if n <= max_chars {
        return input.to_string();
    }
    let mut out = String::new();
    if max_chars <= 3 {
        let mut k: usize = 0;
        while k < max_chars
            invariant
                k <= max_chars < n == chars@.len(),
                out@ == chars@.take(k as int),
            decreases max_chars - k,
        {
            push_char(&mut out, chars[k]);
            assert(chars@.take(k + 1) =~= chars@.take(k as int).push(chars@[k as int]));
            k = k + 1;
        }
        return out;
    }
    let keep = max_chars - 1;
    let head = keep / 2;
    let tail = keep - head;
    let mut k: usize = 0;
    while k < head
        invariant
            head < n == chars@.len(),
            k <= head,
            out@ == chars@.take(k as int),
        decreases head - k,
    {
        push_char(&mut out, chars[k]);
        assert(chars@.take(k + 1) =~= chars@.take(k as int).push(chars@[k as int]));
        k = k + 1;
    }
    push_char(&mut out, '…');
    let ghost mid = out@;
    let start = n - tail;
    let mut k: usize = start;
    while k < n
        invariant
            start <= k <= n == chars@.len(),
            out@ == mid + chars@.subrange(start as int, k as int),
        decreases n - k,
    {
        push_char(&mut out, chars[k]);
        assert(chars@.subrange(start as int, k + 1) =~= chars@.subrange(start as int, k as int).push(
            chars@[k as int],
        ));
        k = k + 1;
    }
    assert(chars@.subrange(start as int, n as int) =~= chars@.skip(start as int));
    out
}

/// `function` or `custom`.
pub fn tool_kind_str(kind: ToolKind) -> (r: &'static str)
    ensures
        r@ == match kind {
            ToolKind::Function => "function"@,
            ToolKind::Custom => "custom"@,
        },
{
    match kind {
        ToolKind::Function => "function",
        ToolKind::Custom => "custom",
    }
}

/// `complete`, `truncated` or `unknown`.
pub fn completeness_str(completeness: &Completeness) -> (r: &'static str)
    ensures
        r@ == match completeness {
            Completeness::Complete => "complete"@,
            Completeness::Truncated { .. } => "truncated"@,
            Completeness::Unknown => "unknown"@,
        },
{
    match completeness {
        Completeness::Complete => "complete",
        Completeness::Truncated { .. } => "truncated",
        Completeness::Unknown => "unknown",
    }
}

/// `namespace/name`, or `name` without a namespace.
pub fn format_tool_name(call: &ToolCallRecord) -> (r: String)
    ensures
        r@ == match call.tool.namespace {
            Some(ns) => ns@ + "/"@ + call.tool.name@,
            None => call.tool.name@,
        },
{
    match &call.tool.namespace {
        Some(namespace) => {
            let mut s = concat(namespace.as_str(), "/");
            s.append(call.tool.name.as_str());
            s
        },
        None => call.tool.name.clone(),
    }
}

// ---------------------------------------------------------------------------
// Terminal styling
// ---------------------------------------------------------------------------

/// Wraps `owo_colors::OwoColorize::bold` displayed: the text between the
/// bold and reset escape sequences.
#[verifier::external_body]
fn bold_text(text: &str) -> (r: String)
    ensures
        r@ == "\x1b[1m"@ + text@ + "\x1b[0m"@,
{
    text.bold().to_string()
}

/// Wraps `owo_colors::OwoColorize::dimmed` displayed: the text between the
/// dim and reset escape sequences.
#[verifier::external_body]
fn dimmed_text(text: &str) -> (r: String)
    ensures
        r@ == "\x1b[2m"@ + text@ + "\x1b[0m"@,
{
    text.dimmed().to_string()
}

/// Wraps `owo_colors::OwoColorize::yellow` displayed: the text between the
/// yellow foreground and default foreground escape sequences.
#[verifier::external_body]
fn yellow_text(text: &str) -> (r: String)
    ensures
        r@ == "\x1b[33m"@ + text@ + "\x1b[39m"@,
{
    text.yellow().to_string()
}

pub open spec fn header_text(text: Seq<char>, color: bool) -> Seq<char> {
    if color {
        "\x1b[1m"@ + text + "\x1b[0m"@
    } else {
        text
    }
}

pub open spec fn label_text(text: Seq<char>, color: bool) -> Seq<char> {
    if color {
        "\x1b[2m"@ + text + "\x1b[0m"@ + ":"@
    } else {
        text + ":"@
    }
}

pub open spec fn emphasized_text(text: Seq<char>, color: bool) -> Seq<char> {
    if color {
        "\x1b[33m"@ + text + "\x1b[39m"@
    } else {
        text
    }
}

/// A column header: bold when colored.
pub fn header(text: &str, color: bool) -> (r: String)
    ensures
        r@ == header_text(text@, color),
{
    if color {
        bold_text(text)
    } else {
        text.to_string()
    }
}

/// A field label followed by `:`: dimmed when colored.
pub fn label(text: &str, color: bool) -> (r: String)
    ensures
        r@ == label_text(text@, color),
{
    if color {
        let mut s = dimmed_text(text);
        s.append(":");
        s
    } else {
        concat(text, ":")
    }
}

/// A warning: yellow when colored.
pub fn emphasize(text: &str, color: bool) -> (r: String)
    ensures
        r@ == emphasized_text(text@, color),
{
    if color {
        yellow_text(text)
    } else {
        text.to_string()
    }
}

pub open spec fn spaces(n: int) -> Seq<char> {
    Seq::new(if n > 0 { n as nat } else { 0 }, |i: int| ' ')
}

/// `s` followed by spaces up to `n` characters.
pub open spec fn pad_right(s: Seq<char>, n: int) -> Seq<char> {
    s + spaces(n - s.len())
}

/// Spaces up to `n` characters followed by `s`.
pub open spec fn pad_left(s: Seq<char>, n: int) -> Seq<char> {
    spaces(n - s.len()) + s
}

fn push_spaces(out: &mut String, k: usize)
    ensures
        final(out)@ == old(out)@ + spaces(k as int),
{
    let mut j: usize = 0;
    let ghost start = out@;
    while j < k
        invariant
            j <= k,
            out@ == start + spaces(j as int),
        decreases k - j,
    {
        push_char(out, ' ');
        assert(spaces(j + 1) =~= spaces(j as int).push(' '));
        j = j + 1;
    }
}

/// Appends `s` left-aligned in a column of `n` characters.
pub fn push_padded_right(out: &mut String, s: &str, n: usize)
    ensures
        final(out)@ == old(out)@ + pad_right(s@, n as int),
{
    let len = crate::wrap::str_char_len(s);
    out.append(s);
    let k: usize = if len < n {
        n - len
    } else {
        0
    };
    push_spaces(out, k);
    assert(spaces(k as int) =~= spaces(n - s@.len()));
}

/// Appends `s` right-aligned in a column of `n` characters.
pub fn push_padded_left(out: &mut String, s: &str, n: usize)
    ensures
        final(out)@ == old(out)@ + pad_left(s@, n as int),
{
    let len = crate::wrap::str_char_len(s);
    let k: usize = if len < n {
        n - len
    } else {
        0
    };
    push_spaces(out, k);
    assert(spaces(k as int) =~= spaces(n - s@.len()));
    out.append(s);
}

// ---------------------------------------------------------------------------
// Printed text
// ---------------------------------------------------------------------------

/// `-` for a missing value.
pub open spec fn or_dash(v: Option<Seq<char>>) -> Seq<char> {
    match v {
        Some(s) => s,
        None => "-"@,
    }
}

pub open spec fn opt_chars(v: Option<String>) -> Option<Seq<char>> {
    match v {
        Some(s) => Some(s@),
        None => None,
    }
}

fn or_dash_str(v: Option<&str>) -> (r: &str)
    ensures
        r@ == or_dash(
            match v {
                Some(s) => Some(s@),
                None => None,
            },
        ),
{
    match v {
        Some(s) => s,
        None => "-",
    }
}

pub open spec fn list_header_text(color: bool) -> Seq<char> {
    pad_right(header_text("THREAD"@, color), 36) + "  "@ + pad_right(header_text("UPDATED"@, color), 20)
        + "  "@ + pad_right(header_text("CWD"@, color), 24) + "  "@ + pad_left(
        header_text("SIZE"@, color),
        10,
    ) + "  "@ + header_text("PATH"@, color)
}

/// The header row of the session listing.
pub fn list_header_line(color: bool) -> (r: String)
    ensures
        r@ == list_header_text(color),
{
    let mut s = String::new();
    push_padded_right(&mut s, header("THREAD", color).as_str(), 36);
    s.append("  ");
    push_padded_right(&mut s, header("UPDATED", color).as_str(), 20);
    s.append("  ");
    push_padded_right(&mut s, header("CWD", color).as_str(), 24);
    s.append("  ");
    push_padded_left(&mut s, header("SIZE", color).as_str(), 10);
    s.append("  ");
    s.append(header("PATH", color).as_str());
    s
}

pub open spec fn list_row_text(
    thread: Option<Seq<char>>,
    updated: Option<Seq<char>>,
    created: Option<Seq<char>>,
    cwd: Option<Seq<char>>,
    size: Option<Seq<char>>,
    path: Seq<char>,
) -> Seq<char> {
    pad_right(or_dash(thread), 36) + "  "@ + pad_right(
        or_dash(
            if updated is Some {
                updated
            } else {
                created
            },
        ),
        20,
    ) + "  "@ + pad_right(
        match cwd {
            Some(c) => middle_truncated(c, 24),
            None => "-"@,
        },
        24,
    ) + "  "@ + pad_left(or_dash(size), 10) + "  "@ + path
}

fn opt_view_str(v: &Option<String>) -> (r: Option<&str>)
    ensures
        match r {
            Some(s) => v is Some && s@ == v->0@,
            None => v is None,
        },
{
    match v {
        Some(s) => Some(s.as_str()),
        None => None,
    }
}

/// One row of the session listing: thread id, last update (or creation),
/// working directory shortened to 24 characters, size and path; `-` for
/// what is unknown.
pub fn list_row(
    thread: &Option<String>,
    updated: &Option<String>,
    created: &Option<String>,
    cwd: &Option<String>,
    size: &Option<String>,
    path: &str,
) -> (r: String)
    ensures
        r@ == list_row_text(
            opt_chars(*thread),
            opt_chars(*updated),
            opt_chars(*created),
            opt_chars(*cwd),
            opt_chars(*size),
            path@,
        ),
{
    let mut s = String::new();
    push_padded_right(&mut s, or_dash_str(opt_view_str(thread)), 36);
    s.append("  ");
    let when = if updated.is_some() {
        opt_view_str(updated)
    } else {
        opt_view_str(created)
    };
    push_padded_right(&mut s, or_dash_str(when), 20);
    s.append("  ");
    let cwd_text = match cwd {
        Some(c) => truncate_middle(c.as_str(), 24),
        None => "-".to_string(),
    };
    push_padded_right(&mut s, cwd_text.as_str(), 24);
    s.append("  ");
    push_padded_left(&mut s, or_dash_str(opt_view_str(size)), 10);
    s.append("  ");
    s.append(path);
    s
}

/// `No sessions found under {home}.`
pub fn no_sessions_line(codex_home: &str) -> (r: String)
    ensures
        r@ == "No sessions found under "@ + codex_home@ + "."@,
{
    let mut s = concat("No sessions found under ", codex_home);
    s.append(".");
    s
}

pub open spec fn tools_header_text(color: bool) -> Seq<char> {
    pad_right(header_text("CALL_ID"@, color), 36) + "  "@ + pad_right(header_text("KIND"@, color), 10)
        + "  "@ + pad_right(header_text("STATUS"@, color), 8) + "  "@ + pad_right(
        header_text("TURN"@, color),
        12,
    ) + "  "@ + header_text("NAME"@, color)
}

/// The header row of the tool-call table.
pub fn tools_header_line(color: bool) -> (r: String)
    ensures
        r@ == tools_header_text(color),
{
    let mut s = String::new();
    push_padded_right(&mut s, header("CALL_ID", color).as_str(), 36);
    s.append("  ");
    push_padded_right(&mut s, header("KIND", color).as_str(), 10);
    s.append("  ");
    push_padded_right(&mut s, header("STATUS", color).as_str(), 8);
    s.append("  ");
    push_padded_right(&mut s, header("TURN", color).as_str(), 12);
    s.append("  ");
    s.append(header("NAME", color).as_str());
    s
}

pub open spec fn kind_text(kind: ToolKind) -> Seq<char> {
    match kind {
        ToolKind::Function => "function"@,
        ToolKind::Custom => "custom"@,
    }
}

pub open spec fn completeness_text(c: Completeness) -> Seq<char> {
    match c {
        Completeness::Complete => "complete"@,
        Completeness::Truncated { .. } => "truncated"@,
        Completeness::Unknown => "unknown"@,
    }
}

pub open spec fn tool_name_text(call: ToolCallRecord) -> Seq<char> {
    match call.tool.namespace {
        Some(ns) => ns@ + "/"@ + call.tool.name@,
        None => call.tool.name@,
    }
}

pub open spec fn tools_row_text(call: ToolCallRecord) -> Seq<char> {
    pad_right(call.call_id@, 36) + "  "@ + pad_right(kind_text(call.tool.kind), 10) + "  "@
        + pad_right(completeness_text(call.completeness), 8) + "  "@ + pad_right(
        middle_truncated(or_dash(opt_chars(call.turn_id)), 12),
        12,
    ) + "  "@ + tool_name_text(call)
}

/// One row of the tool-call table: call id, kind, completeness, turn
/// shortened to 12 characters (`-` without one) and tool name.
pub fn tools_row(call: &ToolCallRecord) -> (r: String)
    ensures
        r@ == tools_row_text(*call),
        call.completeness is Unknown ==> r@.subrange(
            status_column(*call),
            status_column(*call) + 8,
        ) == "unknown "@,
        call.completeness is Complete ==> r@.subrange(
            status_column(*call),
            status_column(*call) + 8,
        ) == "complete"@,
        call.completeness is Truncated ==> r@.subrange(
            status_column(*call),
            status_column(*call) + 9,
        ) == "truncated"@,
{
    proof {
        lemma_tools_row_status(*call);
    }
    let mut s = String::new();
    push_padded_right(&mut s, call.call_id.as_str(), 36);
    s.append("  ");
    push_padded_right(&mut s, tool_kind_str(call.tool.kind), 10);
    s.append("  ");
    push_padded_right(&mut s, completeness_str(&call.completeness), 8);
    s.append("  ");
    let turn = truncate_middle(or_dash_str(opt_view_str(&call.turn_id)), 12);
    push_padded_right(&mut s, turn.as_str(), 12);
    s.append("  ");
    s.append(format_tool_name(call).as_str());
    s
}

/// `No tool calls in {path}.`
pub fn no_tool_calls_line(path: &str) -> (r: String)
    ensures
        r@ == "No tool calls in "@ + path@ + "."@,
{
    let mut s = concat("No tool calls in ", path);
    s.append(".");
    s
}

/// The note printed when outputs have no matching call.
pub fn orphan_outputs_note(count: usize) -> (r: Option<String>)
    ensures
        count == 0 ==> r is None,
        count > 0 ==> (r matches Some(m) && m@ == "note: "@ + decimal(count as nat)
            + " orphan tool output(s) without a matching call."@),
{
    if count == 0 {
        return None;
    }
    let mut s = "note: ".to_string();
    push_decimal(&mut s, count as u64);
    s.append(" orphan tool output(s) without a matching call.");
    Some(s)
}

/// `{label}: {value}`, the label styled as [`label`].
pub open spec fn labeled_text(name: Seq<char>, value: Seq<char>, color: bool) -> Seq<char> {
    label_text(name, color) + " "@ + value
}

fn labeled(name: &str, value: &str, color: bool) -> (r: String)
    ensures
        r@ == labeled_text(name@, value@, color),
{
    let mut s = label(name, color);
    s.append(" ");
    s.append(value);
    s
}

fn labeled_number(name: &str, value: usize, color: bool) -> (r: String)
    ensures
        r@ == labeled_text(name@, decimal(value as nat), color),
{
    let mut s = label(name, color);
    s.append(" ");
    push_decimal(&mut s, value as u64);
    s
}

/// Metadata of a session as its rollout records it.
pub struct SessionMeta {
    pub thread_id: Option<String>,
    pub created_at: Option<String>,
    pub updated_at: Option<String>,
    pub cwd: Option<String>,
    pub git_branch: Option<String>,
    pub model_provider: Option<String>,
    pub source: Option<String>,
    pub preview: Option<String>,
}

/// A labelled line for a value that is present, nothing otherwise.
#[verifier::opaque]
pub open spec fn opt_line(name: Seq<char>, value: Option<String>, color: bool) -> Seq<Seq<char>> {
    match value {
        Some(v) => seq![labeled_text(name, v@, color)],
        None => Seq::empty(),
    }
}

pub open spec fn meta_lines(meta: Option<SessionMeta>, color: bool) -> Seq<Seq<char>> {
    match meta {
        Some(m) => opt_line("thread"@, m.thread_id, color) + opt_line("created"@, m.created_at, color)
            + opt_line("updated"@, m.updated_at, color) + opt_line("cwd"@, m.cwd, color) + opt_line(
            "branch"@,
            m.git_branch,
            color,
        ) + opt_line("provider"@, m.model_provider, color) + opt_line("source"@, m.source, color)
            + opt_line("preview"@, m.preview, color),
        None => Seq::empty(),
    }
}

pub open spec fn show_text(path: Seq<char>, meta: Option<SessionMeta>, s: RecordSummary, color: bool) -> Seq<Seq<char>> {
    seq![labeled_text("path"@, path, color)] + meta_lines(meta, color) + seq![
        labeled_text("tool_calls"@, decimal(s.calls as nat), color),
        labeled_text("truncated"@, decimal(s.truncated as nat), color),
        labeled_text("open"@, decimal(s.open as nat), color),
        labeled_text("orphan_outputs"@, decimal(s.orphans as nat), color),
        labeled_text("unknown_records"@, decimal(s.unknown as nat), color),
    ]
}

fn push_opt_line(lines: &mut Vec<String>, name: &str, value: &Option<String>, color: bool)
    ensures
        strings_of(final(lines)@) == strings_of(old(lines)@) + opt_line(name@, *value, color),
{
    let ghost before = strings_of(lines@);
    proof {
        reveal(opt_line);
    }
    match value {
        Some(v) => {
            let l = labeled(name, v.as_str(), color);
            lines.push(l);
            assert(strings_of(lines@) =~= before + seq![l@]);
        },
        None => {
            assert(strings_of(lines@) =~= before + Seq::<Seq<char>>::empty());
        },
    }
}

#[verifier::spinoff_prover]
#[verifier::rlimit(50)]
fn push_meta_lines(lines: &mut Vec<String>, meta: &SessionMeta, color: bool)
    ensures
        strings_of(final(lines)@) == strings_of(old(lines)@) + meta_lines(Some(*meta), color),
{
    let ghost s0 = strings_of(lines@);
    let ghost o1 = opt_line("thread"@, meta.thread_id, color);
    let ghost o2 = opt_line("created"@, meta.created_at, color);
    let ghost o3 = opt_line("updated"@, meta.updated_at, color);
    let ghost o4 = opt_line("cwd"@, meta.cwd, color);
    let ghost o5 = opt_line("branch"@, meta.git_branch, color);
    let ghost o6 = opt_line("provider"@, meta.model_provider, color);
    let ghost o7 = opt_line("source"@, meta.source, color);
    let ghost o8 = opt_line("preview"@, meta.preview, color);
    push_opt_line(lines, "thread", &meta.thread_id, color);
    push_opt_line(lines, "created", &meta.created_at, color);
    assert(strings_of(lines@) =~= s0 + (o1 + o2));
    push_opt_line(lines, "updated", &meta.updated_at, color);
    assert(strings_of(lines@) =~= s0 + (o1 + o2 + o3));
    push_opt_line(lines, "cwd", &meta.cwd, color);
    assert(strings_of(lines@) =~= s0 + (o1 + o2 + o3 + o4));
    push_opt_line(lines, "branch", &meta.git_branch, color);
    assert(strings_of(lines@) =~= s0 + (o1 + o2 + o3 + o4 + o5));
    push_opt_line(lines, "provider", &meta.model_provider, color);
    assert(strings_of(lines@) =~= s0 + (o1 + o2 + o3 + o4 + o5 + o6));
    push_opt_line(lines, "source", &meta.source, color);
    assert(strings_of(lines@) =~= s0 + (o1 + o2 + o3 + o4 + o5 + o6 + o7));
    push_opt_line(lines, "preview", &meta.preview, color);
    assert(strings_of(lines@) =~= s0 + (o1 + o2 + o3 + o4 + o5 + o6 + o7 + o8));
    assert(meta_lines(Some(*meta), color) == o1 + o2 + o3 + o4 + o5 + o6 + o7 + o8);
}

fn push_count_line(lines: &mut Vec<String>, name: &str, value: usize, color: bool)
    ensures
        strings_of(final(lines)@) == strings_of(old(lines)@).push(
            labeled_text(name@, decimal(value as nat), color),
        ),
{
    let ghost before = strings_of(lines@);
    let l = labeled_number(name, value, color);
    lines.push(l);
    assert(strings_of(lines@) =~= before.push(l@));
}

/// The lines `show` prints: path, the metadata that is known, and the counts.
pub fn show_lines(path: &str, meta: &Option<SessionMeta>, summary: RecordSummary, color: bool) -> (r: Vec<String>)
    ensures
        strings_of(r@) == show_text(path@, *meta, summary, color),
{
    let mut lines: Vec<String> = Vec::new();
    let l = labeled("path", path, color);
    lines.push(l);
    let ghost first = strings_of(lines@);
    assert(first =~= seq![labeled_text("path"@, path@, color)]);
    if let Some(m) = meta {
        push_meta_lines(&mut lines, m, color);
    } else {
        assert(first + meta_lines(*meta, color) =~= first);
    }
    let ghost mid = strings_of(lines@);
    push_count_line(&mut lines, "tool_calls", summary.calls, color);
    push_count_line(&mut lines, "truncated", summary.truncated, color);
    push_count_line(&mut lines, "open", summary.open, color);
    push_count_line(&mut lines, "orphan_outputs", summary.orphans, color);
    push_count_line(&mut lines, "unknown_records", summary.unknown, color);
    assert(strings_of(lines@) =~= show_text(path@, *meta, summary, color));
    lines
}

// ---------------------------------------------------------------------------
// One call
// ---------------------------------------------------------------------------

/// The name of a marker family.
pub open spec fn marker_kind_text(k: TruncationMarkerKind) -> Seq<char> {
    match k {
        TruncationMarkerKind::WarningTruncatedOutput => "WarningTruncatedOutput"@,
        TruncationMarkerKind::TokensTruncated => "TokensTruncated"@,
        TruncationMarkerKind::CharsTruncated => "CharsTruncated"@,
        TruncationMarkerKind::BytesTruncated => "BytesTruncated"@,
        TruncationMarkerKind::BytesOmitted => "BytesOmitted"@,
        TruncationMarkerKind::OmittedTextItems => "OmittedTextItems"@,
        TruncationMarkerKind::OmittedAudioItems => "OmittedAudioItems"@,
        TruncationMarkerKind::ContextWindowTruncated => "ContextWindowTruncated"@,
        TruncationMarkerKind::OutputTruncatedEllipsis => "OutputTruncatedEllipsis"@,
    }
}

/// The name of a marker family.
pub fn marker_kind_name(k: TruncationMarkerKind) -> (r: &'static str)
    ensures
        r@ == marker_kind_text(k),
{
    match k {
        TruncationMarkerKind::WarningTruncatedOutput => "WarningTruncatedOutput",
        TruncationMarkerKind::TokensTruncated => "TokensTruncated",
        TruncationMarkerKind::CharsTruncated => "CharsTruncated",
        TruncationMarkerKind::BytesTruncated => "BytesTruncated",
        TruncationMarkerKind::BytesOmitted => "BytesOmitted",
        TruncationMarkerKind::OmittedTextItems => "OmittedTextItems",
        TruncationMarkerKind::OmittedAudioItems => "OmittedAudioItems",
        TruncationMarkerKind::ContextWindowTruncated => "ContextWindowTruncated",
        TruncationMarkerKind::OutputTruncatedEllipsis => "OutputTruncatedEllipsis",
    }
}

pub open spec fn marker_line_text(m: TruncationMarker) -> Seq<char> {
    "  - "@ + marker_kind_text(m.kind) + " @ byte "@ + decimal(m.byte_offset as nat) + " ("@
        + m.matched_text@ + ")"@
}

/// `  - {kind} @ byte {offset} ({matched text})`.
pub fn marker_line(m: &TruncationMarker) -> (r: String)
    ensures
        r@ == marker_line_text(*m),
{
    let mut s = concat("  - ", marker_kind_name(m.kind));
    s.append(" @ byte ");
    push_decimal(&mut s, m.byte_offset as u64);
    s.append(" (");
    s.append(m.matched_text.as_str());
    s.append(")");
    s
}

/// The arguments as printed: pretty JSON when asked for and they are JSON,
/// the raw text otherwise.
pub open spec fn arguments_shown(call: ToolCallRecord, pretty: bool) -> Seq<char> {
    match call.arguments.parsed_json {
        Some(v) => if pretty {
            json_pretty_text(v)
        } else {
            call.arguments.raw@
        },
        None => call.arguments.raw@,
    }
}

/// The arguments of `call` as printed.
pub fn format_arguments(call: &ToolCallRecord, pretty: bool) -> (r: String)
    ensures
        r@ == arguments_shown(*call, pretty),
{
    if pretty {
        if let Some(value) = &call.arguments.parsed_json {
            return pretty_json_text(value);
        }
    }
    call.arguments.raw.clone()
}

/// A result body as printed: text pretty-printed when asked for and it is
/// JSON, the text otherwise; structured items as `items_json`, their JSON.
pub open spec fn result_body_shown(body: ToolResultBody, pretty: bool, items_json: Seq<char>) -> Seq<char> {
    match body {
        ToolResultBody::Text(t) => if pretty && json_text_is_valid(t@) {
            json_pretty_text(parsed_json_document(t@))
        } else {
            t@
        },
        ToolResultBody::ContentItems(_) => items_json,
    }
}

/// A result body as printed; `items_json` is read only for structured items.
pub fn format_result_body(body: &ToolResultBody, pretty: bool, items_json: &str) -> (r: String)
    ensures
        r@ == result_body_shown(*body, pretty, items_json@),
{
    match body {
        ToolResultBody::Text(text) => {
            if pretty {
                if let Ok(value) = parse_json_text(text.as_str()) {
                    return pretty_json_text(&value);
                }
            }
            text.clone()
        },
        ToolResultBody::ContentItems(_) => items_json.to_string(),
    }
}

pub const TRUNCATION_WARNING: &'static str =
    "WARNING: persisted result contains upstream truncation marker(s).";

pub open spec fn markers_lines(markers: Seq<TruncationMarker>) -> Seq<Seq<char>> {
    markers.map_values(|m: TruncationMarker| marker_line_text(m))
}

/// The lines printed for one call: identity, completeness (with every
/// marker when truncated), arguments and result.
pub open spec fn tool_call_text(call: ToolCallRecord, pretty: bool, color: bool, items_json: Seq<char>) -> Seq<Seq<char>> {
    seq![labeled_text("call_id"@, call.call_id@, color)] + (match call.turn_id {
        Some(t) => seq![labeled_text("turn_id"@, t@, color)],
        None => Seq::<Seq<char>>::empty(),
    }) + seq![
        labeled_text("tool"@, tool_name_text(call), color),
        labeled_text("kind"@, kind_text(call.tool.kind), color),
        labeled_text("completeness"@, completeness_text(call.completeness), color),
    ] + (match call.completeness {
        Completeness::Truncated { markers } => seq![emphasized_text(TRUNCATION_WARNING@, color)]
            + markers_lines(markers@),
        _ => Seq::<Seq<char>>::empty(),
    }) + seq![
        label_text("arguments"@, color),
        arguments_shown(call, pretty),
        label_text("result"@, color),
        match call.result {
            Some(r) => result_body_shown(r.body, pretty, items_json),
            None => "(no persisted result)"@,
        },
    ]
}

fn push_line(lines: &mut Vec<String>, l: String)
    ensures
        strings_of(final(lines)@) == strings_of(old(lines)@).push(l@),
{
    let ghost before = strings_of(lines@);
    lines.push(l);
    assert(strings_of(lines@) =~= before.push(l@));
}

fn push_marker_lines(lines: &mut Vec<String>, markers: &Vec<TruncationMarker>)
    ensures
        strings_of(final(lines)@) == strings_of(old(lines)@) + markers_lines(markers@),
{
    let ghost start = strings_of(lines@);
    let mut i: usize = 0;
    while i < markers.len()
        invariant
            i <= markers@.len(),
            strings_of(lines@) == start + markers_lines(markers@.take(i as int)),
        decreases markers@.len() - i,
    {
        let ghost before = strings_of(lines@);
        push_line(lines, marker_line(&markers[i]));
        assert(markers_lines(markers@.take(i + 1)) =~= markers_lines(markers@.take(i as int)).push(
            marker_line_text(markers@[i as int]),
        ));
        assert(strings_of(lines@) =~= start + markers_lines(markers@.take(i + 1)));
        i = i + 1;
    }
    assert(markers@.take(i as int) =~= markers@);
}

fn push_identity_lines(lines: &mut Vec<String>, call: &ToolCallRecord, color: bool)
    ensures
        strings_of(final(lines)@) == strings_of(old(lines)@) + seq![
            labeled_text("call_id"@, call.call_id@, color),
        ] + (match call.turn_id {
            Some(t) => seq![labeled_text("turn_id"@, t@, color)],
            None => Seq::<Seq<char>>::empty(),
        }) + seq![
            labeled_text("tool"@, tool_name_text(*call), color),
            labeled_text("kind"@, kind_text(call.tool.kind), color),
            labeled_text("completeness"@, completeness_text(call.completeness), color),
        ],
{
    let ghost s0 = strings_of(lines@);
    push_line(lines, labeled("call_id", call.call_id.as_str(), color));
    let ghost s1 = strings_of(lines@);
    if let Some(turn) = &call.turn_id {
        push_line(lines, labeled("turn_id", turn.as_str(), color));
    }
    let ghost s2 = strings_of(lines@);
    assert(s2 =~= s1 + (match call.turn_id {
        Some(t) => seq![labeled_text("turn_id"@, t@, color)],
        None => Seq::<Seq<char>>::empty(),
    }));
    push_line(lines, labeled("tool", format_tool_name(call).as_str(), color));
    push_line(lines, labeled("kind", tool_kind_str(call.tool.kind), color));
    push_line(lines, labeled("completeness", completeness_str(&call.completeness), color));
    assert(strings_of(lines@) =~= s0 + seq![labeled_text("call_id"@, call.call_id@, color)] + (
    match call.turn_id {
        Some(t) => seq![labeled_text("turn_id"@, t@, color)],
        None => Seq::<Seq<char>>::empty(),
    }) + seq![
        labeled_text("tool"@, tool_name_text(*call), color),
        labeled_text("kind"@, kind_text(call.tool.kind), color),
        labeled_text("completeness"@, completeness_text(call.completeness), color),
    ]);
}

/// The lines printed for one call by `tool`; `items_json` is the JSON of the
/// result's structured items, read only when it has them.
pub fn tool_call_lines(call: &ToolCallRecord, pretty: bool, color: bool, items_json: &str) -> (r:
    Vec<String>)
    ensures
        strings_of(r@) == tool_call_text(*call, pretty, color, items_json@),
{
    let mut lines: Vec<String> = Vec::new();
    push_identity_lines(&mut lines, call, color);
    let ghost s1 = strings_of(lines@);
    if let Completeness::Truncated { markers } = &call.completeness {
        push_line(&mut lines, emphasize(TRUNCATION_WARNING, color));
        push_marker_lines(&mut lines, markers);
    }
    let ghost s2 = strings_of(lines@);
    assert(s2 =~= s1 + (match call.completeness {
        Completeness::Truncated { markers } => seq![emphasized_text(TRUNCATION_WARNING@, color)]
            + markers_lines(markers@),
        _ => Seq::<Seq<char>>::empty(),
    }));
    push_line(&mut lines, label("arguments", color));
    push_line(&mut lines, format_arguments(call, pretty));
    push_line(&mut lines, label("result", color));
    let result = match &call.result {
        Some(r) => format_result_body(&r.body, pretty, items_json),
        None => "(no persisted result)".to_string(),
    };
    push_line(&mut lines, result);
    assert(strings_of(lines@) =~= tool_call_text(*call, pretty, color, items_json@));
    lines
}

/// What the JSON form of a printed result holds.
#[derive(Debug, PartialEq)]
pub enum ResultJson {
    /// The result text, decoded as a JSON document.
    Document(serde_json::Value),
    /// The result text as a JSON string.
    Text(String),
    /// The structured items of the result.
    Items,
}

/// The JSON form of a result body: with `pretty`, text that is JSON is its
/// decoded document; other text is kept as a string; structured items are
/// their items.
pub fn result_json_source(body: &ToolResultBody, pretty: bool) -> (r: ResultJson)
    ensures
        match body {
            ToolResultBody::Text(t) => if pretty && json_text_is_valid(t@) {
                r == ResultJson::Document(parsed_json_document(t@))
            } else {
                r matches ResultJson::Text(x) && x@ == t@
            },
            ToolResultBody::ContentItems(_) => r is Items,
        },
{
    match body {
        ToolResultBody::Text(text) => {
            if pretty {
                if let Ok(value) = parse_json_text(text.as_str()) {
                    return ResultJson::Document(value);
                }
            }
            ResultJson::Text(text.clone())
        },
        ToolResultBody::ContentItems(_) => ResultJson::Items,
    }
}

/// The decoded arguments the JSON form of a call shows, when `pretty` asks
/// for them and the arguments are JSON; otherwise the raw text is shown.
pub fn arguments_json_source(call: &ToolCallRecord, pretty: bool) -> (r: Option<&serde_json::Value>)
    ensures
        match r {
            Some(v) => pretty && call.arguments.parsed_json == Some(*v),
            None => !pretty || call.arguments.parsed_json is None,
        },
{
    if pretty {
        match &call.arguments.parsed_json {
            Some(v) => Some(v),
            None => None,
        }
    } else {
        None
    }
}

/// The summary's counts are the sizes of the matching sets of calls: the
/// truncated count is the number of calls whose completeness is `Truncated`
/// (a call with a complete result, or without a result, is not counted), and
/// the open count is the number of calls without a persisted result.
pub proof fn lemma_summary_counts(calls: Seq<ToolCallRecord>)
    ensures
        count_truncated(calls) == calls.filter(
            |c: ToolCallRecord| c.completeness is Truncated,
        ).len(),
        count_open(calls) == calls.filter(|c: ToolCallRecord| c.result is None).len(),
        count_truncated(calls) <= calls.len() - calls.filter(
            |c: ToolCallRecord| !(c.completeness is Truncated),
        ).len(),
    decreases calls.len(),
{
    reveal(Seq::filter);
    if calls.len() > 0 {
        lemma_summary_counts(calls.drop_last());
    }
}

/// Where the STATUS column of a tools row starts: after the call id column
/// (at least 36 characters), the kind column (10) and their separators.
pub open spec fn status_column(call: ToolCallRecord) -> int {
    (if call.call_id@.len() >= 36 {
        call.call_id@.len() as int
    } else {
        36
    }) + 14
}

/// The STATUS column of a tools row names the call's completeness: an open
/// call shows `unknown`, a call with a complete result `complete`, one whose
/// result carries a marker `truncated`.
pub proof fn lemma_tools_row_status(call: ToolCallRecord)
    ensures
        call.completeness is Unknown ==> tools_row_text(call).subrange(
            status_column(call),
            status_column(call) + 8,
        ) == "unknown "@,
        call.completeness is Complete ==> tools_row_text(call).subrange(
            status_column(call),
            status_column(call) + 8,
        ) == "complete"@,
        call.completeness is Truncated ==> tools_row_text(call).subrange(
            status_column(call),
            status_column(call) + 9,
        ) == "truncated"@,
        tools_row_text(call).subrange(0, call.call_id@.len() as int) == call.call_id@,
{
    reveal_strlit("unknown ");
    reveal_strlit("unknown");
    reveal_strlit("complete");
    reveal_strlit("truncated");
    reveal_strlit("function");
    reveal_strlit("custom");
    reveal_strlit("  ");
    let id = pad_right(call.call_id@, 36);
    let kind = pad_right(kind_text(call.tool.kind), 10);
    let status = completeness_text(call.completeness);
    let st = pad_right(status, 8);
    let row = tools_row_text(call);
    assert(id.len() == status_column(call) - 14);
    assert(kind.len() == 10);
    let s0 = status_column(call);
    assert(row == id + "  "@ + kind + "  "@ + st + "  "@ + pad_right(
        middle_truncated(or_dash(opt_chars(call.turn_id)), 12),
        12,
    ) + "  "@ + tool_name_text(call));
    let pre = id + "  "@ + kind + "  "@;
    assert(pre.len() == s0);
    assert(row.subrange(0, call.call_id@.len() as int) =~= call.call_id@);
    if call.completeness is Unknown {
        assert(st =~= "unknown "@);
        assert(row.subrange(s0, s0 + 8) =~= st);
    } else if call.completeness is Complete {
        assert(st =~= "complete"@);
        assert(row.subrange(s0, s0 + 8) =~= st);
    } else {
        assert(st =~= "truncated"@);
        assert(row.subrange(s0, s0 + 9) =~= st);
    }
}

} // verus!
