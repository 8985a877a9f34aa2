# session_inspector

Read-only inspection of the tool calls persisted in session rollouts, with
every decision proved in Verus.

- `src/completeness.rs`: the truncation-marker detector and the completeness
  of a persisted result.
- `src/json.rs`, `src/records.rs`: decoding raw rollout lines and the pairing
  of function and custom tool calls with their outputs, by turn and call id.
- `src/wrap.rs`, `src/lazy_transcript.rs`, `src/transcript_builder.rs`: word
  wrapping into rows, the lazy transcript document (row counts and windows
  without building every row) and the eager builder with its row budget.
- `src/dynamic_tool.rs`, `src/mcp_transcript.rs`: the state and full
  transcript of dynamic and MCP tool calls, and the compact history view of a
  dynamic call.
- `src/debug_session.rs`: arguments, errors and exit codes, session and call
  selection, summaries and the printed text of the `debug session` commands.
- `app/main.rs`: the command-line front end (argument parsing, session
  discovery under `$CODEX_HOME`, opening plain or zstd rollouts and splitting
  them into lines, JSON output).
