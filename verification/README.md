# aptu_coder

The verified core of `aptu-coder`, an MCP server that analyses code, edits
files and runs shell commands for a client. Everything the server decides
without touching the outside world lives in `src/` and is proved with Verus
against contracts written over mathematical models (`Seq`, `Map`, `nat`):

- `heredoc_validation`, `shell_scan`: the pre-spawn guard that refuses
  heredocs which would write files, feed a stdin-consuming flag, clash with
  a stdin payload, or lack their closing delimiter.
- `exec_command`, `exec_runtime`: where a command runs (`working_dir`,
  promoted `cd <path> &&` prefixes), what is refused before spawning, the
  drain budget, the assembly and previews of stdout/stderr/interleaved
  output, the shell choice and the report text.
- `filters`: the output filter table (built-in rules, project rules in
  front) and how a rule rewrites output (ANSI stripping, line stripping
  and keeping, caps, empty-output text); `git pull` gets `--no-stat`.
- `edit_replace`, `edit_overwrite`: the per-session stale-context circuit
  breaker, the diagnostics of failed edits, and what a file write reports.
- `resources`: graph resource URIs, cursor tokens and paging.
- `metrics`: metric events and their builder, per-tool tallies and the
  session summary, file-extension and language labels, dates and the
  expiry of daily metrics files.
- `analyze_directory`, `common`, `validation`, `cli`, `text`: path
  relativization, request checks, path containment, command-line parsing,
  bearer-token checks, and the string helpers the rest is built on.

Calls into `regex`, `base64`, `serde_json`, `blake3` and the few parts of
`std` that `vstd` does not specify go through small trusted wrappers whose
contracts name what the call returns.

`app/` holds the I/O around the library (spawning processes, the metrics
files, reading `.aptu/filters.toml`, resolving paths) and the program's
command line; the MCP transports and the analysis engine are not part of
this build.
