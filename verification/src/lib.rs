//! Verified core of a code-analysis MCP server: shell-command guards,
//! output filtering and shaping, metrics records, resource URI parsing and
//! command-line handling.

pub mod text;
pub mod shell_scan;
pub mod heredoc_validation;
pub mod resources;
pub mod filters;
pub mod exec_command;

use vstd::prelude::*;

verus! {

/// Characters of a formatted analysis beyond which it is summarized (or,
/// when a summary was declined, refused).
pub const SIZE_LIMIT: usize = 5_000;

/// Largest stdin payload `exec_command` accepts, in bytes (1 MiB).
pub const STDIN_MAX_BYTES: usize = 1_048_576;

/// Parameters of the `exec_command` tool.
#[derive(Debug, Clone)]
pub struct ExecCommandParams {
    /// Shell command to run with `sh -c` (or `$SHELL`).
    pub command: String,
    /// Directory to run the command in.
    pub working_dir: Option<String>,
    /// UTF-8 text piped to the command's stdin (at most `STDIN_MAX_BYTES`).
    pub stdin: Option<String>,
    /// Seconds the command may run before it is killed; 0 or none means no limit.
    pub timeout_secs: Option<i64>,
    /// Milliseconds to keep draining output after the command exits; 0 or
    /// none means the default, negative values are refused.
    pub drain_timeout_secs: Option<i64>,
}

impl ExecCommandParams {
    /// Parameters for `command` in `working_dir`, with no stdin and no timeouts.
    pub fn new(command: String, working_dir: Option<String>) -> (r: Self)
        ensures
            r.command == command,
            r.working_dir == working_dir,
            r.stdin is None,
            r.timeout_secs is None,
            r.drain_timeout_secs is None,
    {
        ExecCommandParams {
            command,
            working_dir,
            stdin: None,
            timeout_secs: None,
            drain_timeout_secs: None,
        }
    }
}

impl Default for ExecCommandParams {
    fn default() -> (r: Self)
        ensures
            r.command@ == Seq::<char>::empty(),
            r.working_dir is None,
            r.stdin is None,
            r.timeout_secs is None,
            r.drain_timeout_secs is None,
    {
        ExecCommandParams::new(String::new(), None)
    }
}

/// What a command produced and how it ended.
#[derive(Debug, Clone)]
pub struct ShellOutput {
    /// Standard output.
    pub stdout: String,
    /// Standard error.
    pub stderr: String,
    /// Standard output and error interleaved in arrival order.
    pub interleaved: String,
    /// Exit code; none when the process could not be waited on.
    pub exit_code: Option<i32>,
    /// Whether some output was left out (size caps or drain timeout).
    pub output_truncated: bool,
    /// Set when the post-exit drain timed out.
    pub output_collection_error: Option<String>,
    /// File holding the full stdout, when it was persisted.
    pub stdout_path: Option<String>,
    /// File holding the full stderr, when it was persisted.
    pub stderr_path: Option<String>,
    /// File holding the full interleaved output, when it was persisted.
    pub interleaved_path: Option<String>,
    /// Description of the filter applied to the output, if any.
    pub filter_applied: Option<String>,
    /// Whether the command was killed for exceeding its timeout.
    pub timed_out: bool,
}

impl ShellOutput {
    /// An output record with no persisted files, no filter, no collection
    /// error and no timeout.
    pub fn new(
        stdout: String,
        stderr: String,
        interleaved: String,
        exit_code: Option<i32>,
        output_truncated: bool,
    ) -> (r: Self)
        ensures
            r.stdout == stdout,
            r.stderr == stderr,
            r.interleaved == interleaved,
            r.exit_code == exit_code,
            r.output_truncated == output_truncated,
            r.output_collection_error is None,
            r.stdout_path is None,
            r.stderr_path is None,
            r.interleaved_path is None,
            r.filter_applied is None,
            !r.timed_out,
    {
        ShellOutput {
            stdout,
            stderr,
            interleaved,
            exit_code,
            output_truncated,
            output_collection_error: None,
            stdout_path: None,
            stderr_path: None,
            interleaved_path: None,
            filter_applied: None,
            timed_out: false,
        }
    }
}

/// Session and client metadata recorded on every tool call.
#[derive(Debug, Clone)]
pub struct ClientMetadata {
    pub session_id: Option<String>,
    pub client_name: Option<String>,
    pub client_version: Option<String>,
}

} // verus!
pub mod analyze_directory;
pub mod metrics;
pub mod edit_replace;
pub mod edit_overwrite;
pub mod cli;
pub mod common;
pub mod exec_runtime;
pub mod validation;
