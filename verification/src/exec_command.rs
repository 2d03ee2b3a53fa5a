//! The decisions of the `exec_command` tool before and after a command
//! runs: where it runs (an explicit working directory, or a promoted
//! `cd <path> &&` prefix), what is refused before anything is spawned, and
//! the text reported back.

use vstd::prelude::*;
use vstd::string::StringSliceAdditionalSpecFns;
use vstd::utf8::encode_utf8;
use crate::{ExecCommandParams, ShellOutput, STDIN_MAX_BYTES};
use crate::filters::{maybe_inject_no_stat, with_no_stat};
use crate::heredoc_validation::{heredoc_message, heredoc_verdict, validate_heredocs, HeredocError};
use crate::text::{
    chars_of, contains_seq, contains_str, decimal, has_prefix, occurs_at, push_all,
    push_decimal, push_str, slice_chars, starts_with, string_of, trim_chars, trim_start_pos,
    trim_ws,
};

verus! {

/// Default drain timeout after the child exits, in milliseconds.
pub const DEFAULT_DRAIN_TIMEOUT_MS: u64 = 500;

/// Machine-readable cause of an `exec_command` invalid-params refusal.
#[derive(Clone, Copy, Debug, PartialEq, Eq, Structural)]
pub enum ExecCommandErrorSubtype {
    /// `working_dir` exists but is not a directory.
    WorkingDirNotDir,
    /// `working_dir` does not resolve.
    WorkingDirNotFound,
    /// A promoted `cd <path> &&` prefix names something that is not a directory.
    CdPathNotDir,
    /// A promoted `cd <path> &&` prefix does not resolve or is outside the CWD.
    CdPathNotFound,
    /// `stdin` is larger than `STDIN_MAX_BYTES`.
    StdinTooLarge,
    /// The heredoc guard refused the command.
    HeredocError,
    /// `drain_timeout_secs` is negative.
    DrainTimeoutInvalid,
}

/// The metric label of each subtype.
pub open spec fn subtype_label(s: ExecCommandErrorSubtype) -> Seq<char> {
    match s {
        ExecCommandErrorSubtype::WorkingDirNotDir => "working_dir_not_dir"@,
        ExecCommandErrorSubtype::WorkingDirNotFound => "working_dir_not_found"@,
        ExecCommandErrorSubtype::CdPathNotDir => "cd_path_not_dir"@,
        ExecCommandErrorSubtype::CdPathNotFound => "cd_path_not_found"@,
        ExecCommandErrorSubtype::StdinTooLarge => "stdin_too_large"@,
        ExecCommandErrorSubtype::HeredocError => "heredoc_error"@,
        ExecCommandErrorSubtype::DrainTimeoutInvalid => "drain_timeout_invalid"@,
    }
}

impl ExecCommandErrorSubtype {
    /// The metric label of the subtype.
    pub fn as_str(self) -> (s: &'static str)
        ensures
            s@ == subtype_label(self),
    {
        match self {
            ExecCommandErrorSubtype::WorkingDirNotDir => "working_dir_not_dir",
            ExecCommandErrorSubtype::WorkingDirNotFound => "working_dir_not_found",
            ExecCommandErrorSubtype::CdPathNotDir => "cd_path_not_dir",
            ExecCommandErrorSubtype::CdPathNotFound => "cd_path_not_found",
            ExecCommandErrorSubtype::StdinTooLarge => "stdin_too_large",
            ExecCommandErrorSubtype::HeredocError => "heredoc_error",
            ExecCommandErrorSubtype::DrainTimeoutInvalid => "drain_timeout_invalid",
        }
    }
}

// ---------------------------------------------------------------------------
// `cd <path> &&` prefixes
// ---------------------------------------------------------------------------

/// First position at or after `k` where `p` occurs in `s`, if any.
pub open spec fn find_seq(s: Seq<char>, p: Seq<char>, k: int) -> Option<int>
    decreases s.len() + 1 - k,
{
    if k < 0 || k + p.len() > s.len() {
        None
    } else if occurs_at(s, p, k) {
        Some(k)
    } else {
        find_seq(s, p, k + 1)
    }
}

/// `s` without leading Unicode whitespace, as `str::trim_start` gives.
pub open spec fn trim_start_ws(s: Seq<char>) -> Seq<char> {
    s.subrange(trim_start_pos(s, 0), s.len() as int)
}

/// The split of a command with a leading `cd <path> &&` (after leading
/// whitespace): the trimmed rest of the command and the trimmed path; the
/// command unchanged and no path otherwise.
pub open spec fn cd_prefix_split(cmd: Seq<char>) -> (Seq<char>, Option<Seq<char>>) {
    let t = trim_start_ws(cmd);
    if !has_prefix(t, "cd "@) {
        (cmd, None)
    } else {
        let rest = t.subrange(3, t.len() as int);
        match find_seq(rest, "&&"@, 0) {
            None => (cmd, None),
            Some(i) => (
                trim_ws(rest.subrange(i + 2, rest.len() as int)),
                Some(trim_ws(rest.subrange(0, i))),
            ),
        }
    }
}

proof fn lemma_trim_start_pos_bound(s: Seq<char>, k: int)
    requires
        0 <= k <= s.len(),
    ensures
        k <= trim_start_pos(s, k) <= s.len(),
    decreases s.len() - k,
{
    if 0 <= k < s.len() && crate::text::is_unicode_ws(s[k]) {
        lemma_trim_start_pos_bound(s, k + 1);
    }
}

/// Finds the first `&&` in `s`.
fn find_and_and(s: &[char]) -> (r: Option<usize>)
    ensures
        match r {
            None => find_seq(s@, "&&"@, 0) is None,
            Some(i) => find_seq(s@, "&&"@, 0) == Some(i as int) && i + 2 <= s@.len(),
        },
{
    proof {
        reveal_strlit("&&");
    }
    if s.len() < 2 {
        return None;
    }
    let mut i: usize = 0;
    while i < s.len() - 1
        invariant
            s@.len() >= 2,
            "&&"@.len() == 2,
            "&&"@[0] == '&' && "&&"@[1] == '&',
            i <= s@.len(),
            find_seq(s@, "&&"@, i as int) == find_seq(s@, "&&"@, 0),
        decreases s@.len() - i,
    {
        if s[i] == '&' && s[i + 1] == '&' {
            assert(s@.subrange(i as int, i + 2) =~= "&&"@);
            return Some(i);
        }
        assert(s@.subrange(i as int, i + 2)[0] == s@[i as int]);
        assert(s@.subrange(i as int, i + 2)[1] == s@[i + 1]);
        i = i + 1;
    }
    None
}

/// Splits a leading `cd <path> &&` off a command: the trimmed rest of the
/// command and the trimmed path, or the command unchanged and `None` when it
/// does not start (after whitespace) with `cd ` followed somewhere by `&&`.
pub fn strip_cd_prefix(cmd: &str) -> (r: (String, Option<String>))
    ensures
        r.0@ == cd_prefix_split(cmd@).0,
        match r.1 {
            Some(p) => cd_prefix_split(cmd@).1 == Some(p@),
            None => cd_prefix_split(cmd@).1 is None,
        },
{
    let c = chars_of(cmd);
    let mut lo: usize = 0;
    while lo < c.len() && crate::text::is_unicode_whitespace(c[lo])
        invariant
            lo <= c@.len(),
            trim_start_pos(c@, lo as int) == trim_start_pos(c@, 0),
        decreases c@.len() - lo,
    {
        lo = lo + 1;
    }
    let t = slice_chars(c.as_slice(), lo, c.len());
    if !starts_with(t.as_slice(), "cd ") {
        return (cmd.to_owned(), None);
    }
    proof {
        reveal_strlit("cd ");
    }
    let rest = slice_chars(t.as_slice(), 3, t.len());
    match find_and_and(rest.as_slice()) {
        None => (cmd.to_owned(), None),
        Some(i) => {
            let path = trim_chars(slice_chars(rest.as_slice(), 0, i).as_slice());
            let stripped = trim_chars(slice_chars(rest.as_slice(), i + 2, rest.len()).as_slice());
            (string_of(stripped.as_slice()), Some(string_of(path.as_slice())))
        },
    }
}

/// Is a `cd` path a plain absolute path the server can resolve itself: it
/// starts with `/`, holds no `$` or `~`, and is not `-`?
pub open spec fn is_plain_absolute(p: Seq<char>) -> bool {
    &&& p.len() > 0 && p[0] == '/'
    &&& !contains_seq(p, "$"@)
    &&& !contains_seq(p, "~"@)
    &&& p != "-"@
}

fn plain_absolute(p: &str) -> (r: bool)
    ensures
        r == is_plain_absolute(p@),
{
    let v = chars_of(p);
    let dash = chars_of("-");
    let is_dash = v.len() == 1 && dash.len() == 1 && v[0] == dash[0];
    proof {
        reveal_strlit("-");
        if v@.len() == 1 && dash@.len() == 1 && v@[0] == dash@[0] {
            assert(v@ =~= dash@);
        }
    }
    v.len() > 0 && v[0] == '/' && !contains_str(v.as_slice(), "$") && !contains_str(
        v.as_slice(),
        "~",
    ) && !is_dash
}

// ---------------------------------------------------------------------------
// Where a command runs
// ---------------------------------------------------------------------------

/// What resolving the explicit `working_dir` found.
#[derive(Clone, Copy, Debug, PartialEq, Eq, Structural)]
pub enum DirCheck {
    /// It does not resolve.
    Missing,
    /// It resolves to something that is not a directory.
    NotDir,
    /// It resolves to a directory.
    Dir,
}

/// What resolving a `cd` prefix path (within the CWD) found.
#[derive(Clone, Copy, Debug, PartialEq, Eq, Structural)]
pub enum CdCheck {
    /// It does not resolve, or lies outside the CWD.
    Unresolved,
    /// It resolves; whether to a directory, and whether to the same path as
    /// the explicit working directory.
    Resolved { is_dir: bool, same_as_working_dir: bool },
}

/// Where the command will run.
#[derive(Clone, Copy, Debug, PartialEq, Eq, Structural)]
pub enum WorkingDirSource {
    /// The server's own directory.
    Inherited,
    /// The explicit `working_dir`.
    Explicit,
    /// The path of the promoted `cd` prefix.
    CdPrefix,
}

/// The `cd` path whose resolution the decision needs: with no explicit
/// working directory only a plain absolute path is promoted; with one, any
/// `cd` path is checked for redundancy.
pub open spec fn cd_path_needing_check(cmd: Seq<char>, has_working_dir: bool) -> Option<Seq<char>> {
    match cd_prefix_split(cmd).1 {
        None => None,
        Some(p) => if has_working_dir || is_plain_absolute(p) {
            Some(p)
        } else {
            None
        },
    }
}

/// The `cd` path the caller must resolve before `working_dir_phase`.
pub fn cd_path_to_check(command: &str, has_working_dir: bool) -> (r: Option<String>)
    ensures
        match r {
            Some(p) => cd_path_needing_check(command@, has_working_dir) == Some(p@),
            None => cd_path_needing_check(command@, has_working_dir) is None,
        },
{
    let (_, cd) = strip_cd_prefix(command);
    match cd {
        None => None,
        Some(p) => {
            if has_working_dir || plain_absolute(p.as_str()) {
                Some(p)
            } else {
                None
            }
        },
    }
}

/// The message of each working-directory refusal.
pub open spec fn working_dir_message(s: ExecCommandErrorSubtype) -> Seq<char> {
    match s {
        ExecCommandErrorSubtype::WorkingDirNotDir =>
            "working_dir is not a directory; provide an existing directory path"@,
        ExecCommandErrorSubtype::WorkingDirNotFound =>
            "working_dir is not valid; provide an existing directory path"@,
        ExecCommandErrorSubtype::CdPathNotDir =>
            "cd prefix path is not a directory; set working_dir explicitly or use a valid directory path"@,
        _ => "cd prefix path does not exist or is outside CWD; set working_dir explicitly"@,
    }
}

/// The outcome of the working-directory phase before the `--no-stat`
/// rewrite: the command to run and where, or a refusal.
pub open spec fn working_dir_outcome(cmd: Seq<char>, working_dir: Option<DirCheck>, cd: CdCheck) -> Result<
    (Seq<char>, WorkingDirSource),
    ExecCommandErrorSubtype,
> {
    if working_dir == Some(DirCheck::Missing) {
        Err(ExecCommandErrorSubtype::WorkingDirNotFound)
    } else if working_dir == Some(DirCheck::NotDir) {
        Err(ExecCommandErrorSubtype::WorkingDirNotDir)
    } else {
        let (stripped, cd_path) = cd_prefix_split(cmd);
        match cd_path {
            None => Ok(
                (
                    cmd,
                    if working_dir is Some {
                        WorkingDirSource::Explicit
                    } else {
                        WorkingDirSource::Inherited
                    },
                ),
            ),
            Some(p) => if working_dir is None {
                if !is_plain_absolute(p) {
                    Ok((cmd, WorkingDirSource::Inherited))
                } else {
                    match cd {
                        CdCheck::Resolved { is_dir: true, .. } => Ok(
                            (stripped, WorkingDirSource::CdPrefix),
                        ),
                        CdCheck::Resolved { is_dir: false, .. } => Err(
                            ExecCommandErrorSubtype::CdPathNotDir,
                        ),
                        CdCheck::Unresolved => Err(ExecCommandErrorSubtype::CdPathNotFound),
                    }
                }
            } else {
                match cd {
                    CdCheck::Resolved { same_as_working_dir: true, .. } => Ok(
                        (stripped, WorkingDirSource::Explicit),
                    ),
                    _ => Ok((cmd, WorkingDirSource::Explicit)),
                }
            },
        }
    }
}

/// Decides where a command runs and what command runs there.
///
/// `working_dir` is what resolving the explicit working directory found
/// (`None` when there is none); `cd` is what resolving the path
/// `cd_path_to_check` named found (`Unresolved` when it named none). A
/// `cd <path> &&` prefix is stripped when its path is promoted (no explicit
/// working directory, plain absolute directory path) or redundant (it
/// resolves to the explicit working directory); otherwise the command runs
/// as given. `git pull` then gets `--no-stat`.
pub fn working_dir_phase(command: &str, working_dir: Option<DirCheck>, cd: CdCheck) -> (r: Result<
    (String, WorkingDirSource),
    (String, ExecCommandErrorSubtype),
>)
    ensures
        match working_dir_outcome(command@, working_dir, cd) {
            Ok((c, src)) => r matches Ok((rc, rsrc)) && rc@ == with_no_stat(c) && rsrc == src,
            Err(s) => r matches Err((msg, rs)) && rs == s && msg@ == working_dir_message(s),
        },
{
    match working_dir {
        Some(DirCheck::Missing) => {
            return Err(
                (
                    "working_dir is not valid; provide an existing directory path".to_owned(),
                    ExecCommandErrorSubtype::WorkingDirNotFound,
                ),
            );
        },
        Some(DirCheck::NotDir) => {
            return Err(
                (
                    "working_dir is not a directory; provide an existing directory path".to_owned(),
                    ExecCommandErrorSubtype::WorkingDirNotDir,
                ),
            );
        },
        _ => {},
    }
    let (stripped, cd_path) = strip_cd_prefix(command);
    let (chosen, source): (String, WorkingDirSource) = match cd_path {
        None => (
            command.to_owned(),
            if working_dir.is_some() {
                WorkingDirSource::Explicit
            } else {
                WorkingDirSource::Inherited
            },
        ),
        Some(p) => {
            if working_dir.is_none() {
                if !plain_absolute(p.as_str()) {
                    (command.to_owned(), WorkingDirSource::Inherited)
                } else {
                    match cd {
                        CdCheck::Resolved { is_dir: true, .. } => (
                            stripped,
                            WorkingDirSource::CdPrefix,
                        ),
                        CdCheck::Resolved { is_dir: false, .. } => {
                            return Err(
                                (
                                    "cd prefix path is not a directory; set working_dir explicitly or use a valid directory path".to_owned(),
                                    ExecCommandErrorSubtype::CdPathNotDir,
                                ),
                            );
                        },
                        CdCheck::Unresolved => {
                            return Err(
                                (
                                    "cd prefix path does not exist or is outside CWD; set working_dir explicitly".to_owned(),
                                    ExecCommandErrorSubtype::CdPathNotFound,
                                ),
                            );
                        },
                    }
                }
            } else {
                match cd {
                    CdCheck::Resolved { same_as_working_dir: true, .. } => (
                        stripped,
                        WorkingDirSource::Explicit,
                    ),
                    _ => (command.to_owned(), WorkingDirSource::Explicit),
                }
            }
        },
    };
    Ok((maybe_inject_no_stat(chosen.as_str()), source))
}

// ---------------------------------------------------------------------------
// Pre-spawn checks
// ---------------------------------------------------------------------------

/// The outcome of the pre-spawn checks on a command with an optional stdin
/// payload of `stdin_len` bytes and an optional drain timeout: the drain
/// timeout to use (milliseconds), or the message and subtype of a refusal.
pub open spec fn pre_spawn_outcome(
    command_bytes: Seq<u8>,
    stdin_len: Option<nat>,
    drain_timeout: Option<i64>,
) -> Result<u64, (Seq<char>, ExecCommandErrorSubtype)> {
    if stdin_len is Some && stdin_len.unwrap() > STDIN_MAX_BYTES {
        Err(("stdin exceeds 1 MB limit"@, ExecCommandErrorSubtype::StdinTooLarge))
    } else {
        match heredoc_verdict(command_bytes, stdin_len is Some) {
            Err(e) => Err((heredoc_message(e), ExecCommandErrorSubtype::HeredocError)),
            Ok(_) => match drain_timeout {
                Some(n) => if n < 0 {
                    Err(
                        (
                            "drain_timeout_secs must be >= 0"@,
                            ExecCommandErrorSubtype::DrainTimeoutInvalid,
                        ),
                    )
                } else if n > 0 {
                    Ok(n as u64)
                } else {
                    Ok(DEFAULT_DRAIN_TIMEOUT_MS)
                },
                None => Ok(DEFAULT_DRAIN_TIMEOUT_MS),
            },
        }
    }
}

/// The byte length of an optional stdin payload.
pub open spec fn stdin_len_of(stdin: Option<String>) -> Option<nat> {
    match stdin {
        Some(s) => Some(encode_utf8(s@).len()),
        None => None,
    }
}

/// Checks what must hold before a command is spawned: a stdin payload of at
/// most `STDIN_MAX_BYTES`, a command the heredoc guard accepts, and a
/// non-negative drain timeout. Returns the drain timeout to use in
/// milliseconds (`DEFAULT_DRAIN_TIMEOUT_MS` when it is absent or zero).
pub fn validate_pre_spawn_phase(params: &ExecCommandParams, command: &str) -> (r: Result<
    u64,
    (String, ExecCommandErrorSubtype),
>)
    ensures
        match pre_spawn_outcome(
            command.spec_bytes(),
            stdin_len_of(params.stdin),
            params.drain_timeout_secs,
        ) {
            Ok(ms) => r == Ok::<u64, (String, ExecCommandErrorSubtype)>(ms),
            Err((msg, s)) => r matches Err((rm, rs)) && rm@ == msg && rs == s,
        },
{
    match &params.stdin {
        Some(s) => {
            if s.as_str().as_bytes().len() > STDIN_MAX_BYTES {
                return Err(
                    ("stdin exceeds 1 MB limit".to_owned(), ExecCommandErrorSubtype::StdinTooLarge),
                );
            }
        },
        None => {},
    }
    match validate_heredocs(command, params.stdin.is_some()) {
        Err(e) => {
            return Err((e.message(), ExecCommandErrorSubtype::HeredocError));
        },
        Ok(()) => {},
    }
    match params.drain_timeout_secs {
        Some(n) => {
            if n < 0 {
                return Err(
                    (
                        "drain_timeout_secs must be >= 0".to_owned(),
                        ExecCommandErrorSubtype::DrainTimeoutInvalid,
                    ),
                );
            }
            if n > 0 {
                Ok(n as u64)
            } else {
                Ok(DEFAULT_DRAIN_TIMEOUT_MS)
            }
        },
        None => Ok(DEFAULT_DRAIN_TIMEOUT_MS),
    }
}

// ---------------------------------------------------------------------------
// The reported text
// ---------------------------------------------------------------------------

/// Decimal rendering of a signed integer.
pub open spec fn int_decimal(c: int) -> Seq<char> {
    if c < 0 {
        seq!['-'] + decimal((-c) as nat)
    } else {
        decimal(c as nat)
    }
}

/// `true` or `false`.
pub open spec fn bool_text(b: bool) -> Seq<char> {
    if b {
        "true"@
    } else {
        "false"@
    }
}

/// A line pointing at a persisted output file, or nothing.
pub open spec fn path_note(label: Seq<char>, p: Option<String>) -> Seq<char> {
    match p {
        Some(path) => label + path@ + seq!['\n'],
        None => seq![],
    }
}

/// The text reported for a finished command.
pub open spec fn shell_output_text(output: ShellOutput, command: Seq<char>) -> Seq<char> {
    let body = if output.interleaved@.len() == 0 {
        "Stdout:\n"@ + output.stdout@ + "\n\nStderr:\n"@ + output.stderr@
    } else {
        "Output:\n"@ + output.interleaved@
    };
    let notice = path_note("Full output available at: "@, output.stdout_path) + path_note(
        "Full stderr available at: "@,
        output.stderr_path,
    ) + path_note("Full output available at: "@, output.interleaved_path);
    let exit = match output.exit_code {
        Some(c) => int_decimal(c as int),
        None => "null"@,
    };
    "Command: "@ + command + "\nExit code: "@ + exit + "\nOutput truncated: "@ + bool_text(
        output.output_truncated,
    ) + seq!['\n'] + notice + body
}

fn push_path_note(v: &mut Vec<char>, label: &str, p: &Option<String>)
    ensures
        final(v)@ == old(v)@ + path_note(label@, *p),
{
    match p {
        Some(path) => {
            push_str(v, label);
            push_str(v, path.as_str());
            v.push('\n');
        },
        None => {
            assert(old(v)@ + path_note(label@, *p) =~= old(v)@);
        },
    }
}

/// Formats the report of a finished command: the command, its exit code
/// (`null` when unknown), whether output was truncated, where persisted
/// output can be read in full, and the interleaved output (or stdout and
/// stderr apart when nothing was interleaved).
pub fn format_shell_output_phase(output: &ShellOutput, params: &ExecCommandParams) -> (r: String)
    ensures
        r@ == shell_output_text(*output, params.command@),
{
    let mut v: Vec<char> = Vec::new();
    push_str(&mut v, "Command: ");
    push_str(&mut v, params.command.as_str());
    push_str(&mut v, "\nExit code: ");
    match output.exit_code {
        Some(c) => {
            let ghost before = v@;
            if c < 0 {
                v.push('-');
                let m: i64 = c as i64;
                push_decimal(&mut v, (0 - m) as u64);
                assert(v@ =~= before + int_decimal(c as int));
            } else {
                push_decimal(&mut v, c as u64);
            }
        },
        None => {
            push_str(&mut v, "null");
        },
    }
    push_str(&mut v, "\nOutput truncated: ");
    if output.output_truncated {
        push_str(&mut v, "true");
    } else {
        push_str(&mut v, "false");
    }
    v.push('\n');
    push_path_note(&mut v, "Full output available at: ", &output.stdout_path);
    push_path_note(&mut v, "Full stderr available at: ", &output.stderr_path);
    push_path_note(&mut v, "Full output available at: ", &output.interleaved_path);
    if output.interleaved.as_str().is_empty() {
        push_str(&mut v, "Stdout:\n");
        push_str(&mut v, output.stdout.as_str());
        push_str(&mut v, "\n\nStderr:\n");
        push_str(&mut v, output.stderr.as_str());
    } else {
        push_str(&mut v, "Output:\n");
        push_str(&mut v, output.interleaved.as_str());
    }
    let r = string_of(v.as_slice());
    proof {
        let body = if output.interleaved@.len() == 0 {
            "Stdout:\n"@ + output.stdout@ + "\n\nStderr:\n"@ + output.stderr@
        } else {
            "Output:\n"@ + output.interleaved@
        };
        assert(r@ =~= shell_output_text(*output, params.command@));
    }
    r
}

// ---------------------------------------------------------------------------
// The outcome of a run
// ---------------------------------------------------------------------------

/// Output characters beyond which a call is flagged in its metric event.
pub const CHARS_THRESHOLD: usize = 30_000;

/// The configured timeout in milliseconds, as recorded in the metric event
/// (saturating at the bounds of `i64`).
pub fn timeout_configured_ms(timeout_secs: Option<i64>) -> (r: Option<i64>)
    ensures
        match timeout_secs {
            Some(s) => r == Some(
                if s * 1000 > i64::MAX {
                    i64::MAX
                } else if s * 1000 < i64::MIN {
                    i64::MIN
                } else {
                    (s * 1000) as i64
                },
            ),
            None => r is None,
        },
{
    match timeout_secs {
        Some(s) => {
            if s > i64::MAX / 1000 {
                Some(i64::MAX)
            } else if s < i64::MIN / 1000 {
                Some(i64::MIN)
            } else {
                Some(s * 1000)
            }
        },
        None => None,
    }
}

/// Did the command fail? Only a known non-zero exit code counts; an unknown
/// exit (drain timeout, external kill) is not a failure.
pub fn command_failed(exit_code: Option<i32>) -> (r: bool)
    ensures
        r == (exit_code is Some && exit_code.unwrap() != 0),
{
    match exit_code {
        Some(c) => c != 0,
        None => false,
    }
}

/// Is the reported text longer than `CHARS_THRESHOLD` bytes?
pub fn chars_threshold_breach(output_chars: usize) -> (r: bool)
    ensures
        r == (output_chars > CHARS_THRESHOLD),
{
    output_chars > CHARS_THRESHOLD
}

/// Are the raw byte counts worth reporting: the output was truncated by a
/// size cap, not by a timeout or an aborted drain?
pub fn report_raw_bytes(output: &ShellOutput) -> (r: bool)
    ensures
        r == (output.output_truncated && !output.timed_out && output.output_collection_error is None),
{
    output.output_truncated && !output.timed_out && output.output_collection_error.is_none()
}

} // verus!
