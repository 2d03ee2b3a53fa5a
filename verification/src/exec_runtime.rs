//! The bookkeeping of a running command: the byte budgets of the post-exit
//! drain, the outcome of waiting and draining, the assembly of stdout,
//! stderr and interleaved text from tagged lines, the previews of oversized
//! output, and the output filter of a successful command.

use vstd::prelude::*;
use vstd::string::StringSliceAdditionalSpecFns;
use vstd::utf8::{encode_utf8, is_char_boundary};
use crate::ShellOutput;
use crate::filters::{
    apply_filter, compiled_view, filter_output, regex_matches, CompiledRule, CompiledRuleView,
};
use crate::text::{
    chars_of, free_of, join_chars, join_with, lemma_lines_free, lemma_split_join, lines_chars,
    lines_of, split_on, string_of, views,
};

verus! {

/// Bytes of stdout the drain forwards.
pub const MAX_DRAIN_STDOUT_BYTES: usize = 30_000;

/// Bytes of stderr the drain forwards.
pub const MAX_DRAIN_STDERR_BYTES: usize = 10_000;

/// Bytes of stdout and of stderr kept from the forwarded lines.
pub const MAX_STREAM_BYTES: usize = 51_200;

/// Bytes of interleaved output kept before it is persisted: the combined
/// output cap, a safety net after interleaving.
pub const INTERLEAVED_MAX_BYTES: usize = 50_000;

/// Lines of stdout or stderr beyond which output is persisted.
pub const MAX_OUTPUT_LINES: usize = 2000;

/// Bytes of stdout beyond which output is persisted.
pub const MAX_STDOUT_BYTES: usize = 30_000;

/// Bytes of stderr beyond which output is persisted.
pub const MAX_STDERR_BYTES: usize = 10_000;

/// Lines of a persisted stream shown in its preview.
pub const OVERFLOW_PREVIEW_LINES: usize = 50;

/// `a + b`, capped at `usize::MAX`.
pub open spec fn sat_add(a: nat, b: nat) -> nat {
    if a + b > usize::MAX {
        usize::MAX as nat
    } else {
        a + b
    }
}

// ---------------------------------------------------------------------------
// Drain budget
// ---------------------------------------------------------------------------

/// Byte accounting of the post-exit drain: bytes forwarded per stream,
/// bytes seen per stream, and whether a line was held back.
#[derive(Clone, Copy, Debug)]
pub struct DrainBudget {
    pub stdout_bytes: usize,
    pub stderr_bytes: usize,
    pub raw_stdout: usize,
    pub raw_stderr: usize,
    pub budget_hit: bool,
}

impl DrainBudget {
    /// The forwarded bytes stay within the budgets.
    pub open spec fn wf(&self) -> bool {
        self.stdout_bytes <= MAX_DRAIN_STDOUT_BYTES && self.stderr_bytes <= MAX_DRAIN_STDERR_BYTES
    }

    /// Nothing seen yet.
    pub fn new() -> (r: Self)
        ensures
            r.wf(),
            r.stdout_bytes == 0 && r.stderr_bytes == 0 && r.raw_stdout == 0 && r.raw_stderr == 0,
            !r.budget_hit,
    {
        DrainBudget { stdout_bytes: 0, stderr_bytes: 0, raw_stdout: 0, raw_stderr: 0, budget_hit: false }
    }

    /// Accounts for one line of `line_len` bytes (plus its newline) and says
    /// whether to forward it: a line that would take its stream past its
    /// budget is held back and marks the budget as hit.
    pub fn record_line(&mut self, is_stderr: bool, line_len: usize) -> (forward: bool)
        requires
            old(self).wf(),
            line_len < usize::MAX,
        ensures
            final(self).wf(),
            is_stderr ==> ({
                let entry = line_len + 1;
                &&& forward == (old(self).stderr_bytes + entry <= MAX_DRAIN_STDERR_BYTES)
                &&& final(self).raw_stderr == sat_add(old(self).raw_stderr as nat, entry as nat)
                &&& final(self).stderr_bytes == (if forward {
                    old(self).stderr_bytes + entry
                } else {
                    old(self).stderr_bytes as int
                })
                &&& final(self).stdout_bytes == old(self).stdout_bytes
                &&& final(self).raw_stdout == old(self).raw_stdout
            }),
            !is_stderr ==> ({
                let entry = line_len + 1;
                &&& forward == (old(self).stdout_bytes + entry <= MAX_DRAIN_STDOUT_BYTES)
                &&& final(self).raw_stdout == sat_add(old(self).raw_stdout as nat, entry as nat)
                &&& final(self).stdout_bytes == (if forward {
                    old(self).stdout_bytes + entry
                } else {
                    old(self).stdout_bytes as int
                })
                &&& final(self).stderr_bytes == old(self).stderr_bytes
                &&& final(self).raw_stderr == old(self).raw_stderr
            }),
            final(self).budget_hit == (old(self).budget_hit || !forward),
    {
        let entry = line_len + 1;
        if is_stderr {
            self.raw_stderr = self.raw_stderr.saturating_add(entry);
            if entry > MAX_DRAIN_STDERR_BYTES - self.stderr_bytes {
                self.budget_hit = true;
                return false;
            }
            self.stderr_bytes = self.stderr_bytes + entry;
        } else {
            self.raw_stdout = self.raw_stdout.saturating_add(entry);
            if entry > MAX_DRAIN_STDOUT_BYTES - self.stdout_bytes {
                self.budget_hit = true;
                return false;
            }
            self.stdout_bytes = self.stdout_bytes + entry;
        }
        true
    }
}

// ---------------------------------------------------------------------------
// Outcome of waiting and draining
// ---------------------------------------------------------------------------

/// How the post-exit drain ended.
#[derive(Clone, Copy, Debug, PartialEq, Eq, Structural)]
pub enum DrainOutcome {
    /// It read both pipes to their end.
    Finished { budget_hit: bool, raw_stdout: usize, raw_stderr: usize },
    /// The drain task panicked.
    Panicked,
    /// It was still reading when the drain timeout expired.
    TimedOut,
}

/// The result of running a command with its timeout and drain.
#[derive(Clone, Debug)]
pub struct ExecutionResult {
    pub exit_code: Option<i32>,
    pub output_truncated: bool,
    pub output_collection_error: Option<String>,
    pub timed_out: bool,
    pub byte_truncated: bool,
    pub raw_stdout_bytes: u64,
    pub raw_stderr_bytes: u64,
}

/// The timeout to wait for the command with: a positive `timeout_secs`, or
/// none.
pub fn effective_timeout(timeout_secs: Option<i64>) -> (r: Option<u64>)
    ensures
        match timeout_secs {
            Some(s) => if s > 0 {
                r == Some(s as u64)
            } else {
                r is None
            },
            None => r is None,
        },
{
    match timeout_secs {
        Some(s) => {
            if s > 0 {
                Some(s as u64)
            } else {
                None
            }
        },
        None => None,
    }
}

/// The text recorded when the drain timed out.
pub open spec fn drain_timeout_text() -> Seq<char> {
    "post-exit drain timeout: background process held pipes"@
}

/// The result of a run: a command killed for its timeout reports nothing
/// of the drain (which is aborted); otherwise a drain that timed out marks
/// the output truncated and records why, a finished drain passes on whether
/// its budget was hit and the bytes it saw, and a panicked drain reports
/// nothing.
pub fn execution_result(exit_code: Option<i32>, timed_out: bool, drain: DrainOutcome) -> (r:
    ExecutionResult)
    ensures
        r.exit_code == exit_code,
        r.timed_out == timed_out,
        r.output_truncated == (!timed_out && drain == DrainOutcome::TimedOut),
        r.output_truncated ==> (r.output_collection_error matches Some(m) && m@ == drain_timeout_text()),
        !r.output_truncated ==> r.output_collection_error is None,
        match drain {
            DrainOutcome::Finished { budget_hit, raw_stdout, raw_stderr } if !timed_out => {
                &&& r.byte_truncated == budget_hit
                &&& r.raw_stdout_bytes == raw_stdout
                &&& r.raw_stderr_bytes == raw_stderr
            },
            _ => !r.byte_truncated && r.raw_stdout_bytes == 0 && r.raw_stderr_bytes == 0,
        },
{
    let (drain_truncated, byte_truncated, raw_so, raw_se): (bool, bool, usize, usize) = if timed_out {
        (false, false, 0, 0)
    } else {
        match drain {
            DrainOutcome::Finished { budget_hit, raw_stdout, raw_stderr } => (
                false,
                budget_hit,
                raw_stdout,
                raw_stderr,
            ),
            DrainOutcome::Panicked => (false, false, 0, 0),
            DrainOutcome::TimedOut => (true, false, 0, 0),
        }
    };
    let ocerr = if drain_truncated {
        Some("post-exit drain timeout: background process held pipes".to_owned())
    } else {
        None
    };
    ExecutionResult {
        exit_code,
        output_truncated: drain_truncated,
        output_collection_error: ocerr,
        timed_out,
        byte_truncated,
        raw_stdout_bytes: raw_so as u64,
        raw_stderr_bytes: raw_se as u64,
    }
}

// ---------------------------------------------------------------------------
// Assembling the streams
// ---------------------------------------------------------------------------

/// The byte length of a string.
pub open spec fn blen(s: Seq<char>) -> nat {
    encode_utf8(s).len()
}

/// Stdout, stderr and interleaved text with their byte counters, after
/// the given tagged lines.
pub struct StreamsView {
    pub stdout: Seq<char>,
    pub stderr: Seq<char>,
    pub interleaved: Seq<char>,
    pub stdout_bytes: nat,
    pub stderr_bytes: nat,
    pub interleaved_bytes: nat,
}

/// The streams after `lines` (each `(is_stderr, text)`): every line with its
/// newline goes to the interleaved text while that holds fewer than twice
/// `MAX_STREAM_BYTES` bytes, and to its own stream while that holds fewer
/// than `MAX_STREAM_BYTES` bytes.
pub open spec fn streams_of(lines: Seq<(bool, Seq<char>)>) -> StreamsView
    decreases lines.len(),
{
    if lines.len() == 0 {
        StreamsView {
            stdout: seq![],
            stderr: seq![],
            interleaved: seq![],
            stdout_bytes: 0,
            stderr_bytes: 0,
            interleaved_bytes: 0,
        }
    } else {
        let s = streams_of(lines.drop_last());
        let (is_stderr, line) = lines.last();
        let entry = line.push('\n');
        let n = sat_add(blen(line), 1);
        let il = if s.interleaved_bytes < 2 * MAX_STREAM_BYTES {
            (s.interleaved + entry, sat_add(s.interleaved_bytes, n))
        } else {
            (s.interleaved, s.interleaved_bytes)
        };
        if is_stderr {
            let se = if s.stderr_bytes < MAX_STREAM_BYTES {
                (s.stderr + entry, sat_add(s.stderr_bytes, n))
            } else {
                (s.stderr, s.stderr_bytes)
            };
            StreamsView {
                stdout: s.stdout,
                stderr: se.0,
                interleaved: il.0,
                stdout_bytes: s.stdout_bytes,
                stderr_bytes: se.1,
                interleaved_bytes: il.1,
            }
        } else {
            let so = if s.stdout_bytes < MAX_STREAM_BYTES {
                (s.stdout + entry, sat_add(s.stdout_bytes, n))
            } else {
                (s.stdout, s.stdout_bytes)
            };
            StreamsView {
                stdout: so.0,
                stderr: s.stderr,
                interleaved: il.0,
                stdout_bytes: so.1,
                stderr_bytes: s.stderr_bytes,
                interleaved_bytes: il.1,
            }
        }
    }
}

/// The tagged lines as plain values.
pub open spec fn tagged_view(lines: Seq<(bool, String)>) -> Seq<(bool, Seq<char>)> {
    lines.map_values(|l: (bool, String)| (l.0, l.1@))
}

/// Splits the forwarded lines into stdout, stderr and interleaved text (see
/// `streams_of`).
pub fn assemble_streams(lines: &Vec<(bool, String)>) -> (r: (String, String, String))
    ensures
        r.0@ == streams_of(tagged_view(lines@)).stdout,
        r.1@ == streams_of(tagged_view(lines@)).stderr,
        r.2@ == streams_of(tagged_view(lines@)).interleaved,
{
    let ghost lv = tagged_view(lines@);
    let mut so: Vec<char> = Vec::new();
    let mut se: Vec<char> = Vec::new();
    let mut il: Vec<char> = Vec::new();
    let mut so_bytes: usize = 0;
    let mut se_bytes: usize = 0;
    let mut il_bytes: usize = 0;
    let mut i: usize = 0;
    while i < lines.len()
        invariant
            i <= lines@.len(),
            lv == tagged_view(lines@),
            ({
                let s = streams_of(lv.subrange(0, i as int));
                &&& so@ == s.stdout
                &&& se@ == s.stderr
                &&& il@ == s.interleaved
                &&& so_bytes == s.stdout_bytes
                &&& se_bytes == s.stderr_bytes
                &&& il_bytes == s.interleaved_bytes
            }),
        decreases lines@.len() - i,
    {
        let ghost cur = lv.subrange(0, i + 1);
        assert(cur.drop_last() =~= lv.subrange(0, i as int));
        assert(cur.last() == (lines@[i as int].0, lines@[i as int].1@));
        let is_stderr = lines[i].0;
        let text = lines[i].1.as_str();
        let n = text.as_bytes().len().saturating_add(1);
        let mut entry = chars_of(text);
        entry.push('\n');
        if il_bytes < 2 * MAX_STREAM_BYTES {
            il_bytes = il_bytes.saturating_add(n);
            crate::text::push_all(&mut il, entry.as_slice());
        }
        if is_stderr {
            if se_bytes < MAX_STREAM_BYTES {
                se_bytes = se_bytes.saturating_add(n);
                crate::text::push_all(&mut se, entry.as_slice());
            }
        } else if so_bytes < MAX_STREAM_BYTES {
            so_bytes = so_bytes.saturating_add(n);
            crate::text::push_all(&mut so, entry.as_slice());
        }
        i = i + 1;
    }
    assert(lv.subrange(0, lines@.len() as int) =~= lv);
    (string_of(so.as_slice()), string_of(se.as_slice()), string_of(il.as_slice()))
}

// ---------------------------------------------------------------------------
// Previews of oversized output
// ---------------------------------------------------------------------------

/// The largest character boundary of `b` at or below `i`.
pub open spec fn floor_boundary(b: Seq<u8>, i: int) -> int
    decreases i,
{
    if i <= 0 {
        0
    } else if is_char_boundary(b, i) {
        i
    } else {
        floor_boundary(b, i - 1)
    }
}

proof fn lemma_floor_boundary(b: Seq<u8>, i: int)
    requires
        0 <= i,
    ensures
        0 <= floor_boundary(b, i) <= i,
        floor_boundary(b, i) == 0 || is_char_boundary(b, floor_boundary(b, i)),
    decreases i,
{
    if i > 0 && !is_char_boundary(b, i) {
        lemma_floor_boundary(b, i - 1);
    }
}

/// The last `max` bytes of `s`, widened to start on a character boundary,
/// as the bytes of the tail.
pub open spec fn tail_bytes(b: Seq<u8>, max: nat) -> Seq<u8> {
    let start = if b.len() > max {
        b.len() - max
    } else {
        0
    };
    b.subrange(floor_boundary(b, start), b.len() as int)
}

/// The tail of `s` holding at most about `max` bytes, starting on a
/// character boundary (the most recent output).
pub fn tail_text(s: &str, max: usize) -> (r: String)
    ensures
        encode_utf8(r@) == tail_bytes(s.spec_bytes(), max as nat),
{
    let len = s.as_bytes().len();
    proof {
        vstd::utf8::encode_utf8_valid_utf8(s@);
    }
    let mut j: usize = if len > max {
        len - max
    } else {
        0
    };
    let ghost start = j as int;
    proof {
        lemma_floor_boundary(s.spec_bytes(), start);
    }
    while j > 0 && !s.is_char_boundary(j)
        invariant
            j <= len,
            len == s.spec_bytes().len(),
            floor_boundary(s.spec_bytes(), j as int) == floor_boundary(s.spec_bytes(), start),
        decreases j,
    {
        j = j - 1;
    }
    assert(j == floor_boundary(s.spec_bytes(), start));
    proof {
        if j == 0 {
            vstd::utf8::is_char_boundary_start_end_of_seq(s.spec_bytes());
        }
    }
    let (_, tail) = s.split_at(j);
    let r = tail.to_owned();
    assert(encode_utf8(r@) == tail.spec_bytes());
    r
}

/// The preview of persisted output: the byte tail when it is over its byte
/// limit, the last `OVERFLOW_PREVIEW_LINES` lines joined when it has too
/// many lines, otherwise the text itself.
pub open spec fn stream_preview(s: Seq<char>, max_bytes: nat) -> Seq<char> {
    let lines = lines_of(s);
    if blen(s) > max_bytes {
        vstd::utf8::decode_utf8(tail_bytes(encode_utf8(s), max_bytes))
    } else if lines.len() > MAX_OUTPUT_LINES {
        join_with(
            lines.subrange(lines.len() - OVERFLOW_PREVIEW_LINES, lines.len() as int),
            '\n',
        )
    } else {
        s
    }
}

/// A stream within its byte limit but with more than `MAX_OUTPUT_LINES`
/// lines is previewed by its most recent lines: split at line feeds, the
/// preview gives back exactly the last `OVERFLOW_PREVIEW_LINES` lines of the
/// stream, in order, and it ends with the stream's final line.
pub proof fn law_line_overflow_preview_is_tail(s: Seq<char>, max_bytes: nat)
    requires
        blen(s) <= max_bytes,
        lines_of(s).len() > MAX_OUTPUT_LINES,
    ensures
        split_on(stream_preview(s, max_bytes), '\n') == lines_of(s).subrange(
            lines_of(s).len() - OVERFLOW_PREVIEW_LINES,
            lines_of(s).len() as int,
        ),
        ({
            let p = stream_preview(s, max_bytes);
            let last = lines_of(s).last();
            last.len() <= p.len() && p.subrange(p.len() - last.len(), p.len() as int) == last
        }),
{
    let ls = lines_of(s);
    let n = ls.len();
    let w = ls.subrange(n - OVERFLOW_PREVIEW_LINES, n as int);
    lemma_lines_free(s);
    assert forall|j: int| 0 <= j < w.len() implies free_of(#[trigger] w[j], '\n') by {
        assert(w[j] == ls[n - OVERFLOW_PREVIEW_LINES + j]);
    }
    lemma_split_join(w, '\n');
    let p = join_with(w, '\n');
    assert(w.last() == ls.last());
    assert(p == join_with(w.drop_last(), '\n').push('\n') + w.last());
    assert(p.subrange(p.len() - w.last().len(), p.len() as int) =~= w.last());
}

/// What to do with a command's stdout and stderr: whether they overflow
/// (more than `MAX_OUTPUT_LINES` lines in either, or more than
/// `MAX_STDOUT_BYTES` / `MAX_STDERR_BYTES` bytes) and must be persisted in
/// full, the previews to report, and whether a byte limit was exceeded.
pub struct PersistPlan {
    pub overflow: bool,
    pub stdout: String,
    pub stderr: String,
    pub byte_truncated: bool,
}

/// Does either stream overflow?
pub open spec fn streams_overflow(stdout: Seq<char>, stderr: Seq<char>) -> bool {
    lines_of(stdout).len() > MAX_OUTPUT_LINES || lines_of(stderr).len() > MAX_OUTPUT_LINES || blen(
        stdout,
    ) > MAX_STDOUT_BYTES || blen(stderr) > MAX_STDERR_BYTES
}

fn preview(s: &str, max_bytes: usize) -> (r: String)
    ensures
        r@ == stream_preview(s@, max_bytes as nat),
{
    let v = chars_of(s);
    let lines = lines_chars(v.as_slice());
    if s.as_bytes().len() > max_bytes {
        let t = tail_text(s, max_bytes);
        proof {
            vstd::utf8::encode_utf8_decode_utf8(t@);
        }
        return t;
    }
    if lines.len() > MAX_OUTPUT_LINES {
        let joined = join_chars(&lines, lines.len() - OVERFLOW_PREVIEW_LINES, '\n');
        assert(views(lines@).subrange(
            (lines@.len() - OVERFLOW_PREVIEW_LINES) as int,
            lines@.len() as int,
        ) == lines_of(s@).subrange(
            lines_of(s@).len() - OVERFLOW_PREVIEW_LINES,
            lines_of(s@).len() as int,
        ));
        return string_of(joined.as_slice());
    }
    s.to_owned()
}

/// Decides whether stdout and stderr are persisted and what is reported of
/// them.
pub fn plan_output_persist(stdout: String, stderr: String) -> (r: PersistPlan)
    ensures
        r.overflow == streams_overflow(stdout@, stderr@),
        !r.overflow ==> r.stdout@ == stdout@ && r.stderr@ == stderr@ && !r.byte_truncated,
        r.overflow ==> ({
            &&& r.stdout@ == stream_preview(stdout@, MAX_STDOUT_BYTES as nat)
            &&& r.stderr@ == stream_preview(stderr@, MAX_STDERR_BYTES as nat)
            &&& r.byte_truncated == (blen(stdout@) > MAX_STDOUT_BYTES || blen(stderr@)
                > MAX_STDERR_BYTES)
        }),
{
    let so_lines = lines_chars(chars_of(stdout.as_str()).as_slice());
    let se_lines = lines_chars(chars_of(stderr.as_str()).as_slice());
    let so_bytes = stdout.as_str().as_bytes().len();
    let se_bytes = stderr.as_str().as_bytes().len();
    let overflow = so_lines.len() > MAX_OUTPUT_LINES || se_lines.len() > MAX_OUTPUT_LINES
        || so_bytes > MAX_STDOUT_BYTES || se_bytes > MAX_STDERR_BYTES;
    if !overflow {
        return PersistPlan { overflow: false, stdout, stderr, byte_truncated: false };
    }
    let byte_truncated = so_bytes > MAX_STDOUT_BYTES || se_bytes > MAX_STDERR_BYTES;
    PersistPlan {
        overflow: true,
        stdout: preview(stdout.as_str(), MAX_STDOUT_BYTES),
        stderr: preview(stderr.as_str(), MAX_STDERR_BYTES),
        byte_truncated,
    }
}

/// The preview of interleaved output over `max_bytes` bytes (its tail), or
/// `None` when it fits and is kept whole.
pub fn interleaved_overflow_preview(interleaved: &str, max_bytes: usize) -> (r: Option<String>)
    ensures
        blen(interleaved@) <= max_bytes ==> r is None,
        blen(interleaved@) > max_bytes ==> (r matches Some(t) && encode_utf8(t@) == tail_bytes(
            interleaved.spec_bytes(),
            max_bytes as nat,
        )),
{
    if interleaved.as_bytes().len() <= max_bytes {
        None
    } else {
        Some(tail_text(interleaved, max_bytes))
    }
}

/// The shape of a command's collected output: the persist plan of stdout
/// and stderr, the preview of an oversized interleaved stream, and whether
/// the output is reported as truncated.
pub struct OutputShape {
    pub plan: PersistPlan,
    pub interleaved_preview: Option<String>,
    pub output_truncated: bool,
}

/// Shapes the collected output. It is reported truncated exactly when a
/// cap fired: the drain stopped early (`drain_truncated`), collection hit
/// its byte cap (`collection_truncated`), stdout or stderr exceeds its line
/// or byte cap, or the interleaved stream exceeds `INTERLEAVED_MAX_BYTES`.
pub fn shape_output(
    stdout: String,
    stderr: String,
    interleaved: &str,
    drain_truncated: bool,
    collection_truncated: bool,
) -> (r: OutputShape)
    ensures
        r.plan.overflow == streams_overflow(stdout@, stderr@),
        !r.plan.overflow ==> r.plan.stdout@ == stdout@ && r.plan.stderr@ == stderr@
            && !r.plan.byte_truncated,
        r.plan.overflow ==> ({
            &&& r.plan.stdout@ == stream_preview(stdout@, MAX_STDOUT_BYTES as nat)
            &&& r.plan.stderr@ == stream_preview(stderr@, MAX_STDERR_BYTES as nat)
            &&& r.plan.byte_truncated == (blen(stdout@) > MAX_STDOUT_BYTES || blen(stderr@)
                > MAX_STDERR_BYTES)
        }),
        blen(interleaved@) <= INTERLEAVED_MAX_BYTES ==> r.interleaved_preview is None,
        blen(interleaved@) > INTERLEAVED_MAX_BYTES ==> (r.interleaved_preview matches Some(t)
            && encode_utf8(t@) == tail_bytes(interleaved.spec_bytes(), INTERLEAVED_MAX_BYTES as nat)),
        r.output_truncated == (drain_truncated || collection_truncated || streams_overflow(
            stdout@,
            stderr@,
        ) || blen(interleaved@) > INTERLEAVED_MAX_BYTES),
{
    let ghost so = stdout@;
    let ghost se = stderr@;
    let plan = plan_output_persist(stdout, stderr);
    let interleaved_preview = interleaved_overflow_preview(interleaved, INTERLEAVED_MAX_BYTES);
    let output_truncated = drain_truncated || collection_truncated || plan.overflow
        || plan.byte_truncated || interleaved_preview.is_some();
    OutputShape { plan, interleaved_preview, output_truncated }
}

// ---------------------------------------------------------------------------
// Filtering the output of a successful command
// ---------------------------------------------------------------------------

/// Index of the first rule from `i` on whose command pattern matches.
pub open spec fn first_matching_rule(table: Seq<CompiledRuleView>, command: Seq<char>, i: int) -> Option<
    int,
>
    decreases table.len() - i,
{
    if i < 0 || i >= table.len() {
        None
    } else if regex_matches(table[i].pattern, command) {
        Some(i)
    } else {
        first_matching_rule(table, command, i + 1)
    }
}

/// The name reported for an applied rule: its description, or its command
/// pattern when it has none.
pub open spec fn rule_label(c: CompiledRuleView) -> Seq<char> {
    match c.rule.description {
        Some(d) => d,
        None => c.rule.match_command,
    }
}

/// Filters the output of a command that exited with 0: the first rule of
/// the table whose pattern matches the command rewrites stdout, stderr and
/// the interleaved text, and is reported as the applied filter. Other exit
/// codes, and commands no rule matches, keep their output.
pub fn filter_command_output(output: &mut ShellOutput, table: &Vec<CompiledRule>, command: &str)
    ensures
        ({
            let t = compiled_view(table@);
            let hit = if old(output).exit_code == Some(0i32) {
                first_matching_rule(t, command@, 0)
            } else {
                None
            };
            match hit {
                Some(i) => {
                    &&& final(output).stdout@ == filter_output(t[i], old(output).stdout@)
                    &&& final(output).stderr@ == filter_output(t[i], old(output).stderr@)
                    &&& final(output).interleaved@ == filter_output(t[i], old(output).interleaved@)
                    &&& final(output).filter_applied matches Some(f) && f@ == rule_label(t[i])
                },
                None => {
                    &&& final(output).stdout == old(output).stdout
                    &&& final(output).stderr == old(output).stderr
                    &&& final(output).interleaved == old(output).interleaved
                    &&& final(output).filter_applied == old(output).filter_applied
                },
            }
        }),
        final(output).exit_code == old(output).exit_code,
        final(output).output_truncated == old(output).output_truncated,
        final(output).stdout_path == old(output).stdout_path,
        final(output).stderr_path == old(output).stderr_path,
        final(output).interleaved_path == old(output).interleaved_path,
        final(output).output_collection_error == old(output).output_collection_error,
        final(output).timed_out == old(output).timed_out,
{
    if output.exit_code != Some(0i32) {
        return;
    }
    let ghost t = compiled_view(table@);
    let mut i: usize = 0;
    while i < table.len()
        invariant
            i <= table@.len(),
            *output == *old(output),
            old(output).exit_code == Some(0i32),
            t == compiled_view(table@),
            first_matching_rule(t, command@, i as int) == first_matching_rule(t, command@, 0),
        decreases table@.len() - i,
    {
        assert(t[i as int] == table@[i as int]@);
        if table[i].pattern.is_match(command) {
            let rule = &table[i];
            output.stdout = apply_filter(rule, output.stdout.as_str());
            output.stderr = apply_filter(rule, output.stderr.as_str());
            output.interleaved = apply_filter(rule, output.interleaved.as_str());
            output.filter_applied = match &rule.rule.description {
                Some(d) => Some(d.clone()),
                None => Some(rule.rule.match_command.clone()),
            };
            return;
        }
        i = i + 1;
    }
}

// ---------------------------------------------------------------------------
// The shell
// ---------------------------------------------------------------------------

/// The shell commands run under: the value of `APTU_SHELL` when it is set,
/// `bash` when an executable `bash` lies on `PATH`, `/bin/sh` otherwise.
pub open spec fn shell_choice(aptu_shell: Option<Seq<char>>, bash_on_path: bool) -> Seq<char> {
    match aptu_shell {
        Some(s) => s,
        None => if bash_on_path {
            "bash"@
        } else {
            "/bin/sh"@
        },
    }
}

/// Chooses the shell from the value of `APTU_SHELL` and whether an
/// executable `bash` was found on `PATH`.
pub fn choose_shell(aptu_shell: Option<String>, bash_on_path: bool) -> (r: String)
    ensures
        r@ == shell_choice(
            match aptu_shell {
                Some(s) => Some(s@),
                None => None,
            },
            bash_on_path,
        ),
{
    match aptu_shell {
        Some(s) => s,
        None => if bash_on_path {
            "bash".to_owned()
        } else {
            "/bin/sh".to_owned()
        },
    }
}

} // verus!
