//! Pre-spawn heredoc guard for shell commands.
//!
//! `validate_heredocs` reads a command's bytes twice. The first pass tracks
//! quoting (with backslash escapes) and, at every unquoted `<<`, rejects
//! file-write patterns, stdin-consuming flags, and heredocs combined with a
//! separate stdin payload. The second pass tracks quoting again (without
//! escapes) and checks that every unquoted heredoc has a closing line.

use vstd::prelude::*;
use crate::shell_scan::{
    file_write_before, stdin_flag_before, scan_backward_for_file_write,
    scan_backward_for_stdin_flag,
};
use crate::text::{is_ascii_ws_byte, is_ws};
use vstd::string::StringSliceAdditionalSpecFns;

verus! {

/// Why a command's heredoc use was refused.
#[derive(Clone, Copy, Debug, PartialEq, Eq, Structural)]
pub enum HeredocError {
    /// A file-write pattern (`cat > f <<`, `tee f <<`, `> f <<`, ...).
    FileWrite,
    /// A stdin-consuming flag before `<<` (`--data - <<`, `--stdin <<`, ...).
    StdinFlag,
    /// A heredoc whose closing delimiter line never appears.
    MissingCloser,
    /// A heredoc in a command that also receives a `stdin` payload.
    StdinParam,
}

pub const BACKSLASH: u8 = 92u8;
pub const SINGLE_QUOTE: u8 = 39u8;
pub const DOUBLE_QUOTE: u8 = 34u8;
pub const LESS_THAN: u8 = 60u8;
pub const NEWLINE: u8 = 10u8;
pub const TAB: u8 = 9u8;
pub const DASH: u8 = 45u8;

/// Is there an unquoted-looking `<<` operator starting at `i`?
pub open spec fn heredoc_op_at(b: Seq<u8>, i: int) -> bool {
    0 <= i && i + 1 < b.len() && b[i] == LESS_THAN && b[i + 1] == LESS_THAN
}

/// First pass from position `i` with quote state `(sq, dq)`: the first
/// refusal met at an unquoted `<<`, if any.
pub open spec fn prescan(b: Seq<u8>, has_stdin: bool, i: int, sq: bool, dq: bool) -> Option<
    HeredocError,
>
    decreases b.len() + 1 - i,
{
    if i < 0 || i >= b.len() {
        None
    } else if b[i] == BACKSLASH && !sq {
        prescan(b, has_stdin, i + 2, sq, dq)
    } else if b[i] == SINGLE_QUOTE && !dq {
        prescan(b, has_stdin, i + 1, !sq, dq)
    } else if b[i] == DOUBLE_QUOTE && !sq {
        prescan(b, has_stdin, i + 1, sq, !dq)
    } else if sq || dq {
        prescan(b, has_stdin, i + 1, sq, dq)
    } else if heredoc_op_at(b, i) {
        if file_write_before(b, i) {
            Some(HeredocError::FileWrite)
        } else if stdin_flag_before(b, i) {
            Some(HeredocError::StdinFlag)
        } else if has_stdin {
            Some(HeredocError::StdinParam)
        } else {
            prescan(b, has_stdin, i + 2, sq, dq)
        }
    } else {
        prescan(b, has_stdin, i + 1, sq, dq)
    }
}

/// First position at or after `q` that is not ASCII whitespace.
pub open spec fn skip_ws_fwd(b: Seq<u8>, q: int) -> int
    decreases b.len() - q,
{
    if 0 <= q < b.len() && is_ascii_ws_byte(b[q]) {
        skip_ws_fwd(b, q + 1)
    } else {
        q
    }
}

/// First position at or after `q` holding whitespace or `<` (the end of a
/// bare delimiter word).
pub open spec fn word_end(b: Seq<u8>, q: int) -> int
    decreases b.len() - q,
{
    if 0 <= q < b.len() && !is_ascii_ws_byte(b[q]) && b[q] != LESS_THAN {
        word_end(b, q + 1)
    } else {
        q
    }
}

/// First position at or after `q` holding `c`, or the length.
pub open spec fn find_byte(b: Seq<u8>, q: int, c: u8) -> int
    decreases b.len() - q,
{
    if 0 <= q < b.len() && b[q] != c {
        find_byte(b, q + 1, c)
    } else {
        q
    }
}

/// First position at or after `q` (and before `limit`) that is not a tab.
pub open spec fn skip_tabs(b: Seq<u8>, q: int, limit: int) -> int
    decreases limit - q,
{
    if 0 <= q < limit && q < b.len() && b[q] == TAB {
        skip_tabs(b, q + 1, limit)
    } else {
        q
    }
}

/// End of the line starting at `p`: just past its `\n`, or the length.
pub open spec fn line_end(b: Seq<u8>, p: int) -> int
    decreases b.len() - p,
{
    if 0 <= p < b.len() {
        if b[p] == NEWLINE {
            p + 1
        } else {
            line_end(b, p + 1)
        }
    } else {
        p
    }
}

/// The delimiter that follows a `<<` operator ending at `p`: whether tabs
/// are stripped (`<<-`), the delimiter's byte range `[ds, de)`, and the
/// position just after it. `None` when the command ends first or a quoted
/// delimiter is not closed.
pub open spec fn heredoc_delimiter(b: Seq<u8>, p: int) -> Option<(bool, int, int, int)> {
    let strip = p < b.len() && b[p] == DASH;
    let q = skip_ws_fwd(b, if strip { p + 1 } else { p });
    if q >= b.len() {
        None
    } else if b[q] == SINGLE_QUOTE || b[q] == DOUBLE_QUOTE {
        let e = find_byte(b, q + 1, b[q]);
        if e >= b.len() {
            None
        } else {
            Some((strip, q + 1, e, e + 1))
        }
    } else if b[q] == BACKSLASH {
        let e = word_end(b, q + 1);
        Some((strip, q + 1, e, e))
    } else {
        let e = word_end(b, q);
        Some((strip, q, e, e))
    }
}

/// The candidate text of the line starting at `p`: the line without its
/// `\n`, and without leading tabs when `strip` holds, as a byte range.
pub open spec fn line_candidate(b: Seq<u8>, p: int, strip: bool) -> (int, int) {
    let le = line_end(b, p);
    let ce = if le > p && b[le - 1] == NEWLINE { le - 1 } else { le };
    let cs = if strip { skip_tabs(b, p, ce) } else { p };
    (cs, ce)
}

/// Searching line by line from `p`, the end of the first line whose
/// candidate text equals `b[ds..de]`.
pub open spec fn closing_line(b: Seq<u8>, p: int, ds: int, de: int, strip: bool) -> Option<int>
    decreases b.len() - p,
{
    if 0 <= p < b.len() {
        let (cs, ce) = line_candidate(b, p, strip);
        let le = line_end(b, p);
        if b.subrange(cs, ce) == b.subrange(ds, de) {
            Some(le)
        } else {
            proof {
                lemma_line_end(b, p);
            }
            closing_line(b, le, ds, de, strip)
        }
    } else {
        None
    }
}

/// Where scanning resumes after the heredoc whose `<<` starts at `i`, or
/// `None` when that heredoc has no delimiter or no closing line.
pub open spec fn heredoc_resume(b: Seq<u8>, i: int) -> Option<int> {
    match heredoc_delimiter(b, i + 2) {
        None => None,
        Some((strip, ds, de, after)) => if ds == de {
            None
        } else {
            closing_line(b, after, ds, de, strip)
        },
    }
}

/// Second pass from position `i` with quote state `(sq, dq)`: does every
/// unquoted heredoc from here on have its closing line?
pub open spec fn closers_found(b: Seq<u8>, i: int, sq: bool, dq: bool) -> bool
    decreases b.len() - i,
{
    if i < 0 || i >= b.len() {
        true
    } else if b[i] == SINGLE_QUOTE && !dq {
        closers_found(b, i + 1, !sq, dq)
    } else if b[i] == DOUBLE_QUOTE && !sq {
        closers_found(b, i + 1, sq, !dq)
    } else if sq || dq {
        closers_found(b, i + 1, sq, dq)
    } else if heredoc_op_at(b, i) {
        match heredoc_resume(b, i) {
            None => false,
            Some(j) => {
                proof {
                    lemma_heredoc_resume(b, i);
                }
                closers_found(b, j, sq, dq)
            },
        }
    } else {
        closers_found(b, i + 1, sq, dq)
    }
}

/// The verdict on a command's bytes: the first-pass refusal if any, then a
/// missing closer if any, else success.
pub open spec fn heredoc_verdict(b: Seq<u8>, has_stdin: bool) -> Result<(), HeredocError> {
    match prescan(b, has_stdin, 0, false, false) {
        Some(e) => Err(e),
        None => if closers_found(b, 0, false, false) {
            Ok(())
        } else {
            Err(HeredocError::MissingCloser)
        },
    }
}

pub proof fn lemma_line_end(b: Seq<u8>, p: int)
    requires
        0 <= p,
    ensures
        p <= line_end(b, p),
        p < b.len() ==> p < line_end(b, p) <= b.len(),
    decreases b.len() - p,
{
    if 0 <= p < b.len() && b[p] != NEWLINE {
        lemma_line_end(b, p + 1);
    }
}

proof fn lemma_skip_ws_fwd(b: Seq<u8>, q: int)
    requires
        0 <= q,
    ensures
        q <= skip_ws_fwd(b, q),
        q <= b.len() ==> skip_ws_fwd(b, q) <= b.len(),
    decreases b.len() - q,
{
    if 0 <= q < b.len() && is_ascii_ws_byte(b[q]) {
        lemma_skip_ws_fwd(b, q + 1);
    }
}

proof fn lemma_word_end(b: Seq<u8>, q: int)
    requires
        0 <= q,
    ensures
        q <= word_end(b, q),
        q <= b.len() ==> word_end(b, q) <= b.len(),
    decreases b.len() - q,
{
    if 0 <= q < b.len() && !is_ascii_ws_byte(b[q]) && b[q] != LESS_THAN {
        lemma_word_end(b, q + 1);
    }
}

proof fn lemma_find_byte(b: Seq<u8>, q: int, c: u8)
    requires
        0 <= q,
    ensures
        q <= find_byte(b, q, c),
        q <= b.len() ==> find_byte(b, q, c) <= b.len(),
        find_byte(b, q, c) < b.len() ==> b[find_byte(b, q, c)] == c,
    decreases b.len() - q,
{
    if 0 <= q < b.len() && b[q] != c {
        lemma_find_byte(b, q + 1, c);
    }
}

proof fn lemma_skip_tabs(b: Seq<u8>, q: int, limit: int)
    requires
        0 <= q <= limit,
    ensures
        q <= skip_tabs(b, q, limit) <= limit,
    decreases limit - q,
{
    if 0 <= q < limit && q < b.len() && b[q] == TAB {
        lemma_skip_tabs(b, q + 1, limit);
    }
}

proof fn lemma_heredoc_delimiter(b: Seq<u8>, p: int)
    requires
        0 <= p <= b.len(),
    ensures
        heredoc_delimiter(b, p) matches Some((strip, ds, de, after)) ==> p <= ds <= de <= after
            <= b.len(),
{
    let strip = p < b.len() && b[p] == DASH;
    let q0 = if strip { p + 1 } else { p };
    lemma_skip_ws_fwd(b, q0);
    let q = skip_ws_fwd(b, q0);
    if q < b.len() {
        if b[q] == SINGLE_QUOTE || b[q] == DOUBLE_QUOTE {
            lemma_find_byte(b, q + 1, b[q]);
        } else if b[q] == BACKSLASH {
            lemma_word_end(b, q + 1);
        } else {
            lemma_word_end(b, q);
        }
    }
}

proof fn lemma_closing_line(b: Seq<u8>, p: int, ds: int, de: int, strip: bool)
    requires
        0 <= p,
    ensures
        closing_line(b, p, ds, de, strip) matches Some(j) ==> p < j <= b.len(),
    decreases b.len() - p,
{
    if 0 <= p < b.len() {
        lemma_line_end(b, p);
        let (cs, ce) = line_candidate(b, p, strip);
        if b.subrange(cs, ce) != b.subrange(ds, de) {
            lemma_closing_line(b, line_end(b, p), ds, de, strip);
        }
    }
}

pub proof fn lemma_heredoc_resume(b: Seq<u8>, i: int)
    requires
        heredoc_op_at(b, i),
    ensures
        heredoc_resume(b, i) matches Some(j) ==> i + 2 < j <= b.len(),
{
    lemma_heredoc_delimiter(b, i + 2);
    match heredoc_delimiter(b, i + 2) {
        None => {},
        Some((strip, ds, de, after)) => {
            if ds != de {
                lemma_closing_line(b, after, ds, de, strip);
            }
        },
    }
}

impl HeredocError {
    /// The message shown to the caller for this refusal.
    pub fn message(&self) -> (s: String)
        ensures
            s@ == heredoc_message(*self),
    {
        match self {
            HeredocError::FileWrite => "heredoc file-write pattern detected (cat/tee/redirect + <<) -- use edit_overwrite to write files instead of shell heredocs".to_owned(),
            HeredocError::StdinFlag => "stdin-consuming flag with heredoc detected (--body-file -, --data -, etc.) -- pass content via the `stdin` parameter instead, or write to a file first with edit_overwrite".to_owned(),
            HeredocError::MissingCloser => "heredoc closing delimiter not found -- likely a quoting or escaping issue; use edit_overwrite to write files instead of shell heredocs".to_owned(),
            HeredocError::StdinParam => "stdin parameter and heredoc cannot be used together -- pass content via the `stdin` parameter instead".to_owned(),
        }
    }

    /// The remediation hint attached to this refusal.
    pub fn hint(&self) -> (s: String)
        ensures
            s@ == heredoc_hint(*self),
    {
        match self {
            HeredocError::FileWrite => "use edit_overwrite to write files".to_owned(),
            HeredocError::StdinFlag => "use the stdin parameter instead of heredoc + stdin-consuming flags".to_owned(),
            HeredocError::MissingCloser => "use edit_overwrite to write files".to_owned(),
            HeredocError::StdinParam => "use the stdin parameter instead of a heredoc".to_owned(),
        }
    }
}

/// The message text of each refusal.
pub open spec fn heredoc_message(e: HeredocError) -> Seq<char> {
    match e {
        HeredocError::FileWrite => "heredoc file-write pattern detected (cat/tee/redirect + <<) -- use edit_overwrite to write files instead of shell heredocs"@,
        HeredocError::StdinFlag => "stdin-consuming flag with heredoc detected (--body-file -, --data -, etc.) -- pass content via the `stdin` parameter instead, or write to a file first with edit_overwrite"@,
        HeredocError::MissingCloser => "heredoc closing delimiter not found -- likely a quoting or escaping issue; use edit_overwrite to write files instead of shell heredocs"@,
        HeredocError::StdinParam => "stdin parameter and heredoc cannot be used together -- pass content via the `stdin` parameter instead"@,
    }
}

/// The remediation hint of each refusal.
pub open spec fn heredoc_hint(e: HeredocError) -> Seq<char> {
    match e {
        HeredocError::FileWrite => "use edit_overwrite to write files"@,
        HeredocError::StdinFlag => "use the stdin parameter instead of heredoc + stdin-consuming flags"@,
        HeredocError::MissingCloser => "use edit_overwrite to write files"@,
        HeredocError::StdinParam => "use the stdin parameter instead of a heredoc"@,
    }
}

fn skip_ws_forward(bytes: &[u8], q: usize) -> (r: usize)
    requires
        q <= bytes@.len(),
    ensures
        r == skip_ws_fwd(bytes@, q as int),
        q <= r <= bytes@.len(),
{
    let mut i = q;
    while i < bytes.len() && is_ws(bytes[i])
        invariant
            q <= i <= bytes@.len(),
            skip_ws_fwd(bytes@, i as int) == skip_ws_fwd(bytes@, q as int),
        decreases bytes@.len() - i,
    {
        i = i + 1;
    }
    i
}

fn word_end_from(bytes: &[u8], q: usize) -> (r: usize)
    requires
        q <= bytes@.len(),
    ensures
        r == word_end(bytes@, q as int),
        q <= r <= bytes@.len(),
{
    let mut i = q;
    while i < bytes.len() && !is_ws(bytes[i]) && bytes[i] != LESS_THAN
        invariant
            q <= i <= bytes@.len(),
            word_end(bytes@, i as int) == word_end(bytes@, q as int),
        decreases bytes@.len() - i,
    {
        i = i + 1;
    }
    i
}

fn find_byte_from(bytes: &[u8], q: usize, c: u8) -> (r: usize)
    requires
        q <= bytes@.len(),
    ensures
        r == find_byte(bytes@, q as int, c),
        q <= r <= bytes@.len(),
{
    let mut i = q;
    while i < bytes.len() && bytes[i] != c
        invariant
            q <= i <= bytes@.len(),
            find_byte(bytes@, i as int, c) == find_byte(bytes@, q as int, c),
        decreases bytes@.len() - i,
    {
        i = i + 1;
    }
    i
}

fn skip_tabs_from(bytes: &[u8], q: usize, limit: usize) -> (r: usize)
    requires
        q <= limit <= bytes@.len(),
    ensures
        r == skip_tabs(bytes@, q as int, limit as int),
        q <= r <= limit,
{
    let mut i = q;
    while i < limit && bytes[i] == TAB
        invariant
            q <= i <= limit <= bytes@.len(),
            skip_tabs(bytes@, i as int, limit as int) == skip_tabs(bytes@, q as int, limit as int),
        decreases limit - i,
    {
        i = i + 1;
    }
    i
}

fn line_end_from(bytes: &[u8], p: usize) -> (r: usize)
    requires
        p < bytes@.len(),
    ensures
        r == line_end(bytes@, p as int),
        p < r <= bytes@.len(),
{
    let mut i = p;
    while i < bytes.len() && bytes[i] != NEWLINE
        invariant
            p <= i <= bytes@.len(),
            line_end(bytes@, i as int) == line_end(bytes@, p as int),
        decreases bytes@.len() - i,
    {
        i = i + 1;
    }
    if i < bytes.len() {
        i + 1
    } else {
        i
    }
}

/// Does `bytes[a0..a1]` equal `bytes[b0..b1]`?
fn ranges_equal(bytes: &[u8], a0: usize, a1: usize, b0: usize, b1: usize) -> (r: bool)
    requires
        a0 <= a1 <= bytes@.len(),
        b0 <= b1 <= bytes@.len(),
    ensures
        r == (bytes@.subrange(a0 as int, a1 as int) == bytes@.subrange(b0 as int, b1 as int)),
{
    if a1 - a0 != b1 - b0 {
        proof {
            assert(bytes@.subrange(a0 as int, a1 as int).len() != bytes@.subrange(b0 as int, b1 as int).len());
        }
        return false;
    }
    let n = a1 - a0;
    let mut k: usize = 0;
    while k < n
        invariant
            a0 <= a1 <= bytes@.len(),
            b0 <= b1 <= bytes@.len(),
            n == a1 - a0,
            n == b1 - b0,
            k <= n,
            forall|t: int|
                0 <= t < k ==> #[trigger] bytes@.subrange(a0 as int, a1 as int)[t] == bytes@.subrange(
                    b0 as int,
                    b1 as int,
                )[t],
        decreases n - k,
    {
        if bytes[a0 + k] != bytes[b0 + k] {
            proof {
                assert(bytes@.subrange(a0 as int, a1 as int)[k as int] != bytes@.subrange(b0 as int, b1 as int)[k as int]);
            }
            return false;
        }
        k = k + 1;
    }
    proof {
        assert(bytes@.subrange(a0 as int, a1 as int) =~= bytes@.subrange(b0 as int, b1 as int));
    }
    true
}

/// Parses the delimiter that follows a `<<` operator ending at `p`.
fn parse_delimiter(bytes: &[u8], p: usize) -> (r: Option<(bool, usize, usize, usize)>)
    requires
        p <= bytes@.len(),
    ensures
        match r {
            None => heredoc_delimiter(bytes@, p as int) is None,
            Some((strip, ds, de, after)) => heredoc_delimiter(bytes@, p as int) == Some(
                (strip, ds as int, de as int, after as int),
            ) && ds <= de <= after <= bytes@.len(),
        },
{
    let len = bytes.len();
    let strip = p < len && bytes[p] == DASH;
    let q = skip_ws_forward(bytes, if strip { p + 1 } else { p });
    if q >= len {
        return None;
    }
    let c = bytes[q];
    if c == SINGLE_QUOTE || c == DOUBLE_QUOTE {
        let e = find_byte_from(bytes, q + 1, c);
        if e >= len {
            return None;
        }
        return Some((strip, q + 1, e, e + 1));
    }
    if c == BACKSLASH {
        let e = word_end_from(bytes, q + 1);
        return Some((strip, q + 1, e, e));
    }
    let e = word_end_from(bytes, q);
    Some((strip, q, e, e))
}

/// Searches line by line from `start` for the closing line of a heredoc
/// whose delimiter is `bytes[ds..de]`; returns the end of that line.
fn find_closing_line(bytes: &[u8], start: usize, ds: usize, de: usize, strip: bool) -> (r: Option<
    usize,
>)
    requires
        start <= bytes@.len(),
        ds <= de <= bytes@.len(),
    ensures
        match r {
            None => closing_line(bytes@, start as int, ds as int, de as int, strip) is None,
            Some(j) => closing_line(bytes@, start as int, ds as int, de as int, strip) == Some(
                j as int,
            ),
        },
{
    let len = bytes.len();
    let mut p = start;
    while p < len
        invariant
            start <= p <= len,
            len == bytes@.len(),
            ds <= de <= len,
            closing_line(bytes@, p as int, ds as int, de as int, strip) == closing_line(
                bytes@,
                start as int,
                ds as int,
                de as int,
                strip,
            ),
        decreases len - p,
    {
        let le = line_end_from(bytes, p);
        let ce = if le > p && bytes[le - 1] == NEWLINE {
            le - 1
        } else {
            le
        };
        let cs = if strip {
            skip_tabs_from(bytes, p, ce)
        } else {
            p
        };
        if ranges_equal(bytes, cs, ce, ds, de) {
            return Some(le);
        }
        p = le;
    }
    None
}

/// Where scanning resumes after the heredoc whose `<<` starts at `i`.
fn resume_after_heredoc(bytes: &[u8], i: usize) -> (r: Option<usize>)
    requires
        heredoc_op_at(bytes@, i as int),
    ensures
        match r {
            None => heredoc_resume(bytes@, i as int) is None,
            Some(j) => heredoc_resume(bytes@, i as int) == Some(j as int),
        },
{
    assert(i + 1 < bytes.len());
    match parse_delimiter(bytes, i + 2) {
        None => None,
        Some((strip, ds, de, after)) => {
            if ds == de {
                None
            } else {
                find_closing_line(bytes, after, ds, de, strip)
            }
        },
    }
}

/// Checks a shell command for heredoc misuse before anything is spawned.
///
/// The first pass rejects, at the first unquoted `<<`, a file-write pattern
/// (`FileWrite`), a stdin-consuming flag (`StdinFlag`), or any heredoc at all
/// when a separate stdin payload is given (`StdinParam`). The second pass
/// rejects a heredoc whose closing delimiter line is missing
/// (`MissingCloser`), including an empty or unterminated quoted delimiter.
pub fn validate_heredocs(command: &str, has_stdin: bool) -> (r: Result<(), HeredocError>)
    ensures
        r == heredoc_verdict(command.spec_bytes(), has_stdin),
{
    let bytes = command.as_bytes();
    let len = bytes.len();
    let ghost b = bytes@;
    let mut sq = false;
    let mut dq = false;
    let mut i: usize = 0;
    while i < len
        invariant
            b == bytes@,
            b == command.spec_bytes(),
            len == b.len(),
            i <= len,
            prescan(b, has_stdin, i as int, sq, dq) == prescan(b, has_stdin, 0, false, false),
        decreases len - i,
    {
        let c = bytes[i];
        if c == BACKSLASH && !sq {
            if i + 1 < len {
                i = i + 2;
            } else {
                assert(prescan(b, has_stdin, i + 2, sq, dq) is None);
                i = len;
                assert(prescan(b, has_stdin, i as int, sq, dq) is None);
            }
        } else if c == SINGLE_QUOTE && !dq {
            sq = !sq;
            i = i + 1;
        } else if c == DOUBLE_QUOTE && !sq {
            dq = !dq;
            i = i + 1;
        } else if sq || dq {
            i = i + 1;
        } else if c == LESS_THAN && i + 1 < len && bytes[i + 1] == LESS_THAN {
            if scan_backward_for_file_write(bytes, i) {
                return Err(HeredocError::FileWrite);
            }
            if scan_backward_for_stdin_flag(bytes, i) {
                return Err(HeredocError::StdinFlag);
            }
            if has_stdin {
                return Err(HeredocError::StdinParam);
            }
            i = i + 2;
        } else {
            i = i + 1;
        }
    }
    let mut sq = false;
    let mut dq = false;
    let mut i: usize = 0;
    while i < len
        invariant
            b == bytes@,
            b == command.spec_bytes(),
            len == b.len(),
            i <= len,
            prescan(b, has_stdin, 0, false, false) is None,
            closers_found(b, i as int, sq, dq) == closers_found(b, 0, false, false),
        decreases len - i,
    {
        let c = bytes[i];
        if c == SINGLE_QUOTE && !dq {
            sq = !sq;
            i = i + 1;
        } else if c == DOUBLE_QUOTE && !sq {
            dq = !dq;
            i = i + 1;
        } else if sq || dq {
            i = i + 1;
        } else if c == LESS_THAN && i + 1 < len && bytes[i + 1] == LESS_THAN {
            proof { lemma_heredoc_resume(b, i as int); }
            match resume_after_heredoc(bytes, i) {
                None => {
                    return Err(HeredocError::MissingCloser);
                },
                Some(j) => {
                    i = j;
                },
            }
        } else {
            i = i + 1;
        }
    }
    Ok(())
}

proof fn lemma_prescan_without_operator(b: Seq<u8>, has_stdin: bool, i: int, sq: bool, dq: bool)
    requires
        forall|k: int| !heredoc_op_at(b, k),
    ensures
        prescan(b, has_stdin, i, sq, dq) is None,
    decreases b.len() + 1 - i,
{
    if 0 <= i < b.len() {
        assert(!heredoc_op_at(b, i));
        if b[i] == BACKSLASH && !sq {
            lemma_prescan_without_operator(b, has_stdin, i + 2, sq, dq);
        } else if b[i] == SINGLE_QUOTE && !dq {
            lemma_prescan_without_operator(b, has_stdin, i + 1, !sq, dq);
        } else if b[i] == DOUBLE_QUOTE && !sq {
            lemma_prescan_without_operator(b, has_stdin, i + 1, sq, !dq);
        } else {
            lemma_prescan_without_operator(b, has_stdin, i + 1, sq, dq);
        }
    }
}

proof fn lemma_closers_without_operator(b: Seq<u8>, i: int, sq: bool, dq: bool)
    requires
        forall|k: int| !heredoc_op_at(b, k),
    ensures
        closers_found(b, i, sq, dq),
    decreases b.len() - i,
{
    if 0 <= i < b.len() {
        assert(!heredoc_op_at(b, i));
        if b[i] == SINGLE_QUOTE && !dq {
            lemma_closers_without_operator(b, i + 1, !sq, dq);
        } else if b[i] == DOUBLE_QUOTE && !sq {
            lemma_closers_without_operator(b, i + 1, sq, !dq);
        } else {
            lemma_closers_without_operator(b, i + 1, sq, dq);
        }
    }
}

/// A command in which `<<` never occurs passes the guard, whether or not a
/// stdin payload accompanies it.
pub proof fn law_no_heredoc_operator_passes(b: Seq<u8>, has_stdin: bool)
    requires
        forall|k: int| !heredoc_op_at(b, k),
    ensures
        heredoc_verdict(b, has_stdin) == Ok::<(), HeredocError>(()),
{
    lemma_prescan_without_operator(b, has_stdin, 0, false, false);
    lemma_closers_without_operator(b, 0, false, false);
}

} // verus!
