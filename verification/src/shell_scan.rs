//! Backward token scanning over a shell command's bytes, used by the
//! heredoc guard to recognise file-write and stdin-consuming patterns that
//! precede a `<<` operator.
//!
//! Every scan takes a byte position and moves it towards the start of the
//! command; the spec functions below describe where each scan stops.

use vstd::prelude::*;
use crate::text::{is_ascii_ws_byte, is_ws};

verus! {

/// Position reached by stepping backward from `pos` over ASCII whitespace.
pub open spec fn skip_ws_back(b: Seq<u8>, pos: int) -> int
    decreases pos,
{
    if 0 < pos <= b.len() && is_ascii_ws_byte(b[pos - 1]) {
        skip_ws_back(b, pos - 1)
    } else {
        pos
    }
}

/// Position reached by stepping backward from `pos` over non-whitespace bytes.
pub open spec fn skip_word_back(b: Seq<u8>, pos: int) -> int
    decreases pos,
{
    if 0 < pos <= b.len() && !is_ascii_ws_byte(b[pos - 1]) {
        skip_word_back(b, pos - 1)
    } else {
        pos
    }
}

/// Position reached by stepping backward from `pos` over the bytes of a
/// token: it stops at whitespace and at a separator or group opener
/// (`|`, `;`, `&`, `(`).
pub open spec fn skip_token_back(b: Seq<u8>, pos: int) -> int
    decreases pos,
{
    if 0 < pos <= b.len() && !is_ascii_ws_byte(b[pos - 1]) && !is_separator_byte(b[pos - 1]) {
        skip_token_back(b, pos - 1)
    } else {
        pos
    }
}

/// Backward walk to the `(` that closes a group, starting at `p` with `depth`
/// groups still open: every `(` stepped over closes one, every `)` opens one.
pub open spec fn match_paren_back(b: Seq<u8>, p: int, depth: int) -> int
    decreases p,
{
    if 0 < p <= b.len() && depth > 0 {
        let q = p - 1;
        let d = if b[q] == 40u8 { depth - 1 } else if b[q] == 41u8 { depth + 1 } else { depth };
        match_paren_back(b, q, d)
    } else {
        p
    }
}

/// Start of the token that ends at `pos` (which is positive): a whole
/// parenthesised group when the byte before `pos` is `)`, a `>` or `>>`
/// operator when it is `>`, and otherwise the run of bytes back to
/// whitespace or a separator (empty when the byte before `pos` is one).
pub open spec fn paren_token_start(b: Seq<u8>, pos: int) -> int {
    if b[pos - 1] == 41u8 {
        match_paren_back(b, pos - 1, 1)
    } else if b[pos - 1] == 62u8 {
        if pos - 1 > 0 && b[pos - 2] == 62u8 {
            pos - 2
        } else {
            pos - 1
        }
    } else {
        skip_token_back(b, pos)
    }
}

/// The token before `pos` after skipping whitespace, as `(start, end)`;
/// `(0, 0)` when only whitespace precedes `pos`, and empty when a separator
/// ends it.
pub open spec fn token_before(b: Seq<u8>, pos: int) -> (int, int) {
    let e = skip_ws_back(b, pos);
    if e == 0 {
        (0, 0)
    } else {
        (paren_token_start(b, e), e)
    }
}

/// The plain (not parenthesis-aware) token before `end`, as `(start, end)`.
pub open spec fn plain_token_before(b: Seq<u8>, end: int) -> (int, int) {
    let e = skip_ws_back(b, end);
    if e == 0 {
        (0, 0)
    } else {
        (skip_word_back(b, e), e)
    }
}

/// Commands that read stdin and whose output a redirect sends to a file,
/// plus any variable-expanded command name (starting with `$`).
pub open spec fn is_file_write_word(t: Seq<u8>) -> bool {
    ||| t == seq![99u8, 97u8, 116u8]  // cat
    ||| t == seq![116u8, 101u8, 101u8]  // tee
    ||| t == seq![112u8, 114u8, 105u8, 110u8, 116u8, 102u8]  // printf
    ||| t == seq![100u8, 100u8]  // dd
    ||| (t.len() > 0 && t[0] == 36u8)  // $...
}

/// Flags that make a command read its data from stdin.
pub open spec fn is_stdin_flag_word(t: Seq<u8>) -> bool {
    ||| t == seq![45u8, 45u8, 100u8, 97u8, 116u8, 97u8]  // --data
    ||| t == seq![45u8, 45u8, 100u8, 97u8, 116u8, 97u8, 45u8, 114u8, 97u8, 119u8]  // --data-raw
    ||| t == seq![45u8, 45u8, 100u8, 97u8, 116u8, 97u8, 45u8, 98u8, 105u8, 110u8, 97u8, 114u8, 121u8]  // --data-binary
    ||| t == seq![45u8, 45u8, 100u8, 97u8, 116u8, 97u8, 45u8, 117u8, 114u8, 108u8, 101u8, 110u8, 99u8, 111u8, 100u8, 101u8]  // --data-urlencode
    ||| t == seq![45u8, 45u8, 98u8, 111u8, 100u8, 121u8, 45u8, 102u8, 105u8, 108u8, 101u8]  // --body-file
    ||| t == seq![45u8, 100u8]  // -d
    ||| t == seq![45u8, 70u8]  // -F
    ||| t == seq![45u8, 45u8, 115u8, 116u8, 100u8, 105u8, 110u8]  // --stdin
}

/// Is the byte a command separator or group opener (`|`, `;`, `&`, `(`)?
pub open spec fn is_separator_byte(c: u8) -> bool {
    c == 124u8 || c == 59u8 || c == 38u8 || c == 40u8
}

/// Walk backward through argument tokens from `pos` looking for a
/// file-write command before a separator or the start. Returns whether one
/// was found and the position reached.
pub open spec fn scan_args(b: Seq<u8>, pos: int) -> (bool, int)
    decreases pos,
{
    let (s, e) = token_before(b, pos);
    if s == e {
        (false, s)
    } else if is_file_write_word(b.subrange(s, e)) {
        (true, s)
    } else {
        let p = skip_ws_back(b, s);
        if p <= 0 || p > b.len() || p >= pos {
            (false, p)
        } else if is_separator_byte(b[p - 1]) {
            (false, p)
        } else {
            scan_args(b, p)
        }
    }
}

/// The redirect step of the file-write scan: given the position `p` just
/// before a `>` or `>>` operator, whether a file write is established and the
/// position reached.
pub open spec fn after_redirect(b: Seq<u8>, p: int) -> (bool, int) {
    let q = skip_ws_back(b, p);
    if q == 0 {
        (true, q)
    } else {
        scan_args(b, q)
    }
}

/// Does a file-write pattern (`cat > f <<`, `tee f <<`, `> f <<`, `dd of=f <<`,
/// ...) end at `here` (the first `<` of `<<`)?
pub open spec fn file_write_before(b: Seq<u8>, here: int) -> bool {
    let p0 = skip_ws_back(b, here);
    if p0 == 0 {
        false
    } else {
        // the file operand
        let t0 = paren_token_start(b, p0);
        let p1 = skip_ws_back(b, t0);
        if t0 == p0 || p1 == 0 {
            false
        } else {
            // optional `>>`
            let (hit2, p2) = if p1 >= 2 && b[p1 - 1] == 62u8 && b[p1 - 2] == 62u8 {
                after_redirect(b, p1 - 2)
            } else {
                (false, p1)
            };
            if hit2 {
                true
            } else {
                // optional `>`
                let (hit3, p3) = if p2 > 0 && b[p2 - 1] == 62u8 {
                    after_redirect(b, p2 - 1)
                } else {
                    (false, p2)
                };
                if hit3 {
                    true
                } else {
                    let (cs, ce) = token_before(b, p3);
                    let cmd = b.subrange(cs, ce);
                    if is_file_write_word(cmd) {
                        true
                    } else if cmd.len() > 1 && cmd[0] == 45u8 {
                        let p4 = skip_ws_back(b, cs);
                        if p4 == 0 {
                            false
                        } else {
                            let (ps, pe) = token_before(b, p4);
                            is_file_write_word(b.subrange(ps, pe))
                        }
                    } else {
                        false
                    }
                }
            }
        }
    }
}

/// Does a stdin-consuming flag (`--data -`, `cat -`, `--stdin`, ...) end at
/// `here` (the first `<` of `<<`)?
pub open spec fn stdin_flag_before(b: Seq<u8>, here: int) -> bool {
    let p = skip_ws_back(b, here);
    if p == 0 {
        false
    } else {
        let (s, e) = plain_token_before(b, p);
        let tok = b.subrange(s, e);
        if tok == seq![45u8] {
            let q = skip_ws_back(b, s);
            if q == 0 {
                false
            } else {
                let (fs, fe) = plain_token_before(b, q);
                let flag = b.subrange(fs, fe);
                is_stdin_flag_word(flag) || flag == seq![99u8, 97u8, 116u8]
            }
        } else {
            is_stdin_flag_word(tok)
        }
    }
}

proof fn lemma_skip_ws_back_bounds(b: Seq<u8>, pos: int)
    requires
        0 <= pos <= b.len(),
    ensures
        0 <= skip_ws_back(b, pos) <= pos,
        skip_ws_back(b, pos) > 0 ==> !is_ascii_ws_byte(b[skip_ws_back(b, pos) - 1]),
    decreases pos,
{
    if 0 < pos && is_ascii_ws_byte(b[pos - 1]) {
        lemma_skip_ws_back_bounds(b, pos - 1);
    }
}

proof fn lemma_skip_word_back_bounds(b: Seq<u8>, pos: int)
    requires
        0 <= pos <= b.len(),
    ensures
        0 <= skip_word_back(b, pos) <= pos,
    decreases pos,
{
    if 0 < pos && !is_ascii_ws_byte(b[pos - 1]) {
        lemma_skip_word_back_bounds(b, pos - 1);
    }
}

proof fn lemma_skip_token_back_bounds(b: Seq<u8>, pos: int)
    requires
        0 <= pos <= b.len(),
    ensures
        0 <= skip_token_back(b, pos) <= pos,
    decreases pos,
{
    if 0 < pos && !is_ascii_ws_byte(b[pos - 1]) && !is_separator_byte(b[pos - 1]) {
        lemma_skip_token_back_bounds(b, pos - 1);
    }
}

proof fn lemma_match_paren_back_bounds(b: Seq<u8>, p: int, depth: int)
    requires
        0 <= p <= b.len(),
    ensures
        0 <= match_paren_back(b, p, depth) <= p,
    decreases p,
{
    if 0 < p && depth > 0 {
        let q = p - 1;
        let d = if b[q] == 40u8 { depth - 1 } else if b[q] == 41u8 { depth + 1 } else { depth };
        lemma_match_paren_back_bounds(b, q, d);
    }
}

proof fn lemma_paren_token_start_bounds(b: Seq<u8>, pos: int)
    requires
        0 < pos <= b.len(),
        !is_ascii_ws_byte(b[pos - 1]),
    ensures
        0 <= paren_token_start(b, pos) <= pos,
{
    if b[pos - 1] == 41u8 {
        lemma_match_paren_back_bounds(b, pos - 1, 1);
    } else if b[pos - 1] == 62u8 {
    } else {
        lemma_skip_token_back_bounds(b, pos);
    }
}

proof fn lemma_token_before_bounds(b: Seq<u8>, pos: int)
    requires
        0 <= pos <= b.len(),
    ensures
        0 <= token_before(b, pos).0 <= token_before(b, pos).1 <= pos,
        token_before(b, pos).1 == 0 ==> token_before(b, pos).0 == 0,
{
    lemma_skip_ws_back_bounds(b, pos);
    let e = skip_ws_back(b, pos);
    if e != 0 {
        lemma_paren_token_start_bounds(b, e);
    }
}

proof fn lemma_scan_args_bounds(b: Seq<u8>, pos: int)
    requires
        0 <= pos <= b.len(),
    ensures
        0 <= scan_args(b, pos).1 <= pos,
    decreases pos,
{
    lemma_token_before_bounds(b, pos);
    let (s, e) = token_before(b, pos);
    if s != e && !is_file_write_word(b.subrange(s, e)) {
        lemma_skip_ws_back_bounds(b, s);
        let p = skip_ws_back(b, s);
        if 0 < p && p < pos && !is_separator_byte(b[p - 1]) {
            lemma_scan_args_bounds(b, p);
        }
    }
}

/// Steps `pos` backward over ASCII whitespace.
fn skip_ws_backward(bytes: &[u8], pos: &mut usize)
    requires
        *old(pos) <= bytes@.len(),
    ensures
        *final(pos) == skip_ws_back(bytes@, *old(pos) as int),
{
    proof { lemma_skip_ws_back_bounds(bytes@, *pos as int); }
    while *pos > 0 && is_ws(bytes[*pos - 1])
        invariant
            *pos <= bytes@.len(),
            skip_ws_back(bytes@, *pos as int) == skip_ws_back(bytes@, *old(pos) as int),
        decreases *pos,
    {
        *pos = *pos - 1;
    }
}

/// Steps `pos` backward over non-whitespace bytes.
fn skip_word_backward(bytes: &[u8], pos: &mut usize)
    requires
        *old(pos) <= bytes@.len(),
    ensures
        *final(pos) == skip_word_back(bytes@, *old(pos) as int),
{
    while *pos > 0 && !is_ws(bytes[*pos - 1])
        invariant
            *pos <= bytes@.len(),
            skip_word_back(bytes@, *pos as int) == skip_word_back(bytes@, *old(pos) as int),
        decreases *pos,
    {
        *pos = *pos - 1;
    }
}

/// Steps `pos` backward over the bytes of a token, up to whitespace or a
/// separator.
fn skip_token_backward(bytes: &[u8], pos: &mut usize)
    requires
        *old(pos) <= bytes@.len(),
    ensures
        *final(pos) == skip_token_back(bytes@, *old(pos) as int),
{
    while *pos > 0 && !is_ws(bytes[*pos - 1]) && !is_separator(bytes[*pos - 1])
        invariant
            *pos <= bytes@.len(),
            skip_token_back(bytes@, *pos as int) == skip_token_back(bytes@, *old(pos) as int),
        decreases *pos,
    {
        *pos = *pos - 1;
    }
}

/// Is the byte a command separator or group opener?
fn is_separator(c: u8) -> (r: bool)
    ensures
        r == is_separator_byte(c),
{
    c == 124u8 || c == 59u8 || c == 38u8 || c == 40u8
}

/// Moves `pos` to the start of the (parenthesis-aware) token ending at `pos`.
fn paren_aware_token(bytes: &[u8], pos: &mut usize)
    requires
        0 < *old(pos) <= bytes@.len(),
    ensures
        *final(pos) == paren_token_start(bytes@, *old(pos) as int),
{
    let end = *pos;
    if bytes[*pos - 1] == 41u8 {
        let mut depth: usize = 1;
        *pos = *pos - 1;
        while *pos > 0 && depth > 0
            invariant
                *pos < end <= bytes@.len(),
                depth <= end - *pos,
                match_paren_back(bytes@, *pos as int, depth as int) == match_paren_back(
                    bytes@,
                    end - 1,
                    1,
                ),
            decreases *pos,
        {
            *pos = *pos - 1;
            if bytes[*pos] == 40u8 {
                depth = depth - 1;
            } else if bytes[*pos] == 41u8 {
                depth = depth + 1;
            }
        }
        return;
    }
    if bytes[*pos - 1] == 62u8 {
        *pos = *pos - 1;
        if *pos > 0 && bytes[*pos - 1] == 62u8 {
            *pos = *pos - 1;
        }
        return;
    }
    skip_token_backward(bytes, pos);
}

/// Moves `pos` to the start of the token before it (after skipping
/// whitespace) and returns that token's end; both are 0 when only whitespace
/// precedes `pos`.
fn token_before_pos(bytes: &[u8], pos: &mut usize) -> (end: usize)
    requires
        *old(pos) <= bytes@.len(),
    ensures
        (*final(pos) as int, end as int) == token_before(bytes@, *old(pos) as int),
{
    skip_ws_backward(bytes, pos);
    if *pos == 0 {
        return 0;
    }
    proof { lemma_skip_ws_back_bounds(bytes@, *old(pos) as int); }
    let e = *pos;
    paren_aware_token(bytes, pos);
    e
}

/// Does `bytes[start..end]` equal `w`?
fn range_eq(bytes: &[u8], start: usize, end: usize, w: &[u8]) -> (r: bool)
    requires
        start <= end <= bytes@.len(),
    ensures
        r == (bytes@.subrange(start as int, end as int) == w@),
{
    if end - start != w.len() {
        return false;
    }
    let mut i: usize = 0;
    while i < w.len()
        invariant
            start <= end <= bytes@.len(),
            end - start == w@.len(),
            i <= w@.len(),
            forall|k: int| 0 <= k < i ==> bytes@[start + k] == w@[k],
        decreases w@.len() - i,
    {
        if bytes[start + i] != w[i] {
            assert(bytes@.subrange(start as int, end as int)[i as int] != w@[i as int]);
            return false;
        }
        i = i + 1;
    }
    assert(bytes@.subrange(start as int, end as int) =~= w@);
    true
}

/// Is `bytes[start..end]` a file-write command word?
fn is_file_write_command(bytes: &[u8], start: usize, end: usize) -> (r: bool)
    requires
        start <= end <= bytes@.len(),
    ensures
        r == is_file_write_word(bytes@.subrange(start as int, end as int)),
{
    let cat: Vec<u8> = vec![99u8, 97u8, 116u8];
    let tee: Vec<u8> = vec![116u8, 101u8, 101u8];
    let printf: Vec<u8> = vec![112u8, 114u8, 105u8, 110u8, 116u8, 102u8];
    let dd: Vec<u8> = vec![100u8, 100u8];
    let r = range_eq(bytes, start, end, cat.as_slice()) || range_eq(bytes, start, end, tee.as_slice())
        || range_eq(bytes, start, end, printf.as_slice()) || range_eq(bytes, start, end, dd.as_slice())
        || (start < end && bytes[start] == 36u8);
    proof {
        let t = bytes@.subrange(start as int, end as int);
        assert(cat@ == seq![99u8, 97u8, 116u8]);
        assert(tee@ == seq![116u8, 101u8, 101u8]);
        assert(printf@ == seq![112u8, 114u8, 105u8, 110u8, 116u8, 102u8]);
        assert(dd@ == seq![100u8, 100u8]);
        if start < end {
            assert(t[0] == bytes@[start as int]);
        }
    }
    r
}

/// Walks backward through argument tokens from `pos` and reports whether a
/// file-write command appears before a separator or the start.
fn scan_args_for_write_command(bytes: &[u8], pos: &mut usize) -> (r: bool)
    requires
        *old(pos) <= bytes@.len(),
    ensures
        (r, *final(pos) as int) == scan_args(bytes@, *old(pos) as int),
    decreases *old(pos),
{
    let start_pos = *pos;
    proof { lemma_token_before_bounds(bytes@, start_pos as int); }
    let e = token_before_pos(bytes, pos);
    if *pos == e {
        return false;
    }
    if is_file_write_command(bytes, *pos, e) {
        return true;
    }
    let s = *pos;
    proof { lemma_skip_ws_back_bounds(bytes@, s as int); }
    skip_ws_backward(bytes, pos);
    if *pos == 0 {
        return false;
    }
    let next = bytes[*pos - 1];
    if is_separator(next) {
        return false;
    }
    scan_args_for_write_command(bytes, pos)
}

/// Does a file-write pattern end at `here_pos`, the first `<` of `<<`?
/// Recognises `cat > f <<`, `cat >> f <<`, `tee f <<`, `tee -a f <<`,
/// bare `> f <<` and `>> f <<`, `(cat > f <<`, `cat > >(p) <<`,
/// `cat > $(c) <<`, `dd of=f <<` and `printf 'x' > f <<`.
pub fn scan_backward_for_file_write(bytes: &[u8], here_pos: usize) -> (r: bool)
    requires
        here_pos <= bytes@.len(),
    ensures
        r == file_write_before(bytes@, here_pos as int),
{
    let ghost b = bytes@;
    let mut pos = here_pos;
    skip_ws_backward(bytes, &mut pos);
    if pos == 0 {
        return false;
    }
    proof {
        lemma_skip_ws_back_bounds(b, here_pos as int);
        lemma_paren_token_start_bounds(b, pos as int);
    }
    let p0 = pos;
    paren_aware_token(bytes, &mut pos);
    if pos == p0 {
        return false;
    }
    skip_ws_backward(bytes, &mut pos);
    if pos == 0 {
        return false;
    }
    let p1 = pos;
    proof { lemma_skip_ws_back_bounds(b, paren_token_start(b, p0 as int)); }
    let ghost p2: int = p1 as int;
    if pos >= 2 && bytes[pos - 1] == 62u8 && bytes[pos - 2] == 62u8 {
        pos = pos - 2;
        proof { lemma_skip_ws_back_bounds(b, pos as int); }
        skip_ws_backward(bytes, &mut pos);
        if pos == 0 {
            return true;
        }
        proof { lemma_scan_args_bounds(b, pos as int); }
        if scan_args_for_write_command(bytes, &mut pos) {
            return true;
        }
        proof { p2 = pos as int; }
    }
    assert(p2 == pos);
    let ghost p3: int = p2;
    if pos > 0 && bytes[pos - 1] == 62u8 {
        pos = pos - 1;
        proof { lemma_skip_ws_back_bounds(b, pos as int); }
        skip_ws_backward(bytes, &mut pos);
        if pos == 0 {
            return true;
        }
        proof { lemma_scan_args_bounds(b, pos as int); }
        if scan_args_for_write_command(bytes, &mut pos) {
            return true;
        }
        proof { p3 = pos as int; }
    }
    assert(p3 == pos);
    proof { lemma_token_before_bounds(b, pos as int); }
    let ce = token_before_pos(bytes, &mut pos);
    let cs = pos;
    if is_file_write_command(bytes, cs, ce) {
        return true;
    }
    if ce - cs > 1 && bytes[cs] == 45u8 {
        proof {
            assert(b.subrange(cs as int, ce as int)[0] == b[cs as int]);
            lemma_skip_ws_back_bounds(b, cs as int);
        }
        skip_ws_backward(bytes, &mut pos);
        if pos == 0 {
            return false;
        }
        proof { lemma_token_before_bounds(b, pos as int); }
        let pe = token_before_pos(bytes, &mut pos);
        return is_file_write_command(bytes, pos, pe);
    }
    proof {
        if ce - cs > 1 {
            assert(b.subrange(cs as int, ce as int)[0] == b[cs as int]);
        }
    }
    false
}

/// The token immediately before `end` (after skipping whitespace), as a
/// `(start, end)` range; `(0, 0)` when only whitespace precedes `end`.
fn prev_token(bytes: &[u8], end: usize) -> (r: (usize, usize))
    requires
        end <= bytes@.len(),
    ensures
        (r.0 as int, r.1 as int) == plain_token_before(bytes@, end as int),
        r.0 <= r.1 <= end,
{
    let mut pos = end;
    proof { lemma_skip_ws_back_bounds(bytes@, end as int); }
    skip_ws_backward(bytes, &mut pos);
    if pos == 0 {
        return (0, 0);
    }
    let end_pos = pos;
    proof { lemma_skip_word_back_bounds(bytes@, pos as int); }
    skip_word_backward(bytes, &mut pos);
    (pos, end_pos)
}

/// Is `bytes[start..end]` a flag that makes a command read stdin?
fn is_stdin_consuming_flag(bytes: &[u8], start: usize, end: usize) -> (r: bool)
    requires
        start <= end <= bytes@.len(),
    ensures
        r == is_stdin_flag_word(bytes@.subrange(start as int, end as int)),
{
    let data: Vec<u8> = vec![45u8, 45u8, 100u8, 97u8, 116u8, 97u8];
    let data_raw: Vec<u8> = vec![45u8, 45u8, 100u8, 97u8, 116u8, 97u8, 45u8, 114u8, 97u8, 119u8];
    let data_binary: Vec<u8> = vec![
        45u8, 45u8, 100u8, 97u8, 116u8, 97u8, 45u8, 98u8, 105u8, 110u8, 97u8, 114u8, 121u8,
    ];
    let data_urlencode: Vec<u8> = vec![
        45u8, 45u8, 100u8, 97u8, 116u8, 97u8, 45u8, 117u8, 114u8, 108u8, 101u8, 110u8, 99u8,
        111u8, 100u8, 101u8,
    ];
    let body_file: Vec<u8> = vec![45u8, 45u8, 98u8, 111u8, 100u8, 121u8, 45u8, 102u8, 105u8, 108u8, 101u8];
    let short_d: Vec<u8> = vec![45u8, 100u8];
    let short_f: Vec<u8> = vec![45u8, 70u8];
    let stdin: Vec<u8> = vec![45u8, 45u8, 115u8, 116u8, 100u8, 105u8, 110u8];
    proof {
        assert(data@ == seq![45u8, 45u8, 100u8, 97u8, 116u8, 97u8]);
        assert(data_raw@ == seq![45u8, 45u8, 100u8, 97u8, 116u8, 97u8, 45u8, 114u8, 97u8, 119u8]);
        assert(data_binary@ == seq![
            45u8, 45u8, 100u8, 97u8, 116u8, 97u8, 45u8, 98u8, 105u8, 110u8, 97u8, 114u8, 121u8,
        ]);
        assert(data_urlencode@ == seq![
            45u8, 45u8, 100u8, 97u8, 116u8, 97u8, 45u8, 117u8, 114u8, 108u8, 101u8, 110u8, 99u8,
            111u8, 100u8, 101u8,
        ]);
        assert(body_file@ == seq![45u8, 45u8, 98u8, 111u8, 100u8, 121u8, 45u8, 102u8, 105u8, 108u8, 101u8]);
        assert(short_d@ == seq![45u8, 100u8]);
        assert(short_f@ == seq![45u8, 70u8]);
        assert(stdin@ == seq![45u8, 45u8, 115u8, 116u8, 100u8, 105u8, 110u8]);
    }
    range_eq(bytes, start, end, data.as_slice()) || range_eq(bytes, start, end, data_raw.as_slice())
        || range_eq(bytes, start, end, data_binary.as_slice())
        || range_eq(bytes, start, end, data_urlencode.as_slice())
        || range_eq(bytes, start, end, body_file.as_slice())
        || range_eq(bytes, start, end, short_d.as_slice())
        || range_eq(bytes, start, end, short_f.as_slice())
        || range_eq(bytes, start, end, stdin.as_slice())
}

/// Does a stdin-consuming flag end at `here_pos`, the first `<` of `<<`?
/// Recognises `--data -`, `--data-raw -`, `--data-binary -`,
/// `--data-urlencode -`, `--body-file -`, `-d -`, `-F -`, `cat -` and a
/// bare `--stdin`.
pub fn scan_backward_for_stdin_flag(bytes: &[u8], here_pos: usize) -> (r: bool)
    requires
        here_pos <= bytes@.len(),
    ensures
        r == stdin_flag_before(bytes@, here_pos as int),
{
    let ghost b = bytes@;
    let mut pos = here_pos;
    proof { lemma_skip_ws_back_bounds(b, here_pos as int); }
    skip_ws_backward(bytes, &mut pos);
    if pos == 0 {
        return false;
    }
    let (ts, te) = prev_token(bytes, pos);
    let dash: Vec<u8> = vec![45u8];
    proof { assert(dash@ == seq![45u8]); }
    if range_eq(bytes, ts, te, dash.as_slice()) {
        pos = ts;
        proof { lemma_skip_ws_back_bounds(b, pos as int); }
        skip_ws_backward(bytes, &mut pos);
        if pos == 0 {
            return false;
        }
        let (fs, fe) = prev_token(bytes, pos);
        if is_stdin_consuming_flag(bytes, fs, fe) {
            return true;
        }
        let cat: Vec<u8> = vec![99u8, 97u8, 116u8];
        proof { assert(cat@ == seq![99u8, 97u8, 116u8]); }
        return range_eq(bytes, fs, fe, cat.as_slice());
    }
    is_stdin_consuming_flag(bytes, ts, te)
}

} // verus!
