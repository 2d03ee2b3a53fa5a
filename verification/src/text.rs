//! Character-level text helpers shared by the other modules.

use vstd::prelude::*;

verus! {

/// Is the byte `b`, read as a character, ASCII whitespace?
pub open spec fn is_ascii_ws_byte(b: u8) -> bool {
    b == 32u8 || b == 9u8 || b == 10u8 || b == 12u8 || b == 13u8
}

/// The characters of a string slice, in order.
pub fn chars_of(s: &str) -> (v: Vec<char>)
    ensures
        v@ == s@,
{
    broadcast use vstd::string::axiom_spec_iter;
    let mut v: Vec<char> = Vec::new();
    for c in it: s.chars()
        invariant
            v@ == it.seq().take(it.index() as int),
    {
        v.push(c);
    }
    assert(v@ =~= s@);
    v
}

/// `String::push`.
///
/// Trusted (std): the character is appended to the end of the string.
#[verifier::external_body]
fn push_char(s: &mut String, c: char)
    ensures
        final(s)@ == old(s)@.push(c),
{
    s.push(c);
}

/// The string whose characters are `v`, in order.
pub fn string_of(v: &[char]) -> (s: String)
    ensures
        s@ == v@,
{
    let mut s = String::new();
    let mut i: usize = 0;
    while i < v.len()
        invariant
            i <= v@.len(),
            s@ == v@.subrange(0, i as int),
        decreases v@.len() - i,
    {
        push_char(&mut s, v[i]);
        assert(v@.subrange(0, i + 1) =~= v@.subrange(0, i as int).push(v@[i as int]));
        i = i + 1;
    }
    assert(v@.subrange(0, v@.len() as int) =~= v@);
    s
}

/// Executable test of `is_ascii_ws_byte`.
pub fn is_ws(b: u8) -> (r: bool)
    ensures
        r == is_ascii_ws_byte(b),
{
    b == 32u8 || b == 9u8 || b == 10u8 || b == 12u8 || b == 13u8
}

/// Decimal digit character for `d < 10`.
pub open spec fn digit_char(d: nat) -> char {
    if d == 0 { '0' } else if d == 1 { '1' } else if d == 2 { '2' } else if d == 3 { '3' }
    else if d == 4 { '4' } else if d == 5 { '5' } else if d == 6 { '6' } else if d == 7 { '7' }
    else if d == 8 { '8' } else { '9' }
}

/// Decimal rendering of a natural number, without leading zeros ("0" for zero).
pub open spec fn decimal(n: nat) -> Seq<char>
    decreases n,
{
    if n < 10 {
        seq![digit_char(n)]
    } else {
        decimal(n / 10).push(digit_char(n % 10))
    }
}

fn digit(d: u64) -> (c: char)
    requires
        d < 10,
    ensures
        c == digit_char(d as nat),
{
    if d == 0 { '0' } else if d == 1 { '1' } else if d == 2 { '2' } else if d == 3 { '3' }
    else if d == 4 { '4' } else if d == 5 { '5' } else if d == 6 { '6' } else if d == 7 { '7' }
    else if d == 8 { '8' } else { '9' }
}

/// Appends the decimal rendering of `n` to `out`.
pub fn push_decimal(out: &mut Vec<char>, n: u64)
    ensures
        final(out)@ == old(out)@ + decimal(n as nat),
    decreases n,
{
    if n < 10 {
        out.push(digit(n));
    } else {
        push_decimal(out, n / 10);
        out.push(digit(n % 10));
        assert(decimal(n as nat) == decimal((n / 10) as nat).push(digit_char((n % 10) as nat)));
    }
}

/// Appends every character of `s` to `out`.
pub fn push_all(out: &mut Vec<char>, s: &[char])
    ensures
        final(out)@ == old(out)@ + s@,
{
    let mut i: usize = 0;
    while i < s.len()
        invariant
            i <= s@.len(),
            out@ == old(out)@ + s@.subrange(0, i as int),
        decreases s@.len() - i,
    {
        out.push(s[i]);
        i = i + 1;
        assert(s@.subrange(0, i as int) == s@.subrange(0, i - 1 as int).push(s@[i - 1]));
    }
    assert(s@.subrange(0, s@.len() as int) == s@);
}

/// Appends the characters of a string slice to `out`.
pub fn push_str(out: &mut Vec<char>, s: &str)
    ensures
        final(out)@ == old(out)@ + s@,
{
    let v = chars_of(s);
    push_all(out, v.as_slice());
}

/// Is `c` Unicode `White_Space`, the set `char::is_whitespace` (and so
/// `str::trim`) uses?
pub open spec fn is_unicode_ws(c: char) -> bool {
    let u = c as int;
    ||| 9 <= u <= 13
    ||| u == 32
    ||| u == 0x85
    ||| u == 0xA0
    ||| u == 0x1680
    ||| 0x2000 <= u <= 0x200A
    ||| u == 0x2028
    ||| u == 0x2029
    ||| u == 0x202F
    ||| u == 0x205F
    ||| u == 0x3000
}

pub fn is_unicode_whitespace(c: char) -> (r: bool)
    ensures
        r == is_unicode_ws(c),
{
    let u = c as u32;
    (9 <= u && u <= 13) || u == 32 || u == 0x85 || u == 0xA0 || u == 0x1680 || (0x2000 <= u && u
        <= 0x200A) || u == 0x2028 || u == 0x2029 || u == 0x202F || u == 0x205F || u == 0x3000
}

/// Does `s` begin with `p`?
pub open spec fn has_prefix(s: Seq<char>, p: Seq<char>) -> bool {
    p.len() <= s.len() && s.subrange(0, p.len() as int) == p
}

pub fn starts_with(s: &[char], p: &str) -> (r: bool)
    ensures
        r == has_prefix(s@, p@),
{
    let pv = chars_of(p);
    if pv.len() > s.len() {
        return false;
    }
    let mut i: usize = 0;
    while i < pv.len()
        invariant
            pv@ == p@,
            pv@.len() <= s@.len(),
            i <= pv@.len(),
            forall|k: int| 0 <= k < i ==> #[trigger] s@[k] == pv@[k],
        decreases pv@.len() - i,
    {
        if s[i] != pv[i] {
            assert(s@.subrange(0, pv@.len() as int)[i as int] != pv@[i as int]);
            return false;
        }
        i = i + 1;
    }
    assert(s@.subrange(0, pv@.len() as int) =~= pv@);
    true
}

/// Do `a` and the string `b` hold the same characters?
pub fn chars_eq(a: &[char], b: &str) -> (r: bool)
    ensures
        r == (a@ == b@),
{
    let bv = chars_of(b);
    if a.len() != bv.len() {
        return false;
    }
    let mut i: usize = 0;
    while i < a.len()
        invariant
            bv@ == b@,
            a@.len() == bv@.len(),
            i <= a@.len(),
            forall|k: int| 0 <= k < i ==> #[trigger] a@[k] == bv@[k],
        decreases a@.len() - i,
    {
        if a[i] != bv[i] {
            return false;
        }
        i = i + 1;
    }
    assert(a@ =~= bv@);
    true
}

/// A copy of `s[start..end]`.
pub fn slice_chars(s: &[char], start: usize, end: usize) -> (r: Vec<char>)
    requires
        start <= end <= s@.len(),
    ensures
        r@ == s@.subrange(start as int, end as int),
{
    let mut out: Vec<char> = Vec::new();
    let mut i = start;
    while i < end
        invariant
            start <= i <= end <= s@.len(),
            out@ == s@.subrange(start as int, i as int),
        decreases end - i,
    {
        out.push(s[i]);
        i = i + 1;
        assert(out@ =~= s@.subrange(start as int, i as int));
    }
    out
}

/// First position at or after `k` holding `c`, or the length.
pub open spec fn find_char(s: Seq<char>, c: char, k: int) -> int
    decreases s.len() - k,
{
    if 0 <= k < s.len() && s[k] != c {
        find_char(s, c, k + 1)
    } else {
        k
    }
}

pub proof fn lemma_find_char(s: Seq<char>, c: char, k: int)
    requires
        0 <= k,
    ensures
        k <= find_char(s, c, k),
        k <= s.len() ==> find_char(s, c, k) <= s.len(),
        find_char(s, c, k) < s.len() ==> s[find_char(s, c, k)] == c,
        forall|j: int| k <= j < find_char(s, c, k) ==> s[j] != c,
    decreases s.len() - k,
{
    if 0 <= k < s.len() && s[k] != c {
        lemma_find_char(s, c, k + 1);
    }
}

pub fn find_char_from(s: &[char], c: char, k: usize) -> (r: usize)
    requires
        k <= s@.len(),
    ensures
        r == find_char(s@, c, k as int),
        k <= r <= s@.len(),
{
    let mut i = k;
    while i < s.len() && s[i] != c
        invariant
            k <= i <= s@.len(),
            find_char(s@, c, i as int) == find_char(s@, c, k as int),
        decreases s@.len() - i,
    {
        i = i + 1;
    }
    i
}

/// The pieces of `s[k..]` between occurrences of `c`, as `str::split` gives
/// them (always at least one piece).
pub open spec fn split_from(s: Seq<char>, c: char, k: int) -> Seq<Seq<char>>
    decreases s.len() - k,
{
    if k < 0 || k > s.len() {
        seq![]
    } else {
        let i = find_char(s, c, k);
        if i >= s.len() {
            seq![s.subrange(k, s.len() as int)]
        } else {
            proof {
                lemma_find_char(s, c, k);
            }
            seq![s.subrange(k, i)] + split_from(s, c, i + 1)
        }
    }
}

/// `s` split at every `c`.
pub open spec fn split_on(s: Seq<char>, c: char) -> Seq<Seq<char>> {
    split_from(s, c, 0)
}

/// The views of a vector of character vectors.
pub open spec fn views(v: Seq<Vec<char>>) -> Seq<Seq<char>> {
    v.map_values(|x: Vec<char>| x@)
}

/// Splits `s` at every occurrence of `c`.
pub fn split_chars(s: &[char], c: char) -> (r: Vec<Vec<char>>)
    ensures
        views(r@) == split_on(s@, c),
        r@.len() >= 1,
{
    let mut out: Vec<Vec<char>> = Vec::new();
    let mut k: usize = 0;
    loop
        invariant
            k <= s@.len(),
            views(out@) + split_from(s@, c, k as int) == split_on(s@, c),
        decreases s@.len() - k,
    {
        let i = find_char_from(s, c, k);
        let piece = slice_chars(s, k, i);
        proof {
            lemma_find_char(s@, c, k as int);
        }
        if i >= s.len() {
            let ghost before = views(out@);
            out.push(piece);
            assert(views(out@) =~= before + seq![s@.subrange(k as int, s@.len() as int)]);
            assert(views(out@) =~= split_on(s@, c));
            return out;
        }
        let ghost before = views(out@);
        out.push(piece);
        assert(views(out@) =~= before + seq![s@.subrange(k as int, i as int)]);
        assert(views(out@) + split_from(s@, c, i + 1) =~= before + split_from(s@, c, k as int));
        k = i + 1;
    }
}

/// The pieces joined with `c` between consecutive ones, as `join` gives.
pub open spec fn join_with(parts: Seq<Seq<char>>, c: char) -> Seq<char>
    decreases parts.len(),
{
    if parts.len() == 0 {
        seq![]
    } else if parts.len() == 1 {
        parts[0]
    } else {
        join_with(parts.drop_last(), c).push(c) + parts.last()
    }
}

/// Joins `parts[from..]` with `c`.
pub fn join_chars(parts: &Vec<Vec<char>>, from: usize, c: char) -> (r: Vec<char>)
    requires
        from <= parts@.len(),
    ensures
        r@ == join_with(views(parts@).subrange(from as int, parts@.len() as int), c),
{
    let mut out: Vec<char> = Vec::new();
    let mut i = from;
    while i < parts.len()
        invariant
            from <= i <= parts@.len(),
            out@ == join_with(views(parts@).subrange(from as int, i as int), c),
        decreases parts@.len() - i,
    {
        let ghost prev = views(parts@).subrange(from as int, i as int);
        if i > from {
            out.push(c);
        }
        push_all(&mut out, parts[i].as_slice());
        i = i + 1;
        proof {
            let cur = views(parts@).subrange(from as int, i as int);
            assert(cur.drop_last() =~= prev);
            assert(cur.last() == parts@[i - 1]@);
            if i - 1 == from {
                assert(prev.len() == 0);
                assert(cur.len() == 1);
                assert(out@ =~= cur[0]);
            }
        }
    }
    out
}

/// Position of the first non-whitespace character of `s` (or its length).
pub open spec fn trim_start_pos(s: Seq<char>, k: int) -> int
    decreases s.len() - k,
{
    if 0 <= k < s.len() && is_unicode_ws(s[k]) {
        trim_start_pos(s, k + 1)
    } else {
        k
    }
}

/// End of `s[lo..]` after dropping trailing whitespace, scanning down from `k`.
pub open spec fn trim_end_pos(s: Seq<char>, lo: int, k: int) -> int
    decreases k - lo,
{
    if lo < k <= s.len() && is_unicode_ws(s[k - 1]) {
        trim_end_pos(s, lo, k - 1)
    } else {
        k
    }
}

/// `s` without leading and trailing Unicode whitespace, as `str::trim` gives.
pub open spec fn trim_ws(s: Seq<char>) -> Seq<char> {
    let lo = trim_start_pos(s, 0);
    s.subrange(lo, trim_end_pos(s, lo, s.len() as int))
}

proof fn lemma_trim_start_pos(s: Seq<char>, k: int)
    requires
        0 <= k <= s.len(),
    ensures
        k <= trim_start_pos(s, k) <= s.len(),
    decreases s.len() - k,
{
    if 0 <= k < s.len() && is_unicode_ws(s[k]) {
        lemma_trim_start_pos(s, k + 1);
    }
}

proof fn lemma_trim_end_pos(s: Seq<char>, lo: int, k: int)
    requires
        0 <= lo <= k <= s.len(),
    ensures
        lo <= trim_end_pos(s, lo, k) <= k,
    decreases k - lo,
{
    if lo < k <= s.len() && is_unicode_ws(s[k - 1]) {
        lemma_trim_end_pos(s, lo, k - 1);
    }
}

/// `s` without leading and trailing Unicode whitespace.
pub fn trim_chars(s: &[char]) -> (r: Vec<char>)
    ensures
        r@ == trim_ws(s@),
{
    let mut lo: usize = 0;
    while lo < s.len() && is_unicode_whitespace(s[lo])
        invariant
            lo <= s@.len(),
            trim_start_pos(s@, lo as int) == trim_start_pos(s@, 0),
        decreases s@.len() - lo,
    {
        lo = lo + 1;
    }
    let mut hi: usize = s.len();
    while hi > lo && is_unicode_whitespace(s[hi - 1])
        invariant
            lo <= hi <= s@.len(),
            lo == trim_start_pos(s@, 0),
            trim_end_pos(s@, lo as int, hi as int) == trim_end_pos(s@, lo as int, s@.len() as int),
        decreases hi,
    {
        hi = hi - 1;
    }
    slice_chars(s, lo, hi)
}

/// Is `c` an ASCII decimal digit?
pub open spec fn is_digit_char(c: char) -> bool {
    48 <= c as int <= 57
}

/// The value of a string of decimal digits.
pub open spec fn digits_value(d: Seq<char>) -> nat
    decreases d.len(),
{
    if d.len() == 0 {
        0
    } else {
        (digits_value(d.drop_last()) * 10 + (d.last() as int - 48)) as nat
    }
}

/// Every character of `d` is a decimal digit.
pub open spec fn all_digits(d: Seq<char>) -> bool {
    forall|i: int| 0 <= i < d.len() ==> is_digit_char(#[trigger] d[i])
}

/// What `str::parse` yields for an unsigned integer type whose largest
/// value is `max`: an optional `+`, then one or more decimal digits whose
/// value is at most `max`.
pub open spec fn parse_unsigned(s: Seq<char>, max: nat) -> Option<nat> {
    let d = if s.len() > 0 && s[0] == '+' {
        s.subrange(1, s.len() as int)
    } else {
        s
    };
    if d.len() > 0 && all_digits(d) && digits_value(d) <= max {
        Some(digits_value(d))
    } else {
        None
    }
}

proof fn lemma_digits_value_grows(d: Seq<char>, i: int, j: int)
    requires
        0 <= i <= j <= d.len(),
        all_digits(d),
    ensures
        digits_value(d.subrange(0, i)) <= digits_value(d.subrange(0, j)),
    decreases j - i,
{
    if i < j {
        lemma_digits_value_grows(d, i, j - 1);
        let t = d.subrange(0, j);
        assert(t.drop_last() =~= d.subrange(0, j - 1));
        assert(is_digit_char(d[j - 1]));
    }
}

/// Parses an unsigned decimal the way `str::parse` does for an unsigned type
/// whose largest value is `max`.
pub fn parse_unsigned_decimal(s: &[char], max: u64) -> (r: Option<u64>)
    ensures
        match r {
            Some(n) => parse_unsigned(s@, max as nat) == Some(n as nat),
            None => parse_unsigned(s@, max as nat) is None,
        },
{
    let start: usize = if s.len() > 0 && s[0] == '+' {
        1
    } else {
        0
    };
    let ghost d = s@.subrange(start as int, s@.len() as int);
    proof {
        if s@.len() > 0 && s@[0] == '+' {
        } else {
            assert(d =~= s@);
        }
    }
    if start >= s.len() {
        return None;
    }
    let mut acc: u64 = 0;
    let mut i = start;
    while i < s.len()
        invariant
            start <= i <= s@.len(),
            start < s@.len(),
            d == s@.subrange(start as int, s@.len() as int),
            d == (if s@.len() > 0 && s@[0] == '+' {
                s@.subrange(1, s@.len() as int)
            } else {
                s@
            }),
            all_digits(d.subrange(0, i - start)),
            acc as nat == digits_value(d.subrange(0, i - start)),
            acc <= max,
        decreases s@.len() - i,
    {
        let c = s[i];
        assert(d[i - start] == c);
        if !('0' <= c && c <= '9') {
            assert(!is_digit_char(d[i - start]));
            return None;
        }
        let dv: u64 = (c as u32 - 48) as u64;
        let ghost next = d.subrange(0, i - start + 1);
        assert(next.drop_last() =~= d.subrange(0, i - start));
        assert(all_digits(next));
        assert(digits_value(next) == acc * 10 + dv);
        match acc.checked_mul(10) {
            None => {
                proof {
                    if all_digits(d) {
                        lemma_digits_value_grows(d, i - start + 1, d.len() as int);
                        assert(d.subrange(0, d.len() as int) =~= d);
                    }
                }
                return None;
            },
            Some(m) => match m.checked_add(dv) {
                None => {
                    proof {
                        if all_digits(d) {
                            lemma_digits_value_grows(d, i - start + 1, d.len() as int);
                            assert(d.subrange(0, d.len() as int) =~= d);
                        }
                    }
                    return None;
                },
                Some(v) => {
                    if v > max {
                        proof {
                            if all_digits(d) {
                                lemma_digits_value_grows(d, i - start + 1, d.len() as int);
                                assert(d.subrange(0, d.len() as int) =~= d);
                            }
                        }
                        return None;
                    }
                    acc = v;
                },
            },
        }
        i = i + 1;
    }
    assert(d.subrange(0, i - start) =~= d);
    Some(acc)
}

/// The pieces of `parts` trimmed of surrounding whitespace, keeping only
/// the non-empty ones, in order.
pub open spec fn nonempty_trimmed(parts: Seq<Seq<char>>) -> Seq<Seq<char>>
    decreases parts.len(),
{
    if parts.len() == 0 {
        seq![]
    } else {
        let r = nonempty_trimmed(parts.drop_last());
        let t = trim_ws(parts.last());
        if t.len() > 0 {
            r.push(t)
        } else {
            r
        }
    }
}

/// The views of a vector of strings.
pub open spec fn string_views(v: Seq<String>) -> Seq<Seq<char>> {
    v.map_values(|x: String| x@)
}

/// Trims every piece and keeps the non-empty ones, as strings.
pub fn trimmed_nonempty_strings(parts: &Vec<Vec<char>>) -> (r: Vec<String>)
    ensures
        string_views(r@) == nonempty_trimmed(views(parts@)),
{
    let mut out: Vec<String> = Vec::new();
    let mut i: usize = 0;
    while i < parts.len()
        invariant
            i <= parts@.len(),
            string_views(out@) == nonempty_trimmed(views(parts@).subrange(0, i as int)),
        decreases parts@.len() - i,
    {
        let t = trim_chars(parts[i].as_slice());
        let ghost before = string_views(out@);
        proof {
            let cur = views(parts@).subrange(0, i + 1);
            assert(cur.drop_last() =~= views(parts@).subrange(0, i as int));
            assert(cur.last() == parts@[i as int]@);
        }
        if t.len() > 0 {
            out.push(string_of(t.as_slice()));
            assert(string_views(out@) =~= before.push(t@));
        }
        i = i + 1;
    }
    assert(views(parts@).subrange(0, parts@.len() as int) =~= views(parts@));
    out
}

/// A string holding the characters of `v`.
pub fn to_string(v: &Vec<char>) -> (s: String)
    ensures
        s@ == v@,
{
    string_of(v.as_slice())
}

/// Does `p` occur in `s` starting at `i`?
pub open spec fn occurs_at(s: Seq<char>, p: Seq<char>, i: int) -> bool {
    0 <= i && i + p.len() <= s.len() && s.subrange(i, i + p.len()) == p
}

/// Does `p` occur somewhere in `s` (as `str::contains` tests)?
pub open spec fn contains_seq(s: Seq<char>, p: Seq<char>) -> bool {
    exists|i: int| occurs_at(s, p, i)
}

/// Does `s[i..]` start with `p`?
pub fn matches_at(s: &[char], p: &[char], i: usize) -> (r: bool)
    requires
        i + p@.len() <= s@.len(),
    ensures
        r == occurs_at(s@, p@, i as int),
{
    let n = s.len();
    let mut k: usize = 0;
    while k < p.len()
        invariant
            n == s@.len(),
            i + p@.len() <= n,
            k <= p@.len(),
            forall|t: int| 0 <= t < k ==> #[trigger] s@[i + t] == p@[t],
        decreases p@.len() - k,
    {
        if s[i + k] != p[k] {
            assert(s@.subrange(i as int, i + p@.len())[k as int] != p@[k as int]);
            return false;
        }
        k = k + 1;
    }
    assert forall|t: int| 0 <= t < p@.len() implies s@.subrange(i as int, i + p@.len())[t]
        == p@[t] by {
        assert(s@[i + t] == p@[t]);
    }
    assert(s@.subrange(i as int, i + p@.len()) =~= p@);
    true
}

/// Does the string `p` occur in `s`?
pub fn contains_str(s: &[char], p: &str) -> (r: bool)
    ensures
        r == contains_seq(s@, p@),
{
    let pv = chars_of(p);
    if pv.len() > s.len() {
        assert forall|i: int| !occurs_at(s@, p@, i) by {}
        return false;
    }
    let last = s.len() - pv.len();
    let mut i: usize = 0;
    loop
        invariant
            pv@ == p@,
            last + pv@.len() == s@.len(),
            i <= last,
            forall|j: int| 0 <= j < i ==> !occurs_at(s@, p@, j),
        ensures
            forall|j: int| 0 <= j <= last ==> !occurs_at(s@, p@, j),
        decreases last - i,
    {
        if matches_at(s, pv.as_slice(), i) {
            return true;
        }
        if i == last {
            break;
        }
        i = i + 1;
    }
    assert forall|j: int| !occurs_at(s@, p@, j) by {
        if 0 <= j <= last {
        }
    }
    false
}

/// A line as `str::lines` yields it from a piece that was followed by `\n`:
/// without a trailing `\r`.
pub open spec fn strip_cr(l: Seq<char>) -> Seq<char> {
    if l.len() > 0 && l.last() == '\r' {
        l.drop_last()
    } else {
        l
    }
}

/// The lines of `s` as `str::lines` yields them: split at `\n`, each line
/// that ended in `\n` loses a trailing `\r`, and a final `\n` does not start
/// an empty last line.
pub open spec fn lines_of(s: Seq<char>) -> Seq<Seq<char>> {
    let p = split_on(s, '\n');
    let body = p.subrange(0, p.len() - 1).map_values(|l: Seq<char>| strip_cr(l));
    if p.last().len() == 0 {
        body
    } else {
        body.push(p.last())
    }
}

pub proof fn lemma_split_from_nonempty(s: Seq<char>, c: char, k: int)
    requires
        0 <= k <= s.len(),
    ensures
        split_from(s, c, k).len() >= 1,
    decreases s.len() - k,
{
    lemma_find_char(s, c, k);
    let i = find_char(s, c, k);
    if i < s.len() {
        lemma_split_from_nonempty(s, c, i + 1);
    }
}

/// The lines of `s`, as `str::lines` yields them.
pub fn lines_chars(s: &[char]) -> (r: Vec<Vec<char>>)
    ensures
        views(r@) == lines_of(s@),
{
    let parts = split_chars(s, '\n');
    let n = parts.len();
    let ghost pv = views(parts@);
    let mut out: Vec<Vec<char>> = Vec::new();
    let mut i: usize = 0;
    while i + 1 < n
        invariant
            n == parts@.len(),
            n >= 1,
            pv == views(parts@),
            i + 1 <= n,
            views(out@) == pv.subrange(0, i as int).map_values(|l: Seq<char>| strip_cr(l)),
        decreases n - i,
    {
        let piece = &parts[i];
        let ghost before = views(out@);
        let m = piece.len();
        let stripped = if m > 0 && piece[m - 1] == '\r' {
            let v = slice_chars(piece.as_slice(), 0, m - 1);
            assert(v@ =~= piece@.drop_last());
            v
        } else {
            let v = slice_chars(piece.as_slice(), 0, m);
            assert(v@ =~= piece@);
            v
        };
        assert(pv[i as int] == piece@);
        assert(stripped@ == strip_cr(pv[i as int]));
        out.push(stripped);
        proof {
            let a = views(out@);
            let b = pv.subrange(0, i + 1).map_values(|l: Seq<char>| strip_cr(l));
            assert(before.len() == i);
            assert(out@.len() == i + 1);
            assert(a.len() == b.len());
            assert forall|t: int| 0 <= t < a.len() implies a[t] == b[t] by {
                if t < i {
                    assert(a[t] == before[t]);
                }
            }
            assert(a =~= b);
        }
        i = i + 1;
    }
    let last = &parts[n - 1];
    assert(pv.last() == last@);
    if last.len() > 0 {
        let ghost before = views(out@);
        out.push(slice_chars(last.as_slice(), 0, last.len()));
        assert(last@.subrange(0, last@.len() as int) =~= last@);
        assert(views(out@) =~= before.push(last@));
    }
    out
}

/// Do `a` and `b` hold the same characters?
pub fn chars_eq_chars(a: &[char], b: &[char]) -> (r: bool)
    ensures
        r == (a@ == b@),
{
    if a.len() != b.len() {
        return false;
    }
    let mut i: usize = 0;
    while i < a.len()
        invariant
            a@.len() == b@.len(),
            i <= a@.len(),
            forall|k: int| 0 <= k < i ==> #[trigger] a@[k] == b@[k],
        decreases a@.len() - i,
    {
        if a[i] != b[i] {
            return false;
        }
        i = i + 1;
    }
    assert(a@ =~= b@);
    true
}

/// A number parsed from at most four characters is below 10000.
pub proof fn lemma_four_digits_bound(s: Seq<char>)
    requires
        s.len() <= 4,
        parse_unsigned(s, u32::MAX as nat) is Some,
    ensures
        parse_unsigned(s, u32::MAX as nat).unwrap() <= 9999,
{
    let d = if s.len() > 0 && s[0] == '+' {
        s.subrange(1, s.len() as int)
    } else {
        s
    };
    lemma_digits_value_below(d);
}

/// The value of `n` digits is below `10^n` (here for at most four digits).
proof fn lemma_digits_value_below(d: Seq<char>)
    requires
        d.len() <= 4,
        all_digits(d),
    ensures
        digits_value(d) <= 9999,
        d.len() <= 3 ==> digits_value(d) <= 999,
        d.len() <= 2 ==> digits_value(d) <= 99,
        d.len() <= 1 ==> digits_value(d) <= 9,
    decreases d.len(),
{
    if d.len() > 0 {
        assert(all_digits(d.drop_last())) by {
            assert forall|i: int| 0 <= i < d.drop_last().len() implies is_digit_char(#[trigger] d.drop_last()[i]) by {
                assert(d.drop_last()[i] == d[i]);
            }
        }
        lemma_digits_value_below(d.drop_last());
        assert(is_digit_char(d[d.len() - 1]));
    }
}

/// The first `c` at or after `k` is at `j` when none lies in `[k, j)` and
/// `j` is the end of `s` or holds `c`.
pub proof fn lemma_find_char_is(s: Seq<char>, c: char, k: int, j: int)
    requires
        0 <= k <= j <= s.len(),
        forall|m: int| k <= m < j ==> s[m] != c,
        j < s.len() ==> s[j] == c,
    ensures
        find_char(s, c, k) == j,
    decreases j - k,
{
    if k < j {
        lemma_find_char_is(s, c, k + 1, j);
    }
}

/// Splitting at `k` where the next `c` is at `j` gives `s[k..j]`, then the
/// pieces after `j`.
pub proof fn lemma_split_piece(s: Seq<char>, c: char, k: int, j: int)
    requires
        0 <= k <= j < s.len(),
        forall|m: int| k <= m < j ==> s[m] != c,
        s[j] == c,
    ensures
        split_from(s, c, k) == seq![s.subrange(k, j)] + split_from(s, c, j + 1),
{
    lemma_find_char_is(s, c, k, j);
}

/// Splitting from `k` with no `c` left gives the rest as one piece.
pub proof fn lemma_split_last_piece(s: Seq<char>, c: char, k: int)
    requires
        0 <= k <= s.len(),
        forall|m: int| k <= m < s.len() ==> s[m] != c,
    ensures
        split_from(s, c, k) == seq![s.subrange(k, s.len() as int)],
{
    lemma_find_char_is(s, c, k, s.len() as int);
}

/// Searching `pre + s` from inside `s` finds what searching `s` finds,
/// shifted by `pre`.
pub proof fn lemma_find_char_shift(pre: Seq<char>, s: Seq<char>, c: char, k: int)
    requires
        0 <= k <= s.len(),
    ensures
        find_char(pre + s, c, pre.len() + k) == pre.len() + find_char(s, c, k),
    decreases s.len() - k,
{
    let t = pre + s;
    if k < s.len() {
        assert(t[pre.len() + k] == s[k]);
        if s[k] != c {
            lemma_find_char_shift(pre, s, c, k + 1);
        }
    }
}

/// Splitting `pre + s` from inside `s` gives the pieces of `s`.
pub proof fn lemma_split_shift(pre: Seq<char>, s: Seq<char>, c: char, k: int)
    requires
        0 <= k <= s.len(),
    ensures
        split_from(pre + s, c, pre.len() + k) == split_from(s, c, k),
    decreases s.len() - k,
{
    let t = pre + s;
    lemma_find_char_shift(pre, s, c, k);
    lemma_find_char(s, c, k);
    let i = find_char(s, c, k);
    if i >= s.len() {
        assert(t.subrange(pre.len() + k, t.len() as int) =~= s.subrange(k, s.len() as int));
    } else {
        assert(t.subrange(pre.len() + k, pre.len() + i) =~= s.subrange(k, i));
        lemma_split_shift(pre, s, c, i + 1);
    }
}

/// Joining `a` in front of at least one more piece puts `c` between them.
pub proof fn lemma_join_cons(a: Seq<char>, rest: Seq<Seq<char>>, c: char)
    requires
        rest.len() >= 1,
    ensures
        join_with(seq![a] + rest, c) == a.push(c) + join_with(rest, c),
    decreases rest.len(),
{
    let all = seq![a] + rest;
    if rest.len() == 1 {
        assert(all.drop_last() =~= seq![a]);
        assert(all.last() == rest[0]);
        assert(join_with(seq![a], c) == a);
        assert(join_with(rest, c) == rest[0]);
        assert(join_with(all, c) == join_with(all.drop_last(), c).push(c) + all.last());
    } else {
        assert(all.drop_last() =~= seq![a] + rest.drop_last());
        assert(join_with(all, c) == join_with(all.drop_last(), c).push(c) + all.last());
        assert(join_with(rest, c) == join_with(rest.drop_last(), c).push(c) + rest.last());
        assert(all.last() == rest.last());
        lemma_join_cons(a, rest.drop_last(), c);
        assert(join_with(all, c) =~= a.push(c) + (join_with(rest.drop_last(), c).push(c)
            + rest.last()));
    }
}

/// Joining the pieces of `s[k..]` with `c` gives `s[k..]` back.
pub proof fn lemma_join_split_from(s: Seq<char>, c: char, k: int)
    requires
        0 <= k <= s.len(),
    ensures
        join_with(split_from(s, c, k), c) == s.subrange(k, s.len() as int),
    decreases s.len() - k,
{
    lemma_find_char(s, c, k);
    let i = find_char(s, c, k);
    if i < s.len() {
        lemma_join_split_from(s, c, i + 1);
        lemma_split_from_nonempty(s, c, i + 1);
        lemma_join_cons(s.subrange(k, i), split_from(s, c, i + 1), c);
        assert(s.subrange(k, i).push(c) + s.subrange(i + 1, s.len() as int) =~= s.subrange(
            k,
            s.len() as int,
        ));
    }
}

/// Joining the pieces of `s` split at `c` with `c` gives `s` back.
pub proof fn lemma_join_split(s: Seq<char>, c: char)
    ensures
        join_with(split_on(s, c), c) == s,
{
    lemma_join_split_from(s, c, 0);
    assert(s.subrange(0, s.len() as int) =~= s);
}

/// The decimal rendering of `n` is a non-empty string of digits whose value
/// is `n`.
pub proof fn lemma_decimal_value(n: nat)
    ensures
        decimal(n).len() >= 1,
        all_digits(decimal(n)),
        digits_value(decimal(n)) == n,
    decreases n,
{
    if n < 10 {
        assert(digit_char(n) as int == 48 + n);
        let t = decimal(n);
        assert(t.drop_last() =~= Seq::<char>::empty());
        assert(digits_value(t.drop_last()) == 0);
        assert(t.last() == digit_char(n));
        assert(digits_value(t) == digits_value(t.drop_last()) * 10 + (t.last() as int - 48));
    } else {
        lemma_decimal_value(n / 10);
        let t = decimal(n);
        assert(t.drop_last() =~= decimal(n / 10));
        assert(digit_char(n % 10) as int == 48 + n % 10);
        assert(t.last() == digit_char(n % 10));
        assert((n / 10) * 10 + n % 10 == n);
        assert(digits_value(t) == digits_value(t.drop_last()) * 10 + (t.last() as int - 48));
        assert forall|i: int| 0 <= i < t.len() implies is_digit_char(#[trigger] t[i]) by {
            if i < t.len() - 1 {
                assert(t[i] == decimal(n / 10)[i]);
            }
        }
    }
}

/// Short numbers have short renderings.
pub proof fn lemma_decimal_len(n: nat)
    ensures
        n < 100 ==> decimal(n).len() <= 2,
        n < 10000 ==> decimal(n).len() <= 4,
    decreases n,
{
    if n >= 10 {
        lemma_decimal_len(n / 10);
        assert(decimal(n).len() == decimal(n / 10).len() + 1);
        if n < 100 {
            assert(decimal(n / 10).len() == 1);
        }
        if n < 10000 {
            lemma_decimal_len_three(n / 10);
        }
    }
}

proof fn lemma_decimal_len_three(n: nat)
    ensures
        n < 1000 ==> decimal(n).len() <= 3,
    decreases n,
{
    if n >= 10 {
        lemma_decimal_len(n / 10);
        assert(decimal(n).len() == decimal(n / 10).len() + 1);
    }
}

/// Leading zeros change neither the value of a digit string nor that it is
/// one.
pub proof fn lemma_leading_zeros(k: nat, t: Seq<char>)
    requires
        all_digits(t),
    ensures
        all_digits(Seq::new(k, |i: int| '0') + t),
        digits_value(Seq::new(k, |i: int| '0') + t) == digits_value(t),
    decreases t.len() + k,
{
    let z = Seq::new(k, |i: int| '0');
    let u = z + t;
    assert forall|i: int| 0 <= i < u.len() implies is_digit_char(#[trigger] u[i]) by {
        if i >= k {
            assert(u[i] == t[i - k]);
        }
    }
    if t.len() > 0 {
        assert(u.drop_last() =~= z + t.drop_last());
        assert(all_digits(t.drop_last())) by {
            assert forall|i: int| 0 <= i < t.drop_last().len() implies is_digit_char(
                #[trigger] t.drop_last()[i],
            ) by {
                assert(t.drop_last()[i] == t[i]);
            }
        }
        lemma_leading_zeros(k, t.drop_last());
    } else if k > 0 {
        let z1 = Seq::new((k - 1) as nat, |i: int| '0');
        assert(u.drop_last() =~= z1 + t);
        lemma_leading_zeros((k - 1) as nat, t);
        assert(u.last() == '0');
    } else {
        assert(u =~= t);
    }
}

/// Does `c` occur nowhere in `s`?
pub open spec fn free_of(s: Seq<char>, c: char) -> bool {
    forall|i: int| 0 <= i < s.len() ==> #[trigger] s[i] != c
}

/// No piece of a split holds the separator.
pub proof fn lemma_split_pieces_free(s: Seq<char>, c: char, k: int)
    requires
        0 <= k <= s.len(),
    ensures
        forall|j: int| 0 <= j < split_from(s, c, k).len() ==> free_of(#[trigger] split_from(s, c, k)[j], c),
    decreases s.len() - k,
{
    lemma_find_char(s, c, k);
    let i = find_char(s, c, k);
    let ps = split_from(s, c, k);
    if i >= s.len() {
        assert(free_of(s.subrange(k, s.len() as int), c));
    } else {
        lemma_split_pieces_free(s, c, i + 1);
        assert(free_of(s.subrange(k, i), c));
        assert forall|j: int| 0 <= j < ps.len() implies free_of(#[trigger] ps[j], c) by {
            if j > 0 {
                assert(ps[j] == split_from(s, c, i + 1)[j - 1]);
            }
        }
    }
}

/// Splitting `a`, a separator, then `b` gives the pieces of `a` followed by
/// those of `b`.
pub proof fn lemma_split_concat_from(a: Seq<char>, b: Seq<char>, c: char, k: int)
    requires
        0 <= k <= a.len(),
    ensures
        split_from(a + seq![c] + b, c, k) == split_from(a, c, k) + split_on(b, c),
    decreases a.len() - k,
{
    let x = a + seq![c] + b;
    lemma_find_char(a, c, k);
    let i = find_char(a, c, k);
    assert forall|m: int| k <= m < i implies x[m] != c by {
        assert(x[m] == a[m]);
    }
    if i < a.len() {
        assert(x[i] == a[i]);
        lemma_find_char_is(x, c, k, i);
        assert(x.subrange(k, i) =~= a.subrange(k, i));
        lemma_split_concat_from(a, b, c, i + 1);
        assert(split_from(x, c, k) =~= seq![a.subrange(k, i)] + (split_from(a, c, i + 1)
            + split_on(b, c)));
    } else {
        assert(x[a.len() as int] == c);
        lemma_find_char_is(x, c, k, a.len() as int);
        assert(x.subrange(k, a.len() as int) =~= a.subrange(k, a.len() as int));
        let pre = a + seq![c];
        assert(x =~= pre + b);
        lemma_split_shift(pre, b, c, 0);
    }
}

/// Splitting the join of separator-free pieces gives the pieces back.
pub proof fn lemma_split_join(ws: Seq<Seq<char>>, c: char)
    requires
        ws.len() >= 1,
        forall|j: int| 0 <= j < ws.len() ==> free_of(#[trigger] ws[j], c),
    ensures
        split_on(join_with(ws, c), c) == ws,
    decreases ws.len(),
{
    let w = ws.last();
    assert(free_of(ws[ws.len() - 1], c));
    lemma_split_last_piece(w, c, 0);
    assert(w.subrange(0, w.len() as int) =~= w);
    if ws.len() == 1 {
        assert(ws =~= seq![w]);
    } else {
        let front = ws.drop_last();
        assert forall|j: int| 0 <= j < front.len() implies free_of(#[trigger] front[j], c) by {
            assert(front[j] == ws[j]);
        }
        lemma_split_join(front, c);
        let a = join_with(front, c);
        assert(join_with(ws, c) == a.push(c) + w);
        assert(a.push(c) + w =~= a + seq![c] + w);
        lemma_split_concat_from(a, w, c, 0);
        assert(ws =~= front + seq![w]);
    }
}

/// No line of `lines_of(s)` holds a line feed.
pub proof fn lemma_lines_free(s: Seq<char>)
    ensures
        forall|j: int| 0 <= j < lines_of(s).len() ==> free_of(#[trigger] lines_of(s)[j], '\n'),
{
    let p = split_on(s, '\n');
    lemma_split_pieces_free(s, '\n', 0);
    lemma_split_from_nonempty(s, '\n', 0);
    let ls = lines_of(s);
    assert forall|j: int| 0 <= j < ls.len() implies free_of(#[trigger] ls[j], '\n') by {
        assert(free_of(p[j], '\n'));
        if j < p.len() - 1 {
            assert(ls[j] == strip_cr(p[j]));
            let l = p[j];
            if l.len() > 0 && l.last() == '\r' {
                assert forall|m: int| 0 <= m < l.drop_last().len() implies l.drop_last()[m] != '\n' by {
                    assert(l.drop_last()[m] == l[m]);
                }
            }
        } else {
            assert(ls[j] == p.last());
        }
    }
}

} // verus!
