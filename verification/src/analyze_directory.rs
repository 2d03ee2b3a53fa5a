//! Relativizing a directory report: every occurrence of an analyzed base
//! path followed by a separator is removed from the formatted text, so the
//! text names files relative to the analyzed root.

use vstd::prelude::*;
use crate::text::{chars_of, has_prefix, occurs_at, string_of};

verus! {

/// A base path as plain values: its text, and whether it is a bare
/// filesystem root (it has a root and no parent).
#[derive(Clone, Debug)]
pub struct BasePath {
    pub text: String,
    pub is_bare_root: bool,
}

/// The separator that is not `sep` (`\` for `/`, `/` otherwise).
pub open spec fn alt_separator(sep: char) -> char {
    if sep == '/' {
        '\\'
    } else {
        '/'
    }
}

/// Length of `s` once trailing `/` and `\` are removed.
pub open spec fn trimmed_len(s: Seq<char>, k: int) -> int
    decreases k,
{
    if 0 < k <= s.len() && (s[k - 1] == '/' || s[k - 1] == '\\') {
        trimmed_len(s, k - 1)
    } else {
        k
    }
}

/// `s` without trailing `/` and `\`.
pub open spec fn trim_separators(s: Seq<char>) -> Seq<char> {
    s.subrange(0, trimmed_len(s, s.len() as int))
}

/// Is the UTF-8 encoding of `s` at most one byte long?
pub open spec fn at_most_one_byte(s: Seq<char>) -> bool {
    s.len() == 0 || (s.len() == 1 && s[0] <= '\u{7f}')
}

/// `s` with `sep` and `alt` swapped.
pub open spec fn swap_separators(s: Seq<char>, sep: char, alt: char) -> Seq<char> {
    s.map_values(
        |c: char|
            if c == sep {
                alt
            } else if c == alt {
                sep
            } else {
                c
            },
    )
}

/// `ps` with `p` appended unless it is already there.
pub open spec fn push_unique(ps: Seq<Seq<char>>, p: Seq<char>) -> Seq<Seq<char>> {
    if ps.contains(p) {
        ps
    } else {
        ps.push(p)
    }
}

/// The prefixes contributed by the bases, in order: for each base that is
/// not a bare root and trims to more than one byte, the trimmed base
/// followed by `sep`, then (when the separators differ) the base with
/// separators swapped followed by the other separator; duplicates are left
/// out.
pub open spec fn base_prefixes(bases: Seq<(Seq<char>, bool)>, sep: char) -> Seq<Seq<char>>
    decreases bases.len(),
{
    if bases.len() == 0 {
        seq![]
    } else {
        let ps = base_prefixes(bases.drop_last(), sep);
        let (text, bare_root) = bases.last();
        let trimmed = trim_separators(text);
        if at_most_one_byte(trimmed) || bare_root {
            ps
        } else {
            let alt = alt_separator(sep);
            let ps1 = push_unique(ps, trimmed.push(sep));
            if alt != sep {
                push_unique(ps1, swap_separators(trimmed, sep, alt).push(alt))
            } else {
                ps1
            }
        }
    }
}

/// The first prefix (a non-empty one) that occurs in `t` at `k`.
pub open spec fn first_prefix_at(t: Seq<char>, ps: Seq<Seq<char>>, k: int, i: int) -> Option<int>
    decreases ps.len() - i,
{
    if i < 0 || i >= ps.len() {
        None
    } else if ps[i].len() > 0 && occurs_at(t, ps[i], k) {
        Some(i)
    } else {
        first_prefix_at(t, ps, k, i + 1)
    }
}

pub proof fn lemma_first_prefix_at(t: Seq<char>, ps: Seq<Seq<char>>, k: int, i: int)
    requires
        0 <= i,
    ensures
        first_prefix_at(t, ps, k, i) matches Some(j) ==> i <= j < ps.len() && ps[j].len() > 0
            && occurs_at(t, ps[j], k),
    decreases ps.len() - i,
{
    if i < ps.len() && !(ps[i].len() > 0 && occurs_at(t, ps[i], k)) {
        lemma_first_prefix_at(t, ps, k, i + 1);
    }
}

/// The text from position `k` on with every prefix occurrence removed,
/// scanning left to right: where a prefix starts, it is skipped; otherwise
/// one character is kept.
pub open spec fn strip_prefixes_from(t: Seq<char>, ps: Seq<Seq<char>>, k: int) -> Seq<char>
    decreases t.len() - k,
{
    if k < 0 || k >= t.len() {
        seq![]
    } else {
        match first_prefix_at(t, ps, k, 0) {
            Some(i) => {
                proof {
                    lemma_first_prefix_at(t, ps, k, 0);
                }
                strip_prefixes_from(t, ps, k + ps[i].len())
            },
            None => seq![t[k]] + strip_prefixes_from(t, ps, k + 1),
        }
    }
}

/// The bases as plain values.
pub open spec fn bases_view(bases: Seq<BasePath>) -> Seq<(Seq<char>, bool)> {
    bases.map_values(|b: BasePath| (b.text@, b.is_bare_root))
}

/// Is `p` among the first `n` prefixes?
fn contains_prefix(ps: &Vec<Vec<char>>, p: &Vec<char>) -> (r: bool)
    ensures
        r == crate::text::views(ps@).contains(p@),
{
    let mut i: usize = 0;
    while i < ps.len()
        invariant
            i <= ps@.len(),
            forall|k: int| 0 <= k < i ==> #[trigger] ps@[k]@ != p@,
        decreases ps@.len() - i,
    {
        if crate::text::chars_eq_chars(ps[i].as_slice(), p.as_slice()) {
            assert(crate::text::views(ps@)[i as int] == p@);
            return true;
        }
        i = i + 1;
    }
    assert forall|k: int| 0 <= k < crate::text::views(ps@).len() implies crate::text::views(
        ps@,
    )[k] != p@ by {
        assert(ps@[k]@ != p@);
    }
    false
}

fn push_unique_prefix(ps: &mut Vec<Vec<char>>, p: Vec<char>)
    ensures
        crate::text::views(final(ps)@) == push_unique(crate::text::views(old(ps)@), p@),
{
    if !contains_prefix(ps, &p) {
        let ghost before = crate::text::views(ps@);
        let ghost pv = p@;
        ps.push(p);
        assert(crate::text::views(ps@) =~= before.push(pv));
    }
}

/// The prefixes the bases contribute (see `base_prefixes`).
pub fn build_prefixes(bases: &[BasePath], sep: char) -> (r: Vec<Vec<char>>)
    ensures
        crate::text::views(r@) == base_prefixes(bases_view(bases@), sep),
{
    let alt = if sep == '/' {
        '\\'
    } else {
        '/'
    };
    let mut ps: Vec<Vec<char>> = Vec::new();
    let mut i: usize = 0;
    while i < bases.len()
        invariant
            i <= bases@.len(),
            alt == alt_separator(sep),
            crate::text::views(ps@) == base_prefixes(bases_view(bases@).subrange(0, i as int), sep),
        decreases bases@.len() - i,
    {
        let ghost cur = bases_view(bases@).subrange(0, i + 1);
        assert(cur.drop_last() =~= bases_view(bases@).subrange(0, i as int));
        assert(cur.last() == (bases@[i as int].text@, bases@[i as int].is_bare_root));
        let text = chars_of(bases[i].text.as_str());
        let mut end = text.len();
        while end > 0 && (text[end - 1] == '/' || text[end - 1] == '\\')
            invariant
                end <= text@.len(),
                trimmed_len(text@, end as int) == trimmed_len(text@, text@.len() as int),
            decreases end,
        {
            end = end - 1;
        }
        assert(trimmed_len(text@, end as int) == end);
        let trimmed = crate::text::slice_chars(text.as_slice(), 0, end);
        assert(trimmed@ == trim_separators(bases@[i as int].text@));
        let short = end == 0 || (end == 1 && trimmed[0] <= '\u{7f}');
        assert(short == at_most_one_byte(trimmed@));
        if !(short || bases[i].is_bare_root) {
            let mut p1 = trimmed.clone();
            assert(p1@ == trimmed@);
            p1.push(sep);
            push_unique_prefix(&mut ps, p1);
            if alt != sep {
                let mut swapped: Vec<char> = Vec::new();
                let mut j: usize = 0;
                while j < trimmed.len()
                    invariant
                        j <= trimmed@.len(),
                        swapped@ == swap_separators(trimmed@, sep, alt).subrange(0, j as int),
                    decreases trimmed@.len() - j,
                {
                    let c = trimmed[j];
                    let d = if c == sep {
                        alt
                    } else if c == alt {
                        sep
                    } else {
                        c
                    };
                    swapped.push(d);
                    j = j + 1;
                    assert(swapped@ =~= swap_separators(trimmed@, sep, alt).subrange(0, j as int));
                }
                assert(swapped@ =~= swap_separators(trimmed@, sep, alt));
                swapped.push(alt);
                push_unique_prefix(&mut ps, swapped);
            }
        }
        i = i + 1;
    }
    assert(bases_view(bases@).subrange(0, bases@.len() as int) =~= bases_view(bases@));
    ps
}

/// Does `ps[i]` (non-empty) occur in `t` at `k`?
fn prefix_at(t: &[char], p: &[char], k: usize) -> (r: bool)
    requires
        k <= t@.len(),
    ensures
        r == (p@.len() > 0 && occurs_at(t@, p@, k as int)),
{
    if p.len() == 0 || p.len() > t.len() - k {
        return false;
    }
    let n = t.len();
    let mut m: usize = 0;
    while m < p.len()
        invariant
            n == t@.len(),
            k + p@.len() <= t@.len(),
            m <= p@.len(),
            forall|x: int| 0 <= x < m ==> #[trigger] t@[k + x] == p@[x],
        decreases p@.len() - m,
    {
        if t[k + m] != p[m] {
            assert(t@.subrange(k as int, k + p@.len())[m as int] != p@[m as int]);
            return false;
        }
        m = m + 1;
    }
    assert forall|x: int| 0 <= x < p@.len() implies t@.subrange(k as int, k + p@.len())[x]
        == p@[x] by {
        assert(t@[k + x] == p@[x]);
    }
    assert(t@.subrange(k as int, k + p@.len()) =~= p@);
    true
}

/// Removes from `formatted` every occurrence of a base path (see
/// `base_prefixes`) followed by a separator, scanning once from left to
/// right; paths outside the bases are left as they are.
pub fn relativize_formatted_text(formatted: &mut String, bases: &[BasePath], sep: char)
    ensures
        final(formatted)@ == strip_prefixes_from(
            old(formatted)@,
            base_prefixes(bases_view(bases@), sep),
            0,
        ),
{
    let ps = build_prefixes(bases, sep);
    let ghost psv = crate::text::views(ps@);
    let t = chars_of(formatted.as_str());
    let ghost tv = t@;
    let mut out: Vec<char> = Vec::new();
    let mut k: usize = 0;
    while k < t.len()
        invariant
            k <= t@.len(),
            tv == t@,
            psv == crate::text::views(ps@),
            out@ + strip_prefixes_from(tv, psv, k as int) == strip_prefixes_from(tv, psv, 0),
        decreases t@.len() - k,
    {
        let mut i: usize = 0;
        let mut hit: Option<usize> = None;
        while hit.is_none() && i < ps.len()
            invariant
                i <= ps@.len(),
                k < t@.len(),
                tv == t@,
                psv == crate::text::views(ps@),
                hit is None ==> first_prefix_at(tv, psv, k as int, 0) == first_prefix_at(
                    tv,
                    psv,
                    k as int,
                    i as int,
                ),
                hit matches Some(j) ==> j < ps@.len() && first_prefix_at(tv, psv, k as int, 0)
                    == Some(j as int),
            decreases ps@.len() - i + (if hit is None {
                1int
            } else {
                0int
            }),
        {
            assert(psv[i as int] == ps@[i as int]@);
            if prefix_at(t.as_slice(), ps[i].as_slice(), k) {
                hit = Some(i);
            } else {
                i = i + 1;
            }
        }
        proof {
            lemma_first_prefix_at(tv, psv, k as int, 0);
        }
        match hit {
            Some(j) => {
                assert(first_prefix_at(tv, psv, k as int, 0) == Some(j as int));
                assert(psv[j as int] == ps@[j as int]@);
                k = k + ps[j].len();
            },
            None => {
                let ghost before = out@;
                out.push(t[k]);
                assert(out@ =~= before + seq![tv[k as int]]);
                k = k + 1;
            },
        }
    }
    assert(strip_prefixes_from(tv, psv, k as int) =~= Seq::<char>::empty());
    assert(out@ =~= strip_prefixes_from(tv, psv, 0));
    *formatted = string_of(out.as_slice());
}

/// Removing base prefixes never makes the text longer.
pub proof fn law_relativize_never_lengthens(t: Seq<char>, ps: Seq<Seq<char>>, k: int)
    requires
        0 <= k <= t.len(),
    ensures
        strip_prefixes_from(t, ps, k).len() <= t.len() - k,
    decreases t.len() - k,
{
    if k < t.len() {
        lemma_first_prefix_at(t, ps, k, 0);
        match first_prefix_at(t, ps, k, 0) {
            Some(i) => {
                law_relativize_never_lengthens(t, ps, k + ps[i].len());
            },
            None => {
                law_relativize_never_lengthens(t, ps, k + 1);
            },
        }
    }
}

proof fn lemma_no_prefix_found(t: Seq<char>, ps: Seq<Seq<char>>, k: int, i: int)
    requires
        0 <= i,
        forall|j: int, x: int| 0 <= j < ps.len() && ps[j].len() > 0 ==> !#[trigger] occurs_at(t, ps[j], x),
    ensures
        first_prefix_at(t, ps, k, i) is None,
    decreases ps.len() - i,
{
    if i < ps.len() {
        lemma_no_prefix_found(t, ps, k, i + 1);
    }
}

/// Text in which no base prefix occurs is left exactly as it is.
pub proof fn law_relativize_keeps_unrelated_text(t: Seq<char>, ps: Seq<Seq<char>>, k: int)
    requires
        0 <= k <= t.len(),
        forall|j: int, x: int| 0 <= j < ps.len() && ps[j].len() > 0 ==> !#[trigger] occurs_at(t, ps[j], x),
    ensures
        strip_prefixes_from(t, ps, k) == t.subrange(k, t.len() as int),
    decreases t.len() - k,
{
    if k < t.len() {
        lemma_no_prefix_found(t, ps, k, 0);
        law_relativize_keeps_unrelated_text(t, ps, k + 1);
        assert(seq![t[k]] + t.subrange(k + 1, t.len() as int) =~= t.subrange(k, t.len() as int));
    } else {
        assert(t.subrange(k, t.len() as int) =~= Seq::<char>::empty());
    }
}

} // verus!
