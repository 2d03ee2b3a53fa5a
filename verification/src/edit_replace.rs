//! The `edit_replace` failure handling: a per-session circuit breaker that
//! turns repeated not-found or ambiguous edits on one file into a
//! stale-context directive, and the diagnostic messages of each failure.

use vstd::prelude::*;
use crate::text::{
    chars_eq, chars_of, decimal, join_with, lines_chars, lines_of, push_all, push_decimal,
    push_str, string_of, views,
};

verus! {

/// Consecutive not-found or ambiguous failures on one `(session, path)`
/// pair before the stale-context directive is returned.
pub const EDIT_STALE_THRESHOLD: u8 = 5;

/// Pairs the failure counter keeps before it is cleared entirely.
pub const EDIT_FAILURE_MAP_CAP: usize = 1024;

/// A `(session id, canonical path)` pair as plain values.
pub type PairView = (Seq<char>, Seq<char>);

/// Consecutive edit failures per `(session id, canonical path)` pair.
pub struct FailureCounts {
    entries: Vec<(String, String, u8)>,
}

/// The counts of `entries` keyed by pair.
pub open spec fn counts_map(entries: Seq<(String, String, u8)>) -> Map<PairView, u8>
    decreases entries.len(),
{
    if entries.len() == 0 {
        Map::empty()
    } else {
        let e = entries.last();
        counts_map(entries.drop_last()).insert((e.0@, e.1@), e.2)
    }
}

/// The pair of an entry.
pub open spec fn pair_of(e: (String, String, u8)) -> PairView {
    (e.0@, e.1@)
}

/// No pair occurs twice.
pub open spec fn distinct_pairs(entries: Seq<(String, String, u8)>) -> bool {
    forall|i: int, j: int|
        0 <= i < j < entries.len() ==> pair_of(#[trigger] entries[i]) != pair_of(#[trigger] entries[j])
}

proof fn lemma_distinct_pairs_drop_last(entries: Seq<(String, String, u8)>)
    requires
        distinct_pairs(entries),
        entries.len() > 0,
    ensures
        distinct_pairs(entries.drop_last()),
{
    let p = entries.drop_last();
    assert forall|i: int, j: int| 0 <= i < j < p.len() implies pair_of(#[trigger] p[i]) != pair_of(
        #[trigger] p[j],
    ) by {
        assert(p[i] == entries[i]);
        assert(p[j] == entries[j]);
    }
}

proof fn lemma_counts_map_get(entries: Seq<(String, String, u8)>, k: int)
    requires
        distinct_pairs(entries),
        0 <= k < entries.len(),
    ensures
        counts_map(entries).contains_key(pair_of(entries[k])),
        counts_map(entries)[pair_of(entries[k])] == entries[k].2,
    decreases entries.len(),
{
    let last = entries.len() - 1;
    if k < last {
        lemma_distinct_pairs_drop_last(entries);
        assert(entries.drop_last()[k] == entries[k]);
        lemma_counts_map_get(entries.drop_last(), k);
        assert(pair_of(entries[k]) != pair_of(entries[last]));
    }
}

proof fn lemma_counts_map_absent(entries: Seq<(String, String, u8)>, key: PairView)
    requires
        forall|i: int| 0 <= i < entries.len() ==> pair_of(#[trigger] entries[i]) != key,
    ensures
        !counts_map(entries).contains_key(key),
    decreases entries.len(),
{
    if entries.len() > 0 {
        assert forall|i: int| 0 <= i < entries.drop_last().len() implies pair_of(
            #[trigger] entries.drop_last()[i],
        ) != key by {
            assert(entries.drop_last()[i] == entries[i]);
        }
        lemma_counts_map_absent(entries.drop_last(), key);
    }
}

proof fn lemma_counts_map_update(entries: Seq<(String, String, u8)>, k: int, c: u8)
    requires
        distinct_pairs(entries),
        0 <= k < entries.len(),
    ensures
        counts_map(entries.update(k, (entries[k].0, entries[k].1, c))) == counts_map(entries).insert(
            pair_of(entries[k]),
            c,
        ),
    decreases entries.len(),
{
    let upd = entries.update(k, (entries[k].0, entries[k].1, c));
    let last = entries.len() - 1;
    if k == last {
        assert(upd.drop_last() =~= entries.drop_last());
        assert(counts_map(upd) =~= counts_map(entries).insert(pair_of(entries[k]), c));
    } else {
        assert(upd.drop_last() =~= entries.drop_last().update(k, (entries[k].0, entries[k].1, c)));
        lemma_distinct_pairs_drop_last(entries);
        assert(entries.drop_last()[k] == entries[k]);
        lemma_counts_map_update(entries.drop_last(), k, c);
        assert(pair_of(entries[k]) != pair_of(entries[last]));
        assert(counts_map(upd) =~= counts_map(entries).insert(pair_of(entries[k]), c));
    }
}

proof fn lemma_counts_map_remove(entries: Seq<(String, String, u8)>, k: int)
    requires
        distinct_pairs(entries),
        0 <= k < entries.len(),
    ensures
        counts_map(entries.remove(k)) == counts_map(entries).remove(pair_of(entries[k])),
        distinct_pairs(entries.remove(k)),
    decreases entries.len(),
{
    let rem = entries.remove(k);
    let last = entries.len() - 1;
    assert(distinct_pairs(rem)) by {
        assert forall|i: int, j: int| 0 <= i < j < rem.len() implies pair_of(#[trigger] rem[i])
            != pair_of(#[trigger] rem[j]) by {
            let ii = if i < k {
                i
            } else {
                i + 1
            };
            let jj = if j < k {
                j
            } else {
                j + 1
            };
            assert(rem[i] == entries[ii]);
            assert(rem[j] == entries[jj]);
        }
    }
    if k == last {
        assert(rem =~= entries.drop_last());
        assert forall|i: int| 0 <= i < entries.drop_last().len() implies pair_of(
            #[trigger] entries.drop_last()[i],
        ) != pair_of(entries[k]) by {
            assert(entries.drop_last()[i] == entries[i]);
        }
        lemma_counts_map_absent(entries.drop_last(), pair_of(entries[k]));
        assert(counts_map(rem) =~= counts_map(entries).remove(pair_of(entries[k])));
    } else {
        assert(rem.drop_last() =~= entries.drop_last().remove(k));
        assert(rem.last() == entries.last());
        lemma_distinct_pairs_drop_last(entries);
        assert(entries.drop_last()[k] == entries[k]);
        lemma_counts_map_remove(entries.drop_last(), k);
        assert(pair_of(entries[k]) != pair_of(entries[last]));
        assert(counts_map(rem) =~= counts_map(entries).remove(pair_of(entries[k])));
    }
}

/// The count after one more failure (saturating at 255).
pub open spec fn next_count(c: u8) -> u8 {
    if c == 255 {
        255
    } else {
        (c + 1) as u8
    }
}

/// The counts after a failure on `key`, when the counter held `size` pairs:
/// a full counter is cleared first.
pub open spec fn counts_after_failure(m: Map<PairView, u8>, size: nat, key: PairView) -> Map<
    PairView,
    u8,
> {
    let base = if size >= EDIT_FAILURE_MAP_CAP {
        Map::<PairView, u8>::empty()
    } else {
        m
    };
    base.insert(key, next_count(if base.contains_key(key) { base[key] } else { 0 }))
}

/// The number of pairs after a failure on `key`.
pub open spec fn size_after_failure(m: Map<PairView, u8>, size: nat, key: PairView) -> nat {
    if size >= EDIT_FAILURE_MAP_CAP {
        1
    } else if m.contains_key(key) {
        size
    } else {
        size + 1
    }
}

/// The number of pairs after `key` is forgotten, when `size` pairs were
/// held.
pub open spec fn size_after_remove(m: Map<PairView, u8>, size: nat, key: PairView) -> nat {
    if m.contains_key(key) {
        (size - 1) as nat
    } else {
        size
    }
}

impl FailureCounts {
    /// The counts, keyed by `(session id, canonical path)`.
    pub closed spec fn counts(&self) -> Map<PairView, u8> {
        counts_map(self.entries@)
    }

    /// The number of pairs held.
    pub closed spec fn size(&self) -> nat {
        self.entries@.len()
    }

    /// Pairs are distinct.
    pub closed spec fn wf(&self) -> bool {
        distinct_pairs(self.entries@)
    }

    /// An empty counter.
    pub fn new() -> (r: Self)
        ensures
            r.wf(),
            r.counts() == Map::<PairView, u8>::empty(),
            r.size() == 0,
    {
        FailureCounts { entries: Vec::new() }
    }

    /// The number of pairs held.
    pub fn len(&self) -> (r: usize)
        ensures
            r == self.size(),
    {
        self.entries.len()
    }

    /// Position of the pair `(sid, path)`, if held.
    fn find(&self, sid: &str, path: &str) -> (r: Option<usize>)
        requires
            self.wf(),
        ensures
            match r {
                Some(k) => k < self.entries@.len() && pair_of(self.entries@[k as int]) == (sid@, path@),
                None => forall|i: int|
                    0 <= i < self.entries@.len() ==> pair_of(#[trigger] self.entries@[i]) != (sid@, path@),
            },
    {
        let sv = chars_of(sid);
        let pv = chars_of(path);
        let mut i: usize = 0;
        while i < self.entries.len()
            invariant
                i <= self.entries@.len(),
                sv@ == sid@,
                pv@ == path@,
                forall|k: int| 0 <= k < i ==> pair_of(#[trigger] self.entries@[k]) != (sid@, path@),
            decreases self.entries@.len() - i,
        {
            if chars_eq(sv.as_slice(), self.entries[i].0.as_str()) && chars_eq(
                pv.as_slice(),
                self.entries[i].1.as_str(),
            ) {
                return Some(i);
            }
            i = i + 1;
        }
        None
    }

    /// Sets the count of `(sid, path)`.
    pub fn set(&mut self, sid: &str, path: &str, count: u8)
        requires
            old(self).wf(),
        ensures
            final(self).wf(),
            final(self).counts() == old(self).counts().insert((sid@, path@), count),
            final(self).size() == (if old(self).counts().contains_key((sid@, path@)) {
                old(self).size()
            } else {
                old(self).size() + 1
            }),
    {
        let ghost old_entries = self.entries@;
        match self.find(sid, path) {
            Some(k) => {
                proof {
                    lemma_counts_map_get(old_entries, k as int);
                    lemma_counts_map_update(old_entries, k as int, count);
                }
                let s = self.entries[k].0.clone();
                let p = self.entries[k].1.clone();
                self.entries.set(k, (s, p, count));
                assert(self.entries@ =~= old_entries.update(
                    k as int,
                    (old_entries[k as int].0, old_entries[k as int].1, count),
                ));
                assert(distinct_pairs(self.entries@)) by {
                    assert forall|a: int, b: int| 0 <= a < b < self.entries@.len() implies pair_of(
                        #[trigger] self.entries@[a],
                    ) != pair_of(#[trigger] self.entries@[b]) by {
                        assert(pair_of(old_entries[a]) != pair_of(old_entries[b]));
                    }
                }
            },
            None => {
                proof {
                    lemma_counts_map_absent(old_entries, (sid@, path@));
                }
                self.entries.push((sid.to_owned(), path.to_owned(), count));
                assert(self.entries@.drop_last() =~= old_entries);
                assert(distinct_pairs(self.entries@)) by {
                    assert forall|a: int, b: int| 0 <= a < b < self.entries@.len() implies pair_of(
                        #[trigger] self.entries@[a],
                    ) != pair_of(#[trigger] self.entries@[b]) by {
                        if b < old_entries.len() {
                            assert(pair_of(old_entries[a]) != pair_of(old_entries[b]));
                        } else {
                            assert(pair_of(old_entries[a]) != (sid@, path@));
                        }
                    }
                }
            },
        }
    }

    /// The count of `(sid, path)` (0 when absent).
    pub fn get(&self, sid: &str, path: &str) -> (r: u8)
        requires
            self.wf(),
        ensures
            r == (if self.counts().contains_key((sid@, path@)) {
                self.counts()[(sid@, path@)]
            } else {
                0
            }),
    {
        match self.find(sid, path) {
            Some(k) => {
                proof {
                    lemma_counts_map_get(self.entries@, k as int);
                }
                self.entries[k].2
            },
            None => {
                proof {
                    lemma_counts_map_absent(self.entries@, (sid@, path@));
                }
                0
            },
        }
    }

    /// Forgets the pair `(sid, path)`.
    pub fn remove(&mut self, sid: &str, path: &str)
        requires
            old(self).wf(),
        ensures
            final(self).wf(),
            final(self).counts() == old(self).counts().remove((sid@, path@)),
            final(self).size() == size_after_remove(old(self).counts(), old(self).size(), (sid@, path@)),
    {
        let ghost old_entries = self.entries@;
        match self.find(sid, path) {
            Some(k) => {
                proof {
                    lemma_counts_map_remove(old_entries, k as int);
                    lemma_counts_map_get(old_entries, k as int);
                }
                self.entries.remove(k);
            },
            None => {
                proof {
                    lemma_counts_map_absent(old_entries, (sid@, path@));
                }
                assert(counts_map(old_entries) =~= counts_map(old_entries).remove((sid@, path@)));
            },
        }
    }

    /// Forgets every pair.
    pub fn clear(&mut self)
        ensures
            final(self).wf(),
            final(self).counts() == Map::<PairView, u8>::empty(),
            final(self).size() == 0,
    {
        self.entries = Vec::new();
    }
}

/// The circuit breaker of one session: counts consecutive failures per
/// path and trips at `EDIT_STALE_THRESHOLD`.
pub struct StaleContextGuard {
    sid: String,
}

impl StaleContextGuard {
    /// The session id the guard counts under.
    pub closed spec fn session(&self) -> Seq<char> {
        self.sid@
    }

    /// A guard for the session `sid` (the empty id when there is none).
    pub fn new(sid: Option<String>) -> (r: Self)
        ensures
            r.session() == (match sid {
                Some(s) => s@,
                None => Seq::<char>::empty(),
            }),
    {
        match sid {
            Some(s) => StaleContextGuard { sid: s },
            None => StaleContextGuard { sid: String::new() },
        }
    }

    /// Counts a failure on `canonical` (clearing the counter first when it
    /// holds `EDIT_FAILURE_MAP_CAP` pairs); returns whether the count has
    /// reached `EDIT_STALE_THRESHOLD`.
    pub fn increment(&mut self, counts: &mut FailureCounts, canonical: &str) -> (r: bool)
        requires
            old(counts).wf(),
        ensures
            *final(self) == *old(self),
            final(counts).wf(),
            final(counts).counts() == counts_after_failure(
                old(counts).counts(),
                old(counts).size(),
                (old(self).session(), canonical@),
            ),
            final(counts).size() == size_after_failure(
                old(counts).counts(),
                old(counts).size(),
                (old(self).session(), canonical@),
            ),
            r == (final(counts).counts()[(old(self).session(), canonical@)] >= EDIT_STALE_THRESHOLD),
    {
        if counts.len() >= EDIT_FAILURE_MAP_CAP {
            counts.clear();
        }
        let c = counts.get(self.sid.as_str(), canonical);
        let n = c.saturating_add(1);
        counts.set(self.sid.as_str(), canonical, n);
        n >= EDIT_STALE_THRESHOLD
    }

    /// Forgets the failures on `canonical` after a successful edit.
    pub fn reset(&mut self, counts: &mut FailureCounts, canonical: &str)
        requires
            old(counts).wf(),
        ensures
            *final(self) == *old(self),
            final(counts).wf(),
            final(counts).counts() == old(counts).counts().remove((old(self).session(), canonical@)),
            final(counts).size() == size_after_remove(
                old(counts).counts(),
                old(counts).size(),
                (old(self).session(), canonical@),
            ),
    {
        counts.remove(self.sid.as_str(), canonical);
    }
}

/// The counts and size after `n` failures on `key`, starting from `m` with
/// `size` pairs.
pub open spec fn after_failures(m: Map<PairView, u8>, size: nat, key: PairView, n: nat) -> (
    Map<PairView, u8>,
    nat,
)
    decreases n,
{
    if n == 0 {
        (m, size)
    } else {
        let (m1, s1) = after_failures(m, size, key, (n - 1) as nat);
        (counts_after_failure(m1, s1, key), size_after_failure(m1, s1, key))
    }
}

/// Starting from a pair with no failures in a counter with room to spare
/// (fewer than `EDIT_FAILURE_MAP_CAP - 1` pairs), the `n`-th consecutive
/// failure leaves the count at `n`: the guard stays open for the first
/// `EDIT_STALE_THRESHOLD - 1` failures and trips on the next one.
pub proof fn law_guard_trips_at_threshold(m: Map<PairView, u8>, size: nat, key: PairView, n: nat)
    requires
        !m.contains_key(key),
        size + 1 < EDIT_FAILURE_MAP_CAP,
        1 <= n <= 255,
    ensures
        after_failures(m, size, key, n).0.contains_key(key),
        after_failures(m, size, key, n).0[key] == n,
        after_failures(m, size, key, n).1 == size + 1,
        (after_failures(m, size, key, n).0[key] >= EDIT_STALE_THRESHOLD) <==> n
            >= EDIT_STALE_THRESHOLD,
    decreases n,
{
    let prev = after_failures(m, size, key, (n - 1) as nat);
    if n > 1 {
        law_guard_trips_at_threshold(m, size, key, (n - 1) as nat);
        assert(prev.1 < EDIT_FAILURE_MAP_CAP);
        assert(next_count(prev.0[key]) == n);
    } else {
        assert(prev == (m, size));
    }
    assert(after_failures(m, size, key, n) == (
        counts_after_failure(prev.0, prev.1, key),
        size_after_failure(prev.0, prev.1, key),
    ));
}

/// The failure counter never holds more than `EDIT_FAILURE_MAP_CAP` pairs:
/// a failure recorded when it is full first clears it.
pub proof fn law_failure_counts_bounded(m: Map<PairView, u8>, size: nat, key: PairView)
    requires
        size <= EDIT_FAILURE_MAP_CAP,
    ensures
        size_after_failure(m, size, key) <= EDIT_FAILURE_MAP_CAP,
{
}

/// A reset forgets the pair, so the next failure counts from one again.
pub proof fn law_reset_restarts_count(m: Map<PairView, u8>, size: nat, key: PairView)
    ensures
        counts_after_failure(m.remove(key), size, key)[key] == 1,
{
}

/// From a full counter, failures on `key` go as from an empty one: the
/// first failure clears the counter.
proof fn lemma_full_counter_restarts(m: Map<PairView, u8>, size: nat, key: PairView, n: nat)
    requires
        size >= EDIT_FAILURE_MAP_CAP,
        n >= 1,
    ensures
        after_failures(m, size, key, n) == after_failures(Map::<PairView, u8>::empty(), 0, key, n),
    decreases n,
{
    if n == 1 {
        assert(after_failures(m, size, key, 0) == (m, size));
        assert(after_failures(Map::<PairView, u8>::empty(), 0, key, 0) == (
            Map::<PairView, u8>::empty(),
            0nat,
        ));
        assert(counts_after_failure(m, size, key) =~= counts_after_failure(
            Map::<PairView, u8>::empty(),
            0,
            key,
        ));
    } else {
        lemma_full_counter_restarts(m, size, key, (n - 1) as nat);
    }
}

/// After a reset of `key`, the `n`-th failure on `key` leaves its count at
/// `n`: the next `EDIT_STALE_THRESHOLD - 1` failures leave the guard open
/// and the one after trips it. The one state where this fails, here as in
/// the server it comes from, is a counter left with exactly
/// `EDIT_FAILURE_MAP_CAP - 1` pairs: the first failure fills it and the
/// second clears it.
pub proof fn law_reset_then_trips_at_threshold(m: Map<PairView, u8>, size: nat, key: PairView, n: nat)
    requires
        size_after_remove(m, size, key) != EDIT_FAILURE_MAP_CAP - 1,
        1 <= n <= 255,
    ensures
        after_failures(m.remove(key), size_after_remove(m, size, key), key, n).0[key] == n,
        (after_failures(m.remove(key), size_after_remove(m, size, key), key, n).0[key]
            >= EDIT_STALE_THRESHOLD) <==> n >= EDIT_STALE_THRESHOLD,
{
    let s2 = size_after_remove(m, size, key);
    if s2 >= EDIT_FAILURE_MAP_CAP {
        lemma_full_counter_restarts(m.remove(key), s2, key, n);
        law_guard_trips_at_threshold(Map::<PairView, u8>::empty(), 0, key, n);
    } else {
        law_guard_trips_at_threshold(m.remove(key), s2, key, n);
    }
}

// ---------------------------------------------------------------------------
// Messages
// ---------------------------------------------------------------------------

/// The directive returned when the guard trips.
pub open spec fn stale_context_text(threshold: u8, path: Seq<char>) -> Seq<char> {
    "EDIT_STALE_CONTEXT: "@ + decimal(threshold as nat) + " consecutive not_found/ambiguous failures on '"@
        + path
        + "' in this session. The file content has drifted from your context. Call analyze_file or analyze_module on this path first, then retry edit_replace with old_text taken verbatim from that response. Do not retry edit_replace on this path without re-reading first."@
}

/// The stale-context directive for `param_path` after `threshold` failures.
pub fn stale_context_error_msg(threshold: u8, param_path: &str) -> (r: String)
    ensures
        r@ == stale_context_text(threshold, param_path@),
{
    let mut v: Vec<char> = Vec::new();
    push_str(&mut v, "EDIT_STALE_CONTEXT: ");
    push_decimal(&mut v, threshold as u64);
    push_str(&mut v, " consecutive not_found/ambiguous failures on '");
    push_str(&mut v, param_path);
    push_str(
        &mut v,
        "' in this session. The file content has drifted from your context. Call analyze_file or analyze_module on this path first, then retry edit_replace with old_text taken verbatim from that response. Do not retry edit_replace on this path without re-reading first.",
    );
    string_of(v.as_slice())
}

/// Length of the longest common prefix of `a` and `b`.
pub open spec fn common_prefix_len(a: Seq<char>, b: Seq<char>, k: nat) -> nat
    decreases a.len() - k,
{
    if k < a.len() && k < b.len() && a[k as int] == b[k as int] {
        common_prefix_len(a, b, k + 1)
    } else {
        k
    }
}

/// The best match among `lines`: the first line with the longest common
/// prefix with `target` (ties keep the earlier line), as `(line number,
/// line, prefix length)`; `(1, "", 0)` when no line shares a character.
pub open spec fn nearest_line(lines: Seq<Seq<char>>, target: Seq<char>) -> (nat, Seq<char>, nat)
    decreases lines.len(),
{
    if lines.len() == 0 {
        (1, seq![], 0)
    } else {
        let best = nearest_line(lines.drop_last(), target);
        let l = common_prefix_len(lines.last(), target, 0);
        if l > best.2 {
            (lines.len(), lines.last(), l)
        } else {
            best
        }
    }
}

/// The numbered listing of `lines`: `  Line i: <line>` for each, joined by
/// newlines.
pub open spec fn numbered_lines(lines: Seq<Seq<char>>) -> Seq<Seq<char>> {
    Seq::new(lines.len(), |i: int| "  Line "@ + decimal((i + 1) as nat) + ": "@ + lines[i])
}

/// The not-found diagnostic for a file beginning with `first` and an edit
/// whose old text is `old`.
pub open spec fn not_found_text(first: Seq<char>, old: Seq<char>) -> Seq<char> {
    if first.len() == 0 {
        "old_text not found (0 matches). Re-read the file with analyze_file or analyze_module to obtain the current content, then derive old_text from the live file before retrying."@
    } else {
        let old_lines = lines_of(old);
        let target = if old_lines.len() > 0 {
            old_lines[0]
        } else {
            seq![]
        };
        let lines = lines_of(first);
        let (idx, line, lcp) = nearest_line(lines, target);
        "old_text not found (0 matches).\nThe file begins:\n"@ + join_with(numbered_lines(lines), '\n')
            + "\n\nNearest match: line "@ + decimal(idx) + " contains \""@ + line
            + "\" which shares "@ + decimal(lcp)
            + " characters with the start of old_text.\nRe-read the file with analyze_file or analyze_module to obtain the current content, then derive old_text from the live file before retrying."@
    }
}

fn common_prefix(a: &[char], b: &[char]) -> (r: usize)
    ensures
        r == common_prefix_len(a@, b@, 0),
        r <= a@.len(),
{
    let mut k: usize = 0;
    while k < a.len() && k < b.len() && a[k] == b[k]
        invariant
            k <= a@.len(),
            common_prefix_len(a@, b@, k as nat) == common_prefix_len(a@, b@, 0),
        decreases a@.len() - k,
    {
        k = k + 1;
    }
    k
}

/// Builds the not-found diagnostic: the first lines of the file, numbered,
/// and the line that shares the longest prefix with the first line of the
/// old text (a short hint alone when the file is empty).
pub fn build_not_found_message(first_20_lines: &str, old_text_for_hint: &str) -> (r: String)
    ensures
        r@ == not_found_text(first_20_lines@, old_text_for_hint@),
{
    if first_20_lines.is_empty() {
        return "old_text not found (0 matches). Re-read the file with analyze_file or analyze_module to obtain the current content, then derive old_text from the live file before retrying.".to_owned();
    }
    let old_lines = lines_chars(chars_of(old_text_for_hint).as_slice());
    let target: Vec<char> = if old_lines.len() > 0 {
        old_lines[0].clone()
    } else {
        Vec::new()
    };
    assert(views(old_lines@).len() == old_lines@.len());
    proof {
        if old_lines@.len() > 0 {
            assert(views(old_lines@)[0] == old_lines@[0]@);
        }
    }
    let lines = lines_chars(chars_of(first_20_lines).as_slice());
    let ghost lv = views(lines@);
    let mut best_idx: usize = 1;
    let mut best_line: Vec<char> = Vec::new();
    let mut best_lcp: usize = 0;
    let mut listing: Vec<Vec<char>> = Vec::new();
    let mut i: usize = 0;
    while i < lines.len()
        invariant
            i <= lines@.len(),
            lv == views(lines@),
            nearest_line(lv.subrange(0, i as int), target@) == (
                best_idx as nat,
                best_line@,
                best_lcp as nat,
            ),
            best_idx <= i + 1,
            views(listing@) == numbered_lines(lv.subrange(0, i as int)),
        decreases lines@.len() - i,
    {
        let ghost cur = lv.subrange(0, i + 1);
        assert(cur.drop_last() =~= lv.subrange(0, i as int));
        assert(cur.last() == lines@[i as int]@);
        let l = common_prefix(lines[i].as_slice(), target.as_slice());
        if l > best_lcp {
            best_lcp = l;
            best_line = lines[i].clone();
            best_idx = i + 1;
        }
        let mut entry: Vec<char> = Vec::new();
        push_str(&mut entry, "  Line ");
        push_decimal(&mut entry, (i + 1) as u64);
        push_str(&mut entry, ": ");
        push_all(&mut entry, lines[i].as_slice());
        let ghost before = views(listing@);
        listing.push(entry);
        assert(views(listing@) =~= numbered_lines(cur)) by {
            assert(views(listing@) =~= before.push(entry@));
        }
        i = i + 1;
    }
    assert(lv.subrange(0, lines@.len() as int) =~= lv);
    let mut v: Vec<char> = Vec::new();
    push_str(&mut v, "old_text not found (0 matches).\nThe file begins:\n");
    let joined = crate::text::join_chars(&listing, 0, '\n');
    assert(views(listing@).subrange(0, listing@.len() as int) =~= views(listing@));
    push_all(&mut v, joined.as_slice());
    push_str(&mut v, "\n\nNearest match: line ");
    push_decimal(&mut v, best_idx as u64);
    push_str(&mut v, " contains \"");
    push_all(&mut v, best_line.as_slice());
    push_str(&mut v, "\" which shares ");
    push_decimal(&mut v, best_lcp as u64);
    push_str(
        &mut v,
        " characters with the start of old_text.\nRe-read the file with analyze_file or analyze_module to obtain the current content, then derive old_text from the live file before retrying.",
    );
    string_of(v.as_slice())
}

// ---------------------------------------------------------------------------
// Failure reports
// ---------------------------------------------------------------------------

/// Why an edit failed, as plain values.
#[derive(Clone, Debug)]
pub enum EditFailure {
    /// `old_text` does not occur; the file begins with `first_20_lines`.
    NotFound { path: String, first_20_lines: String },
    /// `old_text` occurs `count` times, on `match_lines`.
    Ambiguous { count: usize, path: String, match_lines: Vec<usize> },
    /// The path is a directory.
    NotAFile,
    /// Reading or writing the file failed, with the error's kind (as
    /// `Debug` shows it) and its text.
    Io { kind: String, source: String },
    /// Any other failure, with its message.
    Other { message: String },
}

/// The detail of an I/O failure that goes into the response metadata: the
/// path as given, the error's kind and its text.
#[derive(Clone, Debug, PartialEq, Eq)]
pub struct IoErrorDetail {
    pub path: String,
    pub kind: String,
    pub source: String,
}

/// What is reported of a failed edit.
#[derive(Clone, Debug)]
pub struct EditErrorReport {
    /// The message returned to the caller.
    pub message: String,
    /// Whether the failure is an internal error (otherwise invalid params).
    pub internal: bool,
    /// The metric error type.
    pub error_type: &'static str,
    /// The metric error subtype, if any.
    pub error_subtype: Option<&'static str>,
    /// The error category of the response metadata.
    pub category: &'static str,
    /// The suggested action of the response metadata.
    pub suggested_action: &'static str,
    /// The detail of an I/O failure, for the response metadata.
    pub io_detail: Option<IoErrorDetail>,
    /// The failing file of a not-found or ambiguous edit, for the response
    /// metadata.
    pub failing_path: Option<String>,
}

/// The occurrence lines as `a, b, c`.
pub open spec fn lines_csv(lines: Seq<usize>) -> Seq<char>
    decreases lines.len(),
{
    if lines.len() == 0 {
        seq![]
    } else if lines.len() == 1 {
        decimal(lines[0] as nat)
    } else {
        lines_csv(lines.drop_last()) + ", "@ + decimal(lines.last() as nat)
    }
}

/// The ambiguity diagnostic.
pub open spec fn ambiguous_text(count: usize, lines: Seq<usize>) -> Seq<char> {
    "old_text matched "@ + decimal(count as nat) + " locations.\nOccurrences at lines: "@ + lines_csv(
        lines,
    )
        + "\nExtend old_text with more surrounding context to make it unique, or re-read with analyze_file to confirm the exact text."@
}

fn ambiguous_message(count: usize, lines: &Vec<usize>) -> (r: String)
    ensures
        r@ == ambiguous_text(count, lines@),
{
    let mut csv: Vec<char> = Vec::new();
    let mut i: usize = 0;
    while i < lines.len()
        invariant
            i <= lines@.len(),
            csv@ == lines_csv(lines@.subrange(0, i as int)),
        decreases lines@.len() - i,
    {
        let ghost cur = lines@.subrange(0, i + 1);
        assert(cur.drop_last() =~= lines@.subrange(0, i as int));
        if i > 0 {
            push_str(&mut csv, ", ");
        }
        push_decimal(&mut csv, lines[i] as u64);
        assert(csv@ =~= lines_csv(cur));
        i = i + 1;
    }
    assert(lines@.subrange(0, lines@.len() as int) =~= lines@);
    let mut v: Vec<char> = Vec::new();
    push_str(&mut v, "old_text matched ");
    push_decimal(&mut v, count as u64);
    push_str(&mut v, " locations.\nOccurrences at lines: ");
    push_all(&mut v, csv.as_slice());
    push_str(
        &mut v,
        "\nExtend old_text with more surrounding context to make it unique, or re-read with analyze_file to confirm the exact text.",
    );
    string_of(v.as_slice())
}

/// The failure report when the guard trips on `param_path`.
pub open spec fn stale_report_ok(r: EditErrorReport, param_path: Seq<char>) -> bool {
    &&& r.message@ == stale_context_text(EDIT_STALE_THRESHOLD, param_path)
    &&& !r.internal
    &&& r.error_type@ == "invalid_params"@
    &&& r.error_subtype matches Some(s) && s@ == "stale_context"@
    &&& r.category@ == "validation"@
    &&& r.suggested_action@
        == "re-read the file with analyze_file or analyze_module, then retry with old_text from the live content"@
    &&& r.failing_path is None
}

/// Builds the report of a failed edit. Not-found and ambiguous failures
/// count against the failing path in the session's guard; when the guard
/// trips, the stale-context directive replaces the diagnostic.
pub fn edit_error_report(
    failure: &EditFailure,
    guard: &mut StaleContextGuard,
    counts: &mut FailureCounts,
    param_path: &str,
    old_text_for_hint: &str,
) -> (r: EditErrorReport)
    requires
        old(counts).wf(),
    ensures
        *final(guard) == *old(guard),
        final(counts).wf(),
        !(*failure is Io) ==> r.io_detail is None,
        !(*failure is NotFound || *failure is Ambiguous) ==> r.failing_path is None,
        match failure {
            EditFailure::NotFound { path, first_20_lines } => {
                let tripped = counts_after_failure(
                    old(counts).counts(),
                    old(counts).size(),
                    (old(guard).session(), path@),
                )[(old(guard).session(), path@)] >= EDIT_STALE_THRESHOLD;
                &&& final(counts).counts() == counts_after_failure(
                    old(counts).counts(),
                    old(counts).size(),
                    (old(guard).session(), path@),
                )
                &&& tripped ==> stale_report_ok(r, param_path@)
                &&& !tripped ==> {
                    &&& r.message@ == not_found_text(first_20_lines@, old_text_for_hint@)
                    &&& !r.internal
                    &&& r.error_type@ == "invalid_params"@
                    &&& r.error_subtype matches Some(s) && s@ == "not_found"@
                    &&& r.category@ == "validation"@
                    &&& r.suggested_action@
                        == "re-read the file with analyze_file or analyze_module, then derive old_text from the live content"@
                    &&& r.failing_path matches Some(fp) && fp@ == path@
                }
            },
            EditFailure::Ambiguous { count, path, match_lines } => {
                let tripped = counts_after_failure(
                    old(counts).counts(),
                    old(counts).size(),
                    (old(guard).session(), path@),
                )[(old(guard).session(), path@)] >= EDIT_STALE_THRESHOLD;
                &&& final(counts).counts() == counts_after_failure(
                    old(counts).counts(),
                    old(counts).size(),
                    (old(guard).session(), path@),
                )
                &&& tripped ==> stale_report_ok(r, param_path@)
                &&& !tripped ==> {
                    &&& r.message@ == ambiguous_text(*count, match_lines@)
                    &&& !r.internal
                    &&& r.error_type@ == "invalid_params"@
                    &&& r.error_subtype matches Some(s) && s@ == "ambiguous"@
                    &&& r.category@ == "validation"@
                    &&& r.suggested_action@
                        == "extend old_text with more surrounding context, or re-read with analyze_file to confirm the exact text"@
                    &&& r.failing_path matches Some(fp) && fp@ == path@
                }
            },
            EditFailure::NotAFile => {
                &&& final(counts).counts() == old(counts).counts()
                &&& r.message@ == "path is a directory"@
                &&& !r.internal
                &&& r.error_type@ == "invalid_params"@
                &&& r.error_subtype is None
                &&& r.category@ == "validation"@
                &&& r.suggested_action@ == "provide a file path, not a directory"@
            },
            EditFailure::Io { kind, source } => {
                &&& final(counts).counts() == old(counts).counts()
                &&& r.io_detail matches Some(d) && d.path@ == param_path@ && d.kind@ == kind@
                    && d.source@ == source@
                &&& r.message@ == "I/O error editing file; check file path and permissions"@
                &&& r.internal
                &&& r.error_type@ == "internal_error"@
                &&& r.error_subtype is None
                &&& r.category@ == "resource"@
                &&& r.suggested_action@ == "check file path and permissions"@
            },
            EditFailure::Other { message } => {
                &&& final(counts).counts() == old(counts).counts()
                &&& r.message@ == message@
                &&& r.internal
                &&& r.error_type@ == "internal_error"@
                &&& r.error_subtype is None
                &&& r.category@ == "resource"@
                &&& r.suggested_action@ == "check file path and permissions"@
            },
        },
{
    match failure {
        EditFailure::NotFound { path, first_20_lines } => {
            if guard.increment(counts, path.as_str()) {
                return EditErrorReport {
                    message: stale_context_error_msg(EDIT_STALE_THRESHOLD, param_path),
                    internal: false,
                    error_type: "invalid_params",
                    error_subtype: Some("stale_context"),
                    category: "validation",
                    suggested_action: "re-read the file with analyze_file or analyze_module, then retry with old_text from the live content",
                    io_detail: None,
                    failing_path: None,
                };
            }
            EditErrorReport {
                message: build_not_found_message(first_20_lines.as_str(), old_text_for_hint),
                internal: false,
                error_type: "invalid_params",
                error_subtype: Some("not_found"),
                category: "validation",
                suggested_action: "re-read the file with analyze_file or analyze_module, then derive old_text from the live content",
                io_detail: None,
                failing_path: Some(path.clone()),
            }
        },
        EditFailure::Ambiguous { count, path, match_lines } => {
            if guard.increment(counts, path.as_str()) {
                return EditErrorReport {
                    message: stale_context_error_msg(EDIT_STALE_THRESHOLD, param_path),
                    internal: false,
                    error_type: "invalid_params",
                    error_subtype: Some("stale_context"),
                    category: "validation",
                    suggested_action: "re-read the file with analyze_file or analyze_module, then retry with old_text from the live content",
                    io_detail: None,
                    failing_path: None,
                };
            }
            EditErrorReport {
                message: ambiguous_message(*count, match_lines),
                internal: false,
                error_type: "invalid_params",
                error_subtype: Some("ambiguous"),
                category: "validation",
                suggested_action: "extend old_text with more surrounding context, or re-read with analyze_file to confirm the exact text",
                io_detail: None,
                failing_path: Some(path.clone()),
            }
        },
        EditFailure::NotAFile => EditErrorReport {
            message: "path is a directory".to_owned(),
            internal: false,
            error_type: "invalid_params",
            error_subtype: None,
            category: "validation",
            suggested_action: "provide a file path, not a directory",
            io_detail: None,
            failing_path: None,
        },
        EditFailure::Io { kind, source } => EditErrorReport {
            message: "I/O error editing file; check file path and permissions".to_owned(),
            internal: true,
            error_type: "internal_error",
            error_subtype: None,
            category: "resource",
            suggested_action: "check file path and permissions",
            failing_path: None,
            io_detail: Some(
                IoErrorDetail {
                    path: param_path.to_owned(),
                    kind: kind.clone(),
                    source: source.clone(),
                },
            ),
        },
        EditFailure::Other { message } => EditErrorReport {
            message: message.clone(),
            internal: true,
            error_type: "internal_error",
            error_subtype: None,
            category: "resource",
            suggested_action: "check file path and permissions",
            io_detail: None,
            failing_path: None,
        },
    }
}

} // verus!
