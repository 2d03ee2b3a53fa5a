//! Metric events and their builder, per-tool tallies, and the path and
//! date helpers the metrics files use.

use vstd::prelude::*;
use crate::text::{
    all_digits, chars_of, decimal, digits_value, has_prefix, lemma_decimal_len, lemma_decimal_value,
    lemma_leading_zeros, parse_unsigned, push_decimal, push_str, string_of,
};

verus! {

/// One metric event of a tool call.
#[derive(Debug, Clone)]
pub struct MetricEvent {
    /// Milliseconds since the Unix epoch when the event was built.
    pub ts: u64,
    /// Tool name.
    pub tool: &'static str,
    /// Call duration in milliseconds.
    pub duration_ms: u64,
    /// Characters of output returned.
    pub output_chars: usize,
    /// Components in the path parameter.
    pub param_path_depth: usize,
    /// Requested traversal depth.
    pub max_depth: Option<u32>,
    /// `ok`, `error` or `received`.
    pub result: &'static str,
    /// Error class, when the call failed.
    pub error_type: Option<String>,
    /// Finer cause of the error.
    pub error_subtype: Option<String>,
    /// Session the call belongs to.
    pub session_id: Option<String>,
    /// Call sequence number in the session.
    pub seq: Option<u32>,
    /// Whether the result came from a cache.
    pub cache_hit: Option<bool>,
    /// Cache tier that served the result.
    pub cache_tier: Option<&'static str>,
    /// Set when writing the disk cache failed.
    pub cache_write_failure: Option<bool>,
    /// Exit code of an executed command.
    pub exit_code: Option<i32>,
    /// Whether the command timed out.
    pub timed_out: bool,
    /// Whether output was truncated.
    pub output_truncated: Option<bool>,
    /// Whether the output exceeded 30 000 characters.
    pub chars_threshold_breach: bool,
    /// Lowercased extension of the analyzed file (`other` when unknown).
    pub file_ext: Option<&'static str>,
    /// Output filter that fired.
    pub filter_applied: Option<String>,
    /// Language of the analyzed file.
    pub language: Option<String>,
    /// Whether a git ref was given.
    pub git_ref_used: bool,
    /// Whether summary output was used.
    pub summary_mode: bool,
    /// Whether a cursor was given.
    pub is_paginated: bool,
    /// Whether fields were projected.
    pub fields_projected: bool,
    /// Symbol matching mode.
    pub match_mode: Option<String>,
    /// Call-graph depth.
    pub follow_depth: Option<u32>,
    /// Whether import lookup was asked for.
    pub import_lookup: bool,
    /// Whether def-use output was asked for.
    pub def_use: bool,
    /// Whether only implementations were asked for.
    pub impl_only: bool,
    /// Whether stdin was given to a command.
    pub stdin_provided: bool,
    /// Configured command timeout in milliseconds.
    pub timeout_configured_ms: Option<i64>,
    /// Configured drain timeout in milliseconds.
    pub drain_timeout_ms: Option<i64>,
    /// Whether a working directory was given.
    pub working_dir_used: bool,
    /// Evictions from the in-memory cache.
    pub l1_eviction_count: Option<u64>,
    /// Entries in the disk cache.
    pub l2_entry_count: Option<u64>,
    /// Size of the disk cache in bytes.
    pub l2_size_bytes: Option<u64>,
}

impl Default for MetricEvent {
    fn default() -> (r: Self)
        ensures
            r == empty_event(),
    {
        MetricEvent {
            ts: 0,
            tool: "",
            duration_ms: 0,
            output_chars: 0,
            param_path_depth: 0,
            max_depth: None,
            result: "",
            error_type: None,
            error_subtype: None,
            session_id: None,
            seq: None,
            cache_hit: None,
            cache_tier: None,
            cache_write_failure: None,
            exit_code: None,
            timed_out: false,
            output_truncated: None,
            chars_threshold_breach: false,
            file_ext: None,
            filter_applied: None,
            language: None,
            git_ref_used: false,
            summary_mode: false,
            is_paginated: false,
            fields_projected: false,
            match_mode: None,
            follow_depth: None,
            import_lookup: false,
            def_use: false,
            impl_only: false,
            stdin_provided: false,
            timeout_configured_ms: None,
            drain_timeout_ms: None,
            working_dir_used: false,
            l1_eviction_count: None,
            l2_entry_count: None,
            l2_size_bytes: None,
        }
    }
}

/// The event with every field zero, empty, false or absent.
pub open spec fn empty_event() -> MetricEvent {
    MetricEvent {
        ts: 0,
        tool: "",
        duration_ms: 0,
        output_chars: 0,
        param_path_depth: 0,
        max_depth: None,
        result: "",
        error_type: None,
        error_subtype: None,
        session_id: None,
        seq: None,
        cache_hit: None,
        cache_tier: None,
        cache_write_failure: None,
        exit_code: None,
        timed_out: false,
        output_truncated: None,
        chars_threshold_breach: false,
        file_ext: None,
        filter_applied: None,
        language: None,
        git_ref_used: false,
        summary_mode: false,
        is_paginated: false,
        fields_projected: false,
        match_mode: None,
        follow_depth: None,
        import_lookup: false,
        def_use: false,
        impl_only: false,
        stdin_provided: false,
        timeout_configured_ms: None,
        drain_timeout_ms: None,
        working_dir_used: false,
        l1_eviction_count: None,
        l2_entry_count: None,
        l2_size_bytes: None,
    }
}

#[verifier::external_type_specification]
#[verifier::external_body]
pub struct ExSystemTime(std::time::SystemTime);

/// `SystemTime::now()`.
///
/// Trusted (std) only to return: what the clock reads depends on the time,
/// so nothing is stated of it.
#[verifier::external_body]
fn clock_now() -> (r: std::time::SystemTime) {
    std::time::SystemTime::now()
}

/// `t.duration_since(UNIX_EPOCH)`, as whole milliseconds; `None` when `t`
/// lies before the epoch.
///
/// Trusted (std) only to return: the value is that of the clock reading.
#[verifier::external_body]
fn millis_since_epoch(t: &std::time::SystemTime) -> (r: Option<u128>) {
    match t.duration_since(std::time::UNIX_EPOCH) {
        Ok(d) => Some(d.as_millis()),
        Err(_) => None,
    }
}

/// A reading in milliseconds since the epoch as a `u64`: 0 for a reading
/// before the epoch (`None`), `u64::MAX` for one past `u64`'s range.
pub fn epoch_millis_u64(ms: Option<u128>) -> (r: u64)
    ensures
        r == match ms {
            None => 0,
            Some(m) => if m > u64::MAX { u64::MAX as int } else { m as int },
        },
{
    match ms {
        Some(m) => if m > u64::MAX as u128 {
            u64::MAX
        } else {
            m as u64
        },
        None => 0,
    }
}

/// Milliseconds since the Unix epoch, from the system clock, converted by
/// `epoch_millis_u64`. Which value comes back depends on the time of the
/// call, so the contract states nothing of it.
pub(crate) fn unix_ms() -> (r: u64) {
    let now = clock_now();
    epoch_millis_u64(millis_since_epoch(&now))
}

/// Builds a `MetricEvent` one field at a time.
#[derive(Debug)]
pub struct MetricEventBuilder {
    event: MetricEvent,
}

impl MetricEventBuilder {
    /// The event built so far.
    pub closed spec fn event(&self) -> MetricEvent {
        self.event
    }

    /// A builder for a `tool` call with outcome `result` that took
    /// `duration_ms`, stamped with the current time; every other field empty.
    pub fn new(tool: &'static str, result: &'static str, duration_ms: u64) -> (r: Self)
        ensures
            r.event() == (MetricEvent {
                ts: r.event().ts,
                tool,
                result,
                duration_ms,
                ..empty_event()
            }),
    {
        let ts = unix_ms();
        let mut event = MetricEvent::default();
        event.ts = ts;
        event.tool = tool;
        event.result = result;
        event.duration_ms = duration_ms;
        MetricEventBuilder { event }
    }

    /// Sets `output_chars`.
    pub fn output_chars(self, v: usize) -> (r: Self)
        ensures
            r.event() == (MetricEvent { output_chars: v, ..self.event() }),
    {
        let mut b = self;
        b.event.output_chars = v;
        b
    }

    /// Sets `param_path_depth`.
    pub fn param_path_depth(self, v: usize) -> (r: Self)
        ensures
            r.event() == (MetricEvent { param_path_depth: v, ..self.event() }),
    {
        let mut b = self;
        b.event.param_path_depth = v;
        b
    }

    /// Sets `max_depth`.
    pub fn max_depth(self, v: Option<u32>) -> (r: Self)
        ensures
            r.event() == (MetricEvent { max_depth: v, ..self.event() }),
    {
        let mut b = self;
        b.event.max_depth = v;
        b
    }

    /// Sets `error_type`.
    pub fn error_type(self, v: Option<String>) -> (r: Self)
        ensures
            r.event() == (MetricEvent { error_type: v, ..self.event() }),
    {
        let mut b = self;
        b.event.error_type = v;
        b
    }

    /// Sets `error_subtype`.
    pub fn error_subtype(self, v: Option<String>) -> (r: Self)
        ensures
            r.event() == (MetricEvent { error_subtype: v, ..self.event() }),
    {
        let mut b = self;
        b.event.error_subtype = v;
        b
    }

    /// Sets `session_id`.
    pub fn session_id(self, v: Option<String>) -> (r: Self)
        ensures
            r.event() == (MetricEvent { session_id: v, ..self.event() }),
    {
        let mut b = self;
        b.event.session_id = v;
        b
    }

    /// Sets `seq`.
    pub fn seq(self, v: Option<u32>) -> (r: Self)
        ensures
            r.event() == (MetricEvent { seq: v, ..self.event() }),
    {
        let mut b = self;
        b.event.seq = v;
        b
    }

    /// Sets `cache_hit`.
    pub fn cache_hit(self, v: Option<bool>) -> (r: Self)
        ensures
            r.event() == (MetricEvent { cache_hit: v, ..self.event() }),
    {
        let mut b = self;
        b.event.cache_hit = v;
        b
    }

    /// Sets `cache_tier`.
    pub fn cache_tier(self, v: Option<&'static str>) -> (r: Self)
        ensures
            r.event() == (MetricEvent { cache_tier: v, ..self.event() }),
    {
        let mut b = self;
        b.event.cache_tier = v;
        b
    }

    /// Sets `cache_write_failure`.
    pub fn cache_write_failure(self, v: Option<bool>) -> (r: Self)
        ensures
            r.event() == (MetricEvent { cache_write_failure: v, ..self.event() }),
    {
        let mut b = self;
        b.event.cache_write_failure = v;
        b
    }

    /// Sets `exit_code`.
    pub fn exit_code(self, v: Option<i32>) -> (r: Self)
        ensures
            r.event() == (MetricEvent { exit_code: v, ..self.event() }),
    {
        let mut b = self;
        b.event.exit_code = v;
        b
    }

    /// Sets `timed_out`.
    pub fn timed_out(self, v: bool) -> (r: Self)
        ensures
            r.event() == (MetricEvent { timed_out: v, ..self.event() }),
    {
        let mut b = self;
        b.event.timed_out = v;
        b
    }

    /// Sets `output_truncated`.
    pub fn output_truncated(self, v: Option<bool>) -> (r: Self)
        ensures
            r.event() == (MetricEvent { output_truncated: v, ..self.event() }),
    {
        let mut b = self;
        b.event.output_truncated = v;
        b
    }

    /// Sets `chars_threshold_breach`.
    pub fn chars_threshold_breach(self, v: bool) -> (r: Self)
        ensures
            r.event() == (MetricEvent { chars_threshold_breach: v, ..self.event() }),
    {
        let mut b = self;
        b.event.chars_threshold_breach = v;
        b
    }

    /// Sets `file_ext`.
    pub fn file_ext(self, v: Option<&'static str>) -> (r: Self)
        ensures
            r.event() == (MetricEvent { file_ext: v, ..self.event() }),
    {
        let mut b = self;
        b.event.file_ext = v;
        b
    }

    /// Sets `filter_applied`.
    pub fn filter_applied(self, v: Option<String>) -> (r: Self)
        ensures
            r.event() == (MetricEvent { filter_applied: v, ..self.event() }),
    {
        let mut b = self;
        b.event.filter_applied = v;
        b
    }

    /// Sets `language`.
    pub fn language(self, v: Option<String>) -> (r: Self)
        ensures
            r.event() == (MetricEvent { language: v, ..self.event() }),
    {
        let mut b = self;
        b.event.language = v;
        b
    }

    /// Sets `git_ref_used`.
    pub fn git_ref_used(self, v: bool) -> (r: Self)
        ensures
            r.event() == (MetricEvent { git_ref_used: v, ..self.event() }),
    {
        let mut b = self;
        b.event.git_ref_used = v;
        b
    }

    /// Sets `summary_mode`.
    pub fn summary_mode(self, v: bool) -> (r: Self)
        ensures
            r.event() == (MetricEvent { summary_mode: v, ..self.event() }),
    {
        let mut b = self;
        b.event.summary_mode = v;
        b
    }

    /// Sets `is_paginated`.
    pub fn is_paginated(self, v: bool) -> (r: Self)
        ensures
            r.event() == (MetricEvent { is_paginated: v, ..self.event() }),
    {
        let mut b = self;
        b.event.is_paginated = v;
        b
    }

    /// Sets `fields_projected`.
    pub fn fields_projected(self, v: bool) -> (r: Self)
        ensures
            r.event() == (MetricEvent { fields_projected: v, ..self.event() }),
    {
        let mut b = self;
        b.event.fields_projected = v;
        b
    }

    /// Sets `match_mode`.
    pub fn match_mode(self, v: Option<String>) -> (r: Self)
        ensures
            r.event() == (MetricEvent { match_mode: v, ..self.event() }),
    {
        let mut b = self;
        b.event.match_mode = v;
        b
    }

    /// Sets `follow_depth`.
    pub fn follow_depth(self, v: Option<u32>) -> (r: Self)
        ensures
            r.event() == (MetricEvent { follow_depth: v, ..self.event() }),
    {
        let mut b = self;
        b.event.follow_depth = v;
        b
    }

    /// Sets `import_lookup`.
    pub fn import_lookup(self, v: bool) -> (r: Self)
        ensures
            r.event() == (MetricEvent { import_lookup: v, ..self.event() }),
    {
        let mut b = self;
        b.event.import_lookup = v;
        b
    }

    /// Sets `def_use`.
    pub fn def_use(self, v: bool) -> (r: Self)
        ensures
            r.event() == (MetricEvent { def_use: v, ..self.event() }),
    {
        let mut b = self;
        b.event.def_use = v;
        b
    }

    /// Sets `impl_only`.
    pub fn impl_only(self, v: bool) -> (r: Self)
        ensures
            r.event() == (MetricEvent { impl_only: v, ..self.event() }),
    {
        let mut b = self;
        b.event.impl_only = v;
        b
    }

    /// Sets `stdin_provided`.
    pub fn stdin_provided(self, v: bool) -> (r: Self)
        ensures
            r.event() == (MetricEvent { stdin_provided: v, ..self.event() }),
    {
        let mut b = self;
        b.event.stdin_provided = v;
        b
    }

    /// Sets `timeout_configured_ms`.
    pub fn timeout_configured_ms(self, v: Option<i64>) -> (r: Self)
        ensures
            r.event() == (MetricEvent { timeout_configured_ms: v, ..self.event() }),
    {
        let mut b = self;
        b.event.timeout_configured_ms = v;
        b
    }

    /// Sets `drain_timeout_ms`.
    pub fn drain_timeout_ms(self, v: Option<i64>) -> (r: Self)
        ensures
            r.event() == (MetricEvent { drain_timeout_ms: v, ..self.event() }),
    {
        let mut b = self;
        b.event.drain_timeout_ms = v;
        b
    }

    /// Sets `working_dir_used`.
    pub fn working_dir_used(self, v: bool) -> (r: Self)
        ensures
            r.event() == (MetricEvent { working_dir_used: v, ..self.event() }),
    {
        let mut b = self;
        b.event.working_dir_used = v;
        b
    }

    /// The event built.
    pub fn build(self) -> (r: MetricEvent)
        ensures
            r == self.event(),
    {
        self.event
    }
}

// ---------------------------------------------------------------------------
// Cache tiers and per-tool tallies
// ---------------------------------------------------------------------------

/// Where a cached result came from.
#[derive(Clone, Copy, Debug, PartialEq, Eq, Structural)]
pub enum CacheTier {
    L1Memory,
    L2Disk,
    Miss,
}

/// The metric label of each tier.
pub open spec fn tier_label(t: CacheTier) -> Seq<char> {
    match t {
        CacheTier::L1Memory => "l1_memory"@,
        CacheTier::L2Disk => "l2_disk"@,
        CacheTier::Miss => "miss"@,
    }
}

impl CacheTier {
    /// The metric label of the tier.
    pub fn as_str(self) -> (s: &'static str)
        ensures
            s@ == tier_label(self),
    {
        match self {
            CacheTier::L1Memory => "l1_memory",
            CacheTier::L2Disk => "l2_disk",
            CacheTier::Miss => "miss",
        }
    }
}

/// Calls, total duration and total output of one tool.
#[derive(Clone, Copy, Debug, PartialEq, Eq, Structural)]
pub struct ToolMetrics {
    pub count: u64,
    pub duration_ms: u64,
    pub output_chars: u64,
}

/// The tally of a tool after one more event (sums saturate at `u64::MAX`).
pub open spec fn bumped(m: ToolMetrics, duration_ms: u64, output_chars: usize) -> ToolMetrics {
    ToolMetrics {
        count: if m.count == u64::MAX { u64::MAX } else { (m.count + 1) as u64 },
        duration_ms: if m.duration_ms + duration_ms > u64::MAX {
            u64::MAX
        } else {
            (m.duration_ms + duration_ms) as u64
        },
        output_chars: if m.output_chars + output_chars > u64::MAX {
            u64::MAX
        } else {
            (m.output_chars + output_chars) as u64
        },
    }
}

/// Per-tool tallies of a session and the first session id seen.
pub struct ToolTally {
    entries: Vec<(String, ToolMetrics)>,
    session_id: Option<String>,
}

/// The tallies of `entries` keyed by tool name.
pub open spec fn entries_map(entries: Seq<(String, ToolMetrics)>) -> Map<Seq<char>, ToolMetrics>
    decreases entries.len(),
{
    if entries.len() == 0 {
        Map::empty()
    } else {
        entries_map(entries.drop_last()).insert(entries.last().0@, entries.last().1)
    }
}

/// No tool name occurs twice.
pub open spec fn distinct_names(entries: Seq<(String, ToolMetrics)>) -> bool {
    forall|i: int, j: int|
        0 <= i < j < entries.len() ==> #[trigger] entries[i].0@ != #[trigger] entries[j].0@
}

proof fn lemma_distinct_drop_last(entries: Seq<(String, ToolMetrics)>)
    requires
        distinct_names(entries),
        entries.len() > 0,
    ensures
        distinct_names(entries.drop_last()),
{
    let p = entries.drop_last();
    assert forall|i: int, j: int| 0 <= i < j < p.len() implies #[trigger] p[i].0@ != #[trigger] p[j].0@ by {
        assert(p[i] == entries[i]);
        assert(p[j] == entries[j]);
    }
}

proof fn lemma_entries_map_get(entries: Seq<(String, ToolMetrics)>, k: int)
    requires
        distinct_names(entries),
        0 <= k < entries.len(),
    ensures
        entries_map(entries).contains_key(entries[k].0@),
        entries_map(entries)[entries[k].0@] == entries[k].1,
    decreases entries.len(),
{
    let last = entries.len() - 1;
    if k < last {
        lemma_distinct_drop_last(entries);
        assert(entries.drop_last()[k] == entries[k]);
        lemma_entries_map_get(entries.drop_last(), k);
        assert(entries[k].0@ != entries[last].0@);
    }
}

proof fn lemma_entries_map_absent(entries: Seq<(String, ToolMetrics)>, name: Seq<char>)
    requires
        forall|i: int| 0 <= i < entries.len() ==> #[trigger] entries[i].0@ != name,
    ensures
        !entries_map(entries).contains_key(name),
    decreases entries.len(),
{
    if entries.len() > 0 {
        assert forall|i: int| 0 <= i < entries.drop_last().len() implies #[trigger] entries.drop_last()[i].0@
            != name by {
            assert(entries.drop_last()[i] == entries[i]);
        }
        lemma_entries_map_absent(entries.drop_last(), name);
    }
}

proof fn lemma_entries_map_update(entries: Seq<(String, ToolMetrics)>, k: int, m: ToolMetrics)
    requires
        distinct_names(entries),
        0 <= k < entries.len(),
    ensures
        entries_map(entries.update(k, (entries[k].0, m))) == entries_map(entries).insert(entries[k].0@, m),
    decreases entries.len(),
{
    let upd = entries.update(k, (entries[k].0, m));
    let last = entries.len() - 1;
    if k == last {
        assert(upd.drop_last() =~= entries.drop_last());
        assert(entries_map(upd) =~= entries_map(entries).insert(entries[k].0@, m));
    } else {
        assert(upd.drop_last() =~= entries.drop_last().update(k, (entries[k].0, m)));
        lemma_distinct_drop_last(entries);
        assert(entries.drop_last()[k] == entries[k]);
        lemma_entries_map_update(entries.drop_last(), k, m);
        assert(entries[k].0@ != entries[last].0@);
        assert(entries_map(upd) =~= entries_map(entries).insert(entries[k].0@, m));
    }
}

impl ToolTally {
    /// The tallies, keyed by tool name.
    pub closed spec fn counts(&self) -> Map<Seq<char>, ToolMetrics> {
        entries_map(self.entries@)
    }

    /// The session id of the first event that carried one.
    pub closed spec fn session(&self) -> Option<Seq<char>> {
        match self.session_id {
            Some(s) => Some(s@),
            None => None,
        }
    }

    /// Tool names are distinct.
    pub closed spec fn wf(&self) -> bool {
        distinct_names(self.entries@)
    }

    /// An empty tally.
    pub fn new() -> (r: Self)
        ensures
            r.wf(),
            r.counts() == Map::<Seq<char>, ToolMetrics>::empty(),
            r.session() is None,
    {
        ToolTally { entries: Vec::new(), session_id: None }
    }

    /// Counts one event against its tool and keeps the first session id seen.
    pub fn accumulate_event(&mut self, event: &MetricEvent)
        requires
            old(self).wf(),
        ensures
            final(self).wf(),
            final(self).counts() == old(self).counts().insert(
                event.tool@,
                bumped(
                    if old(self).counts().contains_key(event.tool@) {
                        old(self).counts()[event.tool@]
                    } else {
                        ToolMetrics { count: 0, duration_ms: 0, output_chars: 0 }
                    },
                    event.duration_ms,
                    event.output_chars,
                ),
            ),
            final(self).session() == (if old(self).session() is Some {
                old(self).session()
            } else {
                match event.session_id {
                    Some(s) => Some(s@),
                    None => None,
                }
            }),
    {
        let name = chars_of(event.tool);
        let mut i: usize = 0;
        let mut found: Option<usize> = None;
        while found.is_none() && i < self.entries.len()
            invariant
                i <= self.entries@.len(),
                name@ == event.tool@,
                found is None ==> forall|k: int| 0 <= k < i ==> #[trigger] self.entries@[k].0@ != name@,
                found matches Some(j) ==> j < self.entries@.len() && self.entries@[j as int].0@ == name@,
            decreases self.entries@.len() - i + (if found is None {
                1int
            } else {
                0int
            }),
        {
            if crate::text::chars_eq(name.as_slice(), self.entries[i].0.as_str()) {
                found = Some(i);
            } else {
                i = i + 1;
            }
        }
        let ghost old_entries = self.entries@;
        match found {
            Some(j) => {
                let m = self.entries[j].1;
                let nm = ToolMetrics {
                    count: m.count.saturating_add(1),
                    duration_ms: m.duration_ms.saturating_add(event.duration_ms),
                    output_chars: m.output_chars.saturating_add(event.output_chars as u64),
                };
                proof {
                    lemma_entries_map_get(old_entries, j as int);
                    lemma_entries_map_update(old_entries, j as int, nm);
                }
                let key = self.entries[j].0.clone();
                self.entries.set(j, (key, nm));
                assert(self.entries@ =~= old_entries.update(j as int, (old_entries[j as int].0, nm)));
                assert(distinct_names(self.entries@)) by {
                    assert forall|a: int, b: int| 0 <= a < b < self.entries@.len() implies #[trigger] self.entries@[a].0@
                        != #[trigger] self.entries@[b].0@ by {
                        assert(old_entries[a].0@ != old_entries[b].0@);
                    }
                }
            },
            None => {
                proof {
                    lemma_entries_map_absent(old_entries, name@);
                }
                let nm = ToolMetrics {
                    count: 1,
                    duration_ms: event.duration_ms,
                    output_chars: event.output_chars as u64,
                };
                self.entries.push((string_of(name.as_slice()), nm));
                assert(self.entries@.drop_last() =~= old_entries);
                assert(distinct_names(self.entries@)) by {
                    assert forall|a: int, b: int| 0 <= a < b < self.entries@.len() implies #[trigger] self.entries@[a].0@
                        != #[trigger] self.entries@[b].0@ by {
                        if b < old_entries.len() {
                            assert(old_entries[a].0@ != old_entries[b].0@);
                        } else {
                            assert(old_entries[a].0@ != name@);
                        }
                    }
                }
            },
        }
        if self.session_id.is_none() {
            self.session_id = event.session_id.clone();
        }
    }

    /// The tallies as `(tool, tally)` pairs, in first-seen order.
    pub fn entries(&self) -> (r: Vec<(String, ToolMetrics)>)
        requires
            self.wf(),
        ensures
            distinct_names(r@),
            entries_map(r@) == self.counts(),
    {
        let mut out: Vec<(String, ToolMetrics)> = Vec::new();
        let mut i: usize = 0;
        while i < self.entries.len()
            invariant
                i <= self.entries@.len(),
                out@.len() == i,
                forall|k: int| 0 <= k < i ==> #[trigger] out@[k].0@ == self.entries@[k].0@ && out@[k].1 == self.entries@[k].1,
            decreases self.entries@.len() - i,
        {
            let name = self.entries[i].0.clone();
            let ghost before = out@;
            out.push((name, self.entries[i].1));
            assert forall|k: int| 0 <= k < i + 1 implies #[trigger] out@[k].0@ == self.entries@[k].0@
                && out@[k].1 == self.entries@[k].1 by {
                if k < i {
                    assert(out@[k] == before[k]);
                }
            }
            i = i + 1;
        }
        proof {
            lemma_entries_map_same(out@, self.entries@);
            assert forall|a: int, b: int| 0 <= a < b < out@.len() implies #[trigger] out@[a].0@
                != #[trigger] out@[b].0@ by {
                assert(self.entries@[a].0@ != self.entries@[b].0@);
            }
        }
        out
    }

    /// The first session id seen.
    pub fn session_id(&self) -> (r: Option<String>)
        ensures
            match r {
                Some(s) => self.session() == Some(s@),
                None => self.session() is None,
            },
    {
        self.session_id.clone()
    }
}

proof fn lemma_entries_map_same(a: Seq<(String, ToolMetrics)>, b: Seq<(String, ToolMetrics)>)
    requires
        a.len() == b.len(),
        forall|k: int| 0 <= k < a.len() ==> #[trigger] a[k].0@ == b[k].0@ && a[k].1 == b[k].1,
    ensures
        entries_map(a) == entries_map(b),
    decreases a.len(),
{
    if a.len() > 0 {
        assert forall|k: int| 0 <= k < a.drop_last().len() implies #[trigger] a.drop_last()[k].0@
            == b.drop_last()[k].0@ && a.drop_last()[k].1 == b.drop_last()[k].1 by {
            assert(a.drop_last()[k] == a[k]);
            assert(b.drop_last()[k] == b[k]);
        }
        lemma_entries_map_same(a.drop_last(), b.drop_last());
        assert(a.last().0@ == b.last().0@);
    }
}

// ---------------------------------------------------------------------------
// The session summary
// ---------------------------------------------------------------------------

/// Lexicographic order of names, character by character (the order of
/// `str`, as UTF-8 keeps the order of code points).
pub open spec fn name_le(a: Seq<char>, b: Seq<char>) -> bool
    decreases a.len(),
{
    if a.len() == 0 {
        true
    } else if b.len() == 0 {
        false
    } else if a[0] != b[0] {
        (a[0] as int) < (b[0] as int)
    } else {
        name_le(a.drop_first(), b.drop_first())
    }
}

proof fn lemma_name_le_total(a: Seq<char>, b: Seq<char>)
    ensures
        name_le(a, b) || name_le(b, a),
    decreases a.len(),
{
    if a.len() > 0 && b.len() > 0 && a[0] == b[0] {
        lemma_name_le_total(a.drop_first(), b.drop_first());
    }
}

proof fn lemma_name_le_transitive(a: Seq<char>, b: Seq<char>, c: Seq<char>)
    requires
        name_le(a, b),
        name_le(b, c),
    ensures
        name_le(a, c),
    decreases a.len(),
{
    if a.len() > 0 && b.len() > 0 && c.len() > 0 && a[0] == b[0] && b[0] == c[0] {
        lemma_name_le_transitive(a.drop_first(), b.drop_first(), c.drop_first());
    }
}

fn name_le_exec(a: &str, b: &str) -> (r: bool)
    ensures
        r == name_le(a@, b@),
{
    let av = chars_of(a);
    let bv = chars_of(b);
    let mut i: usize = 0;
    assert(av@.skip(0) =~= av@);
    assert(bv@.skip(0) =~= bv@);
    while i < av.len() && i < bv.len() && av[i] == bv[i]
        invariant
            i <= av@.len(),
            i <= bv@.len(),
            av@ == a@,
            bv@ == b@,
            name_le(av@.skip(i as int), bv@.skip(i as int)) == name_le(a@, b@),
        decreases av@.len() - i,
    {
        assert(av@.skip(i as int).drop_first() =~= av@.skip(i + 1));
        assert(bv@.skip(i as int).drop_first() =~= bv@.skip(i + 1));
        i = i + 1;
    }
    let ghost sa = av@.skip(i as int);
    let ghost sb = bv@.skip(i as int);
    if i == av.len() {
        assert(sa.len() == 0);
        true
    } else if i == bv.len() {
        assert(sb.len() == 0);
        false
    } else {
        assert(sa[0] == av@[i as int] && sb[0] == bv@[i as int]);
        av[i] < bv[i]
    }
}

/// Are the rows in name order?
pub open spec fn rows_sorted(rows: Seq<(String, ToolMetrics)>) -> bool {
    forall|i: int, j: int|
        0 <= i < j < rows.len() ==> name_le(#[trigger] rows[i].0@, #[trigger] rows[j].0@)
}

/// The total duration of the rows.
pub open spec fn total_duration(rows: Seq<(String, ToolMetrics)>) -> nat
    decreases rows.len(),
{
    if rows.len() == 0 {
        0
    } else {
        total_duration(rows.drop_last()) + rows.last().1.duration_ms as nat
    }
}

/// The total output of the rows.
pub open spec fn total_output(rows: Seq<(String, ToolMetrics)>) -> nat
    decreases rows.len(),
{
    if rows.len() == 0 {
        0
    } else {
        total_output(rows.drop_last()) + rows.last().1.output_chars as nat
    }
}

/// `n`, capped at `u64::MAX`.
pub open spec fn cap_u64(n: nat) -> u64 {
    if n > u64::MAX {
        u64::MAX
    } else {
        n as u64
    }
}

/// Does the pair `x` occur (by name and tally) in `b`?
pub open spec fn pair_in(x: (String, ToolMetrics), b: Seq<(String, ToolMetrics)>) -> bool {
    exists|j: int| 0 <= j < b.len() && x.0@ == (#[trigger] b[j]).0@ && x.1 == b[j].1
}

/// Does every pair of `a` occur (by name and tally) in `b`?
pub open spec fn pairs_within(a: Seq<(String, ToolMetrics)>, b: Seq<(String, ToolMetrics)>) -> bool {
    forall|i: int| 0 <= i < a.len() ==> #[trigger] pair_in(a[i], b)
}

/// The element at `t` of `old` with `x` inserted at `p`.
pub open spec fn inserted_at(old: Seq<(String, ToolMetrics)>, p: int, x: (String, ToolMetrics), t: int) -> (
    String,
    ToolMetrics,
) {
    if t < p {
        old[t]
    } else if t == p {
        x
    } else {
        old[t - 1]
    }
}

proof fn lemma_insert_index(old: Seq<(String, ToolMetrics)>, p: int, x: (String, ToolMetrics))
    requires
        0 <= p <= old.len(),
    ensures
        old.insert(p, x).len() == old.len() + 1,
        forall|t: int| 0 <= t < old.len() + 1 ==> #[trigger] old.insert(p, x)[t] == inserted_at(old, p, x, t),
{
    old.insert_ensures(p, x);
    assert forall|t: int| 0 <= t < old.len() + 1 implies #[trigger] old.insert(p, x)[t] == inserted_at(
        old,
        p,
        x,
        t,
    ) by {
        if t > p {
            assert(old.insert(p, x)[(t - 1) + 1] == old[t - 1]);
        }
    }
}

#[verifier::spinoff_prover]
proof fn lemma_insert_keeps_order(old: Seq<(String, ToolMetrics)>, p: int, x: (String, ToolMetrics))
    requires
        0 <= p <= old.len(),
        distinct_names(old),
        rows_sorted(old),
        forall|t: int| 0 <= t < p ==> name_le(#[trigger] old[t].0@, x.0@),
        p < old.len() ==> !name_le(old[p].0@, x.0@),
        forall|t: int| 0 <= t < old.len() ==> #[trigger] old[t].0@ != x.0@,
    ensures
        distinct_names(old.insert(p, x)),
        rows_sorted(old.insert(p, x)),
{
    let nv = old.insert(p, x);
    lemma_insert_index(old, p, x);
    if p < old.len() {
        lemma_name_le_total(old[p].0@, x.0@);
    }
    // everything from position p of `old` on follows x
    assert forall|t: int| p <= t < old.len() implies name_le(x.0@, #[trigger] old[t].0@) by {
        if t > p {
            assert(name_le(old[p].0@, old[t].0@));
            lemma_name_le_transitive(x.0@, old[p].0@, old[t].0@);
        }
    }
    assert forall|a: int, b: int| 0 <= a < b < nv.len() implies name_le(
        #[trigger] nv[a].0@,
        #[trigger] nv[b].0@,
    ) by {
        let ea = inserted_at(old, p, x, a);
        let eb = inserted_at(old, p, x, b);
        assert(nv[a] == ea && nv[b] == eb);
        if b < p {
            assert(name_le(old[a].0@, old[b].0@));
        } else if b == p {
            assert(name_le(old[a].0@, x.0@));
        } else if a < p {
            assert(name_le(old[a].0@, x.0@));
            assert(name_le(x.0@, old[b - 1].0@));
            lemma_name_le_transitive(old[a].0@, x.0@, old[b - 1].0@);
        } else if a == p {
            assert(name_le(x.0@, old[b - 1].0@));
        } else {
            assert(name_le(old[a - 1].0@, old[b - 1].0@));
        }
    }
    assert forall|a: int, b: int| 0 <= a < b < nv.len() implies #[trigger] nv[a].0@
        != #[trigger] nv[b].0@ by {
        let ea = inserted_at(old, p, x, a);
        let eb = inserted_at(old, p, x, b);
        assert(nv[a] == ea && nv[b] == eb);
        if b < p {
            assert(old[a].0@ != old[b].0@);
        } else if b == p {
            assert(old[a].0@ != x.0@);
        } else if a < p {
            assert(old[a].0@ != old[b - 1].0@);
        } else if a == p {
            assert(old[b - 1].0@ != x.0@);
        } else {
            assert(old[a - 1].0@ != old[b - 1].0@);
        }
    }
}

proof fn lemma_insert_keeps_pairs(
    old: Seq<(String, ToolMetrics)>,
    p: int,
    src: Seq<(String, ToolMetrics)>,
    i: int,
)
    requires
        0 <= p <= old.len(),
        0 <= i < src.len(),
        pairs_within(src.subrange(0, i), old),
        pairs_within(old, src.subrange(0, i)),
    ensures
        pairs_within(src.subrange(0, i + 1), old.insert(p, src[i])),
        pairs_within(old.insert(p, src[i]), src.subrange(0, i + 1)),
{
    let nv = old.insert(p, src[i]);
    old.insert_ensures(p, src[i]);
    lemma_insert_index(old, p, src[i]);
    let pre = src.subrange(0, i);
    let cur = src.subrange(0, i + 1);
    assert forall|k: int| 0 <= k < cur.len() implies #[trigger] pair_in(cur[k], nv) by {
        if k == i {
            assert(nv[p] == src[i] && cur[k] == src[i]);
        } else {
            assert(cur[k] == pre[k]);
            assert(pair_in(pre[k], old));
            let t = choose|t: int| 0 <= t < old.len() && pre[k].0@ == (#[trigger] old[t]).0@
                && pre[k].1 == old[t].1;
            if t < p {
                assert(nv[t] == old[t]);
            } else {
                assert(nv[t + 1] == old[t]);
            }
        }
    }
    assert forall|t: int| 0 <= t < nv.len() implies #[trigger] pair_in(nv[t], cur) by {
        if t == p {
            assert(nv[t] == src[i] && cur[i] == src[i]);
        } else {
            let u = if t < p {
                t
            } else {
                t - 1
            };
            assert(nv[t] == old[u]);
            assert(pair_in(old[u], pre));
            let k = choose|k: int| 0 <= k < pre.len() && old[u].0@ == (#[trigger] pre[k]).0@
                && old[u].1 == pre[k].1;
            assert(cur[k] == pre[k]);
        }
    }
}

proof fn lemma_pairs_same_map(a: Seq<(String, ToolMetrics)>, b: Seq<(String, ToolMetrics)>)
    requires
        distinct_names(a),
        distinct_names(b),
        pairs_within(a, b),
        pairs_within(b, a),
    ensures
        entries_map(a) == entries_map(b),
{
    assert forall|key: Seq<char>| #[trigger] entries_map(a).contains_key(key) implies entries_map(
        b,
    ).contains_key(key) && entries_map(b)[key] == entries_map(a)[key] by {
        if forall|i: int| 0 <= i < a.len() ==> #[trigger] a[i].0@ != key {
            lemma_entries_map_absent(a, key);
        }
        let i = choose|i: int| 0 <= i < a.len() && #[trigger] a[i].0@ == key;
        assert(pair_in(a[i], b));
        let j = choose|j: int| 0 <= j < b.len() && a[i].0@ == (#[trigger] b[j]).0@ && a[i].1 == b[j].1;
        lemma_entries_map_get(a, i);
        lemma_entries_map_get(b, j);
    }
    assert forall|key: Seq<char>| #[trigger] entries_map(b).contains_key(key) implies entries_map(
        a,
    ).contains_key(key) by {
        if forall|j: int| 0 <= j < b.len() ==> #[trigger] b[j].0@ != key {
            lemma_entries_map_absent(b, key);
        }
        let j = choose|j: int| 0 <= j < b.len() && #[trigger] b[j].0@ == key;
        assert(pair_in(b[j], a));
        let i = choose|i: int| 0 <= i < a.len() && b[j].0@ == (#[trigger] a[i]).0@ && b[j].1 == a[i].1;
        lemma_entries_map_get(a, i);
    }
    assert(entries_map(a) =~= entries_map(b));
}

impl ToolTally {
    /// The tallies as `(tool, tally)` pairs in name order, as the session
    /// summary lists them.
    pub fn sorted_entries(&self) -> (r: Vec<(String, ToolMetrics)>)
        requires
            self.wf(),
        ensures
            distinct_names(r@),
            rows_sorted(r@),
            entries_map(r@) == self.counts(),
    {
        let ghost src = self.entries@;
        let mut out: Vec<(String, ToolMetrics)> = Vec::new();
        let mut i: usize = 0;
        assert(src.subrange(0, 0).len() == 0);
        while i < self.entries.len()
            invariant
                src == self.entries@,
                distinct_names(src),
                i <= src.len(),
                distinct_names(out@),
                rows_sorted(out@),
                pairs_within(src.subrange(0, i as int), out@),
                pairs_within(out@, src.subrange(0, i as int)),
            decreases src.len() - i,
        {
            let name = self.entries[i].0.clone();
            let m = self.entries[i].1;
            let mut p: usize = 0;
            while p < out.len() && name_le_exec(out[p].0.as_str(), name.as_str())
                invariant
                    p <= out@.len(),
                    forall|t: int| 0 <= t < p ==> name_le(#[trigger] out@[t].0@, name@),
                decreases out@.len() - p,
            {
                p = p + 1;
            }
            let ghost old_out = out@;
            proof {
                assert forall|t: int| 0 <= t < old_out.len() implies #[trigger] old_out[t].0@
                    != name@ by {
                    let pre = src.subrange(0, i as int);
                    assert(pair_in(old_out[t], pre));
                    let k = choose|k: int| 0 <= k < pre.len() && old_out[t].0@ == (
                    #[trigger] pre[k]).0@ && old_out[t].1 == pre[k].1;
                    assert(pre[k] == src[k]);
                    assert(src[k].0@ != src[i as int].0@);
                }
                lemma_insert_keeps_order(old_out, p as int, (name, m));
                lemma_insert_keeps_pairs(old_out, p as int, src, i as int);
            }
            out.insert(p, (name, m));
            assert(out@ == old_out.insert(p as int, src[i as int]));
            i = i + 1;
        }
        proof {
            assert(src.subrange(0, src.len() as int) =~= src);
            lemma_pairs_same_map(out@, src);
        }
        out
    }
}

/// The total duration and total output of the rows, each capped at
/// `u64::MAX`.
pub fn summary_totals(rows: &Vec<(String, ToolMetrics)>) -> (r: (u64, u64))
    ensures
        r.0 == cap_u64(total_duration(rows@)),
        r.1 == cap_u64(total_output(rows@)),
{
    let mut d: u64 = 0;
    let mut o: u64 = 0;
    let mut i: usize = 0;
    while i < rows.len()
        invariant
            i <= rows@.len(),
            d == cap_u64(total_duration(rows@.subrange(0, i as int))),
            o == cap_u64(total_output(rows@.subrange(0, i as int))),
        decreases rows@.len() - i,
    {
        let ghost cur = rows@.subrange(0, i + 1);
        assert(cur.drop_last() =~= rows@.subrange(0, i as int));
        assert(cur.last() == rows@[i as int]);
        d = d.saturating_add(rows[i].1.duration_ms);
        o = o.saturating_add(rows[i].1.output_chars);
        i = i + 1;
    }
    assert(rows@.subrange(0, rows@.len() as int) =~= rows@);
    (d, o)
}

// ---------------------------------------------------------------------------
// Paths
// ---------------------------------------------------------------------------

/// The number of non-empty segments other than `.`.
pub open spec fn normal_segments(segs: Seq<Seq<char>>) -> nat
    decreases segs.len(),
{
    if segs.len() == 0 {
        0
    } else {
        normal_segments(segs.drop_last()) + if segs.last().len() > 0 && segs.last() != "."@ {
            1nat
        } else {
            0nat
        }
    }
}

/// The number of components of a Unix path, as `Path::components` counts
/// them: a root, a leading `.` of a relative path, and every non-empty
/// segment other than `.`.
pub open spec fn component_count(p: Seq<char>) -> nat {
    let segs = crate::text::split_on(p, '/');
    let rooted = p.len() > 0 && p[0] == '/';
    normal_segments(segs) + (if rooted {
        1nat
    } else if segs[0] == "."@ {
        1nat
    } else {
        0nat
    })
}

/// Counts the components of a (Unix) path.
pub fn path_component_count(path: &str) -> (r: usize)
    ensures
        r as nat == component_count(path@),
{
    let p = chars_of(path);
    let segs = crate::text::split_chars(p.as_slice(), '/');
    let ghost sv = crate::text::views(segs@);
    let mut n: usize = 0;
    let mut i: usize = 0;
    while i < segs.len()
        invariant
            i <= segs@.len(),
            sv == crate::text::views(segs@),
            n as nat == normal_segments(sv.subrange(0, i as int)),
            n <= i,
            i > 0 && !(sv[0].len() > 0 && sv[0] != "."@) ==> n < i,
        decreases segs@.len() - i,
    {
        let ghost cur = sv.subrange(0, i + 1);
        assert(cur.drop_last() =~= sv.subrange(0, i as int));
        assert(cur.last() == segs@[i as int]@);
        if segs[i].len() > 0 && !crate::text::chars_eq(segs[i].as_slice(), ".") {
            n = n + 1;
        }
        i = i + 1;
    }
    assert(sv.subrange(0, segs@.len() as int) =~= sv);
    assert(sv[0] == segs@[0]@);
    let rooted = p.len() > 0 && p[0] == '/';
    if rooted || crate::text::chars_eq(segs[0].as_slice(), ".") {
        proof {
            if rooted {
                assert(crate::text::find_char(p@, '/', 0) == 0);
                assert(sv[0] == p@.subrange(0, 0));
            }
        }
        n + 1
    } else {
        n
    }
}

/// The last segment that is neither empty nor `.`.
pub open spec fn last_component(segs: Seq<Seq<char>>) -> Option<Seq<char>>
    decreases segs.len(),
{
    if segs.len() == 0 {
        None
    } else if segs.last().len() > 0 && segs.last() != "."@ {
        Some(segs.last())
    } else {
        last_component(segs.drop_last())
    }
}

/// The last component of a Unix path when it is a name (not `..`), as
/// `Path::file_name` gives it.
pub open spec fn file_name_of(p: Seq<char>) -> Option<Seq<char>> {
    match last_component(crate::text::split_on(p, '/')) {
        Some(n) => if n == ".."@ {
            None
        } else {
            Some(n)
        },
        None => None,
    }
}

/// Index of the last `.` in `s` before position `k`, or -1.
pub open spec fn last_dot(s: Seq<char>, k: int) -> int
    decreases k,
{
    if k <= 0 || k > s.len() {
        -1
    } else if s[k - 1] == '.' {
        k - 1
    } else {
        last_dot(s, k - 1)
    }
}

/// The extension of a file name as `Path::extension` gives it: the part
/// after the last `.`, unless there is no `.` or the only one starts the name.
pub open spec fn extension_of(name: Seq<char>) -> Option<Seq<char>> {
    let i = last_dot(name, name.len() as int);
    if i <= 0 {
        None
    } else {
        Some(name.subrange(i + 1, name.len() as int))
    }
}

/// `c` with ASCII letters lowercased.
pub open spec fn ascii_lower(c: char) -> char {
    if 'A' <= c <= 'Z' {
        ((c as u32) + 32) as char
    } else {
        c
    }
}

/// The supported extension equal to `e` ignoring ASCII case, with its
/// language key.
pub open spec fn lookup_extension(e: Seq<char>) -> Option<(Seq<char>, Seq<char>)> {
    let l = e.map_values(|c: char| ascii_lower(c));
    if l == "rs"@ {
        Some(("rs"@, "rust"@))
    } else if l == "py"@ {
        Some(("py"@, "python"@))
    } else if l == "ts"@ {
        Some(("ts"@, "typescript"@))
    } else if l == "tsx"@ {
        Some(("tsx"@, "tsx"@))
    } else if l == "go"@ {
        Some(("go"@, "go"@))
    } else if l == "java"@ {
        Some(("java"@, "java"@))
    } else if l == "kt"@ {
        Some(("kt"@, "kotlin"@))
    } else if l == "kts"@ {
        Some(("kts"@, "kotlin"@))
    } else if l == "f"@ {
        Some(("f"@, "fortran"@))
    } else if l == "f77"@ {
        Some(("f77"@, "fortran"@))
    } else if l == "f90"@ {
        Some(("f90"@, "fortran"@))
    } else if l == "f95"@ {
        Some(("f95"@, "fortran"@))
    } else if l == "f03"@ {
        Some(("f03"@, "fortran"@))
    } else if l == "f08"@ {
        Some(("f08"@, "fortran"@))
    } else if l == "for"@ {
        Some(("for"@, "fortran"@))
    } else if l == "ftn"@ {
        Some(("ftn"@, "fortran"@))
    } else if l == "js"@ {
        Some(("js"@, "javascript"@))
    } else if l == "mjs"@ {
        Some(("mjs"@, "javascript"@))
    } else if l == "cjs"@ {
        Some(("cjs"@, "javascript"@))
    } else if l == "c"@ {
        Some(("c"@, "cpp"@))
    } else if l == "cc"@ {
        Some(("cc"@, "cpp"@))
    } else if l == "cpp"@ {
        Some(("cpp"@, "cpp"@))
    } else if l == "cxx"@ {
        Some(("cxx"@, "cpp"@))
    } else if l == "h"@ {
        Some(("h"@, "cpp"@))
    } else if l == "hpp"@ {
        Some(("hpp"@, "cpp"@))
    } else if l == "hxx"@ {
        Some(("hxx"@, "cpp"@))
    } else if l == "cs"@ {
        Some(("cs"@, "csharp"@))
    } else if l == "md"@ {
        Some(("md"@, "markdown"@))
    } else if l == "mdx"@ {
        Some(("mdx"@, "markdown"@))
    } else if l == "html"@ {
        Some(("html"@, "html"@))
    } else if l == "htm"@ {
        Some(("htm"@, "html"@))
    } else if l == "css"@ {
        Some(("css"@, "css"@))
    } else if l == "yaml"@ {
        Some(("yaml"@, "yaml"@))
    } else if l == "yml"@ {
        Some(("yml"@, "yaml"@))
    } else if l == "astro"@ {
        Some(("astro"@, "astro"@))
    } else if l == "json"@ {
        Some(("json"@, "json"@))
    } else if l == "toml"@ {
        Some(("toml"@, "toml"@))
    } else {
        None
    }
}

/// Does `e` equal the lowercase ASCII word `w` ignoring ASCII case?
fn ascii_lower_eq(e: &[char], w: &str) -> (r: bool)
    ensures
        r == (e@.map_values(|c: char| ascii_lower(c)) == w@),
{
    let wv = chars_of(w);
    if e.len() != wv.len() {
        return false;
    }
    let mut i: usize = 0;
    while i < e.len()
        invariant
            wv@ == w@,
            e@.len() == wv@.len(),
            i <= e@.len(),
            forall|k: int| 0 <= k < i ==> #[trigger] ascii_lower(e@[k]) == wv@[k],
        decreases e@.len() - i,
    {
        let c = e[i];
        let lc = if 'A' <= c && c <= 'Z' {
            ((c as u8) + 32) as char
        } else {
            c
        };
        assert(lc == ascii_lower(c));
        if lc != wv[i] {
            assert(e@.map_values(|c: char| ascii_lower(c))[i as int] != wv@[i as int]);
            return false;
        }
        i = i + 1;
    }
    assert(e@.map_values(|c: char| ascii_lower(c)) =~= wv@);
    true
}

/// The supported extension matching `e` ignoring ASCII case, with its
/// language key.
fn known_extension(e: &[char]) -> (r: Option<(&'static str, &'static str)>)
    ensures
        match r {
            Some((x, l)) => lookup_extension(e@) == Some((x@, l@)),
            None => lookup_extension(e@) is None,
        },
{
    if ascii_lower_eq(e, "rs") {
        return Some(("rs", "rust"));
    }
    if ascii_lower_eq(e, "py") {
        return Some(("py", "python"));
    }
    if ascii_lower_eq(e, "ts") {
        return Some(("ts", "typescript"));
    }
    if ascii_lower_eq(e, "tsx") {
        return Some(("tsx", "tsx"));
    }
    if ascii_lower_eq(e, "go") {
        return Some(("go", "go"));
    }
    if ascii_lower_eq(e, "java") {
        return Some(("java", "java"));
    }
    if ascii_lower_eq(e, "kt") {
        return Some(("kt", "kotlin"));
    }
    if ascii_lower_eq(e, "kts") {
        return Some(("kts", "kotlin"));
    }
    if ascii_lower_eq(e, "f") {
        return Some(("f", "fortran"));
    }
    if ascii_lower_eq(e, "f77") {
        return Some(("f77", "fortran"));
    }
    if ascii_lower_eq(e, "f90") {
        return Some(("f90", "fortran"));
    }
    if ascii_lower_eq(e, "f95") {
        return Some(("f95", "fortran"));
    }
    if ascii_lower_eq(e, "f03") {
        return Some(("f03", "fortran"));
    }
    if ascii_lower_eq(e, "f08") {
        return Some(("f08", "fortran"));
    }
    if ascii_lower_eq(e, "for") {
        return Some(("for", "fortran"));
    }
    if ascii_lower_eq(e, "ftn") {
        return Some(("ftn", "fortran"));
    }
    if ascii_lower_eq(e, "js") {
        return Some(("js", "javascript"));
    }
    if ascii_lower_eq(e, "mjs") {
        return Some(("mjs", "javascript"));
    }
    if ascii_lower_eq(e, "cjs") {
        return Some(("cjs", "javascript"));
    }
    if ascii_lower_eq(e, "c") {
        return Some(("c", "cpp"));
    }
    if ascii_lower_eq(e, "cc") {
        return Some(("cc", "cpp"));
    }
    if ascii_lower_eq(e, "cpp") {
        return Some(("cpp", "cpp"));
    }
    if ascii_lower_eq(e, "cxx") {
        return Some(("cxx", "cpp"));
    }
    if ascii_lower_eq(e, "h") {
        return Some(("h", "cpp"));
    }
    if ascii_lower_eq(e, "hpp") {
        return Some(("hpp", "cpp"));
    }
    if ascii_lower_eq(e, "hxx") {
        return Some(("hxx", "cpp"));
    }
    if ascii_lower_eq(e, "cs") {
        return Some(("cs", "csharp"));
    }
    if ascii_lower_eq(e, "md") {
        return Some(("md", "markdown"));
    }
    if ascii_lower_eq(e, "mdx") {
        return Some(("mdx", "markdown"));
    }
    if ascii_lower_eq(e, "html") {
        return Some(("html", "html"));
    }
    if ascii_lower_eq(e, "htm") {
        return Some(("htm", "html"));
    }
    if ascii_lower_eq(e, "css") {
        return Some(("css", "css"));
    }
    if ascii_lower_eq(e, "yaml") {
        return Some(("yaml", "yaml"));
    }
    if ascii_lower_eq(e, "yml") {
        return Some(("yml", "yaml"));
    }
    if ascii_lower_eq(e, "astro") {
        return Some(("astro", "astro"));
    }
    if ascii_lower_eq(e, "json") {
        return Some(("json", "json"));
    }
    if ascii_lower_eq(e, "toml") {
        return Some(("toml", "toml"));
    }
    None
}

/// The non-empty extension of a path's file name, if any.
pub open spec fn nonempty_extension(p: Seq<char>) -> Option<Seq<char>> {
    match file_name_of(p) {
        None => None,
        Some(n) => match extension_of(n) {
            None => None,
            Some(e) => if e.len() == 0 {
                None
            } else {
                Some(e)
            },
        },
    }
}

/// The metric extension label of a path: the supported extension
/// (lowercase) its file name ends in, `other` for any other extension, and
/// none when the file name has no (or an empty) extension.
pub open spec fn file_ext_label(p: Seq<char>) -> Option<Seq<char>> {
    match nonempty_extension(p) {
        None => None,
        Some(e) => match lookup_extension(e) {
            Some((k, _)) => Some(k),
            None => Some("other"@),
        },
    }
}

/// The language key of a path's extension, when it is supported.
pub open spec fn file_language(p: Seq<char>) -> Option<Seq<char>> {
    match nonempty_extension(p) {
        None => None,
        Some(e) => match lookup_extension(e) {
            Some((_, l)) => Some(l),
            None => None,
        },
    }
}

/// The file name's non-empty extension, as characters.
fn path_extension(path: &str) -> (r: Option<Vec<char>>)
    ensures
        match r {
            Some(e) => nonempty_extension(path@) == Some(e@),
            None => nonempty_extension(path@) is None,
        },
{
    let p = chars_of(path);
    let segs = crate::text::split_chars(p.as_slice(), '/');
    let ghost sv = crate::text::views(segs@);
    let mut i = segs.len();
    assert(sv.subrange(0, i as int) =~= sv);
    while i > 0 && !(segs[i - 1].len() > 0 && !crate::text::chars_eq(segs[i - 1].as_slice(), "."))
        invariant
            i <= segs@.len(),
            sv == crate::text::views(segs@),
            last_component(sv.subrange(0, i as int)) == last_component(sv),
        decreases i,
    {
        let ghost cur = sv.subrange(0, i as int);
        assert(cur.drop_last() =~= sv.subrange(0, i - 1));
        assert(cur.last() == segs@[i - 1]@);
        i = i - 1;
    }
    proof {
        assert(sv.subrange(0, segs@.len() as int) =~= sv);
    }
    if i == 0 {
        assert(sv.subrange(0, 0).len() == 0);
        return None;
    }
    let name = &segs[i - 1];
    proof {
        let cur = sv.subrange(0, i as int);
        assert(cur.last() == name@);
    }
    if crate::text::chars_eq(name.as_slice(), "..") {
        return None;
    }
    let mut k = name.len();
    while k > 0 && name[k - 1] != '.'
        invariant
            k <= name@.len(),
            last_dot(name@, k as int) == last_dot(name@, name@.len() as int),
        decreases k,
    {
        k = k - 1;
    }
    if k <= 1 {
        return None;
    }
    let e = crate::text::slice_chars(name.as_slice(), k, name.len());
    if e.len() == 0 {
        return None;
    }
    Some(e)
}

/// The metric extension label of a path: `Some("rs")` for `src/main.rs`
/// (and `src/main.RS`), `Some("other")` for an unsupported extension, `None`
/// without one.
pub fn path_file_ext(file_path: &str) -> (r: Option<&'static str>)
    ensures
        match r {
            Some(x) => file_ext_label(file_path@) == Some(x@),
            None => file_ext_label(file_path@) is None,
        },
{
    match path_extension(file_path) {
        None => None,
        Some(e) => match known_extension(e.as_slice()) {
            Some((x, _)) => Some(x),
            None => Some("other"),
        },
    }
}

/// The language key of a path's extension (`rust` for `.rs`), or `None`.
pub fn path_language(path: &str) -> (r: Option<String>)
    ensures
        match r {
            Some(x) => file_language(path@) == Some(x@),
            None => file_language(path@) is None,
        },
{
    match path_extension(path) {
        None => None,
        Some(e) => match known_extension(e.as_slice()) {
            Some((_, l)) => Some(l.to_owned()),
            None => None,
        },
    }
}

// ---------------------------------------------------------------------------
// Dates
// ---------------------------------------------------------------------------

/// Days from 1970-01-01 to the proleptic Gregorian date `y-m-d`, by the
/// era-based day-of-era count (a year runs from March so that the leap day
/// ends it).
pub open spec fn days_from_civil(y: int, m: int, d: int) -> int {
    let y2 = if m <= 2 {
        y - 1
    } else {
        y
    };
    let m2 = if m <= 2 {
        m + 9
    } else {
        m - 3
    };
    let era = y2 / 400;
    let yoe = y2 - era * 400;
    let doy = (153 * m2 + 2) / 5 + d - 1;
    let doe = yoe * 365 + yoe / 4 - yoe / 100 + doy;
    era * 146097 + doe - 719468
}

/// Days since 1970-01-01 of the date `y-m-d` (0 for dates before it).
pub fn date_to_days_since_epoch(y: u32, m: u32, d: u32) -> (r: u32)
    requires
        1 <= m <= 12,
        1 <= d <= 31,
        m <= 2 ==> 1 <= y <= 11_759_200,
        m > 2 ==> y <= 11_759_199,
    ensures
        r == (if days_from_civil(y as int, m as int, d as int) < 0 {
            0
        } else {
            days_from_civil(y as int, m as int, d as int)
        }),
{
    let (y2, m2) = if m <= 2 {
        (y - 1, m + 9)
    } else {
        (y, m - 3)
    };
    let era = y2 / 400;
    let yoe = y2 - era * 400;
    let doy = (153 * m2 + 2) / 5 + d - 1;
    let doe = yoe * 365 + yoe / 4 - yoe / 100 + doy;
    assert(era * 146_097 + doe <= u32::MAX) by (nonlinear_arith)
        requires
            y2 <= 11_759_199,
            era == y2 / 400,
            yoe == y2 - era * 400,
            0 <= yoe < 400,
            doy <= 367,
            doe == yoe * 365 + yoe / 4 - yoe / 100 + doy,
    ;
    let total = era * 146_097 + doe;
    if total >= 719_468 {
        total - 719_468
    } else {
        0
    }
}

/// The date of day `z` counted from 0000-03-01: `(year, month, day)`.
pub open spec fn civil_from_shifted(z: int) -> (int, int, int) {
    let era = z / 146097;
    let doe = z - era * 146097;
    let yoe = (doe - doe / 1460 + doe / 36524 - doe / 146096) / 365;
    let y = yoe + era * 400;
    let doy = doe - (365 * yoe + yoe / 4 - yoe / 100);
    let mp = (5 * doy + 2) / 153;
    let d = doy - (153 * mp + 2) / 5 + 1;
    let m = if mp < 10 {
        mp + 3
    } else {
        mp - 9
    };
    (if m <= 2 {
        y + 1
    } else {
        y
    }, m, d)
}

/// The date `days` days after 1970-01-01.
pub open spec fn civil_from_days(days: int) -> (int, int, int) {
    civil_from_shifted(days + 719468)
}

proof fn lemma_day_of_era(doe: int)
    requires
        0 <= doe <= 146096,
    ensures
        ({
            let yoe = (doe - doe / 1460 + doe / 36524 - doe / 146096) / 365;
            let doy = doe - (365 * yoe + yoe / 4 - yoe / 100);
            0 <= yoe <= 399 && 0 <= doy <= 365
        }),
{
    let a = doe / 1460;
    let b = doe / 36524;
    let c = doe / 146096;
    let t = doe - a + b - c;
    let yoe = t / 365;
    assert(0 <= yoe <= 399 && 0 <= doe - (365 * yoe + yoe / 4 - yoe / 100) <= 365) by (nonlinear_arith)
        requires
            0 <= doe <= 146096,
            a == doe / 1460,
            b == doe / 36524,
            c == doe / 146096,
            t == doe - a + b - c,
            yoe == t / 365,
    ;
}

proof fn lemma_month_of_year(doy: int)
    requires
        0 <= doy <= 365,
    ensures
        ({
            let mp = (5 * doy + 2) / 153;
            let d = doy - (153 * mp + 2) / 5 + 1;
            0 <= mp <= 11 && 1 <= d <= 31
        }),
{
    let mp = (5 * doy + 2) / 153;
    assert(0 <= mp <= 11 && 1 <= doy - (153 * mp + 2) / 5 + 1 <= 31) by (nonlinear_arith)
        requires
            0 <= doy <= 365,
            mp == (5 * doy + 2) / 153,
    ;
}

/// A date as `(year, month, day)`.
pub fn civil_from_days_exec(days: u32) -> (r: (u32, u32, u32))
    requires
        days <= u32::MAX - 719_468,
    ensures
        (r.0 as int, r.1 as int, r.2 as int) == civil_from_days(days as int),
        1 <= r.1 <= 12,
        1 <= r.2 <= 31,
{
    let z = days + 719_468;
    let era = z / 146_097;
    let doe = z - era * 146_097;
    proof {
        lemma_day_of_era(doe as int);
    }
    let yoe = (doe - doe / 1460 + doe / 36_524 - doe / 146_096) / 365;
    let y = yoe + era * 400;
    let doy = doe - (365 * yoe + yoe / 4 - yoe / 100);
    proof {
        lemma_month_of_year(doy as int);
    }
    let mp = (5 * doy + 2) / 153;
    let d = doy - (153 * mp + 2) / 5 + 1;
    let m = if mp < 10 {
        mp + 3
    } else {
        mp - 9
    };
    let y = if m <= 2 {
        y + 1
    } else {
        y
    };
    (y, m, d)
}

/// Counting days from 1970-01-01 undoes `civil_from_days`: the date of day
/// `n` is `n` days after the epoch.
pub proof fn law_civil_days_round_trip(n: int)
    requires
        n >= -719468,
    ensures
        ({
            let (y, m, d) = civil_from_days(n);
            days_from_civil(y, m, d) == n
        }),
{
    let z = n + 719468;
    let era = z / 146097;
    let doe = z - era * 146097;
    assert(0 <= doe <= 146096 && era >= 0) by (nonlinear_arith)
        requires
            z >= 0,
            era == z / 146097,
            doe == z - era * 146097,
    ;
    lemma_day_of_era(doe);
    let yoe = (doe - doe / 1460 + doe / 36524 - doe / 146096) / 365;
    let doy = doe - (365 * yoe + yoe / 4 - yoe / 100);
    lemma_month_of_year(doy);
    let mp = (5 * doy + 2) / 153;
    let y0 = yoe + era * 400;
    assert(y0 / 400 == era && y0 - (y0 / 400) * 400 == yoe) by (nonlinear_arith)
        requires
            0 <= yoe <= 399,
            era >= 0,
            y0 == yoe + era * 400,
    ;
    let (y, m, d) = civil_from_days(n);
    assert(y == (if m <= 2 { y0 + 1 } else { y0 }));
    assert((if m <= 2 { m + 9 } else { m - 3 }) == mp);
}

/// Is `y` a leap year of the Gregorian calendar?
pub open spec fn is_leap_year(y: int) -> bool {
    y % 4 == 0 && (y % 100 != 0 || y % 400 == 0)
}

/// The number of days of month `m` (1-based) of year `y`.
pub open spec fn days_in_month(y: int, m: int) -> int {
    if m == 2 {
        if is_leap_year(y) {
            29
        } else {
            28
        }
    } else if m == 4 || m == 6 || m == 9 || m == 11 {
        30
    } else {
        31
    }
}

/// Is `y-m-d` a date of the Gregorian calendar?
pub open spec fn is_valid_date(y: int, m: int, d: int) -> bool {
    1 <= m <= 12 && 1 <= d <= days_in_month(y, m)
}

/// The year of an era is found again from its day of the era.
proof fn lemma_year_of_era(yoe: int, doy: int)
    requires
        0 <= yoe <= 399,
        0 <= doy <= 364 || (doy == 365 && (yoe + 1) % 4 == 0 && ((yoe + 1) % 100 != 0 || yoe == 399)),
    ensures
        ({
            let doe = 365 * yoe + yoe / 4 - yoe / 100 + doy;
            &&& 0 <= doe <= 146096
            &&& (doe - doe / 1460 + doe / 36524 - doe / 146096) / 365 == yoe
        }),
{
    let c = yoe / 100;
    let t = yoe % 100;
    let q = t / 4;
    let r = t % 4;
    assert(yoe == 100 * c + 4 * q + r && 0 <= c <= 3 && 0 <= q <= 24 && 0 <= r <= 3) by (nonlinear_arith)
        requires
            0 <= yoe <= 399,
            c == yoe / 100,
            t == yoe % 100,
            q == t / 4,
            r == t % 4,
    ;
    assert(yoe / 4 == 25 * c + q && yoe / 100 == c) by (nonlinear_arith)
        requires
            yoe == 100 * c + 4 * q + r,
            0 <= c <= 3,
            0 <= q <= 24,
            0 <= r <= 3,
    ;
    let k = 25 * c + q;
    let doe = 365 * yoe + yoe / 4 - yoe / 100 + doy;
    assert(doe == 1460 * k + (k - c + 365 * r + doy));
    // the leap day only ends a year whose number (counted from 1) is a
    // multiple of four, and not of a hundred unless it ends the era
    assert(doy == 365 ==> r == 3) by {
        if doy == 365 {
            assert((yoe + 1) % 4 == 0);
        }
    }
    assert(doy == 365 && q == 24 ==> c == 3) by {
        if doy == 365 && q == 24 {
            assert(yoe == 100 * c + 99);
            assert((yoe + 1) % 100 == 0);
        }
    }
    let a = doe / 1460;
    let b = doe / 36524;
    let cc = doe / 146096;
    if doy == 365 && q == 24 {
        assert(yoe == 399);
        assert(doe == 146096);
        assert(a == 100 && b == 4 && cc == 1);
        assert(doe - a + b - cc == 365 * yoe + 364);
    } else {
        assert(0 <= doe < 146096);
        assert(cc == 0);
        assert(1461 * q + 365 * r + doy < 36524);
        assert(doe == 36524 * c + (1461 * q + 365 * r + doy));
        assert(b == c);
        if k - c + 365 * r + doy >= 1460 {
            assert(a == k + 1);
            assert(doy >= 1);
            assert(doe - a + b - cc == 365 * yoe + doy - 1);
        } else {
            assert(a == k);
            assert(doe - a + b - cc == 365 * yoe + doy);
        }
    }
}

/// The month and day of a day of the year (counted from March 1) are found
/// again.
proof fn lemma_month_of_day(m2: int, d: int)
    requires
        0 <= m2 <= 11,
        1 <= d <= (if m2 == 11 {
            29int
        } else if m2 == 1 || m2 == 3 || m2 == 6 || m2 == 8 {
            30int
        } else {
            31int
        }),
    ensures
        ({
            let doy = (153 * m2 + 2) / 5 + d - 1;
            &&& (5 * doy + 2) / 153 == m2
            &&& doy - (153 * m2 + 2) / 5 + 1 == d
            &&& 0 <= doy <= 365
            &&& (doy == 365 ==> m2 == 11 && d == 29)
        }),
{
    let base = (153 * m2 + 2) / 5;
    if m2 == 0 {
        assert(base == 0);
    } else if m2 == 1 {
        assert(base == 31);
    } else if m2 == 2 {
        assert(base == 61);
    } else if m2 == 3 {
        assert(base == 92);
    } else if m2 == 4 {
        assert(base == 122);
    } else if m2 == 5 {
        assert(base == 153);
    } else if m2 == 6 {
        assert(base == 184);
    } else if m2 == 7 {
        assert(base == 214);
    } else if m2 == 8 {
        assert(base == 245);
    } else if m2 == 9 {
        assert(base == 275);
    } else if m2 == 10 {
        assert(base == 306);
    } else {
        assert(base == 337);
    }
}

/// Counting the days of a date and reading the date of that day gives the
/// date back, for every date of the (proleptic) Gregorian calendar.
pub proof fn law_days_civil_round_trip(y: int, m: int, d: int)
    requires
        is_valid_date(y, m, d),
    ensures
        civil_from_days(days_from_civil(y, m, d)) == (y, m, d),
{
    let y2 = if m <= 2 {
        y - 1
    } else {
        y
    };
    let m2 = if m <= 2 {
        m + 9
    } else {
        m - 3
    };
    let era = y2 / 400;
    let yoe = y2 - era * 400;
    assert(0 <= yoe <= 399) by (nonlinear_arith)
        requires
            era == y2 / 400,
            yoe == y2 - era * 400,
    ;
    lemma_month_of_day(m2, d);
    let doy = (153 * m2 + 2) / 5 + d - 1;
    // a 29th day of February is a leap day of the civil year y2 + 1
    if doy == 365 {
        assert(m == 2 && d == 29);
        assert(is_leap_year(y));
        assert(y == y2 + 1);
        assert((yoe + 1) % 4 == 0 && ((yoe + 1) % 100 != 0 || yoe == 399)) by (nonlinear_arith)
            requires
                y2 == era * 400 + yoe,
                0 <= yoe <= 399,
                (y2 + 1) % 4 == 0,
                (y2 + 1) % 100 != 0 || (y2 + 1) % 400 == 0,
        ;
    }
    lemma_year_of_era(yoe, doy);
    let doe = 365 * yoe + yoe / 4 - yoe / 100 + doy;
    let z = era * 146097 + doe;
    assert(days_from_civil(y, m, d) + 719468 == z);
    assert(z / 146097 == era && z - (z / 146097) * 146097 == doe) by (nonlinear_arith)
        requires
            z == era * 146097 + doe,
            0 <= doe <= 146096,
    ;
    let yoe2 = (doe - doe / 1460 + doe / 36524 - doe / 146096) / 365;
    assert(yoe2 == yoe);
    assert(yoe2 + era * 400 == y2);
}

/// `n` in decimal, zero-padded on the left to at least `w` digits.
pub open spec fn padded(n: nat, w: nat) -> Seq<char> {
    let digits = decimal(n);
    if digits.len() < w {
        Seq::new((w - digits.len()) as nat, |i: int| '0') + digits
    } else {
        digits
    }
}

fn push_padded(v: &mut Vec<char>, n: u64, w: usize)
    ensures
        final(v)@ == old(v)@ + padded(n as nat, w as nat),
{
    let mut digits: Vec<char> = Vec::new();
    push_decimal(&mut digits, n);
    assert(digits@ == decimal(n as nat));
    if digits.len() < w {
        let zeros = w - digits.len();
        let mut k: usize = 0;
        while k < zeros
            invariant
                k <= zeros,
                v@ == old(v)@ + Seq::new(k as nat, |i: int| '0'),
            decreases zeros - k,
        {
            v.push('0');
            k = k + 1;
            assert(v@ =~= old(v)@ + Seq::new(k as nat, |i: int| '0'));
        }
    }
    let ghost before = v@;
    crate::text::push_all(v, digits.as_slice());
    assert(v@ =~= old(v)@ + padded(n as nat, w as nat));
}

/// The text `YYYY-MM-DD` of a date, each part zero-padded.
pub open spec fn date_text(y: nat, m: nat, d: nat) -> Seq<char> {
    padded(y, 4) + seq!['-'] + padded(m, 2) + seq!['-'] + padded(d, 2)
}

/// A number padded to `w` digits, when its rendering has at most `w`
/// digits, is `w` digits long and reads back as the number.
proof fn lemma_padded_value(n: nat, w: nat)
    requires
        1 <= w,
        decimal(n).len() <= w,
    ensures
        padded(n, w).len() == w,
        parse_unsigned(padded(n, w), u32::MAX as nat) == (if n <= u32::MAX {
            Some(n)
        } else {
            None::<nat>
        }),
{
    lemma_decimal_value(n);
    let digits = decimal(n);
    if digits.len() < w {
        lemma_leading_zeros((w - digits.len()) as nat, digits);
    }
    let p = padded(n, w);
    assert(all_digits(p) && digits_value(p) == n);
    assert(p[0] != '+');
}

/// The text of day `days` reads back as that day: it is `YYYY-MM-DD`, ten
/// characters with `-` at positions 4 and 7; its year, month and day fields
/// parse as the date's year, month (1 to 12) and day (1 to 31); and counting
/// days from 1970-01-01 to that date gives `days` again. Past year 9999 the
/// year field outgrows its four places, so the law covers days up to
/// 9999-12-31.
pub proof fn law_date_text_round_trip(days: int)
    requires
        days >= 0,
        civil_from_days(days).0 <= 9999,
    ensures
        ({
            let (y, m, d) = civil_from_days(days);
            let s = date_text(y as nat, m as nat, d as nat);
            &&& s.len() == 10
            &&& s[4] == '-'
            &&& s[7] == '-'
            &&& 1 <= m <= 12
            &&& 1 <= d <= 31
            &&& parse_unsigned(s.subrange(0, 4), u32::MAX as nat) == Some(y as nat)
            &&& parse_unsigned(s.subrange(5, 7), u32::MAX as nat) == Some(m as nat)
            &&& parse_unsigned(s.subrange(8, 10), u32::MAX as nat) == Some(d as nat)
            &&& days_from_civil(y, m, d) == days
        }),
{
    let z = days + 719468;
    let era = z / 146097;
    let doe = z - era * 146097;
    assert(0 <= doe <= 146096 && era >= 0) by (nonlinear_arith)
        requires
            z >= 0,
            era == z / 146097,
            doe == z - era * 146097,
    ;
    lemma_day_of_era(doe);
    let yoe = (doe - doe / 1460 + doe / 36524 - doe / 146096) / 365;
    let doy = doe - (365 * yoe + yoe / 4 - yoe / 100);
    lemma_month_of_year(doy);
    assert(yoe + era * 400 >= 0) by (nonlinear_arith)
        requires
            yoe >= 0,
            era >= 0,
    ;
    let (y, m, d) = civil_from_days(days);
    assert(0 <= y <= 9999 && 1 <= m <= 12 && 1 <= d <= 31);
    law_civil_days_round_trip(days);
    lemma_decimal_len(y as nat);
    lemma_decimal_len(m as nat);
    lemma_decimal_len(d as nat);
    lemma_padded_value(y as nat, 4);
    lemma_padded_value(m as nat, 2);
    lemma_padded_value(d as nat, 2);
    let s = date_text(y as nat, m as nat, d as nat);
    assert(s.subrange(0, 4) =~= padded(y as nat, 4));
    assert(s.subrange(5, 7) =~= padded(m as nat, 2));
    assert(s.subrange(8, 10) =~= padded(d as nat, 2));
}

/// The date `days` days after 1970-01-01 as `YYYY-MM-DD`.
pub fn date_str_from_days(days: u32) -> (r: String)
    requires
        days <= u32::MAX - 719_468,
    ensures
        ({
            let (y, m, d) = civil_from_days(days as int);
            r@ == date_text(y as nat, m as nat, d as nat)
        }),
{
    let (y, m, d) = civil_from_days_exec(days);
    let mut v: Vec<char> = Vec::new();
    push_padded(&mut v, y as u64, 4);
    v.push('-');
    push_padded(&mut v, m as u64, 2);
    v.push('-');
    push_padded(&mut v, d as u64, 2);
    string_of(v.as_slice())
}

/// Milliseconds in a day.
pub const MILLIS_PER_DAY: u64 = 86_400_000;

/// The last day count whose date the calendar arithmetic handles in `u32`.
pub const LAST_DATE_DAY: u32 = 4_294_247_827;

/// The day (counted from 1970-01-01) that a reading of `ms` milliseconds
/// since the epoch falls on, clamped to `LAST_DATE_DAY`.
pub open spec fn day_of_millis(ms: u64) -> int {
    if ms / MILLIS_PER_DAY > LAST_DATE_DAY {
        LAST_DATE_DAY as int
    } else {
        (ms / MILLIS_PER_DAY) as int
    }
}

/// The day a reading of `ms` milliseconds since the epoch falls on (whole
/// days since 1970-01-01, UTC), clamped to `LAST_DATE_DAY`.
pub fn day_of_epoch_millis(ms: u64) -> (r: u32)
    ensures
        r == day_of_millis(ms),
{
    let whole = ms / MILLIS_PER_DAY;
    if whole > LAST_DATE_DAY as u64 {
        LAST_DATE_DAY
    } else {
        whole as u32
    }
}

/// The `YYYY-MM-DD` text of the day a reading of `ms` milliseconds since the
/// epoch falls on.
pub open spec fn date_text_of_millis(ms: u64) -> Seq<char> {
    let (y, m, d) = civil_from_days(day_of_millis(ms));
    date_text(y as nat, m as nat, d as nat)
}

/// The date (UTC) of a reading of `ms` milliseconds since the epoch, as
/// `YYYY-MM-DD`.
pub fn date_str_from_millis(ms: u64) -> (r: String)
    ensures
        r@ == date_text_of_millis(ms),
{
    let days = day_of_epoch_millis(ms);
    date_str_from_days(days)
}

/// Today's date (UTC) as `YYYY-MM-DD`: `date_str_from_millis` of the system
/// clock's reading. Which reading that is depends on the time of the call,
/// so the contract names the text of some reading.
pub fn current_date_str() -> (r: String)
    ensures
        exists|ms: u64| r@ == #[trigger] date_text_of_millis(ms),
{
    let ms = unix_ms();
    date_str_from_millis(ms)
}

/// The date a metrics file name `metrics-YYYY-MM-DD.jsonl` carries (the
/// extension in any case), with month in 1..=12 and day in 1..=31.
pub open spec fn metrics_file_date(name: Seq<char>) -> Option<(nat, nat, nat)> {
    let jsonl = match extension_of(name) {
        Some(e) => e.map_values(|c: char| ascii_lower(c)) == "jsonl"@,
        None => false,
    };
    if !has_prefix(name, "metrics-"@) || !jsonl {
        None
    } else {
        let date = name.subrange(8, name.len() - 6);
        if date.len() != 10 || date[4] != '-' || date[7] != '-' {
            None
        } else {
            match (
                crate::text::parse_unsigned(date.subrange(0, 4), u32::MAX as nat),
                crate::text::parse_unsigned(date.subrange(5, 7), u32::MAX as nat),
                crate::text::parse_unsigned(date.subrange(8, 10), u32::MAX as nat),
            ) {
                (Some(y), Some(m), Some(d)) => if m == 0 || m > 12 || d == 0 || d > 31 {
                    None
                } else {
                    Some((y, m, d))
                },
                _ => None,
            }
        }
    }
}

/// Is a metrics file more than 30 days older than `now_days` (days since
/// the epoch)? Names that are not metrics files, and the year-zero dates in
/// January and February that precede the day count, are never expired.
pub open spec fn metrics_file_is_expired(name: Seq<char>, now_days: nat) -> bool {
    match metrics_file_date(name) {
        None => false,
        Some((y, m, d)) => if y == 0 && m <= 2 {
            false
        } else {
            let v = days_from_civil(y as int, m as int, d as int);
            let fd = if v < 0 {
                0
            } else {
                v
            };
            now_days > fd && now_days - fd > 30
        },
    }
}

/// Should the metrics cleanup delete the file `name`, `now_days` days after
/// the epoch?
pub fn metrics_file_expired(name: &str, now_days: u32) -> (r: bool)
    ensures
        r == metrics_file_is_expired(name@, now_days as nat),
{
    let v = chars_of(name);
    if !crate::text::starts_with(v.as_slice(), "metrics-") {
        return false;
    }
    proof {
        reveal_strlit("metrics-");
        reveal_strlit("jsonl");
    }
    let mut k = v.len();
    while k > 0 && v[k - 1] != '.'
        invariant
            k <= v@.len(),
            last_dot(v@, k as int) == last_dot(v@, v@.len() as int),
        decreases k,
    {
        k = k - 1;
    }
    if k <= 1 {
        return false;
    }
    let ext = crate::text::slice_chars(v.as_slice(), k, v.len());
    if !ascii_lower_eq(ext.as_slice(), "jsonl") {
        return false;
    }
    assert(v@.len() >= 14) by {
        assert(v@.subrange(0, 8) == "metrics-"@);
        assert(ext@.map_values(|c: char| ascii_lower(c)).len() == ext@.len());
        assert(ext@.len() == 5);
        if k - 1 < 8 {
            assert(v@[k - 1] == '.');
            assert(v@.subrange(0, 8)[k - 1] == v@[k - 1]);
        }
    }
    let date = crate::text::slice_chars(v.as_slice(), 8, v.len() - 6);
    if date.len() != 10 || date[4] != '-' || date[7] != '-' {
        return false;
    }
    let ys = crate::text::slice_chars(date.as_slice(), 0, 4);
    let ms = crate::text::slice_chars(date.as_slice(), 5, 7);
    let ds = crate::text::slice_chars(date.as_slice(), 8, 10);
    let y = crate::text::parse_unsigned_decimal(ys.as_slice(), u32::MAX as u64);
    let m = crate::text::parse_unsigned_decimal(ms.as_slice(), u32::MAX as u64);
    let d = crate::text::parse_unsigned_decimal(ds.as_slice(), u32::MAX as u64);
    match (y, m, d) {
        (Some(y), Some(m), Some(d)) => {
            if m == 0 || m > 12 || d == 0 || d > 31 {
                return false;
            }
            if y == 0 && m <= 2 {
                return false;
            }
            assert(y <= 9999) by {
                crate::text::lemma_four_digits_bound(ys@);
            }
            let fd = date_to_days_since_epoch(y as u32, m as u32, d as u32);
            now_days > fd && now_days - fd > 30
        },
        _ => false,
    }
}

// ---------------------------------------------------------------------------
// Where the metrics files live
// ---------------------------------------------------------------------------

/// `base` with `part` appended as a further path component, as
/// `Path::join` does for a relative `part` on Unix: a separator is put in
/// between unless `base` is empty or already ends with one.
pub open spec fn join_component(base: Seq<char>, part: Seq<char>) -> Seq<char> {
    if base.len() == 0 || base.last() == '/' {
        base + part
    } else {
        base + seq!['/'] + part
    }
}

/// The metrics directory: `$XDG_DATA_HOME/aptu-coder` when that variable is
/// set and not empty, else `$HOME/.local/share/aptu-coder`, else `.`.
pub open spec fn metrics_dir_of(xdg_data_home: Option<Seq<char>>, home: Option<Seq<char>>) -> Seq<
    char,
> {
    match xdg_data_home {
        Some(x) if x.len() > 0 => join_component(x, "aptu-coder"@),
        _ => match home {
            Some(h) => join_component(
                join_component(join_component(h, ".local"@), "share"@),
                "aptu-coder"@,
            ),
            None => "."@,
        },
    }
}

fn join_onto(v: &mut Vec<char>, part: &str)
    ensures
        final(v)@ == join_component(old(v)@, part@),
{
    if v.len() > 0 && v[v.len() - 1] != '/' {
        v.push('/');
    }
    push_str(v, part);
}

/// The metrics directory for the given values of `XDG_DATA_HOME` and
/// `HOME` (`None` when a variable is unset).
pub fn metrics_dir_path(xdg_data_home: Option<String>, home: Option<String>) -> (r: String)
    ensures
        r@ == metrics_dir_of(
            match xdg_data_home {
                Some(x) => Some(x@),
                None => None,
            },
            match home {
                Some(h) => Some(h@),
                None => None,
            },
        ),
{
    if let Some(x) = xdg_data_home {
        let mut v = chars_of(x.as_str());
        if v.len() > 0 {
            join_onto(&mut v, "aptu-coder");
            return string_of(v.as_slice());
        }
    }
    match home {
        Some(h) => {
            let mut v = chars_of(h.as_str());
            join_onto(&mut v, ".local");
            join_onto(&mut v, "share");
            join_onto(&mut v, "aptu-coder");
            string_of(v.as_slice())
        },
        None => ".".to_owned(),
    }
}

/// What to do about the metrics directory of the server's former name.
#[derive(Clone, Copy, Debug, PartialEq, Eq, Structural)]
pub enum LegacyMigration {
    /// Only the former directory exists: rename it to the current one.
    Rename,
    /// Both exist: leave both as they are (and warn).
    BothExist,
    /// There is no former directory: nothing to do.
    Nothing,
}

/// Decides the migration from whether the former and the current metrics
/// directories exist.
pub fn legacy_migration(old_exists: bool, new_exists: bool) -> (r: LegacyMigration)
    ensures
        r == (if old_exists && !new_exists {
            LegacyMigration::Rename
        } else if old_exists {
            LegacyMigration::BothExist
        } else {
            LegacyMigration::Nothing
        }),
{
    if old_exists && !new_exists {
        LegacyMigration::Rename
    } else if old_exists {
        LegacyMigration::BothExist
    } else {
        LegacyMigration::Nothing
    }
}

} // verus!
