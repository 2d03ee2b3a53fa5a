//! Output filters for shell commands: rules that strip, keep and cap the
//! lines of a command's output, the built-in rule table, and the
//! `--no-stat` rewrite of `git pull`.

use vstd::prelude::*;
use regex::Regex;
use crate::text::{
    chars_of, contains_seq, contains_str, has_prefix, is_unicode_whitespace, is_unicode_ws,
    join_chars, join_with, lines_chars, lines_of, matches_at, occurs_at, push_str, starts_with,
    string_of, views,
};

verus! {

#[verifier::external_type_specification]
#[verifier::external_body]
pub struct ExRegex(regex::Regex);

/// Does `regex::Regex::new` accept `pattern`?
pub uninterp spec fn regex_compiles(pattern: Seq<char>) -> bool;

/// Does the regex compiled from `pattern` match somewhere in `haystack`?
pub uninterp spec fn regex_matches(pattern: Seq<char>, haystack: Seq<char>) -> bool;

/// `Regex::new(pattern)`, with the error dropped.
///
/// Trusted: a regex comes back exactly when `regex_compiles(pattern)`.
#[verifier::external_body]
fn regex_new(pattern: &str) -> (r: Option<Regex>)
    ensures
        r is Some <==> regex_compiles(pattern@),
{
    Regex::new(pattern).ok()
}

/// A compiled regex together with the pattern it was compiled from.
pub struct CompiledPattern {
    source: String,
    re: Regex,
}

impl View for CompiledPattern {
    type V = Seq<char>;

    closed spec fn view(&self) -> Seq<char> {
        self.source@
    }
}

impl CompiledPattern {
    /// Compiles `pattern`; `None` when the regex engine refuses it.
    pub fn new(pattern: &str) -> (r: Option<CompiledPattern>)
        ensures
            r is Some <==> regex_compiles(pattern@),
            r is Some ==> r.unwrap()@ == pattern@,
    {
        match regex_new(pattern) {
            Some(re) => Some(CompiledPattern { source: pattern.to_owned(), re }),
            None => None,
        }
    }

    /// `Regex::is_match` on the compiled regex.
    ///
    /// Trusted: the answer is `regex_matches` of the source pattern (the
    /// only constructor, `new`, compiles `re` from `source`).
    #[verifier::external_body]
    pub fn is_match(&self, haystack: &str) -> (r: bool)
        ensures
            r == regex_matches(self@, haystack@),
    {
        self.re.is_match(haystack)
    }
}

/// A filter rule for the output of matching commands.
#[derive(Clone, Debug)]
pub struct FilterRule {
    /// Regex a command must match for the rule to apply.
    pub match_command: String,
    /// What the rule does, reported as the applied filter.
    pub description: Option<String>,
    /// Remove ANSI control sequences before the lines are filtered.
    pub strip_ansi: bool,
    /// Lines matching any of these regexes are dropped.
    pub strip_lines_matching: Vec<String>,
    /// When non-empty, only lines matching one of these regexes are kept.
    pub keep_lines_matching: Vec<String>,
    /// At most this many lines are kept.
    pub max_lines: Option<usize>,
    /// Output to give when no line is left.
    pub on_empty: Option<String>,
}

/// A filter rule with its strings taken as character sequences.
pub struct FilterRuleView {
    pub match_command: Seq<char>,
    pub description: Option<Seq<char>>,
    pub strip_ansi: bool,
    pub strip_lines_matching: Seq<Seq<char>>,
    pub keep_lines_matching: Seq<Seq<char>>,
    pub max_lines: Option<nat>,
    pub on_empty: Option<Seq<char>>,
}

/// The view of an optional string.
pub open spec fn opt_view(o: Option<String>) -> Option<Seq<char>> {
    match o {
        Some(s) => Some(s@),
        None => None,
    }
}

/// The views of a sequence of strings.
pub open spec fn strs_view(v: Seq<String>) -> Seq<Seq<char>> {
    v.map_values(|s: String| s@)
}

impl View for FilterRule {
    type V = FilterRuleView;

    open spec fn view(&self) -> FilterRuleView {
        FilterRuleView {
            match_command: self.match_command@,
            description: opt_view(self.description),
            strip_ansi: self.strip_ansi,
            strip_lines_matching: strs_view(self.strip_lines_matching@),
            keep_lines_matching: strs_view(self.keep_lines_matching@),
            max_lines: match self.max_lines {
                Some(m) => Some(m as nat),
                None => None,
            },
            on_empty: opt_view(self.on_empty),
        }
    }
}

/// A rule whose regexes are compiled; patterns that do not compile are left
/// out of the strip and keep lists.
pub struct CompiledRule {
    pub pattern: CompiledPattern,
    pub strip_patterns: Vec<CompiledPattern>,
    pub keep_patterns: Vec<CompiledPattern>,
    pub rule: FilterRule,
}

/// The source patterns of compiled patterns.
pub open spec fn sources(v: Seq<CompiledPattern>) -> Seq<Seq<char>> {
    v.map_values(|p: CompiledPattern| p@)
}

/// The patterns of `ps` that compile, in order.
pub open spec fn compilable(ps: Seq<Seq<char>>) -> Seq<Seq<char>>
    decreases ps.len(),
{
    if ps.len() == 0 {
        seq![]
    } else {
        let r = compilable(ps.drop_last());
        if regex_compiles(ps.last()) {
            r.push(ps.last())
        } else {
            r
        }
    }
}

/// The compiled form of a rule as plain values: the command pattern, the
/// strip and keep patterns that compiled, and the rule itself.
pub struct CompiledRuleView {
    pub pattern: Seq<char>,
    pub strip: Seq<Seq<char>>,
    pub keep: Seq<Seq<char>>,
    pub rule: FilterRuleView,
}

impl View for CompiledRule {
    type V = CompiledRuleView;

    open spec fn view(&self) -> CompiledRuleView {
        CompiledRuleView {
            pattern: self.pattern@,
            strip: sources(self.strip_patterns@),
            keep: sources(self.keep_patterns@),
            rule: self.rule@,
        }
    }
}

/// Is a compiled rule the compilation of `r`?
pub open spec fn compiled_from(c: CompiledRuleView, r: FilterRuleView) -> bool {
    &&& c.pattern == r.match_command
    &&& c.strip == compilable(r.strip_lines_matching)
    &&& c.keep == compilable(r.keep_lines_matching)
    &&& c.rule == r
}

/// Compiles every pattern of `ps` that compiles, in order.
fn compile_patterns(ps: &Vec<String>) -> (r: Vec<CompiledPattern>)
    ensures
        sources(r@) == compilable(strs_view(ps@)),
{
    let mut out: Vec<CompiledPattern> = Vec::new();
    let mut i: usize = 0;
    while i < ps.len()
        invariant
            i <= ps@.len(),
            sources(out@) == compilable(strs_view(ps@).subrange(0, i as int)),
        decreases ps@.len() - i,
    {
        let ghost before = sources(out@);
        proof {
            let cur = strs_view(ps@).subrange(0, i + 1);
            assert(cur.drop_last() =~= strs_view(ps@).subrange(0, i as int));
            assert(cur.last() == ps@[i as int]@);
        }
        match CompiledPattern::new(ps[i].as_str()) {
            Some(p) => {
                out.push(p);
                assert(sources(out@) =~= before.push(ps@[i as int]@));
            },
            None => {},
        }
        i = i + 1;
    }
    assert(strs_view(ps@).subrange(0, ps@.len() as int) =~= strs_view(ps@));
    out
}

/// Compiles a rule; `None` when its command pattern does not compile.
pub fn compile_rule(rule: FilterRule) -> (r: Option<CompiledRule>)
    ensures
        r is Some <==> regex_compiles(rule@.match_command),
        r is Some ==> compiled_from(r.unwrap()@, rule@),
{
    match CompiledPattern::new(rule.match_command.as_str()) {
        None => None,
        Some(pattern) => {
            let strip_patterns = compile_patterns(&rule.strip_lines_matching);
            let keep_patterns = compile_patterns(&rule.keep_lines_matching);
            Some(CompiledRule { pattern, strip_patterns, keep_patterns, rule })
        },
    }
}

/// The rules of `rs` whose command pattern compiles, in order.
pub open spec fn compilable_rules(rs: Seq<FilterRuleView>) -> Seq<FilterRuleView>
    decreases rs.len(),
{
    if rs.len() == 0 {
        seq![]
    } else {
        let r = compilable_rules(rs.drop_last());
        if regex_compiles(rs.last().match_command) {
            r.push(rs.last())
        } else {
            r
        }
    }
}

/// The views of a sequence of rules.
pub open spec fn rules_view(v: Seq<FilterRule>) -> Seq<FilterRuleView> {
    v.map_values(|r: FilterRule| r@)
}

/// The views of a sequence of compiled rules.
pub open spec fn compiled_view(v: Seq<CompiledRule>) -> Seq<CompiledRuleView> {
    v.map_values(|r: CompiledRule| r@)
}

/// Is `table` the compilation, rule by rule, of `rules`?
pub open spec fn table_compiles(table: Seq<CompiledRuleView>, rules: Seq<FilterRuleView>) -> bool {
    table.len() == rules.len() && forall|i: int|
        0 <= i < table.len() ==> compiled_from(#[trigger] table[i], rules[i])
}

/// The rule order of a filter table built from the built-in rules and a
/// project's rules: each project rule is put in front as it is read, so the
/// project rules come first, last one first, then the built-in rules.
pub open spec fn table_order(builtin: Seq<FilterRuleView>, project: Seq<FilterRuleView>) -> Seq<
    FilterRuleView,
> {
    compilable_rules(project).reverse() + compilable_rules(builtin)
}

proof fn lemma_table_push(t: Seq<CompiledRuleView>, rs: Seq<FilterRuleView>, c: CompiledRuleView, r: FilterRuleView)
    requires
        table_compiles(t, rs),
        compiled_from(c, r),
    ensures
        table_compiles(t.push(c), rs.push(r)),
{
    assert forall|i: int| 0 <= i < t.push(c).len() implies compiled_from(
        #[trigger] t.push(c)[i],
        rs.push(r)[i],
    ) by {
        if i < t.len() {
            assert(compiled_from(t[i], rs[i]));
        }
    }
}

proof fn lemma_table_prepend(t: Seq<CompiledRuleView>, rs: Seq<FilterRuleView>, c: CompiledRuleView, r: FilterRuleView)
    requires
        table_compiles(t, rs),
        compiled_from(c, r),
    ensures
        table_compiles(seq![c] + t, seq![r] + rs),
{
    assert forall|i: int| 0 <= i < (seq![c] + t).len() implies compiled_from(
        #[trigger] (seq![c] + t)[i],
        (seq![r] + rs)[i],
    ) by {
        if i > 0 {
            assert(compiled_from(t[i - 1], rs[i - 1]));
        }
    }
}

/// Builds the filter table: the built-in rules, then each project rule put
/// in front of the table in turn. Rules whose command pattern does not
/// compile are left out.
pub fn compile_filter_table(builtin: Vec<FilterRule>, project: Vec<FilterRule>) -> (r: Vec<
    CompiledRule,
>)
    ensures
        table_compiles(compiled_view(r@), table_order(rules_view(builtin@), rules_view(project@))),
{
    let ghost bv = rules_view(builtin@);
    let ghost pv = rules_view(project@);
    let mut table: Vec<CompiledRule> = Vec::new();
    let mut builtin = builtin;
    let ghost mut k: int = 0;
    assert(bv.subrange(0, 0) =~= Seq::<FilterRuleView>::empty());
    while builtin.len() > 0
        invariant
            0 <= k <= bv.len(),
            rules_view(builtin@) == bv.subrange(k, bv.len() as int),
            table_compiles(compiled_view(table@), compilable_rules(bv.subrange(0, k))),
        decreases builtin@.len(),
    {
        let ghost vi = rules_view(builtin@);
        let ghost oldv = builtin@;
        assert(vi.len() == oldv.len());
        assert(vi[0] == oldv[0]@);
        assert(vi[0] == bv[k]);
        let rule = builtin.remove(0);
        assert(rules_view(builtin@) =~= vi.subrange(1, vi.len() as int));
        proof {
            assert(rule@ == bv[k]);
            let cur = bv.subrange(0, k + 1);
            assert(cur.drop_last() =~= bv.subrange(0, k));
            assert(cur.last() == bv[k]);
            assert(rules_view(builtin@) =~= bv.subrange(k + 1, bv.len() as int));
        }
        let ghost before = compiled_view(table@);
        match compile_rule(rule) {
            Some(c) => {
                table.push(c);
                proof {
                    lemma_table_push(before, compilable_rules(bv.subrange(0, k)), c@, bv[k]);
                    assert(compiled_view(table@) =~= before.push(c@));
                }
            },
            None => {},
        }
        proof {
            k = k + 1;
        }
    }
    assert(bv.subrange(0, bv.len() as int) =~= bv);
    let mut project = project;
    let ghost mut j: int = 0;
    assert(pv.subrange(0, 0) =~= Seq::<FilterRuleView>::empty());
    assert(compilable_rules(pv.subrange(0, 0)).reverse() + compilable_rules(bv) =~= compilable_rules(bv));
    while project.len() > 0
        invariant
            0 <= j <= pv.len(),
            rules_view(project@) == pv.subrange(j, pv.len() as int),
            table_compiles(
                compiled_view(table@),
                compilable_rules(pv.subrange(0, j)).reverse() + compilable_rules(bv),
            ),
        decreases project@.len(),
    {
        let ghost vi = rules_view(project@);
        let ghost oldv = project@;
        assert(vi.len() == oldv.len());
        assert(vi[0] == oldv[0]@);
        assert(vi[0] == pv[j]);
        let rule = project.remove(0);
        assert(rules_view(project@) =~= vi.subrange(1, vi.len() as int));
        let ghost prev = compilable_rules(pv.subrange(0, j));
        proof {
            assert(rule@ == pv[j]);
            let cur = pv.subrange(0, j + 1);
            assert(cur.drop_last() =~= pv.subrange(0, j));
            assert(cur.last() == pv[j]);
            assert(rules_view(project@) =~= pv.subrange(j + 1, pv.len() as int));
        }
        let ghost before = compiled_view(table@);
        match compile_rule(rule) {
            Some(c) => {
                table.insert(0, c);
                proof {
                    lemma_table_prepend(before, prev.reverse() + compilable_rules(bv), c@, pv[j]);
                    assert(compiled_view(table@) =~= seq![c@] + before);
                    assert(prev.push(pv[j]).reverse() + compilable_rules(bv) =~= seq![pv[j]] + (
                    prev.reverse() + compilable_rules(bv)));
                }
            },
            None => {},
        }
        proof {
            j = j + 1;
        }
    }
    assert(pv.subrange(0, pv.len() as int) =~= pv);
    table
}

/// Does the word `w` stand at `i` in `c`: `w` occurs there, with the start
/// of the command or whitespace before it and the end of the command or
/// whitespace after it?
pub open spec fn word_at(c: Seq<char>, w: Seq<char>, i: int) -> bool {
    &&& occurs_at(c, w, i)
    &&& (i == 0 || is_unicode_ws(c[i - 1]))
    &&& (i + w.len() == c.len() || (i + w.len() < c.len() && is_unicode_ws(c[i + w.len()])))
}

/// Is `c` a `git pull` command: its first word is `git` and one of its
/// words is `pull`?
pub open spec fn is_git_pull(c: Seq<char>) -> bool {
    &&& word_at(c, "git"@, 0)
    &&& exists|i: int| word_at(c, "pull"@, i)
}

/// Does the word `w` stand at `i` in `cs`?
fn word_at_exec(cs: &[char], w: &[char], i: usize) -> (r: bool)
    requires
        i + w@.len() <= cs@.len(),
    ensures
        r == word_at(cs@, w@, i as int),
{
    if !matches_at(cs, w, i) {
        return false;
    }
    let before = i == 0 || is_unicode_whitespace(cs[i - 1]);
    let e = i + w.len();
    let after = e == cs.len() || (e < cs.len() && is_unicode_whitespace(cs[e]));
    before && after
}

fn git_pull_command(cs: &[char]) -> (r: bool)
    ensures
        r == is_git_pull(cs@),
{
    let n = cs.len();
    let git = chars_of("git");
    let pull = chars_of("pull");
    proof {
        reveal_strlit("git");
        reveal_strlit("pull");
    }
    if n < 3 || !word_at_exec(cs, git.as_slice(), 0) {
        assert(!word_at(cs@, "git"@, 0));
        return false;
    }
    if n < 4 {
        assert forall|i: int| !word_at(cs@, "pull"@, i) by {}
        return false;
    }
    let mut i: usize = 0;
    while i <= n - 4
        invariant
            n == cs@.len(),
            4 <= n,
            i <= n - 3,
            pull@ == "pull"@,
            pull@.len() == 4,
            word_at(cs@, "git"@, 0),
            forall|k: int| 0 <= k < i ==> !word_at(cs@, "pull"@, k),
        decreases n - i,
    {
        if word_at_exec(cs, pull.as_slice(), i) {
            assert(word_at(cs@, "pull"@, i as int));
            return true;
        }
        i = i + 1;
    }
    assert forall|k: int| !word_at(cs@, "pull"@, k) by {
        if k >= i && word_at(cs@, "pull"@, k) {
            assert(k + 4 <= n);
        }
    }
    false
}

/// Does a command call for `--no-stat`: a `git pull` that neither asks for
/// nor suppresses a diffstat, nor asks for verbose output?
pub open spec fn needs_no_stat(c: Seq<char>) -> bool {
    &&& is_git_pull(c)
    &&& !contains_seq(c, "--stat"@)
    &&& !contains_seq(c, "--no-stat"@)
    &&& !contains_seq(c, "--verbose"@)
}

/// The command with ` --no-stat` appended when it calls for it.
pub open spec fn with_no_stat(c: Seq<char>) -> Seq<char> {
    if needs_no_stat(c) {
        c + " --no-stat"@
    } else {
        c
    }
}

/// Appends ` --no-stat` to a `git pull` that neither asks for nor suppresses
/// a diffstat (nor asks for verbose output), so its output skips the
/// per-file change summary.
pub fn maybe_inject_no_stat(command: &str) -> (r: String)
    ensures
        r@ == with_no_stat(command@),
{
    let c = chars_of(command);
    let cs = c.as_slice();
    if git_pull_command(cs) && !contains_str(cs, "--stat")
        && !contains_str(cs, "--no-stat") && !contains_str(cs, "--verbose") {
        let mut v = c.clone();
        assert(v@ == command@);
        push_str(&mut v, " --no-stat");
        return string_of(v.as_slice());
    }
    command.to_owned()
}

/// Rewriting a command with `--no-stat` twice changes nothing more than
/// rewriting it once.
pub proof fn law_no_stat_idempotent(c: Seq<char>)
    ensures
        with_no_stat(with_no_stat(c)) == with_no_stat(c),
{
    if needs_no_stat(c) {
        let r = c + " --no-stat"@;
        reveal_strlit(" --no-stat");
        reveal_strlit("--no-stat");
        let at = c.len() + 1;
        assert(r.subrange(at as int, (at + "--no-stat"@.len()) as int) =~= "--no-stat"@);
        assert(occurs_at(r, "--no-stat"@, at as int));
    }
}

// ---------------------------------------------------------------------------
// ANSI escape sequences
// ---------------------------------------------------------------------------

/// The escape character that starts an ANSI control sequence.
pub const ESC: char = '\x1b';

/// The end of the parameter and intermediate characters (`0x20..=0x3F`) of
/// a control sequence that start at `j`.
pub open spec fn csi_param_end(t: Seq<char>, j: int) -> int
    decreases t.len() - j,
{
    if 0 <= j < t.len() && 0x20 <= t[j] as u32 <= 0x3F {
        csi_param_end(t, j + 1)
    } else {
        j
    }
}

/// The parameters of a control sequence end at or after `j`, and within
/// the text when `j` lies in it.
pub proof fn lemma_csi_param_end(t: Seq<char>, j: int)
    ensures
        j <= csi_param_end(t, j),
        0 <= j <= t.len() ==> csi_param_end(t, j) <= t.len(),
    decreases t.len() - j,
{
    if 0 <= j < t.len() && 0x20 <= t[j] as u32 <= 0x3F {
        lemma_csi_param_end(t, j + 1);
    }
}

/// Does a complete control sequence (`ESC [`, parameters, one final
/// character in `0x40..=0x7E`) start at `i`?
pub open spec fn csi_at(t: Seq<char>, i: int) -> bool {
    &&& 0 <= i && i + 1 < t.len()
    &&& t[i] == ESC
    &&& t[i + 1] == '['
    &&& csi_param_end(t, i + 2) < t.len()
    &&& 0x40 <= t[csi_param_end(t, i + 2)] as u32 <= 0x7E
}

/// The characters of `t` from `i` on, with every complete control sequence
/// left out.
pub open spec fn ansi_stripped_from(t: Seq<char>, i: int) -> Seq<char>
    decreases t.len() - i,
{
    if i < 0 || i >= t.len() {
        seq![]
    } else if csi_at(t, i) {
        proof {
            lemma_csi_param_end(t, i + 2);
        }
        ansi_stripped_from(t, csi_param_end(t, i + 2) + 1)
    } else {
        seq![t[i]] + ansi_stripped_from(t, i + 1)
    }
}

/// `t` without its ANSI control sequences.
pub open spec fn ansi_stripped(t: Seq<char>) -> Seq<char> {
    ansi_stripped_from(t, 0)
}

fn csi_param_end_exec(t: &[char], j: usize) -> (r: usize)
    requires
        j <= t@.len(),
    ensures
        r == csi_param_end(t@, j as int),
        j <= r <= t@.len(),
{
    let mut k = j;
    while k < t.len() && 0x20 <= (t[k] as u32) && (t[k] as u32) <= 0x3F
        invariant
            j <= k <= t@.len(),
            csi_param_end(t@, k as int) == csi_param_end(t@, j as int),
        decreases t@.len() - k,
    {
        k = k + 1;
    }
    k
}

/// Removes the ANSI control sequences (`ESC [` parameters final) from `t`.
pub fn strip_ansi_chars(t: &[char]) -> (r: Vec<char>)
    ensures
        r@ == ansi_stripped(t@),
{
    let n = t.len();
    let mut out: Vec<char> = Vec::new();
    let mut i: usize = 0;
    while i < n
        invariant
            n == t@.len(),
            i <= n,
            out@ + ansi_stripped_from(t@, i as int) == ansi_stripped(t@),
        decreases n - i,
    {
        let ghost before = out@;
        if t[i] == ESC && i + 1 < n && t[i + 1] == '[' {
            let e = csi_param_end_exec(t, i + 2);
            if e < n && 0x40 <= (t[e] as u32) && (t[e] as u32) <= 0x7E {
                assert(csi_at(t@, i as int));
                i = e + 1;
                continue;
            }
        }
        assert(!csi_at(t@, i as int));
        out.push(t[i]);
        assert(before + ansi_stripped_from(t@, i as int) =~= out@ + ansi_stripped_from(
            t@,
            i + 1,
        ));
        i = i + 1;
    }
    assert(out@ + ansi_stripped_from(t@, i as int) =~= out@);
    out
}

// ---------------------------------------------------------------------------
// Applying a rule
// ---------------------------------------------------------------------------

/// Does one of the patterns match `line`?
pub open spec fn any_matches(pats: Seq<Seq<char>>, line: Seq<char>) -> bool {
    exists|i: int| 0 <= i < pats.len() && regex_matches(#[trigger] pats[i], line)
}

/// The lines of `lines` for which `any_matches(pats, line) == keep`, in order.
pub open spec fn retain_lines(lines: Seq<Seq<char>>, pats: Seq<Seq<char>>, keep: bool) -> Seq<
    Seq<char>,
>
    decreases lines.len(),
{
    if lines.len() == 0 {
        seq![]
    } else {
        let r = retain_lines(lines.drop_last(), pats, keep);
        if any_matches(pats, lines.last()) == keep {
            r.push(lines.last())
        } else {
            r
        }
    }
}

/// The lines a rule leaves of `text`: ANSI control sequences are removed
/// first when the rule asks for it, then lines matching a strip pattern are
/// dropped, then (when there are keep patterns) lines matching none of them,
/// then all but the first `max_lines`.
pub open spec fn filtered_lines(c: CompiledRuleView, text: Seq<char>) -> Seq<Seq<char>> {
    let plain = if c.rule.strip_ansi {
        ansi_stripped(text)
    } else {
        text
    };
    let stripped = retain_lines(lines_of(plain), c.strip, false);
    let kept = if c.keep.len() > 0 {
        retain_lines(stripped, c.keep, true)
    } else {
        stripped
    };
    match c.rule.max_lines {
        Some(m) => if m < kept.len() {
            kept.subrange(0, m as int)
        } else {
            kept
        },
        None => kept,
    }
}

/// The output a rule makes of `text`: the remaining lines joined with `\n`,
/// or the rule's `on_empty` text when no line remains and it has one.
pub open spec fn filter_output(c: CompiledRuleView, text: Seq<char>) -> Seq<char> {
    let lines = filtered_lines(c, text);
    if lines.len() == 0 && c.rule.on_empty is Some {
        c.rule.on_empty.unwrap()
    } else {
        join_with(lines, '\n')
    }
}

/// Does one of the compiled patterns match `line`?
fn any_pattern_matches(pats: &Vec<CompiledPattern>, line: &str) -> (r: bool)
    ensures
        r == any_matches(sources(pats@), line@),
{
    let mut i: usize = 0;
    while i < pats.len()
        invariant
            i <= pats@.len(),
            forall|k: int| 0 <= k < i ==> !regex_matches(#[trigger] sources(pats@)[k], line@),
        decreases pats@.len() - i,
    {
        assert(sources(pats@)[i as int] == pats@[i as int]@);
        if pats[i].is_match(line) {
            assert(0 <= i < sources(pats@).len() && regex_matches(sources(pats@)[i as int], line@));
            return true;
        }
        i = i + 1;
    }
    false
}

/// The lines of `lines` whose match result in `hits` equals `keep`, in
/// order (`hits[i]` belongs to `lines[i]`).
pub open spec fn select_by(lines: Seq<Seq<char>>, hits: Seq<bool>, keep: bool) -> Seq<Seq<char>>
    decreases lines.len(),
{
    if lines.len() == 0 {
        seq![]
    } else {
        let r = select_by(lines.drop_last(), hits.drop_last(), keep);
        if hits.last() == keep {
            r.push(lines.last())
        } else {
            r
        }
    }
}

/// Selecting by match results that are those of `pats` keeps the same
/// lines as `retain_lines`.
pub proof fn lemma_select_by_matches(
    lines: Seq<Seq<char>>,
    hits: Seq<bool>,
    pats: Seq<Seq<char>>,
    keep: bool,
)
    requires
        hits.len() == lines.len(),
        forall|i: int| 0 <= i < lines.len() ==> #[trigger] hits[i] == any_matches(pats, lines[i]),
    ensures
        select_by(lines, hits, keep) == retain_lines(lines, pats, keep),
    decreases lines.len(),
{
    if lines.len() > 0 {
        let n = lines.len() - 1;
        assert forall|i: int| 0 <= i < lines.drop_last().len() implies #[trigger] hits.drop_last()[i]
            == any_matches(pats, lines.drop_last()[i]) by {
            assert(hits[i] == any_matches(pats, lines[i]));
        }
        lemma_select_by_matches(lines.drop_last(), hits.drop_last(), pats, keep);
        assert(hits[n] == any_matches(pats, lines[n]));
    }
}

/// Keeps the lines whose match result equals `keep`.
pub fn select_lines(lines: Vec<Vec<char>>, hits: &Vec<bool>, keep: bool) -> (r: Vec<Vec<char>>)
    requires
        hits@.len() == lines@.len(),
    ensures
        views(r@) == select_by(views(lines@), hits@, keep),
{
    let mut out: Vec<Vec<char>> = Vec::new();
    let mut i: usize = 0;
    while i < lines.len()
        invariant
            i <= lines@.len(),
            hits@.len() == lines@.len(),
            views(out@) == select_by(
                views(lines@).subrange(0, i as int),
                hits@.subrange(0, i as int),
                keep,
            ),
        decreases lines@.len() - i,
    {
        let ghost before = views(out@);
        proof {
            let cur = views(lines@).subrange(0, i + 1);
            let hc = hits@.subrange(0, i + 1);
            assert(cur.drop_last() =~= views(lines@).subrange(0, i as int));
            assert(hc.drop_last() =~= hits@.subrange(0, i as int));
            assert(cur.last() == lines@[i as int]@);
            assert(hc.last() == hits@[i as int]);
        }
        if hits[i] == keep {
            out.push(lines[i].clone());
            assert(views(out@) =~= before.push(lines@[i as int]@));
        }
        i = i + 1;
    }
    assert(views(lines@).subrange(0, lines@.len() as int) =~= views(lines@));
    assert(hits@.subrange(0, lines@.len() as int) =~= hits@);
    out
}

/// Keeps the lines for which some pattern matches (`keep`) or none does.
fn retain_matching(lines: Vec<Vec<char>>, pats: &Vec<CompiledPattern>, keep: bool) -> (r: Vec<
    Vec<char>,
>)
    ensures
        views(r@) == retain_lines(views(lines@), sources(pats@), keep),
{
    let mut hits: Vec<bool> = Vec::new();
    let mut i: usize = 0;
    while i < lines.len()
        invariant
            i <= lines@.len(),
            hits@.len() == i,
            forall|k: int|
                0 <= k < i ==> #[trigger] hits@[k] == any_matches(sources(pats@), views(lines@)[k]),
        decreases lines@.len() - i,
    {
        let text = string_of(lines[i].as_slice());
        let h = any_pattern_matches(pats, text.as_str());
        hits.push(h);
        i = i + 1;
    }
    proof {
        lemma_select_by_matches(views(lines@), hits@, sources(pats@), keep);
    }
    select_lines(lines, &hits, keep)
}

/// Applies a rule to a command's output: strips, keeps and caps lines, and
/// gives the rule's `on_empty` text when no line is left.
pub fn apply_filter(compiled_rule: &CompiledRule, stdout: &str) -> (r: String)
    ensures
        r@ == filter_output(compiled_rule@, stdout@),
{
    let text = chars_of(stdout);
    let plain = if compiled_rule.rule.strip_ansi {
        strip_ansi_chars(text.as_slice())
    } else {
        text
    };
    let lines = lines_chars(plain.as_slice());
    let stripped = retain_matching(lines, &compiled_rule.strip_patterns, false);
    let mut kept = if compiled_rule.keep_patterns.len() > 0 {
        retain_matching(stripped, &compiled_rule.keep_patterns, true)
    } else {
        stripped
    };
    match compiled_rule.rule.max_lines {
        Some(m) => {
            if m < kept.len() {
                let ghost before = views(kept@);
                kept.truncate(m);
                assert(views(kept@) =~= before.subrange(0, m as int));
            }
        },
        None => {},
    }
    if kept.len() == 0 {
        match &compiled_rule.rule.on_empty {
            Some(s) => {
                return s.clone();
            },
            None => {},
        }
    }
    assert(views(kept@).subrange(0, kept@.len() as int) =~= views(kept@));
    string_of(join_chars(&kept, 0, '\n').as_slice())
}

/// A rule never leaves more lines than its `max_lines`.
pub proof fn law_filter_caps_lines(c: CompiledRuleView, text: Seq<char>)
    requires
        c.rule.max_lines is Some,
    ensures
        filtered_lines(c, text).len() <= c.rule.max_lines.unwrap(),
{
}

// ---------------------------------------------------------------------------
// Built-in rules
// ---------------------------------------------------------------------------

/// The built-in rules for common git and cargo commands, in table order.
pub open spec fn builtin_rules() -> Seq<FilterRuleView> {
    seq![
        FilterRuleView {
            match_command: "^git\\s+pull"@,
            description: Some("git pull: strip diff-stat noise (data-confirmed: 96k-108k char cluster)"@),
            strip_ansi: false,
            strip_lines_matching: seq!["^\\s*\\|\\s*\\d+\\s*[+-]+"@, "^\\s+create mode"@, "^\\s+delete mode"@, "^\\s+rename "@, "^\\s+mode change"@],
            keep_lines_matching: seq![],
            max_lines: None,
            on_empty: Some("ok (up-to-date)"@),
        },
        FilterRuleView {
            match_command: "^git\\s+fetch"@,
            description: Some("git fetch: emit compact ref summary (data-confirmed)"@),
            strip_ansi: false,
            strip_lines_matching: seq!["^From "@, "^\\s+[a-f0-9]+\\.\\."@],
            keep_lines_matching: seq![],
            max_lines: Some(10nat),
            on_empty: Some("ok fetched"@),
        },
        FilterRuleView {
            match_command: "^git\\s+push"@,
            description: Some("git push: strip verbose remote lines (data-confirmed)"@),
            strip_ansi: false,
            strip_lines_matching: seq!["^remote:\\s+$"@, "^remote: Resolving"@, "^remote: Compressing"@, "^remote: Counting"@, "^To "@],
            keep_lines_matching: seq![],
            max_lines: Some(10nat),
            on_empty: Some("ok pushed"@),
        },
        FilterRuleView {
            match_command: "^git\\s+log"@,
            description: Some("git log: cap at 20 commit entries (data-confirmed: 957k char cluster)"@),
            strip_ansi: false,
            strip_lines_matching: seq![],
            keep_lines_matching: seq![],
            max_lines: Some(20nat),
            on_empty: None,
        },
        FilterRuleView {
            match_command: "^git\\s+status"@,
            description: Some("git status: cap at 20 lines (data-confirmed)"@),
            strip_ansi: false,
            strip_lines_matching: seq![],
            keep_lines_matching: seq![],
            max_lines: Some(20nat),
            on_empty: None,
        },
        FilterRuleView {
            match_command: "^git\\s+show"@,
            description: Some("git show: strip patch hunks, cap at 200 lines"@),
            strip_ansi: true,
            strip_lines_matching: seq!["^@@"@, "^[+-][^+-]"@],
            keep_lines_matching: seq![],
            max_lines: Some(200nat),
            on_empty: None,
        },
        FilterRuleView {
            match_command: "^git\\s+commit"@,
            description: Some("git commit: strip GPG signing and gitleaks hook output, cap at 10 lines"@),
            strip_ansi: false,
            strip_lines_matching: seq!["^gpg: "@, "^\\s*[\\x{25CB}\\x{2502}\\x{2572}\\x{2591}]"@, "^\\d{1,2}:\\d{2}[AP]M INF "@],
            keep_lines_matching: seq![],
            max_lines: Some(10nat),
            on_empty: Some("ok committed"@),
        },
        FilterRuleView {
            match_command: "^git\\s+diff"@,
            description: Some("git diff: strip ANSI escape sequences, cap at 100 lines"@),
            strip_ansi: true,
            strip_lines_matching: seq![],
            keep_lines_matching: seq![],
            max_lines: Some(100nat),
            on_empty: Some("ok (working tree clean)"@),
        },
        FilterRuleView {
            match_command: "^git\\s+add"@,
            description: Some("git add: strip gitleaks hook output, cap at 5 lines"@),
            strip_ansi: false,
            strip_lines_matching: seq!["^\\s*[\\x{25CB}\\x{2502}\\x{2572}\\x{2591}]"@, "^\\d{1,2}:\\d{2}[AP]M INF "@],
            keep_lines_matching: seq![],
            max_lines: Some(5nat),
            on_empty: Some("ok staged"@),
        },
        FilterRuleView {
            match_command: "^cargo\\s+build"@,
            description: Some("cargo build: strip compile noise, keep errors/warnings (preventive)"@),
            strip_ansi: false,
            strip_lines_matching: seq!["^\\s*Compiling "@, "^\\s*Checking "@, "^\\s*Downloading "@, "^\\s*Updating "@, "^\\s*Fresh "@],
            keep_lines_matching: seq![],
            max_lines: None,
            on_empty: Some("ok (build clean)"@),
        },
        FilterRuleView {
            match_command: "^cargo\\s+test"@,
            description: Some("cargo test: keep test results and errors, strip compile noise (preventive)"@),
            strip_ansi: false,
            strip_lines_matching: seq!["^\\s*Compiling "@, "^\\s*Checking "@, "^\\s*Fresh "@],
            keep_lines_matching: seq![],
            max_lines: None,
            on_empty: None,
        }
    ]
}

fn owned(s: &str) -> (r: String)
    ensures
        r@ == s@,
{
    s.to_owned()
}

/// The built-in filter rules: `git pull`, `git fetch`, `git push`,
/// `git log`, `git status`, `git show`, `git commit`, `git diff`,
/// `git add`, `cargo build` and `cargo test`.
pub fn build_builtin_filter_rules() -> (r: Vec<FilterRule>)
    ensures
        rules_view(r@) == builtin_rules(),
{
    let r = vec![
        FilterRule {
            match_command: owned("^git\\s+pull"),
            description: Some(owned("git pull: strip diff-stat noise (data-confirmed: 96k-108k char cluster)")),
            strip_ansi: false,
            strip_lines_matching: vec![owned("^\\s*\\|\\s*\\d+\\s*[+-]+"), owned("^\\s+create mode"), owned("^\\s+delete mode"), owned("^\\s+rename "), owned("^\\s+mode change")],
            keep_lines_matching: vec![],
            max_lines: None,
            on_empty: Some(owned("ok (up-to-date)")),
        },
        FilterRule {
            match_command: owned("^git\\s+fetch"),
            description: Some(owned("git fetch: emit compact ref summary (data-confirmed)")),
            strip_ansi: false,
            strip_lines_matching: vec![owned("^From "), owned("^\\s+[a-f0-9]+\\.\\.")],
            keep_lines_matching: vec![],
            max_lines: Some(10),
            on_empty: Some(owned("ok fetched")),
        },
        FilterRule {
            match_command: owned("^git\\s+push"),
            description: Some(owned("git push: strip verbose remote lines (data-confirmed)")),
            strip_ansi: false,
            strip_lines_matching: vec![owned("^remote:\\s+$"), owned("^remote: Resolving"), owned("^remote: Compressing"), owned("^remote: Counting"), owned("^To ")],
            keep_lines_matching: vec![],
            max_lines: Some(10),
            on_empty: Some(owned("ok pushed")),
        },
        FilterRule {
            match_command: owned("^git\\s+log"),
            description: Some(owned("git log: cap at 20 commit entries (data-confirmed: 957k char cluster)")),
            strip_ansi: false,
            strip_lines_matching: vec![],
            keep_lines_matching: vec![],
            max_lines: Some(20),
            on_empty: None,
        },
        FilterRule {
            match_command: owned("^git\\s+status"),
            description: Some(owned("git status: cap at 20 lines (data-confirmed)")),
            strip_ansi: false,
            strip_lines_matching: vec![],
            keep_lines_matching: vec![],
            max_lines: Some(20),
            on_empty: None,
        },
        FilterRule {
            match_command: owned("^git\\s+show"),
            description: Some(owned("git show: strip patch hunks, cap at 200 lines")),
            strip_ansi: true,
            strip_lines_matching: vec![owned("^@@"), owned("^[+-][^+-]")],
            keep_lines_matching: vec![],
            max_lines: Some(200),
            on_empty: None,
        },
        FilterRule {
            match_command: owned("^git\\s+commit"),
            description: Some(owned("git commit: strip GPG signing and gitleaks hook output, cap at 10 lines")),
            strip_ansi: false,
            strip_lines_matching: vec![owned("^gpg: "), owned("^\\s*[\\x{25CB}\\x{2502}\\x{2572}\\x{2591}]"), owned("^\\d{1,2}:\\d{2}[AP]M INF ")],
            keep_lines_matching: vec![],
            max_lines: Some(10),
            on_empty: Some(owned("ok committed")),
        },
        FilterRule {
            match_command: owned("^git\\s+diff"),
            description: Some(owned("git diff: strip ANSI escape sequences, cap at 100 lines")),
            strip_ansi: true,
            strip_lines_matching: vec![],
            keep_lines_matching: vec![],
            max_lines: Some(100),
            on_empty: Some(owned("ok (working tree clean)")),
        },
        FilterRule {
            match_command: owned("^git\\s+add"),
            description: Some(owned("git add: strip gitleaks hook output, cap at 5 lines")),
            strip_ansi: false,
            strip_lines_matching: vec![owned("^\\s*[\\x{25CB}\\x{2502}\\x{2572}\\x{2591}]"), owned("^\\d{1,2}:\\d{2}[AP]M INF ")],
            keep_lines_matching: vec![],
            max_lines: Some(5),
            on_empty: Some(owned("ok staged")),
        },
        FilterRule {
            match_command: owned("^cargo\\s+build"),
            description: Some(owned("cargo build: strip compile noise, keep errors/warnings (preventive)")),
            strip_ansi: false,
            strip_lines_matching: vec![owned("^\\s*Compiling "), owned("^\\s*Checking "), owned("^\\s*Downloading "), owned("^\\s*Updating "), owned("^\\s*Fresh ")],
            keep_lines_matching: vec![],
            max_lines: None,
            on_empty: Some(owned("ok (build clean)")),
        },
        FilterRule {
            match_command: owned("^cargo\\s+test"),
            description: Some(owned("cargo test: keep test results and errors, strip compile noise (preventive)")),
            strip_ansi: false,
            strip_lines_matching: vec![owned("^\\s*Compiling "), owned("^\\s*Checking "), owned("^\\s*Fresh ")],
            keep_lines_matching: vec![],
            max_lines: None,
            on_empty: None,
        }
    ];
    proof {
        let v = rules_view(r@);
        let b = builtin_rules();
        assert(v.len() == b.len());
        assert(strs_view(r@[0].strip_lines_matching@) =~= b[0].strip_lines_matching);
        assert(strs_view(r@[0].keep_lines_matching@) =~= b[0].keep_lines_matching);
        assert(v[0] == b[0]);
        assert(strs_view(r@[1].strip_lines_matching@) =~= b[1].strip_lines_matching);
        assert(strs_view(r@[1].keep_lines_matching@) =~= b[1].keep_lines_matching);
        assert(v[1] == b[1]);
        assert(strs_view(r@[2].strip_lines_matching@) =~= b[2].strip_lines_matching);
        assert(strs_view(r@[2].keep_lines_matching@) =~= b[2].keep_lines_matching);
        assert(v[2] == b[2]);
        assert(strs_view(r@[3].strip_lines_matching@) =~= b[3].strip_lines_matching);
        assert(strs_view(r@[3].keep_lines_matching@) =~= b[3].keep_lines_matching);
        assert(v[3] == b[3]);
        assert(strs_view(r@[4].strip_lines_matching@) =~= b[4].strip_lines_matching);
        assert(strs_view(r@[4].keep_lines_matching@) =~= b[4].keep_lines_matching);
        assert(v[4] == b[4]);
        assert(strs_view(r@[5].strip_lines_matching@) =~= b[5].strip_lines_matching);
        assert(strs_view(r@[5].keep_lines_matching@) =~= b[5].keep_lines_matching);
        assert(v[5] == b[5]);
        assert(strs_view(r@[6].strip_lines_matching@) =~= b[6].strip_lines_matching);
        assert(strs_view(r@[6].keep_lines_matching@) =~= b[6].keep_lines_matching);
        assert(v[6] == b[6]);
        assert(strs_view(r@[7].strip_lines_matching@) =~= b[7].strip_lines_matching);
        assert(strs_view(r@[7].keep_lines_matching@) =~= b[7].keep_lines_matching);
        assert(v[7] == b[7]);
        assert(strs_view(r@[8].strip_lines_matching@) =~= b[8].strip_lines_matching);
        assert(strs_view(r@[8].keep_lines_matching@) =~= b[8].keep_lines_matching);
        assert(v[8] == b[8]);
        assert(strs_view(r@[9].strip_lines_matching@) =~= b[9].strip_lines_matching);
        assert(strs_view(r@[9].keep_lines_matching@) =~= b[9].keep_lines_matching);
        assert(v[9] == b[9]);
        assert(strs_view(r@[10].strip_lines_matching@) =~= b[10].strip_lines_matching);
        assert(strs_view(r@[10].keep_lines_matching@) =~= b[10].keep_lines_matching);
        assert(v[10] == b[10]);
    }
    assert(rules_view(r@) =~= builtin_rules());
    r
}

/// The schema version of a project filter file whose rules are used.
pub const FILTER_SCHEMA_VERSION: u32 = 1;

/// The project rules that count: those of a file read and parsed with
/// schema version `FILTER_SCHEMA_VERSION`; none otherwise.
pub open spec fn accepted_project_rules(project: Option<(u32, Seq<FilterRuleView>)>) -> Seq<
    FilterRuleView,
> {
    match project {
        Some((v, rs)) => if v == FILTER_SCHEMA_VERSION {
            rs
        } else {
            seq![]
        },
        None => seq![],
    }
}

/// The filter table of a working directory: the built-in rules, with the
/// rules of its project filter file (`schema_version` and rules, when the
/// file was read and parsed) put in front when the file has the supported
/// schema version.
pub fn load_filter_table(project: Option<(u32, Vec<FilterRule>)>) -> (r: Vec<CompiledRule>)
    ensures
        table_compiles(
            compiled_view(r@),
            table_order(
                builtin_rules(),
                accepted_project_rules(
                    match project {
                        Some((v, rs)) => Some((v, rules_view(rs@))),
                        None => None,
                    },
                ),
            ),
        ),
{
    let builtin = build_builtin_filter_rules();
    match project {
        Some((v, rs)) => {
            if v == FILTER_SCHEMA_VERSION {
                compile_filter_table(builtin, rs)
            } else {
                let none: Vec<FilterRule> = Vec::new();
                assert(rules_view(none@) =~= Seq::<FilterRuleView>::empty());
                compile_filter_table(builtin, none)
            }
        },
        None => {
            let none: Vec<FilterRule> = Vec::new();
            assert(rules_view(none@) =~= Seq::<FilterRuleView>::empty());
            compile_filter_table(builtin, none)
        },
    }
}

/// Text without an escape character passes ANSI stripping unchanged.
pub proof fn law_ansi_plain_text_unchanged(t: Seq<char>)
    requires
        forall|i: int| 0 <= i < t.len() ==> #[trigger] t[i] != ESC,
    ensures
        ansi_stripped(t) == t,
{
    lemma_ansi_plain_from(t, 0);
    assert(t.subrange(0, t.len() as int) =~= t);
}

proof fn lemma_ansi_plain_from(t: Seq<char>, i: int)
    requires
        0 <= i <= t.len(),
        forall|k: int| 0 <= k < t.len() ==> #[trigger] t[k] != ESC,
    ensures
        ansi_stripped_from(t, i) == t.subrange(i, t.len() as int),
    decreases t.len() - i,
{
    if i < t.len() {
        assert(!csi_at(t, i));
        lemma_ansi_plain_from(t, i + 1);
        assert(seq![t[i]] + t.subrange(i + 1, t.len() as int) =~= t.subrange(i, t.len() as int));
    } else {
        assert(t.subrange(i, t.len() as int) =~= Seq::<char>::empty());
    }
}

proof fn lemma_retain_without_patterns(lines: Seq<Seq<char>>)
    ensures
        retain_lines(lines, seq![], false) == lines,
    decreases lines.len(),
{
    if lines.len() > 0 {
        lemma_retain_without_patterns(lines.drop_last());
        assert(!any_matches(seq![], lines.last()));
        assert(lines.drop_last().push(lines.last()) =~= lines);
    }
}

/// The built-in `git diff` rule removes ANSI control sequences, keeps at
/// most 100 of the remaining lines, and answers `ok (working tree clean)`
/// when none is left.
pub proof fn law_builtin_git_diff_rule(c: CompiledRuleView, text: Seq<char>)
    requires
        compiled_from(c, builtin_rules()[7]),
    ensures
        builtin_rules()[7].match_command == "^git\\s+diff"@,
        filter_output(c, text) == ({
            let lines = lines_of(ansi_stripped(text));
            let kept = if lines.len() > 100 {
                lines.subrange(0, 100)
            } else {
                lines
            };
            if kept.len() == 0 {
                "ok (working tree clean)"@
            } else {
                join_with(kept, '\n')
            }
        }),
{
    let r = builtin_rules()[7];
    assert(r.strip_lines_matching =~= Seq::<Seq<char>>::empty());
    assert(r.keep_lines_matching =~= Seq::<Seq<char>>::empty());
    assert(compilable(Seq::<Seq<char>>::empty()) =~= Seq::<Seq<char>>::empty());
    assert(c.strip =~= Seq::<Seq<char>>::empty());
    lemma_retain_without_patterns(lines_of(ansi_stripped(text)));
}

/// Does `line` get through a rule's patterns: it matches no strip pattern,
/// and, when the rule has keep patterns, one of them?
pub open spec fn passes(c: CompiledRuleView, line: Seq<char>) -> bool {
    !any_matches(c.strip, line) && (c.keep.len() == 0 || any_matches(c.keep, line))
}

/// How many of `ls` get through a rule's patterns.
pub open spec fn count_passing(c: CompiledRuleView, ls: Seq<Seq<char>>) -> nat
    decreases ls.len(),
{
    if ls.len() == 0 {
        0
    } else {
        count_passing(c, ls.drop_last()) + if passes(c, ls.last()) {
            1nat
        } else {
            0nat
        }
    }
}

/// The lines a rule reads: those of the text, after ANSI stripping when the
/// rule asks for it.
pub open spec fn rule_input_lines(c: CompiledRuleView, text: Seq<char>) -> Seq<Seq<char>> {
    lines_of(
        if c.rule.strip_ansi {
            ansi_stripped(text)
        } else {
            text
        },
    )
}

/// The lines of `ls` that get through the strip patterns, then the keep
/// patterns when there are any.
spec fn pattern_survivors(c: CompiledRuleView, ls: Seq<Seq<char>>) -> Seq<Seq<char>> {
    let stripped = retain_lines(ls, c.strip, false);
    if c.keep.len() > 0 {
        retain_lines(stripped, c.keep, true)
    } else {
        stripped
    }
}

proof fn lemma_survivors_step(c: CompiledRuleView, ls: Seq<Seq<char>>)
    requires
        ls.len() > 0,
    ensures
        pattern_survivors(c, ls) == if passes(c, ls.last()) {
            pattern_survivors(c, ls.drop_last()).push(ls.last())
        } else {
            pattern_survivors(c, ls.drop_last())
        },
{
    let r1 = retain_lines(ls.drop_last(), c.strip, false);
    let x = ls.last();
    if !any_matches(c.strip, x) {
        assert(retain_lines(ls, c.strip, false) == r1.push(x));
        assert(r1.push(x).drop_last() =~= r1);
        assert(r1.push(x).last() == x);
    } else {
        assert(retain_lines(ls, c.strip, false) == r1);
    }
}

proof fn lemma_survivors(c: CompiledRuleView, ls: Seq<Seq<char>>)
    ensures
        pattern_survivors(c, ls).len() == count_passing(c, ls),
        forall|k: int|
            0 <= k < pattern_survivors(c, ls).len() ==> passes(c, #[trigger] pattern_survivors(c, ls)[k]),
        forall|i: int|
            0 <= i < ls.len() && passes(c, #[trigger] ls[i]) ==> count_passing(c, ls.subrange(0, i))
                < count_passing(c, ls) && pattern_survivors(c, ls)[count_passing(
                c,
                ls.subrange(0, i),
            ) as int] == ls[i],
    decreases ls.len(),
{
    if ls.len() > 0 {
        let d = ls.drop_last();
        lemma_survivors(c, d);
        lemma_survivors_step(c, ls);
        let sv = pattern_survivors(c, ls);
        let sd = pattern_survivors(c, d);
        assert forall|k: int| 0 <= k < sv.len() implies passes(c, #[trigger] sv[k]) by {
            if k < sd.len() {
                assert(sv[k] == sd[k]);
            }
        }
        assert forall|i: int| 0 <= i < ls.len() && passes(c, #[trigger] ls[i]) implies count_passing(
            c,
            ls.subrange(0, i),
        ) < count_passing(c, ls) && sv[count_passing(c, ls.subrange(0, i)) as int] == ls[i] by {
            if i < ls.len() - 1 {
                assert(ls.subrange(0, i) =~= d.subrange(0, i));
                assert(d[i] == ls[i]);
                assert(passes(c, d[i]));
                let j = count_passing(c, d.subrange(0, i)) as int;
                assert(j < sd.len() && sd[j] == d[i]);
                assert(sv[j] == sd[j]);
            } else {
                assert(ls.subrange(0, i) =~= d);
                assert(ls[i] == ls.last());
            }
        }
    } else {
        assert(pattern_survivors(c, ls) =~= Seq::<Seq<char>>::empty());
    }
}

/// What a rule leaves of the lines it reads: exactly the lines that get
/// through its patterns, in order, up to `max_lines` of them. The cap
/// counts surviving lines, not the lines read: a line that gets through is
/// kept whenever fewer than `max_lines` surviving lines come before it,
/// however many stripped lines do, and every line left got through.
pub proof fn law_filter_cap_counts_survivors(c: CompiledRuleView, text: Seq<char>, i: int)
    requires
        0 <= i < rule_input_lines(c, text).len(),
    ensures
        ({
            let ls = rule_input_lines(c, text);
            let out = filtered_lines(c, text);
            let total = count_passing(c, ls);
            &&& out.len() == match c.rule.max_lines {
                Some(m) => if m < total {
                    m
                } else {
                    total
                },
                None => total,
            }
            &&& forall|k: int| 0 <= k < out.len() ==> passes(c, #[trigger] out[k])
            &&& (passes(c, ls[i]) && (c.rule.max_lines matches Some(m) ==> count_passing(
                c,
                ls.subrange(0, i),
            ) < m)) ==> out[count_passing(c, ls.subrange(0, i)) as int] == ls[i]
        }),
{
    let ls = rule_input_lines(c, text);
    lemma_survivors(c, ls);
    let sv = pattern_survivors(c, ls);
    let out = filtered_lines(c, text);
    assert(out == match c.rule.max_lines {
        Some(m) => if m < sv.len() {
            sv.subrange(0, m as int)
        } else {
            sv
        },
        None => sv,
    });
    assert forall|k: int| 0 <= k < out.len() implies passes(c, #[trigger] out[k]) by {
        assert(out[k] == sv[k]);
    }
    if passes(c, ls[i]) {
        let j = count_passing(c, ls.subrange(0, i)) as int;
        assert(sv[j] == ls[i]);
    }
}

} // verus!
