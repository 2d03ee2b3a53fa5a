use aptu_coder::exec_runtime::{filter_command_output, plan_output_persist};
use aptu_coder::filters::{
    apply_filter, build_builtin_filter_rules, compile_filter_table, compile_rule,
    load_filter_table, maybe_inject_no_stat, select_lines, strip_ansi_chars, CompiledPattern,
    CompiledRule, FilterRule,
};
use aptu_coder::ShellOutput;

fn rule(
    match_command: &str,
    description: Option<&str>,
    strip_ansi: bool,
    strip: &[&str],
    keep: &[&str],
    max_lines: Option<usize>,
    on_empty: Option<&str>,
) -> FilterRule {
    FilterRule {
        match_command: match_command.to_string(),
        description: description.map(|d| d.to_string()),
        strip_ansi,
        strip_lines_matching: strip.iter().map(|s| s.to_string()).collect(),
        keep_lines_matching: keep.iter().map(|s| s.to_string()).collect(),
        max_lines,
        on_empty: on_empty.map(|s| s.to_string()),
    }
}

fn compiled(r: FilterRule) -> CompiledRule {
    compile_rule(r).expect("rule must compile")
}

fn strip_stat_rule() -> CompiledRule {
    compiled(rule(
        "^git\\s+pull",
        Some("test filter"),
        false,
        &["^\\s*\\|\\s*\\d+\\s*[+-]+"],
        &[],
        None,
        None,
    ))
}

fn check_strip_lines_matching() {
    let stdout = "Updating abc123..def456\n | 5 ++++\n | 3 ---\nFast-forward\n";
    let filtered = apply_filter(&strip_stat_rule(), stdout);
    assert!(!filtered.contains("| 5 ++++"), "should strip stat lines");
    assert!(!filtered.contains("| 3 ---"), "should strip stat lines");
    assert!(filtered.contains("Updating"), "should keep non-matching lines");
    assert!(filtered.contains("Fast-forward"), "should keep non-matching lines");
    assert_eq!(filtered, "Updating abc123..def456\nFast-forward");
}

#[test]
fn tests_test_filter_strip_lines_matching() {
    check_strip_lines_matching();
}

#[test]
fn filter_tests_test_filter_strip_lines_matching() {
    check_strip_lines_matching();
}

fn check_on_empty_substitution() {
    let c = compiled(rule(
        "^git\\s+fetch",
        Some("test fetch"),
        false,
        &["^From ", "^\\s+[a-f0-9]+\\.\\."],
        &[],
        None,
        Some("ok fetched"),
    ));
    let stdout = "From github.com:user/repo\n  abc123..def456 main -> origin/main\n";
    let filtered = apply_filter(&c, stdout);
    assert_eq!(filtered, "ok fetched", "should return on_empty when all lines stripped");
}

#[test]
fn tests_test_filter_on_empty_substitution() {
    check_on_empty_substitution();
}

#[test]
fn filter_tests_test_filter_on_empty_substitution() {
    check_on_empty_substitution();
}

fn check_passthrough_on_failure() {
    let table = vec![compiled(rule(
        "^cargo\\s+build",
        Some("cargo build filter"),
        false,
        &["^\\s*Compiling "],
        &[],
        None,
        None,
    ))];
    let stdout = "   Compiling mylib v0.1.0\nerror: failed to compile\n";

    let mut output = ShellOutput::new(stdout.to_string(), String::new(), String::new(), Some(1), false);
    filter_command_output(&mut output, &table, "cargo build");
    assert!(
        output.filter_applied.is_none(),
        "filter_applied should be None when exit_code != Some(0)"
    );
    assert!(
        output.stdout.contains("Compiling"),
        "stdout should be unchanged when exit_code != Some(0)"
    );

    let mut output2 = ShellOutput::new(stdout.to_string(), String::new(), String::new(), Some(0), false);
    filter_command_output(&mut output2, &table, "cargo build");
    assert!(
        output2.filter_applied.is_some(),
        "filter_applied should be set when exit_code == Some(0)"
    );
    assert_eq!(output2.filter_applied.as_ref().unwrap(), "cargo build filter");
    assert!(
        !output2.stdout.contains("Compiling"),
        "stdout should be filtered when exit_code == Some(0)"
    );
}

#[test]
fn tests_test_filter_passthrough_on_failure() {
    check_passthrough_on_failure();
}

#[test]
fn filter_tests_test_filter_passthrough_on_failure() {
    check_passthrough_on_failure();
}

#[test]
fn filter_tests_test_no_stat_injection() {
    let command = "git pull origin main";
    let result = maybe_inject_no_stat(command);
    assert_eq!(result, "git pull origin main --no-stat", "should inject --no-stat");
}

#[test]
fn filter_tests_test_no_stat_not_injected_when_present() {
    let command = "git pull --stat origin main";
    assert_eq!(maybe_inject_no_stat(command), command, "should not inject when --stat present");
    let command2 = "git pull --no-stat origin main";
    assert_eq!(
        maybe_inject_no_stat(command2),
        command2,
        "should not inject when --no-stat present"
    );
    let command3 = "git pull --verbose origin main";
    assert_eq!(
        maybe_inject_no_stat(command3),
        command3,
        "should not inject when --verbose present"
    );
}

#[test]
fn filter_tests_test_no_stat_word_boundary_cases() {
    let cases: &[(&str, &str)] = &[
        ("gitpull some-arg", "gitpull some-arg"),
        ("git log upstream/pull/123", "git log upstream/pull/123"),
        ("git pull origin main --rebase", "git pull origin main --rebase --no-stat"),
        ("git pull --no-stat", "git pull --no-stat"),
        ("git log --stat", "git log --stat"),
    ];
    for (input, expected) in cases {
        assert_eq!(maybe_inject_no_stat(input), *expected, "input: {input}");
    }
}

#[test]
fn no_stat_injection_is_idempotent_on_examples() {
    for input in ["git pull", "git pull origin main", "  git   pull  x", "ls", "git pull -v"] {
        let once = maybe_inject_no_stat(input);
        assert_eq!(maybe_inject_no_stat(&once), once, "input: {input}");
    }
}

fn check_filter_applied_field_present() {
    let c = compiled(rule(
        "^git\\s+status",
        Some("git status filter"),
        false,
        &["^On branch"],
        &[],
        Some(20),
        None,
    ));
    let stdout = "On branch main\nnothing to commit\n";
    let filtered = apply_filter(&c, stdout);
    assert!(!filtered.contains("On branch"), "apply_filter should strip matching lines");
    assert!(filtered.contains("nothing to commit"), "apply_filter should keep non-matching lines");

    let table = vec![c];
    let mut output = ShellOutput::new(stdout.to_string(), String::new(), String::new(), Some(0), false);
    filter_command_output(&mut output, &table, "git status");
    assert_eq!(output.stdout, filtered);
    assert!(output.filter_applied.is_some(), "filter_applied should be set when filter matches");
    assert_eq!(output.filter_applied.as_ref().unwrap(), "git status filter");
}

#[test]
fn tests_test_filter_applied_field_present() {
    check_filter_applied_field_present();
}

#[test]
fn filter_tests_test_filter_applied_field_present() {
    check_filter_applied_field_present();
}

fn check_keep_lines_matching() {
    let c = compiled(rule(
        "^cargo\\s+test",
        Some("test keep filter"),
        false,
        &[],
        &["^test ", "^FAILED"],
        None,
        None,
    ));
    let stdout = "   Compiling mylib v0.1.0\ntest foo::bar ... ok\ntest foo::baz ... FAILED\ntest result: FAILED\n";
    let filtered = apply_filter(&c, stdout);
    assert!(filtered.contains("test foo::bar"), "should keep test lines");
    assert!(filtered.contains("test foo::baz"), "should keep FAILED test lines");
    assert!(!filtered.contains("Compiling"), "should drop compile lines");
}

#[test]
fn tests_test_filter_keep_lines_matching() {
    check_keep_lines_matching();
}

#[test]
fn filter_tests_test_filter_keep_lines_matching() {
    check_keep_lines_matching();
}

fn check_max_lines_cap() {
    let c = compiled(rule("^git\\s+log", Some("test max lines"), false, &[], &[], Some(3), None));
    let stdout = "line1\nline2\nline3\nline4\nline5\n";
    let filtered = apply_filter(&c, stdout);
    assert_eq!(filtered.lines().count(), 3, "should cap at 3 lines");
    assert!(filtered.contains("line1"));
    assert!(filtered.contains("line3"));
    assert!(!filtered.contains("line4"), "should not include lines beyond max");
}

#[test]
fn tests_test_filter_max_lines_cap() {
    check_max_lines_cap();
}

#[test]
fn filter_tests_test_filter_max_lines_cap() {
    check_max_lines_cap();
}

fn check_git_show_strips_patch_hunks() {
    let c = compiled(rule(
        "^git\\s+show",
        None,
        true,
        &["^@@", "^[+-][^+-]"],
        &[],
        Some(200),
        None,
    ));
    let stdout = "commit abc123\n--- a/src/lib.rs\n+++ b/src/lib.rs\n@@ -1,3 +1,4 @@\n-old line\n+new line\n context line\n";
    let filtered = apply_filter(&c, stdout);
    assert!(filtered.contains("--- a/src/lib.rs"), "should keep --- file header");
    assert!(filtered.contains("+++ b/src/lib.rs"), "should keep +++ file header");
    assert!(!filtered.contains("@@ -1,3"), "should strip hunk headers");
    assert!(!filtered.contains("-old line"), "should strip removed lines");
    assert!(!filtered.contains("+new line"), "should strip added lines");
}

#[test]
fn tests_test_filter_git_show_strips_patch_hunks() {
    check_git_show_strips_patch_hunks();
}

#[test]
fn filter_tests_test_filter_git_show_strips_patch_hunks() {
    check_git_show_strips_patch_hunks();
}

fn check_on_empty_from_empty_input() {
    let c = compiled(rule(
        "^git\\s+diff",
        None,
        true,
        &[],
        &[],
        Some(100),
        Some("ok (working tree clean)"),
    ));
    assert_eq!(apply_filter(&c, ""), "ok (working tree clean)", "on_empty should fire on empty input");
}

#[test]
fn tests_test_filter_on_empty_from_empty_input() {
    check_on_empty_from_empty_input();
}

#[test]
fn filter_tests_test_filter_on_empty_from_empty_input() {
    check_on_empty_from_empty_input();
}

fn check_interleaved_with_both_streams() {
    let c = compiled(rule(
        "^git\\s+pull",
        None,
        false,
        &["^\\s*\\|\\s*\\d+\\s*[+\\-]+"],
        &[],
        None,
        None,
    ));
    let interleaved = " | 42  ++++++++++++\nFrom https://github.com/example/repo\n";
    let result = apply_filter(&c, interleaved);
    assert!(!result.contains("| 42"), "strip-matched line should be absent from filtered interleaved");
    assert!(
        result.contains("From https://github.com/example/repo"),
        "stderr-origin line should be preserved in filtered interleaved"
    );
}

#[test]
fn tests_test_filter_applied_to_interleaved_with_both_streams() {
    check_interleaved_with_both_streams();
}

#[test]
fn filter_tests_test_filter_applied_to_interleaved_with_both_streams() {
    check_interleaved_with_both_streams();
}

fn check_on_empty_in_interleaved() {
    let c = compiled(rule("^git\\s+pull", None, false, &[".*"], &[], None, Some("ok (up-to-date)")));
    let interleaved = "Already up to date.\nFrom https://github.com/example/repo\n";
    let result = apply_filter(&c, interleaved);
    assert_eq!(
        result, "ok (up-to-date)",
        "on_empty should be returned when filter strips all lines in interleaved"
    );
}

#[test]
fn tests_test_on_empty_substitution_in_interleaved() {
    check_on_empty_in_interleaved();
}

#[test]
fn filter_tests_test_on_empty_substitution_in_interleaved() {
    check_on_empty_in_interleaved();
}

fn check_line_cap_fires_before_byte_cap() {
    let stdout: String = std::iter::repeat("abcde\n".to_string()).take(2500).collect();
    assert_eq!(stdout.lines().count(), 2500, "should have 2500 lines");
    assert!(stdout.len() < 30_000, "should be under byte cap");
    let plan = plan_output_persist(stdout, String::new());
    assert!(!plan.byte_truncated, "byte cap should NOT fire (under 30k bytes)");
    assert!(plan.overflow, "stdout_path should be set when line cap fires");
    let line_count = plan.stdout.lines().count();
    assert!(line_count <= 50, "returned content should have at most 50 lines, got {}", line_count);
    assert!(line_count > 0, "returned content should not be empty");
}

#[test]
fn tests_test_line_cap_fires_before_byte_cap() {
    check_line_cap_fires_before_byte_cap();
}

#[test]
fn filter_tests_test_line_cap_fires_before_byte_cap() {
    check_line_cap_fires_before_byte_cap();
}

#[test]
fn project_rule_takes_precedence_over_builtin() {
    let builtin = vec![rule("^mytool\\b", Some("builtin"), false, &[], &[], None, None)];
    let project = vec![
        rule("^mytool\\b", Some("first project"), false, &[], &[], None, None),
        rule("^mytool\\b", Some("second project"), false, &[], &[], None, None),
        rule("(unclosed", Some("broken"), false, &[], &[], None, None),
    ];
    let table = compile_filter_table(builtin, project);
    assert_eq!(table.len(), 3, "the rule that does not compile is left out");
    let mut output = ShellOutput::new("x".to_string(), String::new(), String::new(), Some(0), false);
    filter_command_output(&mut output, &table, "mytool run");
    assert_eq!(output.filter_applied.as_deref(), Some("second project"));
}

#[test]
fn no_rule_matches_keeps_output() {
    let table = compile_filter_table(build_builtin_filter_rules(), Vec::new());
    let mut output = ShellOutput::new("a\nb".to_string(), "e".to_string(), "i".to_string(), Some(0), false);
    filter_command_output(&mut output, &table, "some-unknown-tool --flag");
    assert_eq!(output.stdout, "a\nb");
    assert_eq!(output.interleaved, "i");
    assert!(output.filter_applied.is_none());
}

#[test]
fn builtin_rules_all_compile() {
    let rules = build_builtin_filter_rules();
    let n = rules.len();
    assert!(n > 0);
    let table = compile_filter_table(rules, Vec::new());
    assert_eq!(table.len(), n);
}

#[test]
fn compiled_pattern_matches() {
    let p = CompiledPattern::new("^git\\s+pull").unwrap();
    assert!(p.is_match("git  pull origin"));
    assert!(!p.is_match("git push"));
    assert!(CompiledPattern::new("(").is_none());
    assert!(compile_rule(rule("[", None, false, &[], &[], None, None)).is_none());
}

#[test]
fn filter_with_label_falls_back_to_pattern() {
    let table = vec![compiled(rule("^echo", None, false, &[], &[], Some(1), None))];
    let mut output = ShellOutput::new("1\n2\n3".to_string(), String::new(), String::new(), Some(0), false);
    filter_command_output(&mut output, &table, "echo hi");
    assert_eq!(output.stdout, "1");
    assert_eq!(output.filter_applied.as_deref(), Some("^echo"));
}

#[test]
fn project_local_rules_come_first() {
    let project = vec![rule(
        "^my-custom-tool",
        None,
        false,
        &[],
        &[],
        None,
        Some("project-local-only-marker"),
    )];
    let rules = load_filter_table(Some((1, project)));
    let first = rules.first().expect("should have at least one rule");
    assert!(first.pattern.is_match("my-custom-tool --flag"));
    assert_eq!(first.rule.on_empty.as_deref(), Some("project-local-only-marker"));
    assert!(rules.iter().any(|r| r.pattern.is_match("git pull origin main")));
}

#[test]
fn unsupported_schema_version_keeps_builtins_only() {
    let project = vec![rule("^my-v2-tool", None, false, &[], &[], None, None)];
    let rules = load_filter_table(Some((2, project)));
    assert!(rules.iter().any(|r| r.pattern.is_match("git pull origin main")));
    assert!(!rules.iter().any(|r| r.pattern.is_match("my-v2-tool --flag")));
    let builtin_only = load_filter_table(None);
    assert_eq!(rules.len(), builtin_only.len());
}

#[test]
fn successful_output_is_filtered_on_every_stream() {
    let table = vec![compiled(rule("^cargo\\s+build", None, false, &["^\\s*Compiling "], &[], None, None))];
    let mut output = ShellOutput::new(
        "   Compiling a\nok".to_string(),
        "   Compiling b\nwarning: x".to_string(),
        "   Compiling a\n   Compiling b\nok\nwarning: x".to_string(),
        Some(0),
        false,
    );
    filter_command_output(&mut output, &table, "cargo build");
    assert_eq!(output.stdout, "ok");
    assert_eq!(output.stderr, "warning: x");
    assert_eq!(output.interleaved, "ok\nwarning: x");
}

#[test]
fn no_stat_follows_the_pull_word_anywhere_after_git() {
    assert_eq!(maybe_inject_no_stat("git -C repo pull"), "git -C repo pull --no-stat");
    assert_eq!(maybe_inject_no_stat("  git pull"), "  git pull");
    assert_eq!(maybe_inject_no_stat("git pull-request x"), "git pull-request x");
    assert_eq!(maybe_inject_no_stat("git pull --verbose"), "git pull --verbose");
}

fn builtin_rule_for(command: &str) -> CompiledRule {
    let table = load_filter_table(None);
    table
        .into_iter()
        .find(|r| r.pattern.is_match(command))
        .expect("a built-in rule should match")
}

#[test]
fn builtin_git_show_strips_hunks_and_caps_at_200() {
    let r = builtin_rule_for("git show HEAD");
    assert_eq!(r.rule.max_lines, Some(200));
    let out = apply_filter(&r, "commit abc\n--- a/x\n+++ b/x\n@@ -1 +1 @@\n-old\n+new\n ctx\n");
    assert_eq!(out, "commit abc\n--- a/x\n+++ b/x\n ctx");
    let long: String = (0..300).map(|i| format!("line {i}\n")).collect();
    assert_eq!(apply_filter(&r, &long).lines().count(), 200);
}

#[test]
fn builtin_git_commit_strips_hooks_caps_and_reports_empty() {
    let r = builtin_rule_for("git commit -m x");
    assert_eq!(r.rule.max_lines, Some(10));
    let out = apply_filter(
        &r,
        "gpg: using key ABC\n    \u{25CB}\n    \u{2502}\u{2572}\n    \u{2591}    gitleaks\n1:23PM INF no leaks found\n[main 1a2b3c] msg\n",
    );
    assert_eq!(out, "[main 1a2b3c] msg");
    assert_eq!(apply_filter(&r, "gpg: signing\n"), "ok committed");
}

#[test]
fn builtin_git_diff_strips_ansi_caps_and_reports_clean() {
    let r = builtin_rule_for("git diff");
    assert!(r.rule.strip_ansi);
    assert_eq!(r.rule.max_lines, Some(100));
    let out = apply_filter(&r, "\u{1b}[1mdiff --git a/x b/x\u{1b}[m\n\u{1b}[32m+added\u{1b}[0m\n");
    assert_eq!(out, "diff --git a/x b/x\n+added");
    assert_eq!(apply_filter(&r, ""), "ok (working tree clean)");
}

#[test]
fn builtin_git_add_caps_at_5_and_reports_staged() {
    let r = builtin_rule_for("git add .");
    assert_eq!(r.rule.max_lines, Some(5));
    assert_eq!(apply_filter(&r, ""), "ok staged");
    assert_eq!(apply_filter(&r, "1:23PM INF 1 commits scanned.\n"), "ok staged");
    assert_eq!(apply_filter(&r, "a\nb\nc\nd\ne\nf\ng\n"), "a\nb\nc\nd\ne");
}

#[test]
fn builtin_table_has_every_documented_rule() {
    let table = load_filter_table(None);
    assert_eq!(table.len(), 11);
    for c in [
        "git pull", "git fetch", "git push", "git log", "git status", "git show", "git commit",
        "git diff", "git add", "cargo build", "cargo test",
    ] {
        assert!(table.iter().any(|r| r.pattern.is_match(c)), "no rule for {c}");
    }
}

#[test]
fn ansi_sequences_are_removed() {
    let s: Vec<char> = "\u{1b}[31mred\u{1b}[0m plain \u{1b}[1;4mx\u{1b}[m".chars().collect();
    assert_eq!(strip_ansi_chars(&s).into_iter().collect::<String>(), "red plain x");
    let incomplete: Vec<char> = "a\u{1b}[12".chars().collect();
    assert_eq!(strip_ansi_chars(&incomplete).into_iter().collect::<String>(), "a\u{1b}[12");
    let lone: Vec<char> = "\u{1b}x".chars().collect();
    assert_eq!(strip_ansi_chars(&lone).into_iter().collect::<String>(), "\u{1b}x");
}

#[test]
fn ansi_is_kept_when_the_rule_does_not_ask() {
    let r = compiled(rule("^x", None, false, &[], &[], None, None));
    assert_eq!(apply_filter(&r, "\u{1b}[1mbold"), "\u{1b}[1mbold");
}

#[test]
fn select_lines_follows_the_match_results() {
    let lines: Vec<Vec<char>> = ["a", "b", "c"].iter().map(|s| s.chars().collect()).collect();
    let kept = select_lines(lines.clone(), &vec![true, false, true], true);
    assert_eq!(kept, vec![vec!['a'], vec!['c']]);
    let dropped = select_lines(lines, &vec![true, false, true], false);
    assert_eq!(dropped, vec![vec!['b']]);
}
