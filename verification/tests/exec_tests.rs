use aptu_coder::exec_command::{
    cd_path_to_check, chars_threshold_breach, command_failed, format_shell_output_phase,
    report_raw_bytes, strip_cd_prefix, timeout_configured_ms, validate_pre_spawn_phase,
    working_dir_phase, CdCheck, DirCheck, ExecCommandErrorSubtype, WorkingDirSource,
    DEFAULT_DRAIN_TIMEOUT_MS,
};
use aptu_coder::exec_runtime::{plan_output_persist, tail_text};
use aptu_coder::{ExecCommandParams, ShellOutput, SIZE_LIMIT, STDIN_MAX_BYTES};

#[test]
fn exec_tests_test_exec_stdin_size_cap_validation() {
    let oversized_stdin = "x".repeat(STDIN_MAX_BYTES + 1);
    assert!(
        oversized_stdin.len() > STDIN_MAX_BYTES,
        "test setup: oversized stdin should exceed 1 MB"
    );
    let max_stdin = "y".repeat(STDIN_MAX_BYTES);
    assert_eq!(
        max_stdin.len(),
        STDIN_MAX_BYTES,
        "test setup: max stdin should be exactly 1 MB"
    );
}

#[test]
fn exec_tests_test_exec_byte_overflow_combined_exceeds_50k() {
    let large_output = "z".repeat(60_000);
    assert!(large_output.len() > SIZE_LIMIT);

    let mut combined_truncated = false;
    let truncated = if large_output.len() > SIZE_LIMIT {
        combined_truncated = true;
        tail_text(&large_output, SIZE_LIMIT)
    } else {
        large_output.clone()
    };

    assert!(combined_truncated, "combined_truncated should be true");
    assert!(
        truncated.len() <= SIZE_LIMIT,
        "output should be truncated to <= 50k"
    );
}

#[test]
fn exec_tests_test_strip_cd_prefix_basic() {
    let (cmd, path) = strip_cd_prefix("cd /tmp && echo hello");
    assert_eq!(cmd, "echo hello");
    assert_eq!(path.as_deref(), Some("/tmp"));
}

#[test]
fn exec_tests_test_strip_cd_prefix_no_ampersand() {
    let (cmd, path) = strip_cd_prefix("cd /tmp");
    assert_eq!(cmd, "cd /tmp");
    assert_eq!(path, None);
}

#[test]
fn exec_tests_test_strip_cd_prefix_with_extra_spaces() {
    let (cmd, path) = strip_cd_prefix("cd  /tmp  &&  echo hello");
    assert_eq!(path.as_deref(), Some("/tmp"));
    assert_eq!(cmd, "echo hello");
}

#[test]
fn exec_tests_test_strip_cd_prefix_splits_on_first_ampersand_only() {
    let (cmd, path) = strip_cd_prefix("cd /a && cmd1 && cd /b && cmd2");
    assert_eq!(path.as_deref(), Some("/a"));
    assert_eq!(cmd, "cmd1 && cd /b && cmd2");
}

#[test]
fn strip_cd_prefix_edge_cases() {
    let (cmd, path) = strip_cd_prefix("cd  && ls");
    assert_eq!(cmd, "ls");
    assert_eq!(path.as_deref(), Some(""));
    let (cmd, path) = strip_cd_prefix("echo cd /tmp && ls");
    assert_eq!(cmd, "echo cd /tmp && ls");
    assert_eq!(path, None);
}

fn params(command: &str) -> ExecCommandParams {
    ExecCommandParams::new(command.to_string(), None)
}

#[test]
fn validate_working_dir_phase_not_a_directory_sets_working_dir_not_dir_subtype() {
    let result = working_dir_phase("echo hello", Some(DirCheck::NotDir), CdCheck::Unresolved);
    match result {
        Err((_, subtype)) => {
            assert_eq!(subtype, ExecCommandErrorSubtype::WorkingDirNotDir);
            assert_eq!(subtype.as_str(), "working_dir_not_dir");
        }
        Ok(_) => panic!("expected an error for a non-directory working_dir"),
    }
}

#[test]
fn validate_working_dir_phase_cd_prefix_path_missing_sets_cd_path_not_found_subtype() {
    let command = "cd /definitely-nonexistent-dir-abcxyz123 && ls";
    assert_eq!(
        cd_path_to_check(command, false).as_deref(),
        Some("/definitely-nonexistent-dir-abcxyz123")
    );
    let result = working_dir_phase(command, None, CdCheck::Unresolved);
    match result {
        Err((_, subtype)) => {
            assert_eq!(subtype, ExecCommandErrorSubtype::CdPathNotFound);
            assert_eq!(subtype.as_str(), "cd_path_not_found");
        }
        Ok(_) => panic!("expected an error for a nonexistent cd prefix path"),
    }
}

#[test]
fn validate_pre_spawn_phase_stdin_over_limit_sets_stdin_too_large_subtype() {
    let mut p = params("cat");
    p.stdin = Some("a".repeat(STDIN_MAX_BYTES + 1));
    match validate_pre_spawn_phase(&p, "cat") {
        Err((msg, subtype)) => {
            assert_eq!(subtype, ExecCommandErrorSubtype::StdinTooLarge);
            assert_eq!(subtype.as_str(), "stdin_too_large");
            assert_eq!(msg, "stdin exceeds 1 MB limit");
        }
        Ok(_) => panic!("expected an error for oversized stdin"),
    }
}

#[test]
fn working_dir_phase_outcomes() {
    // Missing explicit directory.
    let r = working_dir_phase("ls", Some(DirCheck::Missing), CdCheck::Unresolved);
    assert_eq!(r.unwrap_err().1, ExecCommandErrorSubtype::WorkingDirNotFound);
    // No cd prefix: the command runs as given.
    let r = working_dir_phase("ls -la", None, CdCheck::Unresolved).unwrap();
    assert_eq!(r, ("ls -la".to_string(), WorkingDirSource::Inherited));
    let r = working_dir_phase("ls -la", Some(DirCheck::Dir), CdCheck::Unresolved).unwrap();
    assert_eq!(r, ("ls -la".to_string(), WorkingDirSource::Explicit));
    // A plain absolute cd prefix that resolves to a directory is promoted.
    let r = working_dir_phase(
        "cd /tmp && ls",
        None,
        CdCheck::Resolved { is_dir: true, same_as_working_dir: false },
    )
    .unwrap();
    assert_eq!(r, ("ls".to_string(), WorkingDirSource::CdPrefix));
    // ... and refused when it is not a directory.
    let r = working_dir_phase(
        "cd /tmp/file && ls",
        None,
        CdCheck::Resolved { is_dir: false, same_as_working_dir: false },
    );
    let (msg, s) = r.unwrap_err();
    assert_eq!(s, ExecCommandErrorSubtype::CdPathNotDir);
    assert!(msg.starts_with("cd prefix path is not a directory"));
    // A relative cd prefix is left to the shell.
    assert_eq!(cd_path_to_check("cd src && ls", false), None);
    let r = working_dir_phase("cd src && ls", None, CdCheck::Unresolved).unwrap();
    assert_eq!(r, ("cd src && ls".to_string(), WorkingDirSource::Inherited));
    // A cd prefix equal to the explicit directory is redundant.
    let r = working_dir_phase(
        "cd /w && ls",
        Some(DirCheck::Dir),
        CdCheck::Resolved { is_dir: true, same_as_working_dir: true },
    )
    .unwrap();
    assert_eq!(r, ("ls".to_string(), WorkingDirSource::Explicit));
    // `git pull` gets --no-stat.
    let r = working_dir_phase("git pull origin main", None, CdCheck::Unresolved).unwrap();
    assert_eq!(r.0, "git pull origin main --no-stat");
}

#[test]
fn pre_spawn_drain_timeouts() {
    let mut p = params("ls");
    assert_eq!(validate_pre_spawn_phase(&p, "ls"), Ok(DEFAULT_DRAIN_TIMEOUT_MS));
    p.drain_timeout_secs = Some(0);
    assert_eq!(validate_pre_spawn_phase(&p, "ls"), Ok(DEFAULT_DRAIN_TIMEOUT_MS));
    p.drain_timeout_secs = Some(3);
    assert_eq!(validate_pre_spawn_phase(&p, "ls"), Ok(3));
    p.drain_timeout_secs = Some(-1);
    let (msg, s) = validate_pre_spawn_phase(&p, "ls").unwrap_err();
    assert_eq!(s, ExecCommandErrorSubtype::DrainTimeoutInvalid);
    assert_eq!(msg, "drain_timeout_secs must be >= 0");
}

#[test]
fn pre_spawn_heredoc_refusal() {
    let p = params("tee out.txt <<EOF\nx\nEOF\n");
    let (_, s) = validate_pre_spawn_phase(&p, "tee out.txt <<EOF\nx\nEOF\n").unwrap_err();
    assert_eq!(s, ExecCommandErrorSubtype::HeredocError);
    let mut p = params("cat");
    p.stdin = Some("y".repeat(STDIN_MAX_BYTES));
    assert!(validate_pre_spawn_phase(&p, "cat").is_ok());
}

fn shell_output(stdout: &str, stderr: &str, interleaved: &str, exit: Option<i32>) -> ShellOutput {
    ShellOutput::new(
        stdout.to_string(),
        stderr.to_string(),
        interleaved.to_string(),
        exit,
        true,
    )
}

#[test]
fn test_format_shell_output_stdout_path_hint() {
    let mut output = shell_output("hello", "", "", Some(0));
    output.stdout_path = Some("/tmp/aptu-coder-overflow/slot-0/stdout".to_string());
    let p = params("echo hello");
    let result = format_shell_output_phase(&output, &p);
    assert!(
        result.contains("Full output available at: /tmp/aptu-coder-overflow/slot-0/stdout"),
        "should contain stdout path hint: {result}"
    );
    assert!(
        !result.contains("Full stderr available at:"),
        "should not contain stderr hint when stderr_path is None"
    );
}

#[test]
fn test_format_shell_output_stderr_path_hint() {
    let mut output = shell_output("", "error", "", Some(1));
    output.stderr_path = Some("/tmp/aptu-coder-overflow/slot-1/stderr".to_string());
    let p = params("false");
    let result = format_shell_output_phase(&output, &p);
    assert!(
        result.contains("Full stderr available at: /tmp/aptu-coder-overflow/slot-1/stderr"),
        "should contain stderr path hint: {result}"
    );
    assert!(
        !result.contains("Full output available at:"),
        "should not contain stdout hint when stdout_path is None"
    );
}

#[test]
fn test_format_shell_output_interleaved_path_hint() {
    let mut output = shell_output("", "", "output", Some(0));
    output.interleaved_path = Some("/tmp/aptu-coder-overflow/slot-2/interleaved".to_string());
    let p = params("echo test");
    let result = format_shell_output_phase(&output, &p);
    assert!(
        result.contains("Full output available at: /tmp/aptu-coder-overflow/slot-2/interleaved"),
        "should contain interleaved path hint: {result}"
    );
}

#[test]
fn format_shell_output_exact_text() {
    let output = ShellOutput::new("out".to_string(), "err".to_string(), String::new(), Some(-2), false);
    let text = format_shell_output_phase(&output, &params("run"));
    assert_eq!(
        text,
        "Command: run\nExit code: -2\nOutput truncated: false\nStdout:\nout\n\nStderr:\nerr"
    );
    let output = ShellOutput::new(String::new(), String::new(), "both".to_string(), None, true);
    let text = format_shell_output_phase(&output, &params("run"));
    assert_eq!(text, "Command: run\nExit code: null\nOutput truncated: true\nOutput:\nboth");
}

#[test]
fn exec_command_error_subtype_as_str_golden_list() {
    for subtype in [
        ExecCommandErrorSubtype::WorkingDirNotDir,
        ExecCommandErrorSubtype::WorkingDirNotFound,
        ExecCommandErrorSubtype::CdPathNotDir,
        ExecCommandErrorSubtype::CdPathNotFound,
        ExecCommandErrorSubtype::StdinTooLarge,
        ExecCommandErrorSubtype::HeredocError,
        ExecCommandErrorSubtype::DrainTimeoutInvalid,
    ] {
        let expected = match subtype {
            ExecCommandErrorSubtype::WorkingDirNotDir => "working_dir_not_dir",
            ExecCommandErrorSubtype::WorkingDirNotFound => "working_dir_not_found",
            ExecCommandErrorSubtype::CdPathNotDir => "cd_path_not_dir",
            ExecCommandErrorSubtype::CdPathNotFound => "cd_path_not_found",
            ExecCommandErrorSubtype::StdinTooLarge => "stdin_too_large",
            ExecCommandErrorSubtype::HeredocError => "heredoc_error",
            ExecCommandErrorSubtype::DrainTimeoutInvalid => "drain_timeout_invalid",
        };
        assert_eq!(subtype.as_str(), expected);
    }
}

#[test]
fn tests_test_exec_no_truncation_under_limits() {
    let plan = plan_output_persist("hello world".to_string(), "no errors".to_string());
    assert!(!plan.overflow);
    assert_eq!(plan.stdout, "hello world");
    assert_eq!(plan.stderr, "no errors");
    assert!(!plan.byte_truncated);
}

#[test]
fn exec_tests_test_exec_no_truncation_under_limits() {
    let plan = plan_output_persist("hello world".to_string(), "no errors".to_string());
    assert_eq!(plan.stdout, "hello world");
    assert_eq!(plan.stderr, "no errors");
    assert!(!plan.overflow, "nothing is persisted");
    assert!(!plan.byte_truncated);
}

#[test]
fn stdout_over_byte_limit_is_persisted_and_tailed() {
    let plan = plan_output_persist("x".repeat(35_000), "small".to_string());
    assert!(plan.byte_truncated, "byte_truncated should be true");
    assert!(plan.overflow, "both streams are persisted");
    assert!(plan.stdout.len() <= 30_000, "stdout should be truncated to <= 30k");
    assert_eq!(plan.stdout, "x".repeat(30_000));
    assert_eq!(plan.stderr, "small", "stderr should be unchanged");
}

#[test]
fn stderr_over_byte_limit_is_persisted_and_tailed() {
    let plan = plan_output_persist("small".to_string(), "y".repeat(15_000));
    assert!(plan.byte_truncated);
    assert!(plan.overflow);
    assert_eq!(plan.stdout, "small", "stdout should be unchanged");
    assert!(plan.stderr.len() <= 10_000, "stderr should be truncated to <= 10k");
}

fn padded_lines() -> String {
    let lines: Vec<String> = (0..1500)
        .map(|i| format!("line {} with some padding to make it longer: {}", i, "x".repeat(15)))
        .collect();
    lines.join("\n")
}

#[test]
fn tests_test_exec_line_and_byte_interaction() {
    let stdout = padded_lines();
    assert!(stdout.lines().count() <= 2000, "should have <= 2000 lines");
    assert!(stdout.len() > 30_000, "should exceed 30k bytes");
    let plan = plan_output_persist(stdout, String::new());
    assert!(plan.byte_truncated, "byte_truncated should be true");
    assert!(plan.overflow, "stdout_path should be set");
    assert!(plan.stdout.len() <= 30_000, "stdout should be truncated by byte cap");
}

#[test]
fn exec_tests_test_exec_line_and_byte_interaction() {
    let stdout = padded_lines();
    assert!(stdout.lines().count() <= 2000, "should have <= 2000 lines");
    assert!(stdout.len() > 30_000, "should exceed 30k bytes");
    let plan = plan_output_persist(stdout, String::new());
    assert!(plan.byte_truncated, "byte_truncated should be true");
    assert!(plan.overflow, "stdout_path should be set");
    assert!(plan.stdout.len() <= 30_000, "stdout should be truncated by byte cap");
}

fn greeting_with_japanese() -> String {
    let mut stdout = String::new();
    for _ in 0..4000 {
        stdout.push_str("hello world ");
    }
    stdout.push_str("こんにちは");
    stdout
}

#[test]
fn tests_test_exec_utf8_boundary_safety() {
    let stdout = greeting_with_japanese();
    assert!(stdout.len() > 30_000, "stdout should exceed 30k bytes");
    let plan = plan_output_persist(stdout, String::new());
    assert!(plan.byte_truncated, "byte_truncated should be true");
    assert!(plan.stdout.is_char_boundary(0), "start should be char boundary");
    assert!(plan.stdout.is_char_boundary(plan.stdout.len()), "end should be char boundary");
    let _char_count = plan.stdout.chars().count();
}

#[test]
fn exec_tests_test_exec_utf8_boundary_safety() {
    let stdout = greeting_with_japanese();
    assert!(stdout.len() > 30_000, "stdout should exceed 30k bytes");
    let plan = plan_output_persist(stdout, String::new());
    assert!(plan.byte_truncated, "byte_truncated should be true");
    assert!(plan.stdout.ends_with("こんにちは"));
    assert!(plan.stdout.len() <= 30_000);
}

#[test]
fn tail_text_starts_on_a_char_boundary() {
    // "é" is two bytes: a cut in its middle moves left to its start.
    assert_eq!(tail_text("aéb", 2), "éb");
    assert_eq!(tail_text("aéb", 1), "b");
    assert_eq!(tail_text("abc", 10), "abc");
    assert_eq!(tail_text("abc", 0), "");
}

#[test]
fn run_outcome_helpers() {
    assert_eq!(timeout_configured_ms(None), None);
    assert_eq!(timeout_configured_ms(Some(2)), Some(2_000));
    assert!(command_failed(Some(1)));
    assert!(!command_failed(None));
    assert!(!command_failed(Some(0)));
    assert!(chars_threshold_breach(30_001));
    assert!(!chars_threshold_breach(30_000));
    let quiet = ShellOutput::new(String::new(), String::new(), String::new(), Some(0), false);
    assert!(!report_raw_bytes(&quiet));
}
