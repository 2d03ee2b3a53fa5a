use aptu_coder::exec_runtime::{
    assemble_streams, choose_shell, effective_timeout, execution_result, interleaved_overflow_preview,
    DrainBudget, DrainOutcome, MAX_DRAIN_STDERR_BYTES, MAX_DRAIN_STDOUT_BYTES, MAX_STREAM_BYTES,
    shape_output, INTERLEAVED_MAX_BYTES,
};

#[test]
fn drain_budget_holds_back_lines_past_the_limit() {
    let mut b = DrainBudget::new();
    assert!(b.record_line(false, MAX_DRAIN_STDOUT_BYTES - 1));
    assert_eq!(b.stdout_bytes, MAX_DRAIN_STDOUT_BYTES);
    assert!(!b.budget_hit);
    assert!(!b.record_line(false, 0));
    assert!(b.budget_hit);
    assert_eq!(b.stdout_bytes, MAX_DRAIN_STDOUT_BYTES);
    assert_eq!(b.raw_stdout, MAX_DRAIN_STDOUT_BYTES + 1);
    // The stderr budget is separate.
    assert!(b.record_line(true, 9));
    assert_eq!(b.stderr_bytes, 10);
    assert!(!b.record_line(true, MAX_DRAIN_STDERR_BYTES));
    assert_eq!(b.raw_stderr, 10 + MAX_DRAIN_STDERR_BYTES + 1);
}

#[test]
fn drain_budget_raw_counters_saturate() {
    let mut b = DrainBudget::new();
    b.raw_stdout = usize::MAX - 1;
    assert!(!b.record_line(false, usize::MAX - 1));
    assert_eq!(b.raw_stdout, usize::MAX);
}

#[test]
fn timeouts() {
    assert_eq!(effective_timeout(None), None);
    assert_eq!(effective_timeout(Some(0)), None);
    assert_eq!(effective_timeout(Some(-3)), None);
    assert_eq!(effective_timeout(Some(7)), Some(7));
}

#[test]
fn execution_results() {
    let r = execution_result(
        Some(0),
        false,
        DrainOutcome::Finished { budget_hit: true, raw_stdout: 40_000, raw_stderr: 3 },
    );
    assert_eq!(r.exit_code, Some(0));
    assert!(r.byte_truncated);
    assert!(!r.output_truncated);
    assert_eq!((r.raw_stdout_bytes, r.raw_stderr_bytes), (40_000, 3));
    assert_eq!(r.output_collection_error, None);

    let r = execution_result(None, false, DrainOutcome::TimedOut);
    assert!(r.output_truncated);
    assert_eq!(
        r.output_collection_error.as_deref(),
        Some("post-exit drain timeout: background process held pipes")
    );

    // A command killed for its timeout reports zero raw counters.
    let r = execution_result(
        None,
        true,
        DrainOutcome::Finished { budget_hit: true, raw_stdout: 9, raw_stderr: 9 },
    );
    assert!(r.timed_out);
    assert!(!r.byte_truncated);
    assert_eq!((r.raw_stdout_bytes, r.raw_stderr_bytes), (0, 0));

    let r = execution_result(Some(1), false, DrainOutcome::Panicked);
    assert!(!r.output_truncated && !r.byte_truncated);
}

#[test]
fn streams_are_assembled_in_order() {
    let lines = vec![
        (false, "out1".to_string()),
        (true, "err1".to_string()),
        (false, "out2".to_string()),
    ];
    let (stdout, stderr, interleaved) = assemble_streams(&lines);
    assert_eq!(stdout, "out1\nout2\n");
    assert_eq!(stderr, "err1\n");
    assert_eq!(interleaved, "out1\nerr1\nout2\n");
}

#[test]
fn streams_stop_growing_past_their_limit() {
    let big = "x".repeat(MAX_STREAM_BYTES);
    let lines = vec![(false, big.clone()), (false, "late".to_string()), (true, "e".to_string())];
    let (stdout, stderr, interleaved) = assemble_streams(&lines);
    assert_eq!(stdout.len(), MAX_STREAM_BYTES + 1);
    assert!(!stdout.contains("late"));
    assert_eq!(stderr, "e\n");
    assert!(interleaved.ends_with("late\ne\n"));
}

#[test]
fn interleaved_preview() {
    assert_eq!(interleaved_overflow_preview("short", 10), None);
    assert_eq!(interleaved_overflow_preview("0123456789abc", 3), Some("abc".to_string()));
}

#[test]
fn shell_choice_precedence() {
    assert_eq!(choose_shell(Some("zsh".to_string()), true), "zsh");
    assert_eq!(choose_shell(Some(String::new()), true), "");
    assert_eq!(choose_shell(None, true), "bash");
    assert_eq!(choose_shell(None, false), "/bin/sh");
}

#[test]
fn output_is_truncated_exactly_when_a_cap_fires() {
    let small = shape_output("a\nb".to_string(), "e".to_string(), "a\ne\nb", false, false);
    assert!(!small.output_truncated);
    assert!(!small.plan.overflow);
    assert!(small.interleaved_preview.is_none());
    assert!(shape_output("a".to_string(), String::new(), "a", true, false).output_truncated);
    assert!(shape_output("a".to_string(), String::new(), "a", false, true).output_truncated);
    let big_stdout = "x".repeat(30_001);
    let s = shape_output(big_stdout.clone(), String::new(), &big_stdout, false, false);
    assert!(s.output_truncated && s.plan.overflow && s.plan.byte_truncated);
    let many_lines = "l\n".repeat(2_001);
    let s = shape_output(String::new(), many_lines.clone(), &many_lines, false, false);
    assert!(s.output_truncated && s.plan.overflow && !s.plan.byte_truncated);
    let big_interleaved = "i".repeat(INTERLEAVED_MAX_BYTES + 1);
    let s = shape_output(String::new(), String::new(), &big_interleaved, false, false);
    assert!(s.output_truncated && !s.plan.overflow);
    assert_eq!(s.interleaved_preview.map(|p| p.len()), Some(INTERLEAVED_MAX_BYTES));
    assert_eq!(INTERLEAVED_MAX_BYTES, 50_000);
}
