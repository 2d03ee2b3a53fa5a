use aptu_coder::edit_overwrite::{edit_overwrite_report, OverwriteOutcome};
use aptu_coder::edit_replace::{
    build_not_found_message, edit_error_report, stale_context_error_msg, EditFailure,
    FailureCounts, IoErrorDetail, StaleContextGuard, EDIT_FAILURE_MAP_CAP, EDIT_STALE_THRESHOLD,
};

#[test]
fn build_not_found_message_empty_file() {
    let msg = build_not_found_message("", "fn foo() {}");
    assert!(msg.contains("0 matches"));
    assert!(msg.contains("analyze_file or analyze_module"));
    assert!(!msg.contains("The file begins"));
}

#[test]
fn build_not_found_message_with_content() {
    let file_content = "fn foo() {\n    let x = 1;\n}\n";
    let old_text = "fn foo()";
    let msg = build_not_found_message(file_content, old_text);
    assert!(msg.contains("The file begins"));
    assert!(msg.contains("Nearest match"));
    assert!(msg.contains("fn foo()"));
}

#[test]
fn build_not_found_message_exact_text() {
    let msg = build_not_found_message("alpha\nbeta\nbetter", "bet x");
    assert_eq!(
        msg,
        "old_text not found (0 matches).\nThe file begins:\n  Line 1: alpha\n  Line 2: beta\n  Line 3: better\n\nNearest match: line 2 contains \"beta\" which shares 3 characters with the start of old_text.\nRe-read the file with analyze_file or analyze_module to obtain the current content, then derive old_text from the live file before retrying."
    );
    // No shared character: line 1 with an empty line is reported.
    let msg = build_not_found_message("abc", "xyz");
    assert!(msg.contains("Nearest match: line 1 contains \"\" which shares 0 characters"));
}

#[test]
fn stale_context_guard_below_threshold_returns_false() {
    let mut counts = FailureCounts::new();
    let mut guard = StaleContextGuard::new(Some("session1".to_string()));
    for _ in 0..(EDIT_STALE_THRESHOLD - 1) {
        let tripped = guard.increment(&mut counts, "some/path.rs");
        assert!(!tripped);
    }
}

#[test]
fn stale_context_guard_at_threshold_trips() {
    let mut counts = FailureCounts::new();
    let mut guard = StaleContextGuard::new(Some("session1".to_string()));
    let mut tripped = false;
    for _ in 0..EDIT_STALE_THRESHOLD {
        tripped = guard.increment(&mut counts, "some/path.rs");
    }
    assert!(tripped);
}

#[test]
fn stale_context_guard_clears_at_capacity() {
    let mut counts = FailureCounts::new();
    for i in 0..EDIT_FAILURE_MAP_CAP {
        counts.set(&format!("sid{i}"), &format!("path{i}"), 1);
    }
    assert_eq!(counts.len(), EDIT_FAILURE_MAP_CAP);
    let mut guard = StaleContextGuard::new(Some("newsid".to_string()));
    let tripped = guard.increment(&mut counts, "new/path.rs");
    assert!(!tripped);
    assert_eq!(counts.len(), 1);
}

#[test]
fn reset_restarts_the_count() {
    let mut counts = FailureCounts::new();
    let mut guard = StaleContextGuard::new(None);
    for _ in 0..3 {
        guard.increment(&mut counts, "a.rs");
    }
    assert_eq!(counts.get("", "a.rs"), 3);
    guard.reset(&mut counts, "a.rs");
    assert_eq!(counts.get("", "a.rs"), 0);
    assert!(!guard.increment(&mut counts, "a.rs"));
    assert_eq!(counts.get("", "a.rs"), 1);
}

#[test]
fn sessions_count_apart() {
    let mut counts = FailureCounts::new();
    let mut a = StaleContextGuard::new(Some("a".to_string()));
    let mut b = StaleContextGuard::new(Some("b".to_string()));
    for _ in 0..4 {
        a.increment(&mut counts, "f.rs");
    }
    assert!(!b.increment(&mut counts, "f.rs"));
    assert!(a.increment(&mut counts, "f.rs"));
    assert_eq!(counts.len(), 2);
    counts.remove("a", "f.rs");
    assert_eq!(counts.len(), 1);
    counts.clear();
    assert_eq!(counts.len(), 0);
}

#[test]
fn stale_context_message_names_path() {
    let msg = stale_context_error_msg(5, "src/lib.rs");
    assert!(msg.starts_with("EDIT_STALE_CONTEXT: 5 consecutive not_found/ambiguous failures on 'src/lib.rs'"));
}

#[test]
fn error_report_trips_after_repeated_not_found() {
    let mut counts = FailureCounts::new();
    let mut guard = StaleContextGuard::new(Some("s".to_string()));
    let failure = EditFailure::NotFound {
        path: "/abs/f.rs".to_string(),
        first_20_lines: "x".to_string(),
    };
    for _ in 0..(EDIT_STALE_THRESHOLD - 1) {
        let r = edit_error_report(&failure, &mut guard, &mut counts, "f.rs", "y");
        assert_eq!(r.error_subtype, Some("not_found"));
        assert!(!r.internal);
        assert_eq!(r.error_type, "invalid_params");
        assert_eq!(r.failing_path.as_deref(), Some("/abs/f.rs"));
    }
    let r = edit_error_report(&failure, &mut guard, &mut counts, "f.rs", "y");
    assert_eq!(r.error_subtype, Some("stale_context"));
    assert_eq!(r.failing_path, None);
    assert_eq!(r.message, stale_context_error_msg(EDIT_STALE_THRESHOLD, "f.rs"));
}

#[test]
fn error_report_other_kinds() {
    let mut counts = FailureCounts::new();
    let mut guard = StaleContextGuard::new(None);
    let r = edit_error_report(
        &EditFailure::Ambiguous { count: 2, path: "p".to_string(), match_lines: vec![3, 9] },
        &mut guard,
        &mut counts,
        "p",
        "",
    );
    assert_eq!(
        r.message,
        "old_text matched 2 locations.\nOccurrences at lines: 3, 9\nExtend old_text with more surrounding context to make it unique, or re-read with analyze_file to confirm the exact text."
    );
    assert_eq!(r.error_subtype, Some("ambiguous"));
    assert_eq!(r.failing_path.as_deref(), Some("p"));
    let r = edit_error_report(&EditFailure::NotAFile, &mut guard, &mut counts, "p", "");
    assert_eq!(r.message, "path is a directory");
    assert!(!r.internal);
    assert_eq!(r.io_detail, None);
    assert_eq!(r.failing_path, None);
    let io = EditFailure::Io {
        kind: "PermissionDenied".to_string(),
        source: "Permission denied (os error 13)".to_string(),
    };
    let r = edit_error_report(&io, &mut guard, &mut counts, "p", "");
    assert!(r.internal);
    assert_eq!(r.message, "I/O error editing file; check file path and permissions");
    assert_eq!(r.category, "resource");
    assert_eq!(
        r.io_detail,
        Some(IoErrorDetail {
            path: "p".to_string(),
            kind: "PermissionDenied".to_string(),
            source: "Permission denied (os error 13)".to_string(),
        })
    );
    assert_eq!(r.error_subtype, None);
    let r = edit_error_report(
        &EditFailure::Other { message: "boom".to_string() },
        &mut guard,
        &mut counts,
        "p",
        "",
    );
    assert_eq!(r.message, "boom");
    assert_eq!(r.error_type, "internal_error");
    assert_eq!(counts.len(), 1, "only the ambiguous failure was counted");
}

#[test]
fn after_reset_the_fifth_failure_trips_again() {
    let mut counts = FailureCounts::new();
    let mut guard = StaleContextGuard::new(Some("s".to_string()));
    let mut other = StaleContextGuard::new(Some("t".to_string()));
    other.increment(&mut counts, "x.rs");
    for _ in 0..7 {
        guard.increment(&mut counts, "a.rs");
    }
    assert_eq!(counts.len(), 2);
    guard.reset(&mut counts, "a.rs");
    assert_eq!(counts.len(), 1);
    assert_eq!(counts.get("t", "x.rs"), 1);
    for _ in 0..4 {
        assert!(!guard.increment(&mut counts, "a.rs"));
    }
    assert!(guard.increment(&mut counts, "a.rs"));
    guard.reset(&mut counts, "missing.rs");
    assert_eq!(counts.len(), 2);
}

#[test]
fn overwrite_success_reports_bytes_and_resets_the_counter() {
    use_overwrite_success();
}

fn use_overwrite_success() {
    let mut counts = FailureCounts::new();
    let mut guard = StaleContextGuard::new(Some("s".to_string()));
    for _ in 0..3 {
        guard.increment(&mut counts, "/r/a.rs");
    }
    let outcome = OverwriteOutcome::Written { path: "/r/a.rs".to_string(), bytes_written: 42 };
    let r = edit_overwrite_report(&outcome, "a.rs", &mut guard, &mut counts);
    assert_eq!(r.text, "Wrote 42 bytes to /r/a.rs");
    assert!(!r.is_error && r.records_metric);
    assert_eq!(r.error_type, None);
    assert_eq!(counts.get("s", "/r/a.rs"), 0);
    assert_eq!(counts.len(), 0);
}

#[test]
fn overwrite_failures_report_their_kind() {
    let mut counts = FailureCounts::new();
    let mut guard = StaleContextGuard::new(None);
    guard.increment(&mut counts, "/r/b.rs");
    let dir = edit_overwrite_report(&OverwriteOutcome::DirectoryTarget, "b.rs", &mut guard, &mut counts);
    assert_eq!(dir.text, "path is a directory; cannot write to a directory");
    assert!(dir.is_error && !dir.internal);
    assert_eq!(dir.error_type, Some("invalid_params"));
    assert_eq!(dir.category, Some("validation"));
    let naf = edit_overwrite_report(&OverwriteOutcome::NotAFile, "b.rs", &mut guard, &mut counts);
    assert_eq!(naf.text, "path is a directory");
    let io = edit_overwrite_report(
        &OverwriteOutcome::Io { kind: "StorageFull".to_string(), source: "No space left".to_string() },
        "b.rs",
        &mut guard,
        &mut counts,
    );
    assert_eq!(
        io.io_detail,
        Some(IoErrorDetail {
            path: "b.rs".to_string(),
            kind: "StorageFull".to_string(),
            source: "No space left".to_string(),
        })
    );
    assert_eq!(dir.io_detail, None);
    assert_eq!(io.text, "I/O error writing file; check file path and permissions");
    assert!(io.internal);
    assert_eq!(io.error_type, Some("internal_error"));
    assert_eq!(io.suggested_action, Some("check file path and permissions"));
    let other = edit_overwrite_report(
        &OverwriteOutcome::Other { message: "disk full".to_string() },
        "b.rs",
        &mut guard,
        &mut counts,
    );
    assert_eq!(other.text, "disk full");
    assert_eq!(other.category, Some("resource"));
    let wd = edit_overwrite_report(&OverwriteOutcome::InvalidWorkingDir, "b.rs", &mut guard, &mut counts);
    assert_eq!(wd.text, "working_dir is not valid; provide an existing directory path");
    assert!(wd.is_error && !wd.records_metric);
    assert_eq!(counts.get("", "/r/b.rs"), 1);
}

#[test]
fn after_reset_on_a_full_counter_the_fifth_failure_trips() {
    let mut counts = FailureCounts::new();
    let mut guard = StaleContextGuard::new(Some("s".to_string()));
    for i in 0..EDIT_FAILURE_MAP_CAP {
        counts.set("o", &format!("f{i}"), 1);
    }
    counts.set("s", "a.rs", 3);
    guard.reset(&mut counts, "a.rs");
    assert_eq!(counts.len(), EDIT_FAILURE_MAP_CAP);
    for _ in 0..4 {
        assert!(!guard.increment(&mut counts, "a.rs"));
    }
    assert!(guard.increment(&mut counts, "a.rs"));
}
