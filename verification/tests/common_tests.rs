use aptu_coder::common::{
    cap_completions, level_filter_for, normalize_cursor, profile_disabled_tools, session_id_text,
    summary_cursor_conflict, validate_impl_only, validate_import_lookup, LevelFilter,
    LoggingLevel, WalkEntry, file_output_mode, OutputMode,
};

#[test]
fn common_tests_test_summary_cursor_conflict() {
    assert!(summary_cursor_conflict(Some(true), Some("cursor")));
    assert!(!summary_cursor_conflict(Some(true), None));
    assert!(!summary_cursor_conflict(None, Some("x")));
    assert!(!summary_cursor_conflict(None, None));
}

#[test]
fn summary_false_with_cursor_is_no_conflict() {
    assert!(!summary_cursor_conflict(Some(false), Some("cursor")));
}

#[test]
fn normalize_cursor_none_stays_none() {
    let result = normalize_cursor(None);
    assert_eq!(result, None);
}

#[test]
fn normalize_cursor_empty_string_becomes_none() {
    let result = normalize_cursor(Some(""));
    assert_eq!(result, None);
}

#[test]
fn normalize_cursor_non_empty_passes_through() {
    let result = normalize_cursor(Some("abc"));
    assert_eq!(result, Some("abc"));
}

#[test]
fn import_lookup_needs_a_symbol() {
    let err = validate_import_lookup(Some(true), "").unwrap_err();
    assert_eq!(
        err,
        "import_lookup=true requires symbol to contain the module path to search for"
    );
    assert!(validate_import_lookup(Some(true), "std::fmt").is_ok());
    assert!(validate_import_lookup(Some(false), "").is_ok());
    assert!(validate_import_lookup(None, "").is_ok());
}

fn entry(path: &str, is_dir: bool) -> WalkEntry {
    WalkEntry { path: path.to_string(), is_dir }
}

#[test]
fn impl_only_refuses_directories_without_rust_files() {
    let entries = vec![entry("/tmp/x", true), entry("/tmp/x/main.py", false)];
    let err = validate_impl_only(&entries).unwrap_err();
    assert!(err.contains("impl_only=true requires Rust source files"));
    assert!(validate_impl_only(&[]).is_err());
}

#[test]
fn impl_only_accepts_a_rust_file() {
    let entries = vec![entry("/tmp/x/main.py", false), entry("/tmp/x/src/lib.rs", false)];
    assert!(validate_impl_only(&entries).is_ok());
    // A directory named like a Rust file does not count.
    assert!(validate_impl_only(&[entry("/tmp/x/odd.rs", true)]).is_err());
    // A dot file has no extension.
    assert!(validate_impl_only(&[entry("/tmp/x/.rs", false)]).is_err());
}

#[test]
fn profiles_disable_tools() {
    assert_eq!(
        profile_disabled_tools(Some("edit")),
        vec!["analyze_directory", "analyze_file", "analyze_module", "analyze_symbol"]
    );
    assert_eq!(
        profile_disabled_tools(Some("analyze")),
        vec!["edit_replace", "edit_overwrite"]
    );
    assert!(profile_disabled_tools(Some("other")).is_empty());
    assert!(profile_disabled_tools(None).is_empty());
}

#[test]
fn session_id_joins_millis_and_counter() {
    assert_eq!(session_id_text(1_700_000_000_123, 7), "1700000000123-7");
    assert_eq!(session_id_text(0, 0), "0-0");
}

#[test]
fn logging_levels_map_to_filters() {
    assert_eq!(level_filter_for(LoggingLevel::Debug), LevelFilter::Debug);
    assert_eq!(level_filter_for(LoggingLevel::Info), LevelFilter::Info);
    assert_eq!(level_filter_for(LoggingLevel::Notice), LevelFilter::Info);
    assert_eq!(level_filter_for(LoggingLevel::Warning), LevelFilter::Warn);
    for l in [LoggingLevel::Error, LoggingLevel::Critical, LoggingLevel::Alert, LoggingLevel::Emergency] {
        assert_eq!(level_filter_for(l), LevelFilter::Error);
    }
}

#[test]
fn completions_are_capped_at_one_hundred() {
    let many: Vec<String> = (0..150).map(|i| format!("c{i}")).collect();
    let (values, total, has_more) = cap_completions(many);
    assert_eq!(values.len(), 100);
    assert_eq!(values[99], "c99");
    assert_eq!(total, 150);
    assert!(has_more);
    let few = vec!["a".to_string(), "b".to_string()];
    let (values, total, has_more) = cap_completions(few);
    assert_eq!(values, vec!["a".to_string(), "b".to_string()]);
    assert_eq!(total, 2);
    assert!(!has_more);
}

#[test]
fn file_output_mode_decides_summary_full_or_refusal() {
    assert_eq!(file_output_mode(Some(true), 10), OutputMode::Summary);
    assert_eq!(file_output_mode(None, 5_000), OutputMode::Full);
    assert_eq!(file_output_mode(None, 5_001), OutputMode::Summary);
    assert_eq!(file_output_mode(Some(false), 4_000), OutputMode::Full);
    assert_eq!(
        file_output_mode(Some(false), 8_000),
        OutputMode::TooLarge {
            message: "Output exceeds 50K chars (8000 chars, ~2000 tokens). Use one of:\n- Use summary=true for a compact overview\n- Use fields to limit output to specific sections (functions, classes, or imports)".to_string()
        }
    );
}
