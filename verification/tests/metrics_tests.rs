use aptu_coder::metrics::{
    current_date_str, date_str_from_days, date_str_from_millis, day_of_epoch_millis, epoch_millis_u64, LAST_DATE_DAY, date_to_days_since_epoch, legacy_migration,
    metrics_dir_path, metrics_file_expired, path_component_count, path_file_ext, path_language,
    summary_totals, CacheTier, LegacyMigration, MetricEvent, MetricEventBuilder, ToolTally,
};

#[test]
fn test_date_to_days_since_epoch_known_dates() {
    assert_eq!(date_to_days_since_epoch(1970, 1, 1), 0);
    assert_eq!(date_to_days_since_epoch(2020, 1, 1), 18_262);
    assert_eq!(date_to_days_since_epoch(2000, 2, 29), 11_016);
}

#[test]
fn test_current_date_str_format() {
    let s = current_date_str();
    assert_eq!(s.len(), 10);
    assert_eq!(s.as_bytes()[4], b'-');
    assert_eq!(s.as_bytes()[7], b'-');
    let year: u32 = s[0..4].parse().expect("year must be numeric");
    assert!(year >= 2020 && year <= 2100);
}

#[test]
fn test_path_file_ext_known() {
    assert_eq!(path_file_ext("src/main.rs"), Some("rs"));
}

#[test]
fn test_path_file_ext_unknown() {
    assert_eq!(path_file_ext("file.xyz"), Some("other"));
}

#[test]
fn test_path_file_ext_no_ext() {
    assert_eq!(path_file_ext("Makefile"), None);
}

#[test]
fn test_path_file_ext_case_insensitive() {
    assert_eq!(path_file_ext("src/main.RS"), Some("rs"));
}

#[test]
fn test_path_file_ext_multi_dot() {
    assert_eq!(path_file_ext("file.test.rs"), Some("rs"));
}

#[test]
fn test_path_language_known_ext() {
    assert_eq!(path_language("src/main.rs"), Some("rust".to_string()));
}

#[test]
fn test_path_language_unknown_ext() {
    assert_eq!(path_language("file.xyz"), None);
}

#[test]
fn test_path_language_no_ext() {
    assert_eq!(path_language("Makefile"), None);
}

#[test]
fn path_file_ext_edge_cases() {
    assert_eq!(path_file_ext(".bashrc"), None);
    assert_eq!(path_file_ext("file."), None);
    assert_eq!(path_file_ext("dir.rs/"), Some("rs"));
    assert_eq!(path_file_ext("a/.."), None);
    assert_eq!(path_file_ext("lib.TSX"), Some("tsx"));
    assert_eq!(path_language("x.hpp"), Some("cpp".to_string()));
}

#[test]
fn path_component_count_cases() {
    assert_eq!(path_component_count(""), 0);
    assert_eq!(path_component_count("src/main.rs"), 2);
    assert_eq!(path_component_count("/a/b"), 3);
    assert_eq!(path_component_count("./a//b/."), 3);
    assert_eq!(path_component_count("a/./b"), 2);
    assert_eq!(path_component_count("/"), 1);
}

#[test]
fn date_round_trip_and_formatting() {
    // the date of day n counts back to n
    for (y, m, d) in [(1970u32, 1u32, 1u32), (2000, 2, 29), (2024, 12, 31), (2100, 3, 1)] {
        let n = date_to_days_since_epoch(y, m, d);
        let s = date_str_from_days(n);
        assert_eq!(s, format!("{y:04}-{m:02}-{d:02}"));
    }
    assert_eq!(date_str_from_days(0), "1970-01-01");
    assert_eq!(date_str_from_days(18_262), "2020-01-01");
    // dates before the epoch clamp to day 0
    assert_eq!(date_to_days_since_epoch(1969, 12, 31), 0);
}

#[test]
fn metrics_file_expiry() {
    let now = date_to_days_since_epoch(2024, 3, 1);
    assert!(metrics_file_expired("metrics-2024-01-01.jsonl", now));
    assert!(!metrics_file_expired("metrics-2024-02-15.jsonl", now));
    assert!(metrics_file_expired("metrics-2024-01-01.JSONL", now));
    assert!(!metrics_file_expired("metrics-2024-01-01.json", now));
    assert!(!metrics_file_expired("other-2024-01-01.jsonl", now));
    assert!(!metrics_file_expired("metrics-2024-13-01.jsonl", now));
    assert!(!metrics_file_expired("metrics-24-01-01.jsonl", now));
    assert!(!metrics_file_expired("metrics-0000-01-15.jsonl", now));
}

#[test]
fn cache_tier_labels() {
    assert_eq!(CacheTier::L1Memory.as_str(), "l1_memory");
    assert_eq!(CacheTier::L2Disk.as_str(), "l2_disk");
    assert_eq!(CacheTier::Miss.as_str(), "miss");
}

#[test]
fn builder_sets_fields() {
    let e = MetricEventBuilder::new("exec_command", "ok", 12)
        .output_chars(40)
        .exit_code(Some(0))
        .session_id(Some("s1".to_string()))
        .seq(Some(3))
        .working_dir_used(true)
        .build();
    assert_eq!(e.tool, "exec_command");
    assert_eq!(e.result, "ok");
    assert_eq!(e.duration_ms, 12);
    assert_eq!(e.output_chars, 40);
    assert_eq!(e.exit_code, Some(0));
    assert_eq!(e.session_id.as_deref(), Some("s1"));
    assert_eq!(e.seq, Some(3));
    assert!(e.working_dir_used);
    assert!(e.ts > 0);
    assert!(!e.timed_out);
    assert_eq!(e.error_type, None);
}

#[test]
fn tally_accumulates_per_tool() {
    let mut t = ToolTally::new();
    let mut e = MetricEvent::default();
    e.tool = "analyze_file";
    e.duration_ms = 5;
    e.output_chars = 100;
    t.accumulate_event(&e);
    e.session_id = Some("sess".to_string());
    t.accumulate_event(&e);
    let mut f = MetricEvent::default();
    f.tool = "exec_command";
    f.duration_ms = 1;
    f.session_id = Some("other".to_string());
    t.accumulate_event(&f);
    let entries = t.entries();
    assert_eq!(entries.len(), 2);
    let a = entries.iter().find(|(n, _)| n == "analyze_file").unwrap().1;
    assert_eq!((a.count, a.duration_ms, a.output_chars), (2, 10, 200));
    let b = entries.iter().find(|(n, _)| n == "exec_command").unwrap().1;
    assert_eq!(b.count, 1);
    assert_eq!(t.session_id().as_deref(), Some("sess"));
}

fn threshold_event(output_chars: usize) -> MetricEvent {
    MetricEvent {
        ts: 0,
        tool: "exec_command",
        duration_ms: 1,
        output_chars,
        param_path_depth: 0,
        max_depth: None,
        result: "ok",
        error_type: None,
        error_subtype: None,
        session_id: None,
        seq: None,
        cache_hit: None,
        cache_write_failure: None,
        cache_tier: None,
        exit_code: None,
        timed_out: false,
        output_truncated: None,
        chars_threshold_breach: output_chars > 30_000,
        file_ext: None,
        filter_applied: None,
        language: None,
        ..Default::default()
    }
}

#[test]
fn metrics_tests_test_metric_chars_threshold_breach_fires() {
    let event = threshold_event(35_000);
    assert!(
        event.chars_threshold_breach,
        "chars_threshold_breach should be true for output_chars=35000"
    );
}

#[test]
fn metrics_tests_test_metric_chars_threshold_breach_no_fire() {
    let event = threshold_event(5_000);
    assert!(
        !event.chars_threshold_breach,
        "chars_threshold_breach should be false for output_chars=5000"
    );
}

#[test]
fn metrics_tests_test_analyze_symbol_cache_fields_use_cache_tier_enum() {
    assert_eq!(CacheTier::Miss.as_str(), "miss");
    assert!(!matches!(CacheTier::Miss, CacheTier::L1Memory | CacheTier::L2Disk));
}

#[test]
fn metrics_dir_precedence() {
    assert_eq!(
        metrics_dir_path(Some("/data".to_string()), Some("/home/u".to_string())),
        "/data/aptu-coder"
    );
    assert_eq!(metrics_dir_path(Some("/data/".to_string()), None), "/data/aptu-coder");
    assert_eq!(
        metrics_dir_path(Some(String::new()), Some("/home/u".to_string())),
        "/home/u/.local/share/aptu-coder"
    );
    assert_eq!(metrics_dir_path(None, Some(String::new())), ".local/share/aptu-coder");
    assert_eq!(metrics_dir_path(None, None), ".");
}

#[test]
fn session_summary_rows_are_sorted_and_totalled() {
    let mut t = ToolTally::new();
    for (tool, d, o) in [
        ("exec_command", 5u64, 10usize),
        ("analyze_file", 1, 2),
        ("edit_replace", 7, 0),
        ("analyze_file", 3, 4),
    ] {
        let mut e = MetricEvent::default();
        e.tool = tool;
        e.duration_ms = d;
        e.output_chars = o;
        t.accumulate_event(&e);
    }
    let rows = t.sorted_entries();
    let names: Vec<&str> = rows.iter().map(|(n, _)| n.as_str()).collect();
    assert_eq!(names, vec!["analyze_file", "edit_replace", "exec_command"]);
    assert_eq!(rows[0].1.count, 2);
    assert_eq!(summary_totals(&rows), (16, 16));
}

#[test]
fn legacy_directory_migration() {
    assert_eq!(legacy_migration(true, false), LegacyMigration::Rename);
    assert_eq!(legacy_migration(true, true), LegacyMigration::BothExist);
    assert_eq!(legacy_migration(false, true), LegacyMigration::Nothing);
    assert_eq!(legacy_migration(false, false), LegacyMigration::Nothing);
}

#[test]
fn epoch_millis_conversion_clamps() {
    assert_eq!(epoch_millis_u64(None), 0);
    assert_eq!(epoch_millis_u64(Some(1_700_000_000_123)), 1_700_000_000_123);
    assert_eq!(epoch_millis_u64(Some(u64::MAX as u128)), u64::MAX);
    assert_eq!(epoch_millis_u64(Some(u64::MAX as u128 + 1)), u64::MAX);
}

#[test]
fn date_text_reads_back_as_its_day() {
    for days in [0u32, 1, 59, 60, 11_016, 18_262, 20_000, 2_932_896] {
        let s = date_str_from_days(days);
        assert_eq!(s.len(), 10, "{s}");
        assert_eq!(&s[4..5], "-");
        assert_eq!(&s[7..8], "-");
        let y: u32 = s[0..4].parse().unwrap();
        let m: u32 = s[5..7].parse().unwrap();
        let d: u32 = s[8..10].parse().unwrap();
        assert!((1..=12).contains(&m) && (1..=31).contains(&d));
        assert_eq!(date_to_days_since_epoch(y, m, d), days, "{s}");
    }
    assert_eq!(date_str_from_days(2_932_896), "9999-12-31");
}

#[test]
fn millis_fall_on_whole_utc_days() {
    assert_eq!(day_of_epoch_millis(0), 0);
    assert_eq!(day_of_epoch_millis(86_399_999), 0);
    assert_eq!(day_of_epoch_millis(86_400_000), 1);
    assert_eq!(day_of_epoch_millis(1_577_836_800_000), 18_262);
    assert_eq!(day_of_epoch_millis(u64::MAX), LAST_DATE_DAY);
    assert_eq!(LAST_DATE_DAY, u32::MAX - 719_468);
    assert_eq!(date_str_from_millis(1_577_836_800_000), "2020-01-01");
    assert_eq!(date_str_from_millis(1_577_836_799_999), "2019-12-31");
    assert_eq!(date_str_from_millis(951_782_400_000), "2000-02-29");
}
