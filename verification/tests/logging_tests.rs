use mqtt_workbench::logging::{format_log_line, recent_lines, LogEntry, LogManager};

#[test]
fn manager_holds_the_retention_settings() {
    let manager = LogManager::new("/tmp/logs".to_string());
    assert_eq!(manager.get_log_dir(), "/tmp/logs");
    assert_eq!(manager.max_log_files, 10);
    assert_eq!(manager.max_file_size, 5_000_000);
}

#[test]
fn rotation_threshold_is_the_configured_size() {
    let manager = LogManager::new("logs".to_string());
    assert!(!manager.needs_rotation(5_000_000));
    assert!(manager.needs_rotation(5_000_001));
}

#[test]
fn excess_files_counts_past_the_retention_limit() {
    let manager = LogManager::new("logs".to_string());
    assert_eq!(manager.excess_files(3), 0);
    assert_eq!(manager.excess_files(10), 0);
    assert_eq!(manager.excess_files(13), 3);
}

#[test]
fn log_lines_carry_the_upper_cased_kind() {
    let entry = LogEntry {
        kind: "error".to_string(),
        message: "it broke".to_string(),
        details: None,
        timestamp: "2024-01-01T00:00:00Z".to_string(),
    };
    assert_eq!(
        format_log_line(&entry),
        "[2024-01-01T00:00:00Z] [ERROR] it broke\n"
    );
}

#[test]
fn log_lines_append_details_when_present() {
    let entry = LogEntry {
        kind: "warn".to_string(),
        message: "slow".to_string(),
        details: Some("took 3s".to_string()),
        timestamp: "ts".to_string(),
    };
    assert_eq!(format_log_line(&entry), "[ts] [WARN] slow | Details: took 3s\n");
}

#[test]
fn recent_lines_keeps_the_tail_in_order() {
    let lines: Vec<String> = (1..=5).map(|i| format!("line {}", i)).collect();
    let tail = recent_lines(lines.clone(), 2);
    assert_eq!(tail, vec!["line 4".to_string(), "line 5".to_string()]);
    assert_eq!(recent_lines(lines.clone(), 10), lines);
    assert!(recent_lines(lines, 0).is_empty());
}
