use eventsum::type_summary::{EventSummary, LogRecord};

fn record(event_type: &str, timestamp: &str, level: &str, message: &str) -> LogRecord {
    LogRecord {
        event_type: Some(event_type.to_string()),
        timestamp: Some(timestamp.to_string()),
        level: Some(level.to_string()),
        message: Some(message.to_string()),
    }
}

#[test]
fn test_event_summary() {
    let mut summary = EventSummary::new();
    let event1 = record("login", "2026-01-22T07:00:00Z", "info", "User logged in");
    let event2 = record("login", "2026-01-22T07:05:00Z", "info", "User logged in");
    let event3 = record("error", "2026-01-22T07:10:00Z", "error", "Error occurred");
    summary.add_event(&event1);
    summary.add_event(&event2);
    summary.add_event(&event3);
    assert_eq!(summary.total_events(), 3);
    assert_eq!(summary.type_count("login"), 2);
    assert_eq!(summary.type_count("error"), 1);
    assert_eq!(summary.level_count("info"), 2);
    assert_eq!(summary.level_count("error"), 1);
}

#[test]
fn records_without_type_or_level_still_count() {
    let mut summary = EventSummary::new();
    summary.add_event(&LogRecord { event_type: None, timestamp: None, level: None, message: None });
    summary.add_event(&record("a", "t", "warn", "m"));
    assert_eq!(summary.total_events(), 2);
    assert_eq!(summary.type_count("a"), 1);
    assert_eq!(summary.type_count("missing"), 0);
    assert_eq!(summary.level_count("warn"), 1);
}

#[test]
fn lists_are_ordered_by_count() {
    let mut summary = EventSummary::new();
    for t in ["x", "y", "y", "z", "y", "z"] {
        summary.add_event(&record(t, "t", "info", "m"));
    }
    let types: Vec<(String, usize)> = summary.types_by_count().into_iter().map(|n| (n.name, n.count)).collect();
    assert_eq!(types, vec![("y".to_string(), 3), ("z".to_string(), 2), ("x".to_string(), 1)]);
    let levels = summary.levels_by_count();
    assert_eq!(levels.len(), 1);
    assert_eq!(levels[0].count, 6);
}

#[test]
fn new_summary_has_no_entries() {
    let summary = EventSummary::new();
    assert_eq!(summary.total_events(), 0);
    assert!(summary.types_by_count().is_empty());
    assert!(summary.levels_by_count().is_empty());
}
